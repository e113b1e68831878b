//! Detailed timing model: the [`DetailedTiming`] type, DTD field limits, and
//! the PC/HDTV preset tables.
use vstd::prelude::*;
use crate::error::{DtdError, DtdField};

verus! {

/// A complete progressive display timing, as held in an EDID DTD.
///
/// The refresh rate is held in milli-hertz so that the timing model stays
/// exact integer data.
#[derive(Clone, Copy, Debug, PartialEq, Eq)]
pub struct DetailedTiming {
    /// Horizontal active pixels.
    pub h_active: u32,
    /// Vertical active lines.
    pub v_active: u32,
    /// Horizontal front porch (pixels).
    pub h_front: u32,
    /// Horizontal sync pulse width (pixels).
    pub h_sync: u32,
    /// Horizontal back porch (pixels).
    pub h_back: u32,
    /// Vertical front porch (lines).
    pub v_front: u32,
    /// Vertical sync pulse width (lines).
    pub v_sync: u32,
    /// Vertical back porch (lines).
    pub v_back: u32,
    /// Horizontal border in pixels (DTD byte 15); blanking includes 2x this.
    pub h_border: u32,
    /// Vertical border in lines (DTD byte 16); blanking includes 2x this.
    pub v_border: u32,
    /// Pixel clock in kHz.
    pub pixel_clock_khz: u32,
    /// Horizontal sync polarity (`true` = positive).
    pub h_pol: bool,
    /// Vertical sync polarity (`true` = positive).
    pub v_pol: bool,
    /// Refresh rate in milli-hertz.
    pub v_rate_millihz: u64,
}

/// Horizontal blanking of a timing: porches, sync and both borders.
pub open spec fn spec_h_blank(t: DetailedTiming) -> int {
    t.h_front + t.h_sync + t.h_back + 2 * t.h_border
}

/// Vertical blanking of a timing: porches, sync and both borders.
pub open spec fn spec_v_blank(t: DetailedTiming) -> int {
    t.v_front + t.v_sync + t.v_back + 2 * t.v_border
}

/// The first field check that a timing fails, in the order the DTD
/// validator performs them, or `None` when every DTD field is representable.
pub open spec fn spec_dtd_error(t: DetailedTiming) -> Option<DtdError> {
    if t.h_active == 0 {
        Some(DtdError::InvalidField { field: DtdField::HorizontalActive, value: t.h_active })
    } else if t.h_active > 4095 {
        Some(DtdError::FieldOutOfRange { field: DtdField::HorizontalActive, value: t.h_active, max: 4095 })
    } else if t.v_active == 0 {
        Some(DtdError::InvalidField { field: DtdField::VerticalActive, value: t.v_active })
    } else if t.v_active > 4095 {
        Some(DtdError::FieldOutOfRange { field: DtdField::VerticalActive, value: t.v_active, max: 4095 })
    } else if t.h_front > 1023 {
        Some(DtdError::FieldOutOfRange { field: DtdField::HorizontalFrontPorch, value: t.h_front, max: 1023 })
    } else if t.h_sync > 1023 {
        Some(DtdError::FieldOutOfRange { field: DtdField::HorizontalSync, value: t.h_sync, max: 1023 })
    } else if t.v_front > 63 {
        Some(DtdError::FieldOutOfRange { field: DtdField::VerticalFrontPorch, value: t.v_front, max: 63 })
    } else if t.v_sync > 63 {
        Some(DtdError::FieldOutOfRange { field: DtdField::VerticalSync, value: t.v_sync, max: 63 })
    } else if t.h_border > 255 {
        Some(DtdError::FieldOutOfRange { field: DtdField::HorizontalBorder, value: t.h_border, max: 255 })
    } else if t.v_border > 255 {
        Some(DtdError::FieldOutOfRange { field: DtdField::VerticalBorder, value: t.v_border, max: 255 })
    } else if t.pixel_clock_khz < 10_000 {
        Some(DtdError::InvalidField { field: DtdField::PixelClockKHz, value: t.pixel_clock_khz })
    } else if t.pixel_clock_khz > 655_350 {
        Some(DtdError::FieldOutOfRange { field: DtdField::PixelClockKHz, value: t.pixel_clock_khz, max: 655_350 })
    } else if spec_h_blank(t) > u32::MAX {
        Some(DtdError::ArithmeticOverflow)
    } else if spec_h_blank(t) > 4095 {
        Some(DtdError::FieldOutOfRange { field: DtdField::HorizontalBlanking, value: spec_h_blank(t) as u32, max: 4095 })
    } else if spec_v_blank(t) > u32::MAX {
        Some(DtdError::ArithmeticOverflow)
    } else if spec_v_blank(t) > 4095 {
        Some(DtdError::FieldOutOfRange { field: DtdField::VerticalBlanking, value: spec_v_blank(t) as u32, max: 4095 })
    } else {
        None
    }
}

/// Every DTD field of the timing is representable.
pub open spec fn spec_dtd_fits(t: DetailedTiming) -> bool {
    spec_dtd_error(t) is None
}

impl DetailedTiming {
    /// Horizontal active pixels.
    pub fn width(&self) -> (w: u32)
        ensures
            w == self.h_active,
    {
        self.h_active
    }

    /// Vertical active lines.
    pub fn height(&self) -> (h: u32)
        ensures
            h == self.v_active,
    {
        self.v_active
    }
}

/// EDID DTD field limits (E-EDID 1.4 section 3.10.2).
///
/// Reports the first invalid field; blanking totals are computed without
/// overflow. Pixel clocks below 10 MHz are rejected because the EDID reader
/// treats them as invalid timing data.
pub fn validate_dtd(t: &DetailedTiming) -> (res: Result<(), DtdError>)
    ensures
        res == (match spec_dtd_error(*t) {
            None => Ok(()),
            Some(e) => Err(e),
        }),
{
    if t.h_active == 0 {
        return Err(DtdError::InvalidField { field: DtdField::HorizontalActive, value: t.h_active });
    }
    if t.h_active > 4095 {
        return Err(DtdError::FieldOutOfRange { field: DtdField::HorizontalActive, value: t.h_active, max: 4095 });
    }
    if t.v_active == 0 {
        return Err(DtdError::InvalidField { field: DtdField::VerticalActive, value: t.v_active });
    }
    if t.v_active > 4095 {
        return Err(DtdError::FieldOutOfRange { field: DtdField::VerticalActive, value: t.v_active, max: 4095 });
    }
    if t.h_front > 1023 {
        return Err(DtdError::FieldOutOfRange { field: DtdField::HorizontalFrontPorch, value: t.h_front, max: 1023 });
    }
    if t.h_sync > 1023 {
        return Err(DtdError::FieldOutOfRange { field: DtdField::HorizontalSync, value: t.h_sync, max: 1023 });
    }
    if t.v_front > 63 {
        return Err(DtdError::FieldOutOfRange { field: DtdField::VerticalFrontPorch, value: t.v_front, max: 63 });
    }
    if t.v_sync > 63 {
        return Err(DtdError::FieldOutOfRange { field: DtdField::VerticalSync, value: t.v_sync, max: 63 });
    }
    if t.h_border > 255 {
        return Err(DtdError::FieldOutOfRange { field: DtdField::HorizontalBorder, value: t.h_border, max: 255 });
    }
    if t.v_border > 255 {
        return Err(DtdError::FieldOutOfRange { field: DtdField::VerticalBorder, value: t.v_border, max: 255 });
    }
    if t.pixel_clock_khz < 10_000 {
        return Err(DtdError::InvalidField { field: DtdField::PixelClockKHz, value: t.pixel_clock_khz });
    }
    if t.pixel_clock_khz > 655_350 {
        return Err(DtdError::FieldOutOfRange { field: DtdField::PixelClockKHz, value: t.pixel_clock_khz, max: 655_350 });
    }
    let h_blank: u64 = t.h_front as u64 + t.h_sync as u64 + t.h_back as u64 + 2 * (t.h_border as u64);
    if h_blank > u32::MAX as u64 {
        return Err(DtdError::ArithmeticOverflow);
    }
    if h_blank > 4095 {
        return Err(DtdError::FieldOutOfRange { field: DtdField::HorizontalBlanking, value: h_blank as u32, max: 4095 });
    }
    let v_blank: u64 = t.v_front as u64 + t.v_sync as u64 + t.v_back as u64 + 2 * (t.v_border as u64);
    if v_blank > u32::MAX as u64 {
        return Err(DtdError::ArithmeticOverflow);
    }
    if v_blank > 4095 {
        return Err(DtdError::FieldOutOfRange { field: DtdField::VerticalBlanking, value: v_blank as u32, max: 4095 });
    }
    Ok(())
}

/// Determine whether a timing fits all EDID DTD fields.
pub fn dtd_fits(t: &DetailedTiming) -> (fits: bool)
    ensures
        fits == spec_dtd_fits(*t),
{
    validate_dtd(t).is_ok()
}

/// Which CVT variant to use for timing computation.
#[derive(Copy, Clone, Debug, PartialEq, Eq, Structural)]
pub enum TimingFormula {
    /// Do not compute: used to mark timings entered by hand.
    Manual,
    /// CVT 1.1 with normal blanking.
    CVT,
    /// CVT 1.1 with reduced blanking.
    CVTRB,
    /// CVT 1.2 with reduced blanking v2 (recommended for PC monitors).
    CVTRB2,
}

} // verus!
