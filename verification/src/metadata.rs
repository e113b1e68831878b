//! Base-block metadata and monitor descriptor access.
use vstd::prelude::*;
use crate::edid::{
    EdidBlock, byte_sum, spec_has_header, spec_slot_bytes, spec_splice, spec_all_bytes,
    spec_checksum_byte, has_header,
};
use crate::error::{DescriptorError, MetadataError, MetadataWriteError};
use crate::text::{string_push, spec_ascii_bytes, spec_bytes_to_chars, lemma_ascii_chars};
use vstd::utf8::encode_utf8;
pub use crate::descriptor::{
    AdditionalColorPoint, ColorManagementDescriptor, Cvt3ByteTimingEntry, CvtAspectRatio,
    CvtPreferredRate, CvtRangeSupport, CvtSupportedRates, MonitorDescriptor, RangeLimitsExtension,
    SecondaryGtfParameters,
};

verus! {

/// One EDID chromaticity coordinate stored as a 10-bit fixed-point value.
///
/// The encoded value is in the inclusive range `0..=1023` and represents the
/// normalized coordinate divided by 1024. Keeping the encoded integer avoids
/// losing precision during a read/write round-trip.
#[derive(Copy, Clone, Debug, PartialEq, Eq)]
pub struct ChromaticityPoint {
    /// Red/green/blue/white x coordinate, encoded on 10 bits.
    pub x: u16,
    /// Red/green/blue/white y coordinate, encoded on 10 bits.
    pub y: u16,
}

/// The four chromaticity points encoded in an EDID base block.
#[derive(Copy, Clone, Debug, PartialEq, Eq)]
pub struct ChromaticityCoordinates {
    /// Red primary point.
    pub red: ChromaticityPoint,
    /// Green primary point.
    pub green: ChromaticityPoint,
    /// Blue primary point.
    pub blue: ChromaticityPoint,
    /// White point.
    pub white: ChromaticityPoint,
}

/// The first coordinate of the four points that exceeds 10 bits, in the
/// order red, green, blue, white and x before y.
pub open spec fn spec_chromaticity_error(c: ChromaticityCoordinates) -> Option<MetadataWriteError> {
    if c.red.x > 1023 {
        Some(MetadataWriteError::InvalidChromaticityValue { value: c.red.x })
    } else if c.red.y > 1023 {
        Some(MetadataWriteError::InvalidChromaticityValue { value: c.red.y })
    } else if c.green.x > 1023 {
        Some(MetadataWriteError::InvalidChromaticityValue { value: c.green.x })
    } else if c.green.y > 1023 {
        Some(MetadataWriteError::InvalidChromaticityValue { value: c.green.y })
    } else if c.blue.x > 1023 {
        Some(MetadataWriteError::InvalidChromaticityValue { value: c.blue.x })
    } else if c.blue.y > 1023 {
        Some(MetadataWriteError::InvalidChromaticityValue { value: c.blue.y })
    } else if c.white.x > 1023 {
        Some(MetadataWriteError::InvalidChromaticityValue { value: c.white.x })
    } else if c.white.y > 1023 {
        Some(MetadataWriteError::InvalidChromaticityValue { value: c.white.y })
    } else {
        None
    }
}

fn validate_point(p: ChromaticityPoint) -> (res: Result<(), MetadataWriteError>)
    ensures
        p.x > 1023 ==> res == Err::<(), MetadataWriteError>(MetadataWriteError::InvalidChromaticityValue { value: p.x }),
        p.x <= 1023 && p.y > 1023 ==> res == Err::<(), MetadataWriteError>(MetadataWriteError::InvalidChromaticityValue { value: p.y }),
        p.x <= 1023 && p.y <= 1023 ==> res is Ok,
{
    if p.x > 1023 {
        return Err(MetadataWriteError::InvalidChromaticityValue { value: p.x });
    }
    if p.y > 1023 {
        return Err(MetadataWriteError::InvalidChromaticityValue { value: p.y });
    }
    Ok(())
}

fn validate_chromaticity(c: &ChromaticityCoordinates) -> (res: Result<(), MetadataWriteError>)
    ensures
        res == (match spec_chromaticity_error(*c) {
            None => Ok(()),
            Some(e) => Err(e),
        }),
{
    validate_point(c.red)?;
    validate_point(c.green)?;
    validate_point(c.blue)?;
    validate_point(c.white)?;
    Ok(())
}

/// One of the 17 established timings defined by the EDID base block.
#[derive(Copy, Clone, Debug, PartialEq, Eq)]
pub enum EstablishedTiming {
    /// 720x400 at 70 Hz.
    Mode720x400At70,
    /// 720x400 at 88 Hz.
    Mode720x400At88,
    /// 640x480 at 60 Hz.
    Mode640x480At60,
    /// 640x480 at 67 Hz.
    Mode640x480At67,
    /// 640x480 at 72 Hz.
    Mode640x480At72,
    /// 640x480 at 75 Hz.
    Mode640x480At75,
    /// 800x600 at 56 Hz.
    Mode800x600At56,
    /// 800x600 at 60 Hz.
    Mode800x600At60,
    /// 800x600 at 72 Hz.
    Mode800x600At72,
    /// 800x600 at 75 Hz.
    Mode800x600At75,
    /// 832x624 at 75 Hz.
    Mode832x624At75,
    /// 1024x768 interlaced at 87 Hz.
    Mode1024x768At87Interlaced,
    /// 1024x768 at 60 Hz.
    Mode1024x768At60,
    /// 1024x768 at 70 Hz.
    Mode1024x768At70,
    /// 1024x768 at 75 Hz.
    Mode1024x768At75,
    /// 1280x1024 at 75 Hz.
    Mode1280x1024At75,
    /// 1152x870 at 75 Hz.
    Mode1152x870At75,
}

/// Byte index (0..=2) and bit mask of an established timing in bytes 35-37.
pub open spec fn spec_established_bit(t: EstablishedTiming) -> (int, int) {
    match t {
        EstablishedTiming::Mode720x400At70 => (0, 0x80),
        EstablishedTiming::Mode720x400At88 => (0, 0x40),
        EstablishedTiming::Mode640x480At60 => (0, 0x20),
        EstablishedTiming::Mode640x480At67 => (0, 0x10),
        EstablishedTiming::Mode640x480At72 => (0, 0x08),
        EstablishedTiming::Mode640x480At75 => (0, 0x04),
        EstablishedTiming::Mode800x600At56 => (0, 0x02),
        EstablishedTiming::Mode800x600At60 => (0, 0x01),
        EstablishedTiming::Mode800x600At72 => (1, 0x80),
        EstablishedTiming::Mode800x600At75 => (1, 0x40),
        EstablishedTiming::Mode832x624At75 => (1, 0x20),
        EstablishedTiming::Mode1024x768At87Interlaced => (1, 0x10),
        EstablishedTiming::Mode1024x768At60 => (1, 0x08),
        EstablishedTiming::Mode1024x768At70 => (1, 0x04),
        EstablishedTiming::Mode1024x768At75 => (1, 0x02),
        EstablishedTiming::Mode1280x1024At75 => (1, 0x01),
        EstablishedTiming::Mode1152x870At75 => (2, 0x80),
    }
}

/// The 17 established timings in EDID bit order.
pub open spec fn spec_all_established() -> Seq<EstablishedTiming> {
    seq![
        EstablishedTiming::Mode720x400At70,
        EstablishedTiming::Mode720x400At88,
        EstablishedTiming::Mode640x480At60,
        EstablishedTiming::Mode640x480At67,
        EstablishedTiming::Mode640x480At72,
        EstablishedTiming::Mode640x480At75,
        EstablishedTiming::Mode800x600At56,
        EstablishedTiming::Mode800x600At60,
        EstablishedTiming::Mode800x600At72,
        EstablishedTiming::Mode800x600At75,
        EstablishedTiming::Mode832x624At75,
        EstablishedTiming::Mode1024x768At87Interlaced,
        EstablishedTiming::Mode1024x768At60,
        EstablishedTiming::Mode1024x768At70,
        EstablishedTiming::Mode1024x768At75,
        EstablishedTiming::Mode1280x1024At75,
        EstablishedTiming::Mode1152x870At75,
    ]
}

impl EstablishedTiming {
    fn bit(self) -> (r: (usize, u8))
        ensures
            r.0 == spec_established_bit(self).0,
            r.1 == spec_established_bit(self).1,
    {
        match self {
            Self::Mode720x400At70 => (0, 0x80),
            Self::Mode720x400At88 => (0, 0x40),
            Self::Mode640x480At60 => (0, 0x20),
            Self::Mode640x480At67 => (0, 0x10),
            Self::Mode640x480At72 => (0, 0x08),
            Self::Mode640x480At75 => (0, 0x04),
            Self::Mode800x600At56 => (0, 0x02),
            Self::Mode800x600At60 => (0, 0x01),
            Self::Mode800x600At72 => (1, 0x80),
            Self::Mode800x600At75 => (1, 0x40),
            Self::Mode832x624At75 => (1, 0x20),
            Self::Mode1024x768At87Interlaced => (1, 0x10),
            Self::Mode1024x768At60 => (1, 0x08),
            Self::Mode1024x768At70 => (1, 0x04),
            Self::Mode1024x768At75 => (1, 0x02),
            Self::Mode1280x1024At75 => (1, 0x01),
            Self::Mode1152x870At75 => (2, 0x80),
        }
    }
}

/// Bit `mask` (a power of two below 256) is set in `byte`.
pub open spec fn spec_bit_set(byte: u8, mask: int) -> bool {
    (byte as int / mask) % 2 == 1
}

/// Established timing bitfields from bytes 35-37 of a base block.
#[derive(Copy, Clone, Debug, PartialEq, Eq)]
pub struct EstablishedTimings {
    /// Raw EDID bytes, including the seven manufacturer-reserved bits.
    pub raw: [u8; 3],
}

/// The established timings whose bits are set, in EDID bit order.
pub open spec fn spec_established_modes(raw: Seq<u8>) -> Seq<EstablishedTiming> {
    spec_all_established().filter(
        |t: EstablishedTiming| spec_bit_set(raw[spec_established_bit(t).0], spec_established_bit(t).1),
    )
}

impl EstablishedTimings {
    /// Construct an established-timing view from its raw three bytes.
    pub fn from_raw(raw: [u8; 3]) -> (t: Self)
        ensures
            t.raw == raw,
    {
        Self { raw }
    }

    /// Return whether a defined established timing bit is set.
    pub fn contains(self, timing: EstablishedTiming) -> (b: bool)
        ensures
            b == spec_bit_set(self.raw@[spec_established_bit(timing).0], spec_established_bit(timing).1),
    {
        let (byte, mask) = timing.bit();
        (self.raw[byte] / mask) % 2 == 1
    }

    /// Return the defined established timings in EDID bit order.
    pub fn modes(self) -> (modes: Vec<EstablishedTiming>)
        ensures
            modes@ == spec_established_modes(self.raw@),
    {
        let all: Vec<EstablishedTiming> = vec![
            EstablishedTiming::Mode720x400At70,
            EstablishedTiming::Mode720x400At88,
            EstablishedTiming::Mode640x480At60,
            EstablishedTiming::Mode640x480At67,
            EstablishedTiming::Mode640x480At72,
            EstablishedTiming::Mode640x480At75,
            EstablishedTiming::Mode800x600At56,
            EstablishedTiming::Mode800x600At60,
            EstablishedTiming::Mode800x600At72,
            EstablishedTiming::Mode800x600At75,
            EstablishedTiming::Mode832x624At75,
            EstablishedTiming::Mode1024x768At87Interlaced,
            EstablishedTiming::Mode1024x768At60,
            EstablishedTiming::Mode1024x768At70,
            EstablishedTiming::Mode1024x768At75,
            EstablishedTiming::Mode1280x1024At75,
            EstablishedTiming::Mode1152x870At75,
        ];
        assert(all@ =~= spec_all_established());
        let ghost f = |t: EstablishedTiming| spec_bit_set(self.raw@[spec_established_bit(t).0], spec_established_bit(t).1);
        let mut modes: Vec<EstablishedTiming> = Vec::new();
        let mut i: usize = 0;
        while i < all.len()
            invariant
                i <= all@.len(),
                all@ == spec_all_established(),
                f == (|t: EstablishedTiming| spec_bit_set(self.raw@[spec_established_bit(t).0], spec_established_bit(t).1)),
                modes@ == all@.take(i as int).filter(f),
            decreases all@.len() - i,
        {
            proof {
                reveal_with_fuel(Seq::<_>::filter, 1);
                assert(all@.take(i + 1).drop_last() =~= all@.take(i as int));
            }
            let t = all[i];
            if self.contains(t) {
                modes.push(t);
            }
            i = i + 1;
        }
        assert(all@.take(i as int) =~= all@);
        modes
    }

    /// Return the manufacturer-reserved low seven bits of byte 37.
    pub fn manufacturer_reserved(self) -> (r: u8)
        ensures
            r == self.raw@[2] % 128,
    {
        self.raw[2] % 128
    }
}

/// Aspect-ratio code used by an EDID standard-timing entry.
#[derive(Copy, Clone, Debug, PartialEq, Eq)]
pub enum StandardTimingAspectRatio {
    /// 16:10.
    SixteenByTen,
    /// 4:3.
    FourByThree,
    /// 5:4.
    FiveByFour,
    /// 16:9.
    SixteenByNine,
}

/// Two-bit EDID code of an aspect ratio.
pub open spec fn spec_aspect_bits(a: StandardTimingAspectRatio) -> int {
    match a {
        StandardTimingAspectRatio::SixteenByTen => 0,
        StandardTimingAspectRatio::FourByThree => 1,
        StandardTimingAspectRatio::FiveByFour => 2,
        StandardTimingAspectRatio::SixteenByNine => 3,
    }
}

/// Aspect ratio of a two-bit EDID code (higher bits ignored).
pub open spec fn spec_aspect_from_bits(bits: int) -> StandardTimingAspectRatio {
    if bits % 4 == 0 {
        StandardTimingAspectRatio::SixteenByTen
    } else if bits % 4 == 1 {
        StandardTimingAspectRatio::FourByThree
    } else if bits % 4 == 2 {
        StandardTimingAspectRatio::FiveByFour
    } else {
        StandardTimingAspectRatio::SixteenByNine
    }
}

/// Vertical active size of an aspect ratio for a horizontal size.
pub open spec fn spec_vertical_pixels(a: StandardTimingAspectRatio, h: int) -> int {
    match a {
        StandardTimingAspectRatio::SixteenByTen => h * 10 / 16,
        StandardTimingAspectRatio::FourByThree => h * 3 / 4,
        StandardTimingAspectRatio::FiveByFour => h * 4 / 5,
        StandardTimingAspectRatio::SixteenByNine => h * 9 / 16,
    }
}

/// The factor by which the vertical size computation scales the horizontal
/// size before dividing; the product is formed in 16-bit arithmetic.
pub open spec fn spec_vertical_scale(a: StandardTimingAspectRatio) -> int {
    match a {
        StandardTimingAspectRatio::SixteenByTen => 10,
        StandardTimingAspectRatio::FourByThree => 3,
        StandardTimingAspectRatio::FiveByFour => 4,
        StandardTimingAspectRatio::SixteenByNine => 9,
    }
}

impl StandardTimingAspectRatio {
    fn bits(self) -> (b: u8)
        ensures
            b == spec_aspect_bits(self),
    {
        match self {
            Self::SixteenByTen => 0,
            Self::FourByThree => 1,
            Self::FiveByFour => 2,
            Self::SixteenByNine => 3,
        }
    }

    fn from_bits(bits: u8) -> (a: Self)
        ensures
            a == spec_aspect_from_bits(bits as int),
    {
        match bits % 4 {
            0 => Self::SixteenByTen,
            1 => Self::FourByThree,
            2 => Self::FiveByFour,
            _ => Self::SixteenByNine,
        }
    }

    /// Calculate the vertical active size represented by a horizontal size.
    ///
    /// The scaled product (`horizontal_pixels` times 10, 3, 4 or 9 for
    /// 16:10, 4:3, 5:4 and 16:9) must fit in 16 bits.
    pub fn vertical_pixels(self, horizontal_pixels: u16) -> (v: u16)
        requires
            horizontal_pixels * spec_vertical_scale(self) <= u16::MAX,
        ensures
            v == spec_vertical_pixels(self, horizontal_pixels as int),
    {
        match self {
            Self::SixteenByTen => horizontal_pixels * 10 / 16,
            Self::FourByThree => horizontal_pixels * 3 / 4,
            Self::FiveByFour => horizontal_pixels * 4 / 5,
            Self::SixteenByNine => horizontal_pixels * 9 / 16,
        }
    }
}

/// One valid EDID standard-timing mode.
#[derive(Copy, Clone, Debug, PartialEq, Eq)]
pub struct StandardTiming {
    /// Horizontal active pixels. Must be 256..=2288 and divisible by 8.
    pub horizontal_pixels: u16,
    /// EDID's two-bit aspect-ratio code.
    pub aspect_ratio: StandardTimingAspectRatio,
    /// Vertical refresh rate in Hz, represented as 60..=123.
    pub refresh_rate_hz: u8,
}

/// Why a standard timing cannot be encoded, if it cannot.
pub open spec fn spec_standard_timing_error(t: StandardTiming) -> Option<MetadataWriteError> {
    if !(256 <= t.horizontal_pixels <= 2288) || t.horizontal_pixels % 8 != 0 || !(60
        <= t.refresh_rate_hz <= 123) {
        Some(
            MetadataWriteError::InvalidStandardTiming {
                horizontal_pixels: t.horizontal_pixels,
                refresh_rate_hz: t.refresh_rate_hz,
            },
        )
    } else if t.horizontal_pixels == 256 && t.aspect_ratio == StandardTimingAspectRatio::SixteenByTen
        && t.refresh_rate_hz == 61 {
        Some(MetadataWriteError::ReservedStandardTimingEncoding)
    } else {
        None
    }
}

impl StandardTiming {
    /// Construct a representable standard-timing entry.
    pub fn new(
        horizontal_pixels: u16,
        aspect_ratio: StandardTimingAspectRatio,
        refresh_rate_hz: u8,
    ) -> (res: Result<Self, MetadataWriteError>)
        ensures
            ({
                let t = StandardTiming { horizontal_pixels, aspect_ratio, refresh_rate_hz };
                res == match spec_standard_timing_error(t) {
                    None => Ok(t),
                    Some(e) => Err(e),
                }
            }),
    {
        let timing = Self { horizontal_pixels, aspect_ratio, refresh_rate_hz };
        timing.validate()?;
        Ok(timing)
    }

    fn validate(self) -> (res: Result<(), MetadataWriteError>)
        ensures
            res == (match spec_standard_timing_error(self) {
                None => Ok(()),
                Some(e) => Err(e),
            }),
    {
        if !(256 <= self.horizontal_pixels && self.horizontal_pixels <= 2288)
            || self.horizontal_pixels % 8 != 0 || !(60 <= self.refresh_rate_hz
            && self.refresh_rate_hz <= 123) {
            return Err(
                MetadataWriteError::InvalidStandardTiming {
                    horizontal_pixels: self.horizontal_pixels,
                    refresh_rate_hz: self.refresh_rate_hz,
                },
            );
        }
        if self.horizontal_pixels == 256 && matches!(self.aspect_ratio, StandardTimingAspectRatio::SixteenByTen)
            && self.refresh_rate_hz == 61 {
            return Err(MetadataWriteError::ReservedStandardTimingEncoding);
        }
        Ok(())
    }

    /// Return the calculated vertical active size.
    ///
    /// The horizontal size scaled by the aspect ratio's factor must fit in
    /// 16 bits, as it does for every representable standard timing.
    pub fn vertical_pixels(self) -> (v: u16)
        requires
            self.horizontal_pixels * spec_vertical_scale(self.aspect_ratio) <= u16::MAX,
        ensures
            v == spec_vertical_pixels(self.aspect_ratio, self.horizontal_pixels as int),
    {
        self.aspect_ratio.vertical_pixels(self.horizontal_pixels)
    }
}

/// A standard-timing slot, preserving unused and reserved encodings.
#[derive(Copy, Clone, Debug, PartialEq, Eq)]
pub enum StandardTimingEntry {
    /// The EDID unused-slot encoding `01 01`.
    Unused,
    /// A valid standard-timing mode.
    Timing(StandardTiming),
    /// A non-mode encoding that is preserved but never reported as a mode.
    Reserved {
        /// Original two-byte encoding.
        raw: [u8; 2],
    },
}

/// Decoded meaning of a two-byte standard-timing encoding.
pub open spec fn spec_decode_standard(b0: u8, b1: u8) -> StandardTimingEntry {
    if b0 == 1 && b1 == 1 {
        StandardTimingEntry::Unused
    } else if b0 == 0 {
        StandardTimingEntry::Reserved { raw: [b0, b1] }
    } else {
        StandardTimingEntry::Timing(
            StandardTiming {
                horizontal_pixels: ((b0 + 31) * 8) as u16,
                aspect_ratio: spec_aspect_from_bits(b1 as int / 64),
                refresh_rate_hz: (b1 % 64 + 60) as u8,
            },
        )
    }
}

/// Two-byte encoding of a standard-timing entry, or why it has none.
pub open spec fn spec_encode_standard(e: StandardTimingEntry) -> Result<(u8, u8), MetadataWriteError> {
    match e {
        StandardTimingEntry::Unused => Ok((1u8, 1u8)),
        StandardTimingEntry::Reserved { raw } => if raw[0] != 0 {
            Err(MetadataWriteError::InvalidReservedStandardTimingEncoding { raw })
        } else {
            Ok((raw[0], raw[1]))
        },
        StandardTimingEntry::Timing(t) => match spec_standard_timing_error(t) {
            Some(err) => Err(err),
            None => Ok(
                (
                    (t.horizontal_pixels / 8 - 31) as u8,
                    (spec_aspect_bits(t.aspect_ratio) * 64 + t.refresh_rate_hz - 60) as u8,
                ),
            ),
        },
    }
}

impl StandardTimingEntry {
    pub(crate) fn decode(raw: [u8; 2]) -> (e: Self)
        ensures
            e == spec_decode_standard(raw@[0], raw@[1]),
    {
        if raw[0] == 1 && raw[1] == 1 {
            return Self::Unused;
        }
        if raw[0] == 0 {
            proof {
                assert(raw =~= [raw@[0], raw@[1]]);
            }
            return Self::Reserved { raw };
        }
        let timing = StandardTiming {
            horizontal_pixels: (raw[0] as u16 + 31) * 8,
            aspect_ratio: StandardTimingAspectRatio::from_bits(raw[1] / 64),
            refresh_rate_hz: (raw[1] % 64) + 60,
        };
        Self::Timing(timing)
    }

    pub(crate) fn encode(self) -> (res: Result<[u8; 2], MetadataWriteError>)
        ensures
            res matches Ok(b) ==> spec_encode_standard(self) == Ok::<(u8, u8), MetadataWriteError>((b@[0], b@[1])),
            res matches Err(e) ==> spec_encode_standard(self) == Err::<(u8, u8), MetadataWriteError>(e),
    {
        match self {
            Self::Unused => Ok([0x01, 0x01]),
            Self::Reserved { raw } => {
                if raw[0] != 0 {
                    return Err(MetadataWriteError::InvalidReservedStandardTimingEncoding { raw });
                }
                Ok(raw)
            },
            Self::Timing(timing) => {
                timing.validate()?;
                Ok(
                    [
                        (timing.horizontal_pixels / 8 - 31) as u8,
                        timing.aspect_ratio.bits() * 64 + (timing.refresh_rate_hz - 60),
                    ],
                )
            },
        }
    }
}

/// Decoding an encoded standard-timing entry gives the entry back.
pub proof fn lemma_standard_timing_roundtrip(e: StandardTimingEntry)
    requires
        spec_encode_standard(e) is Ok,
    ensures
        spec_decode_standard(spec_encode_standard(e)->Ok_0.0, spec_encode_standard(e)->Ok_0.1)
            == e,
{
    match e {
        StandardTimingEntry::Reserved { raw } => {
            assert(raw =~= [raw@[0], raw@[1]]);
        },
        StandardTimingEntry::Timing(t) => {
            let b0 = (t.horizontal_pixels / 8 - 31) as int;
            assert((b0 + 31) * 8 == t.horizontal_pixels);
        },
        _ => {},
    }
}

/// One of the 44 established timings defined by the Established Timings III descriptor (Tag 0xF7).
#[derive(Copy, Clone, Debug, PartialEq, Eq)]
pub enum EstablishedTiming3 {
    /// 640 x 350 @ 85Hz
    Res640x350_85Hz,
    /// 640 x 400 @ 85Hz
    Res640x400_85Hz,
    /// 720 x 400 @ 85Hz
    Res720x400_85Hz,
    /// 640 x 480 @ 85Hz
    Res640x480_85Hz,
    /// 848 x 480 @ 60Hz
    Res848x480_60Hz,
    /// 800 x 600 @ 85Hz
    Res800x600_85Hz,
    /// 1024 x 768 @ 85Hz
    Res1024x768_85Hz,
    /// 1152 x 864 @ 75Hz
    Res1152x864_75Hz,
    /// 1280 x 768 @ 60Hz (Reduced Blanking)
    Res1280x768_60HzRb,
    /// 1280 x 768 @ 60Hz
    Res1280x768_60Hz,
    /// 1280 x 768 @ 75Hz
    Res1280x768_75Hz,
    /// 1280 x 768 @ 85Hz
    Res1280x768_85Hz,
    /// 1280 x 960 @ 60Hz
    Res1280x960_60Hz,
    /// 1280 x 960 @ 85Hz
    Res1280x960_85Hz,
    /// 1280 x 1024 @ 60Hz
    Res1280x1024_60Hz,
    /// 1280 x 1024 @ 85Hz
    Res1280x1024_85Hz,
    /// 1360 x 768 @ 60Hz
    Res1360x768_60Hz,
    /// 1440 x 900 @ 60Hz (Reduced Blanking)
    Res1440x900_60HzRb,
    /// 1440 x 900 @ 60Hz
    Res1440x900_60Hz,
    /// 1440 x 900 @ 75Hz
    Res1440x900_75Hz,
    /// 1440 x 900 @ 85Hz
    Res1440x900_85Hz,
    /// 1400 x 1050 @ 60Hz (Reduced Blanking)
    Res1400x1050_60HzRb,
    /// 1400 x 1050 @ 60Hz
    Res1400x1050_60Hz,
    /// 1400 x 1050 @ 75Hz
    Res1400x1050_75Hz,
    /// 1400 x 1050 @ 85Hz
    Res1400x1050_85Hz,
    /// 1680 x 1050 @ 60Hz (Reduced Blanking)
    Res1680x1050_60HzRb,
    /// 1680 x 1050 @ 60Hz
    Res1680x1050_60Hz,
    /// 1680 x 1050 @ 75Hz
    Res1680x1050_75Hz,
    /// 1680 x 1050 @ 85Hz
    Res1680x1050_85Hz,
    /// 1600 x 1200 @ 60Hz
    Res1600x1200_60Hz,
    /// 1600 x 1200 @ 65Hz
    Res1600x1200_65Hz,
    /// 1600 x 1200 @ 70Hz
    Res1600x1200_70Hz,
    /// 1600 x 1200 @ 75Hz
    Res1600x1200_75Hz,
    /// 1600 x 1200 @ 85Hz
    Res1600x1200_85Hz,
    /// 1792 x 1344 @ 60Hz
    Res1792x1344_60Hz,
    /// 1792 x 1344 @ 75Hz
    Res1792x1344_75Hz,
    /// 1856 x 1392 @ 60Hz
    Res1856x1392_60Hz,
    /// 1856 x 1392 @ 75Hz
    Res1856x1392_75Hz,
    /// 1920 x 1200 @ 60Hz (Reduced Blanking)
    Res1920x1200_60HzRb,
    /// 1920 x 1200 @ 60Hz
    Res1920x1200_60Hz,
    /// 1920 x 1200 @ 75Hz
    Res1920x1200_75Hz,
    /// 1920 x 1200 @ 85Hz
    Res1920x1200_85Hz,
    /// 1920 x 1440 @ 60Hz
    Res1920x1440_60Hz,
    /// 1920 x 1440 @ 75Hz
    Res1920x1440_75Hz,
}

/// Established Timings III bitfield (Tag 0xF7, EDID 1.4 section 3.10.3.5).
#[derive(Copy, Clone, Debug, PartialEq, Eq)]
pub struct EstablishedTimings3 {
    /// Descriptor revision (typically 0x0A).
    pub revision: u8,
    /// Raw 6-byte bitmap payload (bytes 6..=11 of the 18-byte descriptor).
    pub raw: [u8; 6],
}

/// Byte index and bit index of an Established Timing III entry.
pub open spec fn spec_et3_position(t: EstablishedTiming3) -> (int, int) {
    match t {
        EstablishedTiming3::Res640x350_85Hz => (0, 7),
        EstablishedTiming3::Res640x400_85Hz => (0, 6),
        EstablishedTiming3::Res720x400_85Hz => (0, 5),
        EstablishedTiming3::Res640x480_85Hz => (0, 4),
        EstablishedTiming3::Res848x480_60Hz => (0, 3),
        EstablishedTiming3::Res800x600_85Hz => (0, 2),
        EstablishedTiming3::Res1024x768_85Hz => (0, 1),
        EstablishedTiming3::Res1152x864_75Hz => (0, 0),
        EstablishedTiming3::Res1280x768_60HzRb => (1, 7),
        EstablishedTiming3::Res1280x768_60Hz => (1, 6),
        EstablishedTiming3::Res1280x768_75Hz => (1, 5),
        EstablishedTiming3::Res1280x768_85Hz => (1, 4),
        EstablishedTiming3::Res1280x960_60Hz => (1, 3),
        EstablishedTiming3::Res1280x960_85Hz => (1, 2),
        EstablishedTiming3::Res1280x1024_60Hz => (1, 1),
        EstablishedTiming3::Res1280x1024_85Hz => (1, 0),
        EstablishedTiming3::Res1360x768_60Hz => (2, 7),
        EstablishedTiming3::Res1440x900_60HzRb => (2, 6),
        EstablishedTiming3::Res1440x900_60Hz => (2, 5),
        EstablishedTiming3::Res1440x900_75Hz => (2, 4),
        EstablishedTiming3::Res1440x900_85Hz => (2, 3),
        EstablishedTiming3::Res1400x1050_60HzRb => (2, 2),
        EstablishedTiming3::Res1400x1050_60Hz => (2, 1),
        EstablishedTiming3::Res1400x1050_75Hz => (2, 0),
        EstablishedTiming3::Res1400x1050_85Hz => (3, 7),
        EstablishedTiming3::Res1680x1050_60HzRb => (3, 6),
        EstablishedTiming3::Res1680x1050_60Hz => (3, 5),
        EstablishedTiming3::Res1680x1050_75Hz => (3, 4),
        EstablishedTiming3::Res1680x1050_85Hz => (3, 3),
        EstablishedTiming3::Res1600x1200_60Hz => (3, 2),
        EstablishedTiming3::Res1600x1200_65Hz => (3, 1),
        EstablishedTiming3::Res1600x1200_70Hz => (3, 0),
        EstablishedTiming3::Res1600x1200_75Hz => (4, 7),
        EstablishedTiming3::Res1600x1200_85Hz => (4, 6),
        EstablishedTiming3::Res1792x1344_60Hz => (4, 5),
        EstablishedTiming3::Res1792x1344_75Hz => (4, 4),
        EstablishedTiming3::Res1856x1392_60Hz => (4, 3),
        EstablishedTiming3::Res1856x1392_75Hz => (4, 2),
        EstablishedTiming3::Res1920x1200_60HzRb => (4, 1),
        EstablishedTiming3::Res1920x1200_60Hz => (4, 0),
        EstablishedTiming3::Res1920x1200_75Hz => (5, 7),
        EstablishedTiming3::Res1920x1200_85Hz => (5, 6),
        EstablishedTiming3::Res1920x1440_60Hz => (5, 5),
        EstablishedTiming3::Res1920x1440_75Hz => (5, 4),
    }
}

/// `2^bit` for a bit index below 8.
pub open spec fn spec_bit_mask(bit: int) -> int {
    if bit == 0 { 1 } else if bit == 1 { 2 } else if bit == 2 { 4 } else if bit == 3 { 8 }
    else if bit == 4 { 16 } else if bit == 5 { 32 } else if bit == 6 { 64 } else { 128 }
}

/// Whether an Established Timing III bit is set in a bitmap.
pub open spec fn spec_et3_has(raw: Seq<u8>, t: EstablishedTiming3) -> bool {
    spec_bit_set(raw[spec_et3_position(t).0], spec_bit_mask(spec_et3_position(t).1))
}

fn et3_position(timing: EstablishedTiming3) -> (r: (usize, u8))
    ensures
        r.0 == spec_et3_position(timing).0,
        r.1 == spec_bit_mask(spec_et3_position(timing).1),
        r.0 < 6,
{
    let (byte_idx, bit_idx): (usize, u8) = match timing {
            EstablishedTiming3::Res640x350_85Hz => (0, 7),
            EstablishedTiming3::Res640x400_85Hz => (0, 6),
            EstablishedTiming3::Res720x400_85Hz => (0, 5),
            EstablishedTiming3::Res640x480_85Hz => (0, 4),
            EstablishedTiming3::Res848x480_60Hz => (0, 3),
            EstablishedTiming3::Res800x600_85Hz => (0, 2),
            EstablishedTiming3::Res1024x768_85Hz => (0, 1),
            EstablishedTiming3::Res1152x864_75Hz => (0, 0),
            EstablishedTiming3::Res1280x768_60HzRb => (1, 7),
            EstablishedTiming3::Res1280x768_60Hz => (1, 6),
            EstablishedTiming3::Res1280x768_75Hz => (1, 5),
            EstablishedTiming3::Res1280x768_85Hz => (1, 4),
            EstablishedTiming3::Res1280x960_60Hz => (1, 3),
            EstablishedTiming3::Res1280x960_85Hz => (1, 2),
            EstablishedTiming3::Res1280x1024_60Hz => (1, 1),
            EstablishedTiming3::Res1280x1024_85Hz => (1, 0),
            EstablishedTiming3::Res1360x768_60Hz => (2, 7),
            EstablishedTiming3::Res1440x900_60HzRb => (2, 6),
            EstablishedTiming3::Res1440x900_60Hz => (2, 5),
            EstablishedTiming3::Res1440x900_75Hz => (2, 4),
            EstablishedTiming3::Res1440x900_85Hz => (2, 3),
            EstablishedTiming3::Res1400x1050_60HzRb => (2, 2),
            EstablishedTiming3::Res1400x1050_60Hz => (2, 1),
            EstablishedTiming3::Res1400x1050_75Hz => (2, 0),
            EstablishedTiming3::Res1400x1050_85Hz => (3, 7),
            EstablishedTiming3::Res1680x1050_60HzRb => (3, 6),
            EstablishedTiming3::Res1680x1050_60Hz => (3, 5),
            EstablishedTiming3::Res1680x1050_75Hz => (3, 4),
            EstablishedTiming3::Res1680x1050_85Hz => (3, 3),
            EstablishedTiming3::Res1600x1200_60Hz => (3, 2),
            EstablishedTiming3::Res1600x1200_65Hz => (3, 1),
            EstablishedTiming3::Res1600x1200_70Hz => (3, 0),
            EstablishedTiming3::Res1600x1200_75Hz => (4, 7),
            EstablishedTiming3::Res1600x1200_85Hz => (4, 6),
            EstablishedTiming3::Res1792x1344_60Hz => (4, 5),
            EstablishedTiming3::Res1792x1344_75Hz => (4, 4),
            EstablishedTiming3::Res1856x1392_60Hz => (4, 3),
            EstablishedTiming3::Res1856x1392_75Hz => (4, 2),
            EstablishedTiming3::Res1920x1200_60HzRb => (4, 1),
            EstablishedTiming3::Res1920x1200_60Hz => (4, 0),
            EstablishedTiming3::Res1920x1200_75Hz => (5, 7),
            EstablishedTiming3::Res1920x1200_85Hz => (5, 6),
            EstablishedTiming3::Res1920x1440_60Hz => (5, 5),
            EstablishedTiming3::Res1920x1440_75Hz => (5, 4),
    };
    let mask: u8 = if bit_idx == 0 { 1 } else if bit_idx == 1 { 2 } else if bit_idx == 2 { 4 }
        else if bit_idx == 3 { 8 } else if bit_idx == 4 { 16 } else if bit_idx == 5 { 32 }
        else if bit_idx == 6 { 64 } else { 128 };
    (byte_idx, mask)
}

impl EstablishedTimings3 {
    /// Create a new Established Timings III descriptor with default revision 0x0A.
    pub fn new(raw: [u8; 6]) -> (t: Self)
        ensures
            t.revision == 0x0A,
            t.raw == raw,
    {
        Self { revision: 0x0A, raw }
    }

    /// An empty Established Timings III bitmap with revision 0x0A.
    pub fn default() -> (t: Self)
        ensures
            t.revision == 0x0A,
            forall|i: int| 0 <= i < 6 ==> t.raw@[i] == 0,
    {
        Self { revision: 0x0A, raw: [0u8; 6] }
    }

    /// Check whether a specific Established Timing III is supported.
    pub fn has_timing(&self, timing: EstablishedTiming3) -> (b: bool)
        ensures
            b == spec_et3_has(self.raw@, timing),
    {
        let (byte_idx, mask) = et3_position(timing);
        (self.raw[byte_idx] / mask) % 2 == 1
    }

    /// Enable or disable a specific Established Timing III; every other bit
    /// is kept.
    pub fn set_timing(&mut self, timing: EstablishedTiming3, enabled: bool)
        ensures
            final(self).revision == old(self).revision,
            final(self).raw@ == old(self).raw@.update(
                spec_et3_position(timing).0,
                spec_set_bit(
                    old(self).raw@[spec_et3_position(timing).0],
                    spec_bit_mask(spec_et3_position(timing).1),
                    enabled,
                ),
            ),
    {
        let (byte_idx, mask) = et3_position(timing);
        let current = self.raw[byte_idx];
        let set = (current / mask) % 2 == 1;
        if enabled && !set {
            proof {
                lemma_bit_room(current, mask);
            }
            self.raw[byte_idx] = current + mask;
        } else if !enabled && set {
            proof {
                lemma_bit_room(current, mask);
            }
            self.raw[byte_idx] = current - mask;
        }
    }
}

/// `byte` with bit `mask` set to `on`.
pub open spec fn spec_set_bit(byte: u8, mask: int, on: bool) -> u8 {
    if on && !spec_bit_set(byte, mask) {
        (byte + mask) as u8
    } else if !on && spec_bit_set(byte, mask) {
        (byte - mask) as u8
    } else {
        byte
    }
}

proof fn lemma_bit_room(byte: u8, mask: u8)
    requires
        mask == 1 || mask == 2 || mask == 4 || mask == 8 || mask == 16 || mask == 32 || mask == 64
            || mask == 128,
    ensures
        !spec_bit_set(byte, mask as int) ==> byte + mask < 256,
        spec_bit_set(byte, mask as int) ==> byte >= mask,
{
    let q = byte as int / mask as int;
    let r = byte as int % mask as int;
    vstd::arithmetic::div_mod::lemma_fundamental_div_mod(byte as int, mask as int);
    assert(byte == mask * q + r);
    assert(q * mask <= 255);
    if !spec_bit_set(byte, mask as int) {
        assert(q % 2 == 0);
        assert((q + 1) * mask <= 256) by (nonlinear_arith)
            requires
                q % 2 == 0,
                q * mask <= 255,
                mask == 1 || mask == 2 || mask == 4 || mask == 8 || mask == 16 || mask == 32 || mask == 64 || mask == 128,
                q >= 0,
        ;
    }
}

/// Setting an Established Timing III and then querying it reports the set
/// value, and every other timing keeps its answer.
pub proof fn lemma_et3_set_then_has(raw: Seq<u8>, t: EstablishedTiming3, on: bool, other: EstablishedTiming3)
    requires
        raw.len() == 6,
    ensures
        ({
            let pos = spec_et3_position(t);
            let after = raw.update(pos.0, spec_set_bit(raw[pos.0], spec_bit_mask(pos.1), on));
            &&& spec_et3_has(after, t) == on
            &&& spec_et3_position(other) != pos ==> spec_et3_has(after, other) == spec_et3_has(raw, other)
        }),
{
    let pos = spec_et3_position(t);
    let opos = spec_et3_position(other);
    let b = raw[pos.0];
    let m = spec_bit_mask(pos.1);
    let n = spec_bit_mask(opos.1);
    lemma_et3_position_range(t);
    lemma_et3_position_range(other);
    lemma_mask_u8(pos.1);
    lemma_mask_u8(opos.1);
    lemma_bit_room(b, m as u8);
    lemma_toggle_bit(b as u16, m as u16, n as u16);
    if opos.0 == pos.0 && opos != pos {
        lemma_mask_distinct(pos.1, opos.1);
    }
}

proof fn lemma_et3_position_range(t: EstablishedTiming3)
    ensures
        0 <= spec_et3_position(t).0 < 6,
        0 <= spec_et3_position(t).1 < 8,
{
}

proof fn lemma_mask_u8(bit: int)
    ensures
        spec_bit_mask(bit) == 1 || spec_bit_mask(bit) == 2 || spec_bit_mask(bit) == 4
            || spec_bit_mask(bit) == 8 || spec_bit_mask(bit) == 16 || spec_bit_mask(bit) == 32
            || spec_bit_mask(bit) == 64 || spec_bit_mask(bit) == 128,
{
}

proof fn lemma_mask_distinct(a: int, b: int)
    requires
        0 <= a < 8,
        0 <= b < 8,
        a != b,
    ensures
        spec_bit_mask(a) != spec_bit_mask(b),
{
}

proof fn lemma_toggle_bit(b: u16, m: u16, n: u16)
    requires
        b < 256,
        m == 1 || m == 2 || m == 4 || m == 8 || m == 16 || m == 32 || m == 64 || m == 128,
        n == 1 || n == 2 || n == 4 || n == 8 || n == 16 || n == 32 || n == 64 || n == 128,
    ensures
        (b / m) % 2 == 0 ==> (((b + m) as u16) / m) % 2 == 1,
        (b / m) % 2 == 0 && m != n ==> (((b + m) as u16) / n) % 2 == (b / n) % 2,
        (b / m) % 2 == 1 ==> (((b - m) as u16) / m) % 2 == 0,
        (b / m) % 2 == 1 && m != n ==> (((b - m) as u16) / n) % 2 == (b / n) % 2,
{
    assert((b / m) % 2 == 0 ==> (((b + m) as u16) / m) % 2 == 1) by (bit_vector)
        requires
            b < 256,
            m == 1 || m == 2 || m == 4 || m == 8 || m == 16 || m == 32 || m == 64 || m == 128;
    assert((b / m) % 2 == 0 && m != n ==> (((b + m) as u16) / n) % 2 == (b / n) % 2) by (bit_vector)
        requires
            b < 256,
            m == 1 || m == 2 || m == 4 || m == 8 || m == 16 || m == 32 || m == 64 || m == 128,
            n == 1 || n == 2 || n == 4 || n == 8 || n == 16 || n == 32 || n == 64 || n == 128;
    assert((b / m) % 2 == 1 ==> (((b - m) as u16) / m) % 2 == 0) by (bit_vector)
        requires
            b < 256,
            m == 1 || m == 2 || m == 4 || m == 8 || m == 16 || m == 32 || m == 64 || m == 128;
    assert((b / m) % 2 == 1 && m != n ==> (((b - m) as u16) / n) % 2 == (b / n) % 2) by (bit_vector)
        requires
            b < 256,
            m == 1 || m == 2 || m == 4 || m == 8 || m == 16 || m == 32 || m == 64 || m == 128,
            n == 1 || n == 2 || n == 4 || n == 8 || n == 16 || n == 32 || n == 64 || n == 128;
}

/// The block with its checksum byte recomputed.
pub open spec fn spec_with_checksum(s: Seq<u8>) -> Seq<u8> {
    s.update(127, spec_checksum_byte(s))
}

/// A block whose checksum byte has been recomputed sums to zero modulo 256.
pub proof fn lemma_with_checksum_sum(s: Seq<u8>)
    requires
        s.len() == 128,
    ensures
        byte_sum(spec_with_checksum(s)) % 256 == 0,
        spec_with_checksum(s).len() == 128,
{
    let after = spec_with_checksum(s);
    assert(after.drop_last() =~= s.take(127));
    assert(byte_sum(after) == byte_sum(s.take(127)) + spec_checksum_byte(s));
}

/// One chromaticity point from its two high bytes and the two low bits
/// found at `shift_div` (1, 4, 16 or 64) in the shared low-bit bytes.
pub open spec fn spec_point(s: Seq<u8>, x_high: int, y_high: int, shift_div: int) -> ChromaticityPoint {
    ChromaticityPoint {
        x: (s[x_high] * 4 + (s[25] as int / shift_div) % 4) as u16,
        y: (s[y_high] * 4 + (s[26] as int / shift_div) % 4) as u16,
    }
}

/// The four chromaticity points stored in bytes 25-34 of a base block.
pub open spec fn spec_decode_chromaticity(s: Seq<u8>) -> ChromaticityCoordinates {
    ChromaticityCoordinates {
        red: spec_point(s, 27, 28, 64),
        green: spec_point(s, 29, 30, 16),
        blue: spec_point(s, 31, 32, 4),
        white: spec_point(s, 33, 34, 1),
    }
}

/// Bytes 25-34 rewritten with the given (valid) chromaticity points.
pub open spec fn spec_write_chromaticity(s: Seq<u8>, c: ChromaticityCoordinates) -> Seq<u8> {
    s.update(25, (c.red.x % 4 * 64 + c.green.x % 4 * 16 + c.blue.x % 4 * 4 + c.white.x % 4) as u8)
        .update(26, (c.red.y % 4 * 64 + c.green.y % 4 * 16 + c.blue.y % 4 * 4 + c.white.y % 4) as u8)
        .update(27, (c.red.x / 4) as u8).update(28, (c.red.y / 4) as u8)
        .update(29, (c.green.x / 4) as u8).update(30, (c.green.y / 4) as u8)
        .update(31, (c.blue.x / 4) as u8).update(32, (c.blue.y / 4) as u8)
        .update(33, (c.white.x / 4) as u8).update(34, (c.white.y / 4) as u8)
}

/// The eight standard-timing slots of bytes 38-53.
pub open spec fn spec_standard_slots(s: Seq<u8>) -> Seq<StandardTimingEntry> {
    Seq::new(8, |i: int| spec_decode_standard(s[38 + 2 * i], s[39 + 2 * i]))
}

/// The first standard-timing entry that has no two-byte encoding.
pub open spec fn spec_first_standard_error(t: Seq<StandardTimingEntry>, n: int) -> Option<MetadataWriteError>
    decreases n,
{
    if n <= 0 {
        None
    } else {
        match spec_first_standard_error(t, n - 1) {
            Some(e) => Some(e),
            None => match spec_encode_standard(t[n - 1]) {
                Err(e) => Some(e),
                Ok(_) => None,
            },
        }
    }
}

/// Bytes 38-53 holding the encodings of eight standard timings.
pub open spec fn spec_standard_bytes(t: Seq<StandardTimingEntry>) -> Seq<u8> {
    Seq::new(16, |j: int| if j % 2 == 0 {
        spec_encode_standard(t[j / 2])->Ok_0.0
    } else {
        spec_encode_standard(t[j / 2])->Ok_0.1
    })
}

pub(crate) proof fn lemma_first_standard_error_step(t: Seq<StandardTimingEntry>, n: int)
    requires
        0 <= n,
        spec_first_standard_error(t, n) is None,
    ensures
        forall|k: int| 0 <= k < n ==> spec_encode_standard(t[k]) is Ok,
    decreases n,
{
    if n > 0 {
        lemma_first_standard_error_step(t, n - 1);
    }
}

pub(crate) proof fn lemma_first_standard_error_keeps(t: Seq<StandardTimingEntry>, n: int, m: int)
    requires
        0 <= n <= m,
        spec_first_standard_error(t, n) is Some,
    ensures
        spec_first_standard_error(t, m) == spec_first_standard_error(t, n),
    decreases m - n,
{
    if m > n {
        lemma_first_standard_error_keeps(t, n, m - 1);
    }
}

impl EdidBlock {
    /// Decode the four 10-bit chromaticity points from the base block.
    pub fn chromaticity(&self) -> (res: Result<ChromaticityCoordinates, MetadataError>)
        ensures
            !spec_has_header(self.raw@) ==> res == Err::<ChromaticityCoordinates, MetadataError>(
                MetadataError::NotBaseBlock,
            ),
            spec_has_header(self.raw@) ==> res == Ok::<ChromaticityCoordinates, MetadataError>(
                spec_decode_chromaticity(self.raw@),
            ),
    {
        if !has_header(&self.raw) {
            return Err(MetadataError::NotBaseBlock);
        }
        let low_x = self.raw[25];
        let low_y = self.raw[26];
        Ok(
            ChromaticityCoordinates {
                red: ChromaticityPoint {
                    x: self.raw[27] as u16 * 4 + (low_x / 64 % 4) as u16,
                    y: self.raw[28] as u16 * 4 + (low_y / 64 % 4) as u16,
                },
                green: ChromaticityPoint {
                    x: self.raw[29] as u16 * 4 + (low_x / 16 % 4) as u16,
                    y: self.raw[30] as u16 * 4 + (low_y / 16 % 4) as u16,
                },
                blue: ChromaticityPoint {
                    x: self.raw[31] as u16 * 4 + (low_x / 4 % 4) as u16,
                    y: self.raw[32] as u16 * 4 + (low_y / 4 % 4) as u16,
                },
                white: ChromaticityPoint {
                    x: self.raw[33] as u16 * 4 + (low_x % 4) as u16,
                    y: self.raw[34] as u16 * 4 + (low_y % 4) as u16,
                },
            },
        )
    }

    /// Encode the four chromaticity points and update the base checksum.
    ///
    /// On failure the block is left unchanged.
    pub fn set_chromaticity(&mut self, chromaticity: &ChromaticityCoordinates) -> (res: Result<
        (),
        MetadataWriteError,
    >)
        ensures
            !spec_has_header(old(self).raw@) ==> res == Err::<(), MetadataWriteError>(
                MetadataWriteError::NotBaseBlock,
            ),
            spec_has_header(old(self).raw@) && spec_chromaticity_error(*chromaticity) is Some
                ==> res == Err::<(), MetadataWriteError>(spec_chromaticity_error(*chromaticity)->0),
            spec_has_header(old(self).raw@) && spec_chromaticity_error(*chromaticity) is None
                ==> res is Ok,
            res is Ok ==> final(self).raw@ == spec_with_checksum(
                spec_write_chromaticity(old(self).raw@, *chromaticity),
            ),
            res is Err ==> final(self).raw@ == old(self).raw@,
    {
        if !has_header(&self.raw) {
            return Err(MetadataWriteError::NotBaseBlock);
        }
        validate_chromaticity(chromaticity)?;
        let c = *chromaticity;
        self.raw[25] = (c.red.x % 4 * 64 + c.green.x % 4 * 16 + c.blue.x % 4 * 4 + c.white.x % 4) as u8;
        self.raw[26] = (c.red.y % 4 * 64 + c.green.y % 4 * 16 + c.blue.y % 4 * 4 + c.white.y % 4) as u8;
        self.raw[27] = (c.red.x / 4) as u8;
        self.raw[28] = (c.red.y / 4) as u8;
        self.raw[29] = (c.green.x / 4) as u8;
        self.raw[30] = (c.green.y / 4) as u8;
        self.raw[31] = (c.blue.x / 4) as u8;
        self.raw[32] = (c.blue.y / 4) as u8;
        self.raw[33] = (c.white.x / 4) as u8;
        self.raw[34] = (c.white.y / 4) as u8;
        self.update_checksum();
        Ok(())
    }

    /// Decode the established-timing bitfields from bytes 35-37.
    pub fn established_timings(&self) -> (res: Result<EstablishedTimings, MetadataError>)
        ensures
            !spec_has_header(self.raw@) ==> res == Err::<EstablishedTimings, MetadataError>(
                MetadataError::NotBaseBlock,
            ),
            spec_has_header(self.raw@) ==> (res matches Ok(t) && t.raw@ == self.raw@.subrange(35, 38)),
    {
        if !has_header(&self.raw) {
            return Err(MetadataError::NotBaseBlock);
        }
        let t = EstablishedTimings::from_raw([self.raw[35], self.raw[36], self.raw[37]]);
        assert(t.raw@ =~= self.raw@.subrange(35, 38));
        Ok(t)
    }

    /// Replace established-timing bytes and update the base checksum.
    pub fn set_established_timings(&mut self, timings: &EstablishedTimings) -> (res: Result<(), MetadataError>)
        ensures
            !spec_has_header(old(self).raw@) ==> res == Err::<(), MetadataError>(MetadataError::NotBaseBlock)
                && final(self).raw@ == old(self).raw@,
            spec_has_header(old(self).raw@) ==> res is Ok && final(self).raw@ == spec_with_checksum(
                spec_splice(old(self).raw@, 35, timings.raw@),
            ),
    {
        if !has_header(&self.raw) {
            return Err(MetadataError::NotBaseBlock);
        }
        let ghost before = self.raw@;
        self.raw[35] = timings.raw[0];
        self.raw[36] = timings.raw[1];
        self.raw[37] = timings.raw[2];
        assert(self.raw@ =~= spec_splice(before, 35, timings.raw@));
        self.update_checksum();
        Ok(())
    }

    /// Decode all eight standard-timing slots, preserving unused and reserved
    /// encodings.
    pub fn standard_timings(&self) -> (res: Result<[StandardTimingEntry; 8], MetadataError>)
        ensures
            !spec_has_header(self.raw@) ==> res == Err::<[StandardTimingEntry; 8], MetadataError>(
                MetadataError::NotBaseBlock,
            ),
            spec_has_header(self.raw@) ==> (res matches Ok(t) && t@ == spec_standard_slots(self.raw@)),
    {
        if !has_header(&self.raw) {
            return Err(MetadataError::NotBaseBlock);
        }
        let mut timings = [StandardTimingEntry::Unused;8];
        let mut i: usize = 0;
        while i < 8
            invariant
                i <= 8,
                self.raw@.len() == 128,
                forall|k: int| 0 <= k < i ==> timings@[k] == spec_standard_slots(self.raw@)[k],
            decreases 8 - i,
        {
            let off = 38 + i * 2;
            timings[i] = StandardTimingEntry::decode([self.raw[off], self.raw[off + 1]]);
            i = i + 1;
        }
        assert(timings@ =~= spec_standard_slots(self.raw@));
        Ok(timings)
    }

    /// Replace all standard-timing slots and update the base checksum.
    ///
    /// Every entry is encoded before any byte is written, so on failure the
    /// block is left unchanged.
    pub fn set_standard_timings(&mut self, timings: &[StandardTimingEntry; 8]) -> (res: Result<
        (),
        MetadataWriteError,
    >)
        ensures
            !spec_has_header(old(self).raw@) ==> res == Err::<(), MetadataWriteError>(
                MetadataWriteError::NotBaseBlock,
            ),
            spec_has_header(old(self).raw@) && spec_first_standard_error(timings@, 8) is Some
                ==> res == Err::<(), MetadataWriteError>(spec_first_standard_error(timings@, 8)->0),
            spec_has_header(old(self).raw@) && spec_first_standard_error(timings@, 8) is None
                ==> res is Ok,
            res is Ok ==> final(self).raw@ == spec_with_checksum(
                spec_splice(old(self).raw@, 38, spec_standard_bytes(timings@)),
            ),
            res is Err ==> final(self).raw@ == old(self).raw@,
    {
        if !has_header(&self.raw) {
            return Err(MetadataWriteError::NotBaseBlock);
        }
        let mut encoded = [0u8;16];
        let mut i: usize = 0;
        while i < 8
            invariant
                i <= 8,
                spec_has_header(self.raw@),
                spec_first_standard_error(timings@, i as int) is None,
                forall|j: int| 0 <= j < 2 * i ==> encoded@[j] == spec_standard_bytes(timings@)[j],
            decreases 8 - i,
        {
            match timings[i].encode() {
                Ok(b) => {
                    encoded[2 * i] = b[0];
                    encoded[2 * i + 1] = b[1];
                },
                Err(e) => {
                    proof {
                        lemma_first_standard_error_keeps(timings@, i as int + 1, 8);
                    }
                    return Err(e);
                },
            }
            i = i + 1;
        }
        let ghost before = self.raw@;
        let mut k: usize = 0;
        while k < 16
            invariant
                k <= 16,
                self.raw@.len() == 128,
                before.len() == 128,
                forall|j: int| 0 <= j < 38 ==> self.raw@[j] == before[j],
                forall|j: int| 54 <= j < 128 ==> self.raw@[j] == before[j],
                forall|j: int| 0 <= j < k ==> self.raw@[38 + j] == encoded@[j],
            decreases 16 - k,
        {
            self.raw[38 + k] = encoded[k];
            k = k + 1;
        }
        assert(encoded@ =~= spec_standard_bytes(timings@));
        assert(self.raw@ =~= spec_splice(before, 38, spec_standard_bytes(timings@)));
        self.update_checksum();
        Ok(())
    }
}

proof fn lemma_point_roundtrip(p: ChromaticityPoint, q: ChromaticityPoint, r: ChromaticityPoint, w: ChromaticityPoint)
    requires
        p.x <= 1023 && p.y <= 1023 && q.x <= 1023 && q.y <= 1023,
        r.x <= 1023 && r.y <= 1023 && w.x <= 1023 && w.y <= 1023,
    ensures
        ({
            let lx = p.x % 4 * 64 + q.x % 4 * 16 + r.x % 4 * 4 + w.x % 4;
            let ly = p.y % 4 * 64 + q.y % 4 * 16 + r.y % 4 * 4 + w.y % 4;
            &&& 0 <= lx < 256 && 0 <= ly < 256
            &&& (p.x / 4) * 4 + (lx / 64) % 4 == p.x && (p.y / 4) * 4 + (ly / 64) % 4 == p.y
            &&& (q.x / 4) * 4 + (lx / 16) % 4 == q.x && (q.y / 4) * 4 + (ly / 16) % 4 == q.y
            &&& (r.x / 4) * 4 + (lx / 4) % 4 == r.x && (r.y / 4) * 4 + (ly / 4) % 4 == r.y
            &&& (w.x / 4) * 4 + lx % 4 == w.x && (w.y / 4) * 4 + ly % 4 == w.y
        }),
{
    crate::edid::lemma_pack_crumbs(p.x as int % 4, q.x as int % 4, r.x as int % 4, w.x as int % 4);
    crate::edid::lemma_pack_crumbs(p.y as int % 4, q.y as int % 4, r.y as int % 4, w.y as int % 4);
}

/// Reading the chromaticity back after writing valid points gives the
/// same points, and the header and every byte outside 25-34 and the
/// checksum are kept.
pub proof fn lemma_chromaticity_roundtrip(s: Seq<u8>, c: ChromaticityCoordinates)
    requires
        s.len() == 128,
        spec_chromaticity_error(c) is None,
    ensures
        spec_decode_chromaticity(spec_with_checksum(spec_write_chromaticity(s, c))) == c,
        spec_has_header(s) ==> spec_has_header(spec_with_checksum(spec_write_chromaticity(s, c))),
        forall|i: int| 0 <= i < 25 || 35 <= i < 127 ==> spec_with_checksum(spec_write_chromaticity(s, c))[i] == s[i],
{
    let out = spec_with_checksum(spec_write_chromaticity(s, c));
    lemma_point_roundtrip(c.red, c.green, c.blue, c.white);
    if spec_has_header(s) {
        assert(out.take(8) =~= s.take(8));
    }
}

/// Reading the standard timings back after writing encodable entries gives
/// the same entries.
pub proof fn lemma_standard_timings_roundtrip(s: Seq<u8>, t: Seq<StandardTimingEntry>)
    requires
        s.len() == 128,
        t.len() == 8,
        spec_first_standard_error(t, 8) is None,
    ensures
        spec_standard_slots(spec_with_checksum(spec_splice(s, 38, spec_standard_bytes(t)))) == t,
        spec_has_header(s) ==> spec_has_header(spec_with_checksum(spec_splice(s, 38, spec_standard_bytes(t)))),
{
    let out = spec_with_checksum(spec_splice(s, 38, spec_standard_bytes(t)));
    lemma_first_standard_error_step(t, 8);
    assert forall|k: int| 0 <= k < 8 implies spec_standard_slots(out)[k] == t[k] by {
        lemma_standard_timing_roundtrip(t[k]);
        assert(out[38 + 2 * k] == spec_standard_bytes(t)[2 * k]);
        assert(out[39 + 2 * k] == spec_standard_bytes(t)[2 * k + 1]);
        assert((2 * k) / 2 == k);
        assert((2 * k + 1) / 2 == k);
    }
    assert(spec_standard_slots(out) =~= t);
    if spec_has_header(s) {
        assert(out.take(8) =~= s.take(8));
    }
}

/// Decoded identity and capability fields from an EDID base block.
#[derive(Clone, Debug, PartialEq, Eq)]
pub struct BaseMetadata {
    /// Three-letter manufacturer ID.
    pub manufacturer_id: String,
    /// Product code from the base block.
    pub product_code: u16,
    /// Product serial number from the base block.
    pub serial_number: u32,
    /// Week of manufacture, as encoded by EDID.
    pub manufacture_week: u8,
    /// Absolute year of manufacture.
    pub manufacture_year: u16,
    /// Raw video input definition byte.
    pub input: u8,
    /// Horizontal display size in centimeters.
    pub horizontal_size_cm: u8,
    /// Vertical display size in centimeters.
    pub vertical_size_cm: u8,
    /// Gamma multiplied by 100; `None` means unspecified.
    pub gamma: Option<u16>,
    /// Raw feature-support flags byte.
    pub feature_flags: u8,
}

/// The UTF-8 bytes of the manufacturer ID.
pub open spec fn spec_id_bytes(m: BaseMetadata) -> Seq<u8> {
    encode_utf8(m.manufacturer_id@)
}

/// `b` is an ASCII uppercase letter.
pub open spec fn spec_upper(b: u8) -> bool {
    65 <= b <= 90
}

/// The first reason, in validation order, that the metadata cannot be
/// written into a base block.
pub open spec fn spec_metadata_error(m: BaseMetadata) -> Option<MetadataError> {
    let id = spec_id_bytes(m);
    if id.len() != 3 {
        Some(MetadataError::InvalidManufacturerId)
    } else if !spec_upper(id[0]) {
        Some(MetadataError::InvalidManufacturerCharacter { index: 0, character: id[0] as char })
    } else if !spec_upper(id[1]) {
        Some(MetadataError::InvalidManufacturerCharacter { index: 1, character: id[1] as char })
    } else if !spec_upper(id[2]) {
        Some(MetadataError::InvalidManufacturerCharacter { index: 2, character: id[2] as char })
    } else if !(1990 <= m.manufacture_year <= 2245) {
        Some(MetadataError::InvalidManufactureYear { year: m.manufacture_year })
    } else if !(m.manufacture_week <= 54 || m.manufacture_week == 255) {
        Some(MetadataError::InvalidManufactureWeek { week: m.manufacture_week })
    } else if m.gamma is Some && !(101 <= m.gamma->0 <= 355) {
        Some(MetadataError::InvalidGamma { value: m.gamma->0 })
    } else {
        None
    }
}

impl BaseMetadata {
    /// Validate fields before writing them into a base block.
    pub fn validate(&self) -> (res: Result<(), MetadataError>)
        ensures
            res == (match spec_metadata_error(*self) {
                None => Ok(()),
                Some(e) => Err(e),
            }),
    {
        let id = self.manufacturer_id.as_str().as_bytes();
        if id.len() != 3 {
            return Err(MetadataError::InvalidManufacturerId);
        }
        let mut index: usize = 0;
        while index < 3
            invariant
                index <= 3,
                id@ == spec_id_bytes(*self),
                id@.len() == 3,
                forall|k: int| 0 <= k < index ==> spec_upper(id@[k]),
            decreases 3 - index,
        {
            let byte = id[index];
            if !(65 <= byte && byte <= 90) {
                return Err(MetadataError::InvalidManufacturerCharacter { index, character: byte as char });
            }
            index = index + 1;
        }
        if !(1990 <= self.manufacture_year && self.manufacture_year <= 2245) {
            return Err(MetadataError::InvalidManufactureYear { year: self.manufacture_year });
        }
        if !(self.manufacture_week <= 54 || self.manufacture_week == 255) {
            return Err(MetadataError::InvalidManufactureWeek { week: self.manufacture_week });
        }
        if let Some(gamma) = self.gamma {
            if !(101 <= gamma && gamma <= 355) {
                return Err(MetadataError::InvalidGamma { value: gamma });
            }
        }
        Ok(())
    }
}

/// The three five-bit manufacturer letter codes of bytes 8-9.
pub open spec fn spec_id_codes(s: Seq<u8>) -> (int, int, int) {
    let e = s[8] * 256 + s[9];
    ((e / 1024) % 32, (e / 32) % 32, e % 32)
}

/// Every manufacturer letter code is in 1..=26 (A-Z).
pub open spec fn spec_id_codes_valid(s: Seq<u8>) -> bool {
    let c = spec_id_codes(s);
    1 <= c.0 <= 26 && 1 <= c.1 <= 26 && 1 <= c.2 <= 26
}

/// The manufacturer letters of a base block.
pub open spec fn spec_id_chars(s: Seq<u8>) -> Seq<char> {
    let c = spec_id_codes(s);
    seq![(64 + c.0) as char, (64 + c.1) as char, (64 + c.2) as char]
}

/// `m` holds the identity and capability fields of block bytes `s`.
pub open spec fn spec_metadata_of(s: Seq<u8>, m: BaseMetadata) -> bool {
    &&& m.manufacturer_id@ == spec_id_chars(s)
    &&& m.product_code == s[10] + 256 * s[11]
    &&& m.serial_number == s[12] + 256 * s[13] + 65536 * s[14] + 16777216 * s[15]
    &&& m.manufacture_week == s[16]
    &&& m.manufacture_year == 1990 + s[17]
    &&& m.input == s[20]
    &&& m.horizontal_size_cm == s[21]
    &&& m.vertical_size_cm == s[22]
    &&& m.gamma == (if s[23] == 0 { None } else { Some((100 + s[23]) as u16) })
    &&& m.feature_flags == s[24]
}

/// The bytes of `s` with the (valid) metadata `m` written into them.
pub open spec fn spec_write_metadata(s: Seq<u8>, m: BaseMetadata) -> Seq<u8> {
    let id = spec_id_bytes(m);
    let e = (id[0] - 64) * 1024 + (id[1] - 64) * 32 + (id[2] - 64);
    s.update(8, (e / 256) as u8).update(9, (e % 256) as u8)
        .update(10, (m.product_code % 256) as u8).update(11, (m.product_code / 256) as u8)
        .update(12, (m.serial_number % 256) as u8)
        .update(13, ((m.serial_number / 256) % 256) as u8)
        .update(14, ((m.serial_number / 65536) % 256) as u8)
        .update(15, (m.serial_number / 16777216) as u8)
        .update(16, m.manufacture_week)
        .update(17, (m.manufacture_year - 1990) as u8)
        .update(20, m.input)
        .update(21, m.horizontal_size_cm)
        .update(22, m.vertical_size_cm)
        .update(23, match m.gamma { Some(g) => (g - 100) as u8, None => 0u8 })
        .update(24, m.feature_flags)
}

impl EdidBlock {
    /// Decode base-block identity and capability fields.
    pub fn metadata(&self) -> (res: Result<BaseMetadata, MetadataError>)
        ensures
            !spec_has_header(self.raw@) ==> res == Err::<BaseMetadata, MetadataError>(MetadataError::NotBaseBlock),
            spec_has_header(self.raw@) && !spec_id_codes_valid(self.raw@) ==> res
                == Err::<BaseMetadata, MetadataError>(MetadataError::InvalidManufacturerId),
            spec_has_header(self.raw@) && spec_id_codes_valid(self.raw@) ==> (res matches Ok(m)
                && spec_metadata_of(self.raw@, m)),
    {
        if !has_header(&self.raw) {
            return Err(MetadataError::NotBaseBlock);
        }
        let encoded: u16 = self.raw[8] as u16 * 256 + self.raw[9] as u16;
        let c0: u16 = (encoded / 1024) % 32;
        let c1: u16 = (encoded / 32) % 32;
        let c2: u16 = encoded % 32;
        if !(1 <= c0 && c0 <= 26) || !(1 <= c1 && c1 <= 26) || !(1 <= c2 && c2 <= 26) {
            return Err(MetadataError::InvalidManufacturerId);
        }
        let mut manufacturer_id = String::new();
        string_push(&mut manufacturer_id, (64 + c0) as u8 as char);
        string_push(&mut manufacturer_id, (64 + c1) as u8 as char);
        string_push(&mut manufacturer_id, (64 + c2) as u8 as char);
        assert(manufacturer_id@ =~= spec_id_chars(self.raw@));
        let gamma = if self.raw[23] != 0 { Some(100 + self.raw[23] as u16) } else { None };
        Ok(BaseMetadata {
            manufacturer_id,
            product_code: self.raw[10] as u16 + 256 * self.raw[11] as u16,
            serial_number: self.raw[12] as u32 + 256 * self.raw[13] as u32 + 65536 * self.raw[14] as u32
                + 16777216 * self.raw[15] as u32,
            manufacture_week: self.raw[16],
            manufacture_year: 1990 + self.raw[17] as u16,
            input: self.raw[20],
            horizontal_size_cm: self.raw[21],
            vertical_size_cm: self.raw[22],
            gamma,
            feature_flags: self.raw[24],
        })
    }

    /// Encode base-block identity and capability fields and update the
    /// checksum. On failure the block is left unchanged.
    pub fn set_metadata(&mut self, metadata: &BaseMetadata) -> (res: Result<(), MetadataError>)
        ensures
            !spec_has_header(old(self).raw@) ==> res == Err::<(), MetadataError>(MetadataError::NotBaseBlock),
            spec_has_header(old(self).raw@) && spec_metadata_error(*metadata) is Some ==> res == Err::<
                (),
                MetadataError,
            >(spec_metadata_error(*metadata)->0),
            spec_has_header(old(self).raw@) && spec_metadata_error(*metadata) is None ==> res is Ok,
            res is Ok ==> final(self).raw@ == spec_with_checksum(spec_write_metadata(old(self).raw@, *metadata)),
            res is Err ==> final(self).raw@ == old(self).raw@,
    {
        if !has_header(&self.raw) {
            return Err(MetadataError::NotBaseBlock);
        }
        metadata.validate()?;
        let id = metadata.manufacturer_id.as_str().as_bytes();
        let encoded: u16 = (id[0] - 64) as u16 * 1024 + (id[1] - 64) as u16 * 32 + (id[2] - 64) as u16;
        self.raw[8] = (encoded / 256) as u8;
        self.raw[9] = (encoded % 256) as u8;
        self.raw[10] = (metadata.product_code % 256) as u8;
        self.raw[11] = (metadata.product_code / 256) as u8;
        self.raw[12] = (metadata.serial_number % 256) as u8;
        self.raw[13] = ((metadata.serial_number / 256) % 256) as u8;
        self.raw[14] = ((metadata.serial_number / 65536) % 256) as u8;
        self.raw[15] = (metadata.serial_number / 16777216) as u8;
        self.raw[16] = metadata.manufacture_week;
        self.raw[17] = (metadata.manufacture_year - 1990) as u8;
        self.raw[20] = metadata.input;
        self.raw[21] = metadata.horizontal_size_cm;
        self.raw[22] = metadata.vertical_size_cm;
        self.raw[23] = match metadata.gamma {
            Some(g) => (g - 100) as u8,
            None => 0,
        };
        self.raw[24] = metadata.feature_flags;
        self.update_checksum();
        Ok(())
    }
}

proof fn lemma_id_codes(a: int, b: int, c: int)
    requires
        1 <= a <= 26,
        1 <= b <= 26,
        1 <= c <= 26,
    ensures
        ({
            let e = a * 1024 + b * 32 + c;
            let hi = e / 256;
            let lo = e % 256;
            &&& 0 <= hi < 256 && 0 <= lo < 256
            &&& ((hi * 256 + lo) / 1024) % 32 == a
            &&& ((hi * 256 + lo) / 32) % 32 == b
            &&& (hi * 256 + lo) % 32 == c
        }),
{
    let e = a * 1024 + b * 32 + c;
    assert(e / 256 * 256 + e % 256 == e);
    assert(e / 1024 == a);
    assert((e / 32) == a * 32 + b);
}

proof fn lemma_le_u32(v: u32)
    ensures
        v % 256 + 256 * ((v / 256) % 256) + 65536 * ((v / 65536) % 256) + 16777216 * (v / 16777216)
            == v,
        v / 16777216 < 256,
{
    assert(v / 65536 == (v / 256) / 256) by {
        vstd::arithmetic::div_mod::lemma_div_denominator(v as int, 256, 256);
    }
    assert(v / 16777216 == (v / 65536) / 256) by {
        vstd::arithmetic::div_mod::lemma_div_denominator(v as int, 65536, 256);
    }
}

/// Reading the metadata back after writing valid metadata gives the same
/// fields (the manufacturer ID as the same characters), and the header is
/// kept.
pub proof fn lemma_metadata_roundtrip(s: Seq<u8>, m: BaseMetadata)
    requires
        s.len() == 128,
        spec_metadata_error(m) is None,
    ensures
        spec_id_codes_valid(spec_with_checksum(spec_write_metadata(s, m))),
        spec_metadata_of(spec_with_checksum(spec_write_metadata(s, m)), m),
        spec_has_header(s) ==> spec_has_header(spec_with_checksum(spec_write_metadata(s, m))),
{
    let out = spec_with_checksum(spec_write_metadata(s, m));
    let id = spec_id_bytes(m);
    lemma_ascii_chars(m.manufacturer_id@);
    lemma_id_codes(id[0] - 64, id[1] - 64, id[2] - 64);
    lemma_le_u32(m.serial_number);
    assert(m.manufacturer_id@ =~= spec_id_chars(out));
    if spec_has_header(s) {
        assert(out.take(8) =~= s.take(8));
    }
}

impl EdidBlock {
    /// Construct a valid default base block populated with identity
    /// metadata: unused standard timings, dummy descriptors in all four
    /// slots, and a valid checksum.
    pub fn from_metadata(metadata: &BaseMetadata) -> (res: Result<Self, MetadataError>)
        ensures
            spec_metadata_error(*metadata) is Some ==> res == Err::<Self, MetadataError>(
                spec_metadata_error(*metadata)->0,
            ),
            spec_metadata_error(*metadata) is None ==> (res matches Ok(b) && spec_metadata_of(b.raw@, *metadata)
                && spec_has_header(b.raw@) && byte_sum(b.raw@) % 256 == 0 && forall|i: int|
                0 <= i < 127 && !(8 <= i < 18 || 20 <= i < 25) ==> b.raw@[i] == crate::edid::spec_default_byte(i)),
    {
        let mut block = Self::new_default();
        proof {
            assert forall|i: int| 0 <= i < 8 implies block.raw@.take(8)[i] == crate::edid::spec_header()[i] by {
                assert(block.raw@[i] == crate::edid::spec_default_byte(i));
            }
            assert(block.raw@.take(8) =~= crate::edid::spec_header());
        }
        let ghost before = block.raw@;
        block.set_metadata(metadata)?;
        proof {
            lemma_metadata_roundtrip(before, *metadata);
            lemma_with_checksum_sum(spec_write_metadata(before, *metadata));
        }
        Ok(block)
    }
}

/// The established timing `t` is marked in the three bytes `raw` (bytes
/// 35-37 of a base block).
pub open spec fn spec_established_set(raw: Seq<u8>, t: EstablishedTiming) -> bool {
    spec_bit_set(raw[spec_established_bit(t).0], spec_established_bit(t).1)
}

/// Each established timing is its bit of E-EDID 1.4 (table 3.18): byte 35
/// bits 7 to 0 mark 720x400@70, 720x400@88, 640x480@60, 640x480@67,
/// 640x480@72, 640x480@75, 800x600@56 and 800x600@60; byte 36 bits 7 to 0
/// mark 800x600@72, 800x600@75, 832x624@75, 1024x768@87 interlaced,
/// 1024x768@60, 1024x768@70, 1024x768@75 and 1280x1024@75; byte 37 bit 7
/// marks 1152x870@75. The listed modes are exactly the marked ones.
pub proof fn lemma_established_timing_bits(raw: Seq<u8>)
    requires
        raw.len() == 3,
    ensures
        spec_established_set(raw, EstablishedTiming::Mode720x400At70) == ((raw[0] / 128) % 2 == 1),
        spec_established_set(raw, EstablishedTiming::Mode720x400At88) == ((raw[0] / 64) % 2 == 1),
        spec_established_set(raw, EstablishedTiming::Mode640x480At60) == ((raw[0] / 32) % 2 == 1),
        spec_established_set(raw, EstablishedTiming::Mode640x480At67) == ((raw[0] / 16) % 2 == 1),
        spec_established_set(raw, EstablishedTiming::Mode640x480At72) == ((raw[0] / 8) % 2 == 1),
        spec_established_set(raw, EstablishedTiming::Mode640x480At75) == ((raw[0] / 4) % 2 == 1),
        spec_established_set(raw, EstablishedTiming::Mode800x600At56) == ((raw[0] / 2) % 2 == 1),
        spec_established_set(raw, EstablishedTiming::Mode800x600At60) == (raw[0] % 2 == 1),
        spec_established_set(raw, EstablishedTiming::Mode800x600At72) == ((raw[1] / 128) % 2 == 1),
        spec_established_set(raw, EstablishedTiming::Mode800x600At75) == ((raw[1] / 64) % 2 == 1),
        spec_established_set(raw, EstablishedTiming::Mode832x624At75) == ((raw[1] / 32) % 2 == 1),
        spec_established_set(raw, EstablishedTiming::Mode1024x768At87Interlaced) == ((raw[1] / 16) % 2 == 1),
        spec_established_set(raw, EstablishedTiming::Mode1024x768At60) == ((raw[1] / 8) % 2 == 1),
        spec_established_set(raw, EstablishedTiming::Mode1024x768At70) == ((raw[1] / 4) % 2 == 1),
        spec_established_set(raw, EstablishedTiming::Mode1024x768At75) == ((raw[1] / 2) % 2 == 1),
        spec_established_set(raw, EstablishedTiming::Mode1280x1024At75) == (raw[1] % 2 == 1),
        spec_established_set(raw, EstablishedTiming::Mode1152x870At75) == ((raw[2] / 128) % 2 == 1),
        forall|t: EstablishedTiming| #[trigger]
            spec_established_modes(raw).contains(t) <==> spec_established_set(raw, t),
{
    assert(raw[0] as int / 1 == raw[0] as int);
    assert(raw[1] as int / 1 == raw[1] as int);
    let all = spec_all_established();
    let f = |t: EstablishedTiming| spec_bit_set(raw[spec_established_bit(t).0], spec_established_bit(t).1);
    assert forall|t: EstablishedTiming| #[trigger]
        spec_established_modes(raw).contains(t) <==> spec_established_set(raw, t) by {
        let k: int = match t {
            EstablishedTiming::Mode720x400At70 => 0,
            EstablishedTiming::Mode720x400At88 => 1,
            EstablishedTiming::Mode640x480At60 => 2,
            EstablishedTiming::Mode640x480At67 => 3,
            EstablishedTiming::Mode640x480At72 => 4,
            EstablishedTiming::Mode640x480At75 => 5,
            EstablishedTiming::Mode800x600At56 => 6,
            EstablishedTiming::Mode800x600At60 => 7,
            EstablishedTiming::Mode800x600At72 => 8,
            EstablishedTiming::Mode800x600At75 => 9,
            EstablishedTiming::Mode832x624At75 => 10,
            EstablishedTiming::Mode1024x768At87Interlaced => 11,
            EstablishedTiming::Mode1024x768At60 => 12,
            EstablishedTiming::Mode1024x768At70 => 13,
            EstablishedTiming::Mode1024x768At75 => 14,
            EstablishedTiming::Mode1280x1024At75 => 15,
            EstablishedTiming::Mode1152x870At75 => 16,
        };
        assert(all[k] == t);
        if spec_established_set(raw, t) {
            all.lemma_filter_contains(f, k);
        }
        if spec_established_modes(raw).contains(t) {
            all.lemma_filter_contains_rev(f, t);
        }
    }
}

/// The aspect-ratio code in bits 7:6 of the second byte of a standard
/// timing follows the EDID table: 00 is 16:10, 01 is 4:3, 10 is 5:4 and 11
/// is 16:9, so the decoded vertical size is 10/16, 3/4, 4/5 or 9/16 of the
/// horizontal size. The horizontal size is (first byte + 31) * 8 and the
/// refresh rate is the low six bits plus 60.
pub proof fn lemma_standard_timing_decode_table(b0: u8, b1: u8)
    requires
        b0 != 0,
        !(b0 == 1 && b1 == 1),
    ensures
        spec_decode_standard(b0, b1) matches StandardTimingEntry::Timing(t) && t.horizontal_pixels == (b0 + 31) * 8
            && t.refresh_rate_hz == b1 % 64 + 60 && ((b1 / 64 == 0) == (t.aspect_ratio
            == StandardTimingAspectRatio::SixteenByTen)) && ((b1 / 64 == 1) == (t.aspect_ratio
            == StandardTimingAspectRatio::FourByThree)) && ((b1 / 64 == 2) == (t.aspect_ratio
            == StandardTimingAspectRatio::FiveByFour)) && ((b1 / 64 == 3) == (t.aspect_ratio
            == StandardTimingAspectRatio::SixteenByNine)) && (b1 / 64 == 0 ==> spec_vertical_pixels(
            t.aspect_ratio,
            t.horizontal_pixels as int,
        ) == t.horizontal_pixels * 10 / 16) && (b1 / 64 == 1 ==> spec_vertical_pixels(
            t.aspect_ratio,
            t.horizontal_pixels as int,
        ) == t.horizontal_pixels * 3 / 4) && (b1 / 64 == 2 ==> spec_vertical_pixels(
            t.aspect_ratio,
            t.horizontal_pixels as int,
        ) == t.horizontal_pixels * 4 / 5) && (b1 / 64 == 3 ==> spec_vertical_pixels(
            t.aspect_ratio,
            t.horizontal_pixels as int,
        ) == t.horizontal_pixels * 9 / 16),
{
}

/// Writing a representable standard timing puts the EDID aspect code in
/// bits 7:6 of the second byte (00 for 16:10, 01 for 4:3, 10 for 5:4, 11 for
/// 16:9), the refresh rate minus 60 in its low six bits, and the horizontal
/// size / 8 - 31 in the first byte.
pub proof fn lemma_standard_timing_encode_table(t: StandardTiming)
    requires
        spec_standard_timing_error(t) is None,
    ensures
        spec_encode_standard(StandardTimingEntry::Timing(t)) matches Ok((x, y)) && x == t.horizontal_pixels / 8 - 31
            && y % 64 == t.refresh_rate_hz - 60 && (t.aspect_ratio == StandardTimingAspectRatio::SixteenByTen
            ==> y / 64 == 0) && (t.aspect_ratio == StandardTimingAspectRatio::FourByThree ==> y / 64 == 1) && (
        t.aspect_ratio == StandardTimingAspectRatio::FiveByFour ==> y / 64 == 2) && (t.aspect_ratio
            == StandardTimingAspectRatio::SixteenByNine ==> y / 64 == 3),
{
}

/// Each Established Timings III entry is its bit of the six-byte bitmap of
/// VESA E-EDID 1.4 Established Timings III descriptor, most significant bit first: byte 0 holds
/// 640x350@85 down to 1152x864@75, byte 1 1280x768@60 reduced blanking down
/// to 1280x1024@85, byte 2 1360x768@60 down to 1400x1050@75, byte 3
/// 1400x1050@85 down to 1600x1200@70, byte 4 1600x1200@75 down to
/// 1920x1200@60, and bits 7 to 4 of byte 5 1920x1200@75 to 1920x1440@75.
pub proof fn lemma_et3_bits(raw: Seq<u8>)
    requires
        raw.len() == 6,
    ensures
        spec_et3_has(raw, EstablishedTiming3::Res640x350_85Hz) == ((raw[0] / 128) % 2 == 1),
        spec_et3_has(raw, EstablishedTiming3::Res640x400_85Hz) == ((raw[0] / 64) % 2 == 1),
        spec_et3_has(raw, EstablishedTiming3::Res720x400_85Hz) == ((raw[0] / 32) % 2 == 1),
        spec_et3_has(raw, EstablishedTiming3::Res640x480_85Hz) == ((raw[0] / 16) % 2 == 1),
        spec_et3_has(raw, EstablishedTiming3::Res848x480_60Hz) == ((raw[0] / 8) % 2 == 1),
        spec_et3_has(raw, EstablishedTiming3::Res800x600_85Hz) == ((raw[0] / 4) % 2 == 1),
        spec_et3_has(raw, EstablishedTiming3::Res1024x768_85Hz) == ((raw[0] / 2) % 2 == 1),
        spec_et3_has(raw, EstablishedTiming3::Res1152x864_75Hz) == (raw[0] % 2 == 1),
        spec_et3_has(raw, EstablishedTiming3::Res1280x768_60HzRb) == ((raw[1] / 128) % 2 == 1),
        spec_et3_has(raw, EstablishedTiming3::Res1280x768_60Hz) == ((raw[1] / 64) % 2 == 1),
        spec_et3_has(raw, EstablishedTiming3::Res1280x768_75Hz) == ((raw[1] / 32) % 2 == 1),
        spec_et3_has(raw, EstablishedTiming3::Res1280x768_85Hz) == ((raw[1] / 16) % 2 == 1),
        spec_et3_has(raw, EstablishedTiming3::Res1280x960_60Hz) == ((raw[1] / 8) % 2 == 1),
        spec_et3_has(raw, EstablishedTiming3::Res1280x960_85Hz) == ((raw[1] / 4) % 2 == 1),
        spec_et3_has(raw, EstablishedTiming3::Res1280x1024_60Hz) == ((raw[1] / 2) % 2 == 1),
        spec_et3_has(raw, EstablishedTiming3::Res1280x1024_85Hz) == (raw[1] % 2 == 1),
        spec_et3_has(raw, EstablishedTiming3::Res1360x768_60Hz) == ((raw[2] / 128) % 2 == 1),
        spec_et3_has(raw, EstablishedTiming3::Res1440x900_60HzRb) == ((raw[2] / 64) % 2 == 1),
        spec_et3_has(raw, EstablishedTiming3::Res1440x900_60Hz) == ((raw[2] / 32) % 2 == 1),
        spec_et3_has(raw, EstablishedTiming3::Res1440x900_75Hz) == ((raw[2] / 16) % 2 == 1),
        spec_et3_has(raw, EstablishedTiming3::Res1440x900_85Hz) == ((raw[2] / 8) % 2 == 1),
        spec_et3_has(raw, EstablishedTiming3::Res1400x1050_60HzRb) == ((raw[2] / 4) % 2 == 1),
        spec_et3_has(raw, EstablishedTiming3::Res1400x1050_60Hz) == ((raw[2] / 2) % 2 == 1),
        spec_et3_has(raw, EstablishedTiming3::Res1400x1050_75Hz) == (raw[2] % 2 == 1),
        spec_et3_has(raw, EstablishedTiming3::Res1400x1050_85Hz) == ((raw[3] / 128) % 2 == 1),
        spec_et3_has(raw, EstablishedTiming3::Res1680x1050_60HzRb) == ((raw[3] / 64) % 2 == 1),
        spec_et3_has(raw, EstablishedTiming3::Res1680x1050_60Hz) == ((raw[3] / 32) % 2 == 1),
        spec_et3_has(raw, EstablishedTiming3::Res1680x1050_75Hz) == ((raw[3] / 16) % 2 == 1),
        spec_et3_has(raw, EstablishedTiming3::Res1680x1050_85Hz) == ((raw[3] / 8) % 2 == 1),
        spec_et3_has(raw, EstablishedTiming3::Res1600x1200_60Hz) == ((raw[3] / 4) % 2 == 1),
        spec_et3_has(raw, EstablishedTiming3::Res1600x1200_65Hz) == ((raw[3] / 2) % 2 == 1),
        spec_et3_has(raw, EstablishedTiming3::Res1600x1200_70Hz) == (raw[3] % 2 == 1),
        spec_et3_has(raw, EstablishedTiming3::Res1600x1200_75Hz) == ((raw[4] / 128) % 2 == 1),
        spec_et3_has(raw, EstablishedTiming3::Res1600x1200_85Hz) == ((raw[4] / 64) % 2 == 1),
        spec_et3_has(raw, EstablishedTiming3::Res1792x1344_60Hz) == ((raw[4] / 32) % 2 == 1),
        spec_et3_has(raw, EstablishedTiming3::Res1792x1344_75Hz) == ((raw[4] / 16) % 2 == 1),
        spec_et3_has(raw, EstablishedTiming3::Res1856x1392_60Hz) == ((raw[4] / 8) % 2 == 1),
        spec_et3_has(raw, EstablishedTiming3::Res1856x1392_75Hz) == ((raw[4] / 4) % 2 == 1),
        spec_et3_has(raw, EstablishedTiming3::Res1920x1200_60HzRb) == ((raw[4] / 2) % 2 == 1),
        spec_et3_has(raw, EstablishedTiming3::Res1920x1200_60Hz) == (raw[4] % 2 == 1),
        spec_et3_has(raw, EstablishedTiming3::Res1920x1200_75Hz) == ((raw[5] / 128) % 2 == 1),
        spec_et3_has(raw, EstablishedTiming3::Res1920x1200_85Hz) == ((raw[5] / 64) % 2 == 1),
        spec_et3_has(raw, EstablishedTiming3::Res1920x1440_60Hz) == ((raw[5] / 32) % 2 == 1),
        spec_et3_has(raw, EstablishedTiming3::Res1920x1440_75Hz) == ((raw[5] / 16) % 2 == 1),
{
    assert forall|k: int| 0 <= k < 6 implies raw[k] as int / 1 == raw[k] as int by {}
}

} // verus!
