//! Monitor descriptors stored in the four 18-byte base-block descriptor
//! slots, and the small records they carry.
use vstd::prelude::*;
use vstd::utf8::encode_utf8;
use crate::edid::{Edid, EdidBlock, byte_sum, spec_has_header, spec_slot_bytes, spec_splice, has_header};
use crate::error::{DescriptorError, MetadataWriteError};
use crate::metadata::{
    ChromaticityPoint, EstablishedTimings3, StandardTimingEntry, spec_decode_standard,
    spec_encode_standard, spec_first_standard_error, spec_with_checksum, lemma_with_checksum_sum,
    lemma_first_standard_error_step, lemma_standard_timing_roundtrip,
};
use crate::text::{spec_ascii_bytes, spec_bytes_to_chars, string_push, lemma_ascii_chars};

verus! {

const TEXT_PAYLOAD_LEN: usize = 13;

const DESCRIPTOR_SLOTS: usize = 4;

/// One white-point entry in an Additional Color Point descriptor (tag 0xFB).
#[derive(Copy, Clone, Debug, PartialEq, Eq)]
pub struct AdditionalColorPoint {
    /// White point index (1..=255).
    pub index: u8,
    /// 10-bit Chromaticity point.
    pub point: ChromaticityPoint,
    /// Gamma multiplied by 100, e.g. 220 for gamma 2.2; `None` when unspecified.
    pub gamma: Option<u16>,
}

/// Aspect ratio code for a CVT 3-byte timing code (Tag 0xF8).
#[derive(Copy, Clone, Debug, PartialEq, Eq)]
pub enum CvtAspectRatio {
    /// 4:3 aspect ratio (code 00b).
    Ratio4x3,
    /// 16:9 aspect ratio (code 01b).
    Ratio16x9,
    /// 16:10 aspect ratio (code 10b).
    Ratio16x10,
    /// 15:9 aspect ratio (code 11b).
    Ratio15x9,
}

/// Preferred vertical refresh rate code for a CVT 3-byte timing code (Tag 0xF8).
#[derive(Copy, Clone, Debug, PartialEq, Eq)]
pub enum CvtPreferredRate {
    /// 50 Hz vertical rate, standard blanking (code 000b).
    Hz50Standard,
    /// 60 Hz vertical rate, standard blanking (code 001b).
    Hz60Standard,
    /// 75 Hz vertical rate, standard blanking (code 010b).
    Hz75Standard,
    /// 85 Hz vertical rate, standard blanking (code 011b).
    Hz85Standard,
    /// 60 Hz vertical rate, reduced blanking (code 100b).
    Hz60ReducedBlanking,
    /// Reserved preferred rate code (code 101b..111b).
    Reserved(u8),
}

/// Supported vertical refresh rates bitmask for a CVT 3-byte timing code (Tag 0xF8).
#[derive(Copy, Clone, Debug, PartialEq, Eq, Default)]
pub struct CvtSupportedRates {
    /// Raw byte 2 supported rate bits 4..=0.
    pub raw: u8,
}

impl CvtSupportedRates {
    /// 50 Hz with standard blanking (bit 4, mask 0x10).
    pub fn supports_50hz_standard(&self) -> (b: bool)
        ensures
            b == ((self.raw / 16) % 2 == 1),
    {
        (self.raw / 16) % 2 == 1
    }

    /// 60 Hz with standard blanking (bit 3, mask 0x08).
    pub fn supports_60hz_standard(&self) -> (b: bool)
        ensures
            b == ((self.raw / 8) % 2 == 1),
    {
        (self.raw / 8) % 2 == 1
    }

    /// 75 Hz with standard blanking (bit 2, mask 0x04).
    pub fn supports_75hz_standard(&self) -> (b: bool)
        ensures
            b == ((self.raw / 4) % 2 == 1),
    {
        (self.raw / 4) % 2 == 1
    }

    /// 85 Hz with standard blanking (bit 1, mask 0x02).
    pub fn supports_85hz_standard(&self) -> (b: bool)
        ensures
            b == ((self.raw / 2) % 2 == 1),
    {
        (self.raw / 2) % 2 == 1
    }

    /// 60 Hz with reduced blanking (bit 0, mask 0x01).
    pub fn supports_60hz_reduced_blanking(&self) -> (b: bool)
        ensures
            b == (self.raw % 2 == 1),
    {
        self.raw % 2 == 1
    }
}

/// One 3-byte CVT timing code entry in an EDID 1.4 Tag 0xF8 descriptor.
#[derive(Copy, Clone, Debug, PartialEq, Eq)]
pub enum Cvt3ByteTimingEntry {
    /// Empty or unused timing slot (all 3 bytes 0x00).
    Unused,
    /// Active CVT 3-byte timing definition.
    Active {
        /// Addressable vertical lines (e.g. 768, 900, 1050, 1080, 1200).
        addressable_lines: u16,
        /// Aspect ratio.
        aspect_ratio: CvtAspectRatio,
        /// Preferred vertical rate.
        preferred_rate: CvtPreferredRate,
        /// Supported vertical rates bitmask.
        supported_rates: CvtSupportedRates,
    },
    /// Reserved or unparseable 3-byte timing code.
    Reserved([u8; 3]),
}

/// Display Color Management (DCM) data descriptor (Tag 0xF9, EDID 1.4 §3.10.3.7).
#[derive(Copy, Clone, Debug, PartialEq, Eq)]
pub struct ColorManagementDescriptor {
    /// Descriptor version/revision (typically 0x03).
    pub revision: u8,
    /// Red a3 coefficient.
    pub red_a3: u16,
    /// Red a2 coefficient.
    pub red_a2: u16,
    /// Green a3 coefficient.
    pub green_a3: u16,
    /// Green a2 coefficient.
    pub green_a2: u16,
    /// Blue a3 coefficient.
    pub blue_a3: u16,
    /// Blue a2 coefficient.
    pub blue_a2: u16,
}

/// Secondary GTF curve parameters in a Range Limits descriptor (Tag 0xFD, EDID 1.4 §3.10.3.3.1).
#[derive(Copy, Clone, Debug, PartialEq, Eq)]
pub struct SecondaryGtfParameters {
    /// Start break frequency in kHz (must be even, encoded as F_start / 2 in 2 kHz units).
    pub start_horizontal_frequency_khz: u16,
    /// C parameter multiplied by 2 (e.g. 80 for C = 40.0, stored in 0.5% units).
    pub parameter_c: u8,
    /// M parameter slope in kHz / % (16-bit little-endian, e.g. 600).
    pub slope_m: u16,
    /// K parameter offset (0..=255, e.g. 128).
    pub offset_k: u8,
    /// J parameter scaling factor multiplied by 2 (e.g. 40 for J = 20.0, stored in 0.5% units).
    pub scaling_j: u8,
}

/// CVT support definition in a Range Limits descriptor (Tag 0xFD, EDID 1.4 §3.10.3.3.1).
#[derive(Copy, Clone, Debug, PartialEq, Eq)]
pub struct CvtRangeSupport {
    /// CVT revision (e.g. 0x11 for CVT 1.1).
    pub revision: u8,
    /// Additional pixel clock precision / clock step.
    pub max_pixel_clock_precision: u8,
    /// Maximum active horizontal pixels in 8-pixel units (pixels = value * 8).
    pub max_active_pixels: u16,
    /// Supported aspect ratios bitmask.
    pub supported_aspect_ratios: u8,
    /// Preferred aspect ratio and blanking flags.
    pub preferred_aspect_ratio_and_flags: u8,
    /// Display scaling support flags.
    pub scaling_support: u8,
    /// Preferred vertical refresh rate in Hz.
    pub preferred_vertical_rate_hz: u8,
}

/// Optional extended timing formula definition in a Range Limits descriptor.
#[derive(Copy, Clone, Debug, PartialEq, Eq)]
pub enum RangeLimitsExtension {
    /// Standard GTF or Range Limits only (code 0x00 or 0x01).
    Standard,
    /// Secondary GTF curve definition (code 0x02).
    SecondaryGtf(SecondaryGtfParameters),
    /// CVT support definition (code 0x04).
    Cvt(CvtRangeSupport),
    /// Raw unparsed extension definition.
    Unknown {
        /// Timing definition code (byte 10 of descriptor).
        definition_code: u8,
        /// Raw 7 payload bytes (bytes 11..17 of descriptor).
        payload: [u8; 7],
    },
}

/// A monitor descriptor stored in one of the four base-block descriptor slots.
#[derive(Clone, Debug, PartialEq, Eq)]
pub enum MonitorDescriptor {
    /// Display serial number text descriptor.
    SerialNumber(String),
    /// Display product name text descriptor.
    ProductName(String),
    /// Alphanumeric Data String text descriptor (Tag 0xFE).
    AlphanumericString(String),
    /// Additional White Point Data (Tag 0xFB).
    AdditionalColorPoint {
        /// First white point entry.
        point1: AdditionalColorPoint,
        /// Optional second white point entry.
        point2: Option<AdditionalColorPoint>,
    },
    /// Additional Standard Timing Identifications (Tag 0xFA, 6 slots).
    AdditionalStandardTimings([StandardTimingEntry; 6]),
    /// Established Timings III (Tag 0xF7, 6 bytes bitmap).
    EstablishedTimings3(EstablishedTimings3),
    /// CVT 3-Byte Timing Codes (Tag 0xF8, 4 slots).
    Cvt3ByteTimings([Cvt3ByteTimingEntry; 4]),
    /// Display Color Management (Tag 0xF9).
    ColorManagement(ColorManagementDescriptor),
    /// Vertical/horizontal range limits and maximum pixel clock.
    RangeLimits {
        /// Minimum vertical frequency in Hz.
        min_vertical_hz: u8,
        /// Maximum vertical frequency in Hz.
        max_vertical_hz: u8,
        /// Minimum horizontal frequency in kHz.
        min_horizontal_khz: u8,
        /// Maximum horizontal frequency in kHz.
        max_horizontal_khz: u8,
        /// Maximum pixel clock in MHz.
        max_pixel_clock_mhz: u16,
        /// Extended timing definition (GTF secondary curve, CVT support, etc.).
        extension: RangeLimitsExtension,
    },
    /// Dummy descriptor (Tag 0x10, zero payload).
    Dummy,
    /// Unknown descriptor tag and its raw 13-byte payload.
    Unknown {
        /// Descriptor tag byte.
        tag: u8,
        /// Raw descriptor payload bytes after the reserved byte.
        payload: [u8; 13],
    },
}

// ---------------------------------------------------------------------------
// CVT 3-byte timing codes
// ---------------------------------------------------------------------------

/// The aspect ratio of a two-bit CVT aspect code.
pub open spec fn spec_cvt_aspect(code: int) -> CvtAspectRatio {
    if code == 0 {
        CvtAspectRatio::Ratio4x3
    } else if code == 1 {
        CvtAspectRatio::Ratio16x9
    } else if code == 2 {
        CvtAspectRatio::Ratio16x10
    } else {
        CvtAspectRatio::Ratio15x9
    }
}

/// The two-bit CVT aspect code of an aspect ratio.
pub open spec fn spec_cvt_aspect_code(a: CvtAspectRatio) -> int {
    match a {
        CvtAspectRatio::Ratio4x3 => 0,
        CvtAspectRatio::Ratio16x9 => 1,
        CvtAspectRatio::Ratio16x10 => 2,
        CvtAspectRatio::Ratio15x9 => 3,
    }
}

/// The preferred rate of a three-bit CVT rate code.
pub open spec fn spec_cvt_rate(code: int) -> CvtPreferredRate {
    if code == 0 {
        CvtPreferredRate::Hz50Standard
    } else if code == 1 {
        CvtPreferredRate::Hz60Standard
    } else if code == 2 {
        CvtPreferredRate::Hz75Standard
    } else if code == 3 {
        CvtPreferredRate::Hz85Standard
    } else if code == 4 {
        CvtPreferredRate::Hz60ReducedBlanking
    } else {
        CvtPreferredRate::Reserved(code as u8)
    }
}

/// The three-bit CVT rate code written for a preferred rate.
pub open spec fn spec_cvt_rate_code(r: CvtPreferredRate) -> int {
    match r {
        CvtPreferredRate::Hz50Standard => 0,
        CvtPreferredRate::Hz60Standard => 1,
        CvtPreferredRate::Hz75Standard => 2,
        CvtPreferredRate::Hz85Standard => 3,
        CvtPreferredRate::Hz60ReducedBlanking => 4,
        CvtPreferredRate::Reserved(code) => code as int % 8,
    }
}

/// Decoded meaning of a CVT 3-byte timing code.
pub open spec fn spec_decode_cvt3(b0: u8, b1: u8, b2: u8) -> Cvt3ByteTimingEntry {
    if b0 == 0 && b1 == 0 && b2 == 0 {
        Cvt3ByteTimingEntry::Unused
    } else {
        Cvt3ByteTimingEntry::Active {
            addressable_lines: ((b0 + (b1 / 16) * 256 + 1) * 2) as u16,
            aspect_ratio: spec_cvt_aspect((b1 as int / 4) % 4),
            preferred_rate: spec_cvt_rate(b2 as int / 32),
            supported_rates: CvtSupportedRates { raw: b2 % 32 },
        }
    }
}

/// The addressable line count has a CVT 3-byte encoding.
pub open spec fn spec_cvt_lines_ok(lines: u16) -> bool {
    lines != 0 && lines <= 8192 && lines % 2 == 0
}

/// Three-byte encoding of a CVT timing entry, or `None` when its line count
/// cannot be encoded.
pub open spec fn spec_encode_cvt3(e: Cvt3ByteTimingEntry) -> Option<Seq<u8>> {
    match e {
        Cvt3ByteTimingEntry::Unused => Some(seq![0u8, 0u8, 0u8]),
        Cvt3ByteTimingEntry::Reserved(raw) => Some(raw@),
        Cvt3ByteTimingEntry::Active { addressable_lines, aspect_ratio, preferred_rate, supported_rates } =>
            if !spec_cvt_lines_ok(addressable_lines) {
            None
        } else {
            let encoded = addressable_lines / 2 - 1;
            Some(
                seq![
                    (encoded % 256) as u8,
                    ((encoded / 256) % 16 * 16 + spec_cvt_aspect_code(aspect_ratio) * 4) as u8,
                    (spec_cvt_rate_code(preferred_rate) * 32 + supported_rates.raw % 32) as u8,
                ],
            )
        },
    }
}

impl Cvt3ByteTimingEntry {
    /// Decode a 3-byte CVT timing entry per EDID 1.4 §3.10.3.6.
    pub fn decode(bytes: [u8; 3]) -> (e: Self)
        ensures
            e == spec_decode_cvt3(bytes@[0], bytes@[1], bytes@[2]),
    {
        if bytes[0] == 0 && bytes[1] == 0 && bytes[2] == 0 {
            return Self::Unused;
        }
        let lines_low = bytes[0] as u16;
        let lines_high = (bytes[1] / 16) as u16;
        let aspect_code = (bytes[1] / 4) % 4;
        let addressable_lines = (lines_low + lines_high * 256 + 1) * 2;
        let aspect_ratio = if aspect_code == 0 {
            CvtAspectRatio::Ratio4x3
        } else if aspect_code == 1 {
            CvtAspectRatio::Ratio16x9
        } else if aspect_code == 2 {
            CvtAspectRatio::Ratio16x10
        } else {
            CvtAspectRatio::Ratio15x9
        };
        let rate_code = bytes[2] / 32;
        let preferred_rate = if rate_code == 0 {
            CvtPreferredRate::Hz50Standard
        } else if rate_code == 1 {
            CvtPreferredRate::Hz60Standard
        } else if rate_code == 2 {
            CvtPreferredRate::Hz75Standard
        } else if rate_code == 3 {
            CvtPreferredRate::Hz85Standard
        } else if rate_code == 4 {
            CvtPreferredRate::Hz60ReducedBlanking
        } else {
            CvtPreferredRate::Reserved(rate_code)
        };
        Self::Active {
            addressable_lines,
            aspect_ratio,
            preferred_rate,
            supported_rates: CvtSupportedRates { raw: bytes[2] % 32 },
        }
    }

    /// Encode this CVT 3-byte timing entry into 3 bytes.
    ///
    /// An active entry needs a non-zero even line count of at most 8192;
    /// reserved preferred-rate codes keep their low three bits and the
    /// supported-rate mask its low five bits.
    pub fn encode(&self) -> (res: Result<[u8; 3], &'static str>)
        ensures
            spec_encode_cvt3(*self) is None <==> res is Err,
            res matches Ok(b) ==> spec_encode_cvt3(*self) == Some(b@),
            res matches Err(r) ==> r == spec_cvt_lines_reason(),
    {
        match self {
            Self::Unused => {
                let b = [0u8, 0u8, 0u8];
                assert(b@ =~= seq![0u8, 0u8, 0u8]);
                Ok(b)
            },
            Self::Reserved(raw) => Ok(*raw),
            Self::Active { addressable_lines, aspect_ratio, preferred_rate, supported_rates } => {
                let lines = *addressable_lines;
                if lines == 0 || lines > 8192 || lines % 2 != 0 {
                    return Err("addressable lines must be non-zero even number <= 8192");
                }
                let encoded = lines / 2 - 1;
                let lines_low = (encoded % 256) as u8;
                let lines_high = ((encoded / 256) % 16) as u8;
                let aspect_code: u8 = match aspect_ratio {
                    CvtAspectRatio::Ratio4x3 => 0,
                    CvtAspectRatio::Ratio16x9 => 1,
                    CvtAspectRatio::Ratio16x10 => 2,
                    CvtAspectRatio::Ratio15x9 => 3,
                };
                let preferred_code: u8 = match preferred_rate {
                    CvtPreferredRate::Hz50Standard => 0,
                    CvtPreferredRate::Hz60Standard => 1,
                    CvtPreferredRate::Hz75Standard => 2,
                    CvtPreferredRate::Hz85Standard => 3,
                    CvtPreferredRate::Hz60ReducedBlanking => 4,
                    CvtPreferredRate::Reserved(code) => *code % 8,
                };
                let b = [
                    lines_low,
                    lines_high * 16 + aspect_code * 4,
                    preferred_code * 32 + supported_rates.raw % 32,
                ];
                assert(b@ =~= spec_encode_cvt3(*self)->0);
                Ok(b)
            },
        }
    }
}

/// A CVT 3-byte code reads by the EDID 1.4 layout: the line count is twice
/// one more than the 12-bit value whose low 8 bits are byte 0 and high 4
/// bits are bits 7:4 of byte 1; the aspect code in bits 3:2 of byte 1 is 00
/// for 4:3, 01 for 16:9, 10 for 16:10 and 11 for 15:9; the preferred-rate
/// code in bits 7:5 of byte 2 is 000 for 50 Hz, 001 for 60 Hz, 010 for
/// 75 Hz, 011 for 85 Hz and 100 for 60 Hz reduced blanking, any other code
/// being kept as reserved; and the supported rates are the low five bits of
/// byte 2.
pub proof fn lemma_cvt3_decode_table(b0: u8, b1: u8, b2: u8)
    requires
        !(b0 == 0 && b1 == 0 && b2 == 0),
    ensures
        spec_decode_cvt3(b0, b1, b2) matches Cvt3ByteTimingEntry::Active {
            addressable_lines,
            aspect_ratio,
            preferred_rate,
            supported_rates,
        } && addressable_lines == 2 * (b0 + 256 * (b1 / 16) + 1) && (((b1 / 4) % 4 == 0) == (aspect_ratio
            == CvtAspectRatio::Ratio4x3)) && (((b1 / 4) % 4 == 1) == (aspect_ratio == CvtAspectRatio::Ratio16x9))
            && (((b1 / 4) % 4 == 2) == (aspect_ratio == CvtAspectRatio::Ratio16x10)) && (((b1 / 4) % 4 == 3) == (
        aspect_ratio == CvtAspectRatio::Ratio15x9)) && ((b2 / 32 == 0) == (preferred_rate
            == CvtPreferredRate::Hz50Standard)) && ((b2 / 32 == 1) == (preferred_rate
            == CvtPreferredRate::Hz60Standard)) && ((b2 / 32 == 2) == (preferred_rate
            == CvtPreferredRate::Hz75Standard)) && ((b2 / 32 == 3) == (preferred_rate
            == CvtPreferredRate::Hz85Standard)) && ((b2 / 32 == 4) == (preferred_rate
            == CvtPreferredRate::Hz60ReducedBlanking)) && (b2 / 32 >= 5 ==> preferred_rate
            == CvtPreferredRate::Reserved(b2 / 32)) && supported_rates.raw == b2 % 32,
{
}

/// Writing an active CVT 3-byte code with an encodable line count puts the
/// line count / 2 - 1 in byte 0 and bits 7:4 of byte 1, the EDID 1.4 aspect
/// code in bits 3:2 of byte 1 (00 for 4:3, 01 for 16:9, 10 for 16:10, 11
/// for 15:9) with bits 1:0 clear, and in byte 2 the preferred-rate code in
/// bits 7:5 (000 for 50 Hz, 001 for 60 Hz, 010 for 75 Hz, 011 for 85 Hz,
/// 100 for 60 Hz reduced blanking) above the low five supported-rate bits.
pub proof fn lemma_cvt3_encode_table(
    lines: u16,
    aspect: CvtAspectRatio,
    rate: CvtPreferredRate,
    supported: CvtSupportedRates,
)
    requires
        spec_cvt_lines_ok(lines),
    ensures
        spec_encode_cvt3(
            Cvt3ByteTimingEntry::Active {
                addressable_lines: lines,
                aspect_ratio: aspect,
                preferred_rate: rate,
                supported_rates: supported,
            },
        ) matches Some(b) && b.len() == 3 && 2 * (b[0] + 256 * (b[1] / 16) + 1) == lines && b[1] % 4 == 0 && (
        aspect == CvtAspectRatio::Ratio4x3 ==> (b[1] / 4) % 4 == 0) && (aspect == CvtAspectRatio::Ratio16x9 ==> (
        b[1] / 4) % 4 == 1) && (aspect == CvtAspectRatio::Ratio16x10 ==> (b[1] / 4) % 4 == 2) && (aspect
            == CvtAspectRatio::Ratio15x9 ==> (b[1] / 4) % 4 == 3) && (rate == CvtPreferredRate::Hz50Standard ==> b[2]
            / 32 == 0) && (rate == CvtPreferredRate::Hz60Standard ==> b[2] / 32 == 1) && (rate
            == CvtPreferredRate::Hz75Standard ==> b[2] / 32 == 2) && (rate == CvtPreferredRate::Hz85Standard ==> b[2]
            / 32 == 3) && (rate == CvtPreferredRate::Hz60ReducedBlanking ==> b[2] / 32 == 4) && b[2] % 32
            == supported.raw % 32,
{
}

/// Encoding a decoded CVT 3-byte code gives the same bytes back, whenever
/// the two reserved low bits of the middle byte are clear.
pub proof fn lemma_cvt3_bytes_roundtrip(b0: u8, b1: u8, b2: u8)
    requires
        b1 % 4 == 0,
    ensures
        spec_encode_cvt3(spec_decode_cvt3(b0, b1, b2)) == Some(seq![b0, b1, b2]),
{
    if !(b0 == 0 && b1 == 0 && b2 == 0) {
        let e = spec_decode_cvt3(b0, b1, b2);
        let lines = (b0 + (b1 / 16) * 256 + 1) * 2;
        assert(lines / 2 - 1 == b0 + (b1 / 16) * 256);
        assert((b0 + (b1 / 16) * 256) % 256 == b0);
        assert((b0 + (b1 / 16) * 256) / 256 == b1 / 16);
        assert(spec_cvt_aspect_code(spec_cvt_aspect((b1 as int / 4) % 4)) == (b1 as int / 4) % 4);
        assert(spec_cvt_rate_code(spec_cvt_rate(b2 as int / 32)) == b2 as int / 32);
        assert((b1 / 16) * 16 + ((b1 as int / 4) % 4) * 4 == b1);
        assert((b2 as int / 32) * 32 + b2 % 32 == b2);
        assert(spec_encode_cvt3(e)->0 =~= seq![b0, b1, b2]);
    } else {
        assert(spec_encode_cvt3(spec_decode_cvt3(b0, b1, b2))->0 =~= seq![b0, b1, b2]);
    }
}

/// Decoding an encoded CVT 3-byte entry gives the entry back, for every
/// entry whose encoding is defined, is not the all-zero unused code, and
/// keeps its fields within their bit widths.
pub proof fn lemma_cvt3_entry_roundtrip(e: Cvt3ByteTimingEntry)
    requires
        spec_encode_cvt3(e) is Some,
        !(e is Reserved),
        e matches Cvt3ByteTimingEntry::Active { preferred_rate, supported_rates, .. } ==> supported_rates.raw
            < 32 && (preferred_rate matches CvtPreferredRate::Reserved(c) ==> 5 <= c < 8),
        e is Active ==> spec_encode_cvt3(e)->0 != seq![0u8, 0u8, 0u8],
    ensures
        ({
            let b = spec_encode_cvt3(e)->0;
            spec_decode_cvt3(b[0], b[1], b[2]) == e
        }),
{
    if let Cvt3ByteTimingEntry::Active { addressable_lines, aspect_ratio, preferred_rate, supported_rates } = e {
        let b = spec_encode_cvt3(e)->0;
        let encoded = addressable_lines / 2 - 1;
        assert(0 <= encoded < 4096);
        assert(b[0] == encoded % 256);
        assert(b[1] / 16 == (encoded / 256) % 16);
        assert((b[1] as int / 4) % 4 == spec_cvt_aspect_code(aspect_ratio));
        assert(b[2] as int / 32 == spec_cvt_rate_code(preferred_rate));
        assert(b[2] % 32 == supported_rates.raw);
        assert(!(b[0] == 0 && b[1] == 0 && b[2] == 0)) by {
            if b[0] == 0 && b[1] == 0 && b[2] == 0 {
                assert(b =~= seq![0u8, 0u8, 0u8]);
            }
        }
        assert(spec_cvt_aspect(spec_cvt_aspect_code(aspect_ratio)) == aspect_ratio);
        assert(spec_cvt_rate(spec_cvt_rate_code(preferred_rate)) == preferred_rate);
    }
}

// ---------------------------------------------------------------------------
// Text payloads
// ---------------------------------------------------------------------------

/// Index of the first newline or NUL at or after `i`, or the length.
pub open spec fn spec_text_end(p: Seq<u8>, i: int) -> int
    decreases p.len() - i,
{
    if i < 0 || i >= p.len() {
        p.len() as int
    } else if p[i] == 0x0A || p[i] == 0 {
        i
    } else {
        spec_text_end(p, i + 1)
    }
}

/// `t` without its trailing spaces.
pub open spec fn spec_trim_spaces(t: Seq<u8>) -> Seq<u8>
    decreases t.len(),
{
    if t.len() > 0 && t.last() == 0x20 {
        spec_trim_spaces(t.drop_last())
    } else {
        t
    }
}

/// The text of a descriptor payload: the bytes up to the first newline or
/// NUL, without trailing spaces.
pub open spec fn spec_decode_text(p: Seq<u8>) -> Seq<char> {
    spec_bytes_to_chars(spec_trim_spaces(p.take(spec_text_end(p, 0))))
}

/// The 13-byte payload of a text descriptor, or why the text has none:
/// at most 12 ASCII bytes, then a newline, padded with spaces.
pub open spec fn spec_encode_text(text: Seq<char>) -> Result<Seq<u8>, DescriptorError> {
    let b = encode_utf8(text);
    if b.len() > 12 {
        Err(DescriptorError::TextTooLong { max: 12, actual: b.len() as usize })
    } else if !spec_ascii_bytes(b) {
        Err(DescriptorError::NonAsciiText)
    } else {
        Ok(b + seq![0x0Au8] + Seq::new((12 - b.len()) as nat, |i: int| 0x20u8))
    }
}

fn encode_text(text: &str) -> (res: Result<[u8; 13], DescriptorError>)
    ensures
        res matches Ok(p) ==> spec_encode_text(text@) == Ok::<Seq<u8>, DescriptorError>(p@),
        res matches Err(e) ==> spec_encode_text(text@) == Err::<Seq<u8>, DescriptorError>(e),
{
    let bytes = text.as_bytes();
    if bytes.len() > TEXT_PAYLOAD_LEN - 1 {
        return Err(DescriptorError::TextTooLong { max: TEXT_PAYLOAD_LEN - 1, actual: bytes.len() });
    }
    let mut i: usize = 0;
    while i < bytes.len()
        invariant
            i <= bytes@.len() <= 12,
            bytes@ == encode_utf8(text@),
            forall|k: int| 0 <= k < i ==> bytes@[k] < 128,
        decreases bytes@.len() - i,
    {
        if bytes[i] >= 128 {
            return Err(DescriptorError::NonAsciiText);
        }
        i = i + 1;
    }
    let mut payload = [0x20u8; 13];
    let mut k: usize = 0;
    while k < bytes.len()
        invariant
            k <= bytes@.len() <= 12,
            forall|j: int| 0 <= j < k ==> payload@[j] == bytes@[j],
            forall|j: int| k <= j < 13 ==> payload@[j] == 0x20,
        decreases bytes@.len() - k,
    {
        payload[k] = bytes[k];
        k = k + 1;
    }
    payload[bytes.len()] = 0x0A;
    assert(payload@ =~= spec_encode_text(text@)->Ok_0);
    Ok(payload)
}

proof fn lemma_text_end_step(p: Seq<u8>, i: int)
    requires
        0 <= i < p.len(),
        p[i] != 0x0A && p[i] != 0,
    ensures
        spec_text_end(p, i) == spec_text_end(p, i + 1),
{
}

fn decode_text(payload: &[u8; 13]) -> (res: Result<String, DescriptorError>)
    ensures
        !spec_ascii_bytes(payload@) ==> res == Err::<String, DescriptorError>(DescriptorError::NonAsciiText),
        spec_ascii_bytes(payload@) ==> (res matches Ok(s) && s@ == spec_decode_text(payload@)),
{
    let mut i: usize = 0;
    while i < 13
        invariant
            i <= 13,
            forall|k: int| 0 <= k < i ==> payload@[k] < 128,
        decreases 13 - i,
    {
        if payload[i] >= 128 {
            return Err(DescriptorError::NonAsciiText);
        }
        i = i + 1;
    }
    let mut end: usize = 0;
    while end < 13 && payload[end] != 0x0A && payload[end] != 0
        invariant
            end <= 13,
            spec_text_end(payload@, 0) == spec_text_end(payload@, end as int),
        decreases 13 - end,
    {
        proof {
            lemma_text_end_step(payload@, end as int);
        }
        end = end + 1;
    }
    let mut j: usize = end;
    while j > 0 && payload[j - 1] == 0x20
        invariant
            j <= end <= 13,
            spec_trim_spaces(payload@.take(end as int)) == spec_trim_spaces(payload@.take(j as int)),
        decreases j,
    {
        assert(payload@.take(j as int).drop_last() =~= payload@.take(j - 1));
        j = j - 1;
    }
    assert(spec_trim_spaces(payload@.take(j as int)) == payload@.take(j as int));
    let mut text = String::new();
    let mut k: usize = 0;
    while k < j
        invariant
            k <= j <= 13,
            forall|m: int| 0 <= m < 13 ==> payload@[m] < 128,
            text@ == spec_bytes_to_chars(payload@.take(k as int)),
        decreases j - k,
    {
        string_push(&mut text, payload[k] as char);
        assert(spec_bytes_to_chars(payload@.take(k + 1)) =~= spec_bytes_to_chars(payload@.take(k as int)).push(
            payload@[k as int] as char,
        ));
        k = k + 1;
    }
    Ok(text)
}

// ---------------------------------------------------------------------------
// Additional color points
// ---------------------------------------------------------------------------

/// The white point entry stored in five payload bytes, or `None` when its
/// index byte is zero.
pub open spec fn spec_decode_color_point(d: Seq<u8>) -> Option<AdditionalColorPoint> {
    if d[0] == 0 {
        None
    } else {
        Some(
            AdditionalColorPoint {
                index: d[0],
                point: ChromaticityPoint {
                    x: (d[2] * 4 + (d[1] / 4) % 4) as u16,
                    y: (d[3] * 4 + d[1] % 4) as u16,
                },
                gamma: if d[4] != 0 { Some((100 + d[4]) as u16) } else { None },
            },
        )
    }
}

/// Why a white point entry cannot be encoded, checked in this order.
pub open spec fn spec_color_point_error(cp: AdditionalColorPoint) -> Option<DescriptorError> {
    if cp.index == 0 {
        Some(DescriptorError::RangeOutOfBounds)
    } else if cp.point.x > 1023 {
        Some(DescriptorError::InvalidChromaticityCoordinate { value: cp.point.x })
    } else if cp.point.y > 1023 {
        Some(DescriptorError::InvalidChromaticityCoordinate { value: cp.point.y })
    } else if cp.gamma is Some && !(101 <= cp.gamma->0 <= 355) {
        Some(DescriptorError::InvalidGamma { value: cp.gamma->0 })
    } else {
        None
    }
}

/// The five payload bytes of a (valid) white point entry.
pub open spec fn spec_encode_color_point(cp: AdditionalColorPoint) -> Seq<u8> {
    seq![
        cp.index,
        ((cp.point.x % 4) * 4 + cp.point.y % 4) as u8,
        (cp.point.x / 4) as u8,
        (cp.point.y / 4) as u8,
        match cp.gamma {
            Some(g) => (g - 100) as u8,
            None => 0u8,
        },
    ]
}

fn decode_color_point(p: &[u8; 13], off: usize) -> (r: Option<AdditionalColorPoint>)
    requires
        off == 0 || off == 5,
    ensures
        r == spec_decode_color_point(p@.subrange(off as int, off + 5)),
{
    let index = p[off];
    if index == 0 {
        return None;
    }
    let low = p[off + 1];
    let x = p[off + 2] as u16 * 4 + ((low / 4) % 4) as u16;
    let y = p[off + 3] as u16 * 4 + (low % 4) as u16;
    let gamma = if p[off + 4] != 0 { Some(100 + p[off + 4] as u16) } else { None };
    Some(AdditionalColorPoint { index, point: ChromaticityPoint { x, y }, gamma })
}

fn encode_color_point(cp: &AdditionalColorPoint) -> (res: Result<[u8; 5], DescriptorError>)
    ensures
        spec_color_point_error(*cp) is Some ==> res == Err::<[u8; 5], DescriptorError>(
            spec_color_point_error(*cp)->0,
        ),
        spec_color_point_error(*cp) is None ==> (res matches Ok(b) && b@ == spec_encode_color_point(*cp)),
{
    if cp.index == 0 {
        return Err(DescriptorError::RangeOutOfBounds);
    }
    if cp.point.x > 1023 {
        return Err(DescriptorError::InvalidChromaticityCoordinate { value: cp.point.x });
    }
    if cp.point.y > 1023 {
        return Err(DescriptorError::InvalidChromaticityCoordinate { value: cp.point.y });
    }
    if let Some(gamma) = cp.gamma {
        if !(101 <= gamma && gamma <= 355) {
            return Err(DescriptorError::InvalidGamma { value: gamma });
        }
    }
    let g: u8 = match cp.gamma {
        Some(g) => (g - 100) as u8,
        None => 0,
    };
    let b = [
        cp.index,
        ((cp.point.x % 4) * 4 + cp.point.y % 4) as u8,
        (cp.point.x / 4) as u8,
        (cp.point.y / 4) as u8,
        g,
    ];
    assert(b@ =~= spec_encode_color_point(*cp));
    Ok(b)
}

// ---------------------------------------------------------------------------
// Descriptor encoding
// ---------------------------------------------------------------------------

/// Little-endian bytes of a 16-bit value.
pub open spec fn spec_le16(v: u16) -> Seq<u8> {
    seq![(v % 256) as u8, (v / 256) as u8]
}

/// `n` zero bytes.
pub open spec fn spec_zeros(n: nat) -> Seq<u8> {
    Seq::new(n, |i: int| 0u8)
}

/// The first CVT 3-byte slot among the first `n` whose encoding is not
/// defined.
pub open spec fn spec_first_cvt_error(t: Seq<Cvt3ByteTimingEntry>, n: int) -> Option<int>
    decreases n,
{
    if n <= 0 {
        None
    } else {
        match spec_first_cvt_error(t, n - 1) {
            Some(i) => Some(i),
            None => if spec_encode_cvt3(t[n - 1]) is None {
                Some(n - 1)
            } else {
                None
            },
        }
    }
}

/// The reason reported for a CVT 3-byte entry whose line count cannot be
/// encoded.
pub open spec fn spec_cvt_lines_reason() -> &'static str {
    "addressable lines must be non-zero even number <= 8192"
}

/// Tag and 13-byte payload of a range-limits descriptor, or why it has none.
pub open spec fn spec_encode_range_limits(
    min_v: u8,
    max_v: u8,
    min_h: u8,
    max_h: u8,
    clock: u16,
    ext: RangeLimitsExtension,
) -> Result<(u8, Seq<u8>), DescriptorError> {
    if min_v > max_v || min_h > max_h || clock > 2550 || clock % 10 != 0 {
        Err(DescriptorError::RangeOutOfBounds)
    } else {
        let prefix = seq![min_v, max_v, min_h, max_h, (clock / 10) as u8];
        match ext {
            RangeLimitsExtension::Standard => Ok(
                (0xFDu8, prefix + seq![0x00u8, 0x0A, 0x20, 0x20, 0x20, 0x20, 0x20, 0x20]),
            ),
            RangeLimitsExtension::SecondaryGtf(g) => if g.start_horizontal_frequency_khz > 510
                || g.start_horizontal_frequency_khz % 2 != 0 {
                Err(DescriptorError::InvalidRangeExtension)
            } else {
                Ok(
                    (
                        0xFDu8,
                        prefix + seq![0x02u8, 0x00, (g.start_horizontal_frequency_khz / 2) as u8, g.parameter_c]
                            + spec_le16(g.slope_m) + seq![g.offset_k, g.scaling_j],
                    ),
                )
            },
            RangeLimitsExtension::Cvt(c) => if c.max_active_pixels > 8184 || c.max_active_pixels % 8 != 0
                || c.max_pixel_clock_precision > 63 {
                Err(DescriptorError::InvalidRangeExtension)
            } else {
                let units = c.max_active_pixels / 8;
                Ok(
                    (
                        0xFDu8,
                        prefix + seq![
                            0x04u8,
                            c.revision,
                            (c.max_pixel_clock_precision * 4 + (units / 256) % 4) as u8,
                            (units % 256) as u8,
                            c.supported_aspect_ratios,
                            c.preferred_aspect_ratio_and_flags,
                            c.scaling_support,
                            c.preferred_vertical_rate_hz,
                        ],
                    ),
                )
            },
            RangeLimitsExtension::Unknown { definition_code, payload } => Ok(
                (0xFDu8, prefix + seq![definition_code] + payload@),
            ),
        }
    }
}

/// Tag and 13-byte payload of a monitor descriptor, or the first reason it
/// cannot be encoded.
pub open spec fn spec_encode_descriptor(md: MonitorDescriptor) -> Result<(u8, Seq<u8>), DescriptorError> {
    match md {
        MonitorDescriptor::SerialNumber(text) => match spec_encode_text(text@) {
            Ok(p) => Ok((0xFFu8, p)),
            Err(e) => Err(e),
        },
        MonitorDescriptor::ProductName(text) => match spec_encode_text(text@) {
            Ok(p) => Ok((0xFCu8, p)),
            Err(e) => Err(e),
        },
        MonitorDescriptor::AlphanumericString(text) => match spec_encode_text(text@) {
            Ok(p) => Ok((0xFEu8, p)),
            Err(e) => Err(e),
        },
        MonitorDescriptor::AdditionalColorPoint { point1, point2 } => if spec_color_point_error(point1) is Some {
            Err(spec_color_point_error(point1)->0)
        } else if point2 is Some && spec_color_point_error(point2->0) is Some {
            Err(spec_color_point_error(point2->0)->0)
        } else {
            Ok(
                (
                    0xFBu8,
                    spec_encode_color_point(point1) + match point2 {
                        Some(p2) => spec_encode_color_point(p2),
                        None => spec_zeros(5),
                    } + seq![0x0Au8, 0x20, 0x20],
                ),
            )
        },
        MonitorDescriptor::AdditionalStandardTimings(t) => match spec_first_standard_error(t@, 6) {
            Some(e) => Err(DescriptorError::StandardTimingError(e)),
            None => Ok(
                (
                    0xFAu8,
                    Seq::new(
                        12,
                        |j: int|
                            if j % 2 == 0 {
                                spec_encode_standard(t@[j / 2])->Ok_0.0
                            } else {
                                spec_encode_standard(t@[j / 2])->Ok_0.1
                            },
                    ) + seq![0x0Au8],
                ),
            ),
        },
        MonitorDescriptor::EstablishedTimings3(e) => if e.revision != 0x0A {
            Err(DescriptorError::InvalidRevision { tag: 0xF7, revision: e.revision })
        } else {
            Ok((0xF7u8, seq![e.revision] + e.raw@ + spec_zeros(6)))
        },
        MonitorDescriptor::Cvt3ByteTimings(t) => match spec_first_cvt_error(t@, 4) {
            Some(i) => Err(DescriptorError::InvalidCvtTiming { slot: i as usize, reason: spec_cvt_lines_reason() }),
            None => Ok(
                (
                    0xF8u8,
                    seq![0x01u8] + Seq::new(12, |j: int| spec_encode_cvt3(t@[j / 3])->0[j % 3]),
                ),
            ),
        },
        MonitorDescriptor::ColorManagement(d) => if d.revision != 0x03 {
            Err(DescriptorError::InvalidRevision { tag: 0xF9, revision: d.revision })
        } else {
            Ok(
                (
                    0xF9u8,
                    seq![d.revision] + spec_le16(d.red_a3) + spec_le16(d.red_a2) + spec_le16(d.green_a3)
                        + spec_le16(d.green_a2) + spec_le16(d.blue_a3) + spec_le16(d.blue_a2),
                ),
            )
        },
        MonitorDescriptor::RangeLimits {
            min_vertical_hz,
            max_vertical_hz,
            min_horizontal_khz,
            max_horizontal_khz,
            max_pixel_clock_mhz,
            extension,
        } => spec_encode_range_limits(
            min_vertical_hz,
            max_vertical_hz,
            min_horizontal_khz,
            max_horizontal_khz,
            max_pixel_clock_mhz,
            extension,
        ),
        MonitorDescriptor::Dummy => Ok((0x10u8, spec_zeros(13))),
        MonitorDescriptor::Unknown { tag, payload } => Ok((tag, payload@)),
    }
}

fn encode_range_limits(
    min_v: u8,
    max_v: u8,
    min_h: u8,
    max_h: u8,
    clock: u16,
    ext: RangeLimitsExtension,
) -> (res: Result<[u8; 13], DescriptorError>)
    ensures
        res matches Ok(p) ==> spec_encode_range_limits(min_v, max_v, min_h, max_h, clock, ext) == Ok::<
            (u8, Seq<u8>),
            DescriptorError,
        >((0xFDu8, p@)),
        res matches Err(e) ==> spec_encode_range_limits(min_v, max_v, min_h, max_h, clock, ext) == Err::<
            (u8, Seq<u8>),
            DescriptorError,
        >(e),
{
    if min_v > max_v || min_h > max_h || clock > 2550 || clock % 10 != 0 {
        return Err(DescriptorError::RangeOutOfBounds);
    }
    let c10 = (clock / 10) as u8;
    let ghost prefix = seq![min_v, max_v, min_h, max_h, c10];
    match ext {
        RangeLimitsExtension::Standard => {
            let p = [min_v, max_v, min_h, max_h, c10, 0x00, 0x0A, 0x20, 0x20, 0x20, 0x20, 0x20, 0x20];
            assert(p@ =~= prefix + seq![0x00u8, 0x0A, 0x20, 0x20, 0x20, 0x20, 0x20, 0x20]);
            Ok(p)
        },
        RangeLimitsExtension::SecondaryGtf(g) => {
            if g.start_horizontal_frequency_khz > 510 || g.start_horizontal_frequency_khz % 2 != 0 {
                return Err(DescriptorError::InvalidRangeExtension);
            }
            let p = [
                min_v,
                max_v,
                min_h,
                max_h,
                c10,
                0x02,
                0x00,
                (g.start_horizontal_frequency_khz / 2) as u8,
                g.parameter_c,
                (g.slope_m % 256) as u8,
                (g.slope_m / 256) as u8,
                g.offset_k,
                g.scaling_j,
            ];
            assert(p@ =~= prefix + seq![0x02u8, 0x00, (g.start_horizontal_frequency_khz / 2) as u8, g.parameter_c]
                + spec_le16(g.slope_m) + seq![g.offset_k, g.scaling_j]);
            Ok(p)
        },
        RangeLimitsExtension::Cvt(c) => {
            if c.max_active_pixels > 8184 || c.max_active_pixels % 8 != 0 || c.max_pixel_clock_precision > 63 {
                return Err(DescriptorError::InvalidRangeExtension);
            }
            let units = c.max_active_pixels / 8;
            let p = [
                min_v,
                max_v,
                min_h,
                max_h,
                c10,
                0x04,
                c.revision,
                c.max_pixel_clock_precision * 4 + ((units / 256) % 4) as u8,
                (units % 256) as u8,
                c.supported_aspect_ratios,
                c.preferred_aspect_ratio_and_flags,
                c.scaling_support,
                c.preferred_vertical_rate_hz,
            ];
            assert(p@ =~= prefix + seq![
                0x04u8,
                c.revision,
                (c.max_pixel_clock_precision * 4 + (units / 256) % 4) as u8,
                (units % 256) as u8,
                c.supported_aspect_ratios,
                c.preferred_aspect_ratio_and_flags,
                c.scaling_support,
                c.preferred_vertical_rate_hz,
            ]);
            Ok(p)
        },
        RangeLimitsExtension::Unknown { definition_code, payload } => {
            let p = [
                min_v,
                max_v,
                min_h,
                max_h,
                c10,
                definition_code,
                payload[0],
                payload[1],
                payload[2],
                payload[3],
                payload[4],
                payload[5],
                payload[6],
            ];
            assert(p@ =~= prefix + seq![definition_code] + payload@);
            Ok(p)
        },
    }
}

fn encode_standard6(t: &[StandardTimingEntry; 6]) -> (res: Result<[u8; 13], MetadataWriteError>)
    ensures
        res matches Err(e) ==> spec_first_standard_error(t@, 6) == Some(e),
        res matches Ok(p) ==> spec_first_standard_error(t@, 6) is None && p@ == Seq::new(
            12,
            |j: int|
                if j % 2 == 0 {
                    spec_encode_standard(t@[j / 2])->Ok_0.0
                } else {
                    spec_encode_standard(t@[j / 2])->Ok_0.1
                },
        ) + seq![0x0Au8],
{
    let ghost want = Seq::new(
        12,
        |j: int|
            if j % 2 == 0 {
                spec_encode_standard(t@[j / 2])->Ok_0.0
            } else {
                spec_encode_standard(t@[j / 2])->Ok_0.1
            },
    );
    let mut payload = [0u8; 13];
    let mut i: usize = 0;
    while i < 6
        invariant
            i <= 6,
            want == Seq::new(
                12,
                |j: int|
                    if j % 2 == 0 {
                        spec_encode_standard(t@[j / 2])->Ok_0.0
                    } else {
                        spec_encode_standard(t@[j / 2])->Ok_0.1
                    },
            ),
            spec_first_standard_error(t@, i as int) is None,
            forall|j: int| 0 <= j < 2 * i ==> payload@[j] == want[j],
        decreases 6 - i,
    {
        match t[i].encode() {
            Ok(b) => {
                payload[2 * i] = b[0];
                payload[2 * i + 1] = b[1];
                assert((2 * i as int) / 2 == i);
                assert((2 * i as int + 1) / 2 == i);
            },
            Err(e) => {
                proof {
                    crate::metadata::lemma_first_standard_error_keeps(t@, i as int + 1, 6);
                }
                return Err(e);
            },
        }
        i = i + 1;
    }
    payload[12] = 0x0A;
    assert(payload@ =~= want + seq![0x0Au8]);
    Ok(payload)
}

proof fn lemma_first_cvt_error_keeps(t: Seq<Cvt3ByteTimingEntry>, n: int, m: int)
    requires
        0 <= n <= m,
        spec_first_cvt_error(t, n) is Some,
    ensures
        spec_first_cvt_error(t, m) == spec_first_cvt_error(t, n),
    decreases m - n,
{
    if m > n {
        lemma_first_cvt_error_keeps(t, n, m - 1);
    }
}

fn encode_cvt4(t: &[Cvt3ByteTimingEntry; 4]) -> (res: Result<[u8; 13], DescriptorError>)
    ensures
        res matches Err(e) ==> spec_first_cvt_error(t@, 4) is Some && e == (DescriptorError::InvalidCvtTiming {
            slot: spec_first_cvt_error(t@, 4)->0 as usize,
            reason: spec_cvt_lines_reason(),
        }),
        res matches Ok(p) ==> spec_first_cvt_error(t@, 4) is None && p@ == seq![0x01u8] + Seq::new(
            12,
            |j: int| spec_encode_cvt3(t@[j / 3])->0[j % 3],
        ),
{
    let ghost want = Seq::new(12, |j: int| spec_encode_cvt3(t@[j / 3])->0[j % 3]);
    let mut payload = [0u8; 13];
    payload[0] = 0x01;
    let mut i: usize = 0;
    while i < 4
        invariant
            i <= 4,
            want == Seq::new(12, |j: int| spec_encode_cvt3(t@[j / 3])->0[j % 3]),
            payload@[0] == 0x01,
            spec_first_cvt_error(t@, i as int) is None,
            forall|j: int| 0 <= j < 3 * i ==> payload@[1 + j] == want[j],
        decreases 4 - i,
    {
        match t[i].encode() {
            Ok(b) => {
                payload[1 + 3 * i] = b[0];
                payload[2 + 3 * i] = b[1];
                payload[3 + 3 * i] = b[2];
                assert((3 * i as int) / 3 == i && (3 * i as int) % 3 == 0);
                assert((3 * i as int + 1) / 3 == i && (3 * i as int + 1) % 3 == 1);
                assert((3 * i as int + 2) / 3 == i && (3 * i as int + 2) % 3 == 2);
            },
            Err(reason) => {
                proof {
                    lemma_first_cvt_error_keeps(t@, i as int + 1, 4);
                }
                return Err(DescriptorError::InvalidCvtTiming { slot: i, reason });
            },
        }
        i = i + 1;
    }
    assert(payload@ =~= seq![0x01u8] + want);
    Ok(payload)
}

impl MonitorDescriptor {
    fn encode(&self) -> (res: Result<(u8, [u8; 13]), DescriptorError>)
        ensures
            res matches Ok(r) ==> spec_encode_descriptor(*self) == Ok::<(u8, Seq<u8>), DescriptorError>(
                (r.0, r.1@),
            ),
            res matches Err(e) ==> spec_encode_descriptor(*self) == Err::<(u8, Seq<u8>), DescriptorError>(e),
    {
        match self {
            Self::SerialNumber(text) => Ok((0xFF, encode_text(text.as_str())?)),
            Self::ProductName(text) => Ok((0xFC, encode_text(text.as_str())?)),
            Self::AlphanumericString(text) => Ok((0xFE, encode_text(text.as_str())?)),
            Self::AdditionalColorPoint { point1, point2 } => {
                let b1 = encode_color_point(point1)?;
                let b2 = match point2 {
                    Some(p2) => encode_color_point(p2)?,
                    None => [0u8; 5],
                };
                let p = [b1[0], b1[1], b1[2], b1[3], b1[4], b2[0], b2[1], b2[2], b2[3], b2[4], 0x0A, 0x20, 0x20];
                proof {
                    let second = match point2 {
                        Some(p2) => spec_encode_color_point(*p2),
                        None => spec_zeros(5),
                    };
                    assert(b2@ =~= second);
                    assert(p@ =~= spec_encode_color_point(*point1) + second + seq![0x0Au8, 0x20, 0x20]);
                }
                Ok((0xFB, p))
            },
            Self::AdditionalStandardTimings(timings) => {
                match encode_standard6(timings) {
                    Ok(p) => Ok((0xFA, p)),
                    Err(e) => Err(DescriptorError::StandardTimingError(e)),
                }
            },
            Self::EstablishedTimings3(timings) => {
                if timings.revision != 0x0A {
                    return Err(DescriptorError::InvalidRevision { tag: 0xF7, revision: timings.revision });
                }
                let r = timings.raw;
                let p = [timings.revision, r[0], r[1], r[2], r[3], r[4], r[5], 0, 0, 0, 0, 0, 0];
                assert(p@ =~= seq![timings.revision] + r@ + spec_zeros(6));
                Ok((0xF7, p))
            },
            Self::Cvt3ByteTimings(timings) => {
                let p = encode_cvt4(timings)?;
                Ok((0xF8, p))
            },
            Self::ColorManagement(d) => {
                if d.revision != 0x03 {
                    return Err(DescriptorError::InvalidRevision { tag: 0xF9, revision: d.revision });
                }
                let p = [
                    d.revision,
                    (d.red_a3 % 256) as u8,
                    (d.red_a3 / 256) as u8,
                    (d.red_a2 % 256) as u8,
                    (d.red_a2 / 256) as u8,
                    (d.green_a3 % 256) as u8,
                    (d.green_a3 / 256) as u8,
                    (d.green_a2 % 256) as u8,
                    (d.green_a2 / 256) as u8,
                    (d.blue_a3 % 256) as u8,
                    (d.blue_a3 / 256) as u8,
                    (d.blue_a2 % 256) as u8,
                    (d.blue_a2 / 256) as u8,
                ];
                assert(p@ =~= seq![d.revision] + spec_le16(d.red_a3) + spec_le16(d.red_a2) + spec_le16(
                    d.green_a3,
                ) + spec_le16(d.green_a2) + spec_le16(d.blue_a3) + spec_le16(d.blue_a2));
                Ok((0xF9, p))
            },
            Self::Dummy => {
                let p = [0u8; 13];
                assert(p@ =~= spec_zeros(13));
                Ok((0x10, p))
            },
            Self::RangeLimits {
                min_vertical_hz,
                max_vertical_hz,
                min_horizontal_khz,
                max_horizontal_khz,
                max_pixel_clock_mhz,
                extension,
            } => {
                let p = encode_range_limits(
                    *min_vertical_hz,
                    *max_vertical_hz,
                    *min_horizontal_khz,
                    *max_horizontal_khz,
                    *max_pixel_clock_mhz,
                    *extension,
                )?;
                Ok((0xFD, p))
            },
            Self::Unknown { tag, payload } => Ok((*tag, *payload)),
        }
    }
}

// ---------------------------------------------------------------------------
// Descriptor decoding
// ---------------------------------------------------------------------------

/// The 13 payload bytes of an 18-byte descriptor.
pub open spec fn spec_payload(d: Seq<u8>) -> Seq<u8> {
    d.subrange(5, 18)
}

/// The slot holds no monitor descriptor: it is all `01` padding, all zero,
/// or a detailed timing (non-zero pixel clock bytes).
pub open spec fn spec_descriptor_free(d: Seq<u8>) -> bool {
    crate::edid::spec_all_bytes(d, 1) || d[0] != 0 || d[1] != 0 || crate::edid::spec_all_bytes(d, 0)
}

/// Why a monitor descriptor cannot be decoded, if it cannot.
pub open spec fn spec_decode_error(d: Seq<u8>) -> Option<DescriptorError> {
    let p = spec_payload(d);
    let tag = d[3];
    if (tag == 0xFF || tag == 0xFC || tag == 0xFE) && !spec_ascii_bytes(p) {
        Some(DescriptorError::NonAsciiText)
    } else if tag == 0xFB && p[0] == 0 {
        Some(DescriptorError::RangeOutOfBounds)
    } else {
        None
    }
}

/// The tag and payload select one of the typed descriptor variants.
pub open spec fn spec_known_tag(tag: u8, p: Seq<u8>) -> bool {
    ||| tag == 0xFF || tag == 0xFC || tag == 0xFE || tag == 0xFB || tag == 0xFA || tag == 0xFD
    ||| tag == 0xF7 && p[0] == 0x0A
    ||| tag == 0xF8 && p[0] == 0x01
    ||| tag == 0xF9 && p[0] == 0x03
    ||| tag == 0x10 && crate::edid::spec_all_bytes(p, 0)
}

/// The extension definition of a range-limits payload.
pub open spec fn spec_decode_range_ext(p: Seq<u8>) -> RangeLimitsExtension {
    let code = p[5];
    if code == 0 || code == 1 {
        RangeLimitsExtension::Standard
    } else if code == 2 {
        RangeLimitsExtension::SecondaryGtf(
            SecondaryGtfParameters {
                start_horizontal_frequency_khz: (p[7] * 2) as u16,
                parameter_c: p[8],
                slope_m: (p[9] + 256 * p[10]) as u16,
                offset_k: p[11],
                scaling_j: p[12],
            },
        )
    } else if code == 4 {
        RangeLimitsExtension::Cvt(
            CvtRangeSupport {
                revision: p[6],
                max_pixel_clock_precision: p[7] / 4,
                max_active_pixels: (((p[7] % 4) * 256 + p[8]) * 8) as u16,
                supported_aspect_ratios: p[9],
                preferred_aspect_ratio_and_flags: p[10],
                scaling_support: p[11],
                preferred_vertical_rate_hz: p[12],
            },
        )
    } else {
        RangeLimitsExtension::Unknown {
            definition_code: code,
            payload: [p[6], p[7], p[8], p[9], p[10], p[11], p[12]],
        }
    }
}

/// The color management record of a payload.
pub open spec fn spec_decode_dcm(p: Seq<u8>) -> ColorManagementDescriptor {
    ColorManagementDescriptor {
        revision: p[0],
        red_a3: (p[1] + 256 * p[2]) as u16,
        red_a2: (p[3] + 256 * p[4]) as u16,
        green_a3: (p[5] + 256 * p[6]) as u16,
        green_a2: (p[7] + 256 * p[8]) as u16,
        blue_a3: (p[9] + 256 * p[10]) as u16,
        blue_a2: (p[11] + 256 * p[12]) as u16,
    }
}

/// `md` is the monitor descriptor that the 18 bytes `d` decode to.
pub open spec fn spec_descriptor_decodes(d: Seq<u8>, md: MonitorDescriptor) -> bool {
    let p = spec_payload(d);
    let tag = d[3];
    match md {
        MonitorDescriptor::SerialNumber(s) => tag == 0xFF && s@ == spec_decode_text(p),
        MonitorDescriptor::ProductName(s) => tag == 0xFC && s@ == spec_decode_text(p),
        MonitorDescriptor::AlphanumericString(s) => tag == 0xFE && s@ == spec_decode_text(p),
        MonitorDescriptor::AdditionalColorPoint { point1, point2 } => tag == 0xFB
            && spec_decode_color_point(p.subrange(0, 5)) == Some(point1) && point2
            == spec_decode_color_point(p.subrange(5, 10)),
        MonitorDescriptor::AdditionalStandardTimings(t) => tag == 0xFA && t@ == Seq::new(
            6,
            |i: int| spec_decode_standard(p[2 * i], p[2 * i + 1]),
        ),
        MonitorDescriptor::EstablishedTimings3(e) => tag == 0xF7 && p[0] == 0x0A && e.revision == p[0]
            && e.raw@ == p.subrange(1, 7),
        MonitorDescriptor::Cvt3ByteTimings(c) => tag == 0xF8 && p[0] == 0x01 && c@ == Seq::new(
            4,
            |i: int| spec_decode_cvt3(p[1 + 3 * i], p[2 + 3 * i], p[3 + 3 * i]),
        ),
        MonitorDescriptor::ColorManagement(m) => tag == 0xF9 && p[0] == 0x03 && m == spec_decode_dcm(p),
        MonitorDescriptor::RangeLimits {
            min_vertical_hz,
            max_vertical_hz,
            min_horizontal_khz,
            max_horizontal_khz,
            max_pixel_clock_mhz,
            extension,
        } => tag == 0xFD && min_vertical_hz == p[0] && max_vertical_hz == p[1] && min_horizontal_khz == p[2]
            && max_horizontal_khz == p[3] && max_pixel_clock_mhz == p[4] * 10 && extension
            == spec_decode_range_ext(p),
        MonitorDescriptor::Dummy => tag == 0x10 && crate::edid::spec_all_bytes(p, 0),
        MonitorDescriptor::Unknown { tag: t, payload } => t == tag && payload@ == p && !spec_known_tag(tag, p),
    }
}

fn descriptor_offset(slot: usize) -> (res: Result<usize, DescriptorError>)
    ensures
        slot >= 4 ==> res == Err::<usize, DescriptorError>(DescriptorError::SlotOutOfRange { slot, slots: 4 }),
        slot < 4 ==> res == Ok::<usize, DescriptorError>((54 + 18 * slot) as usize),
{
    if slot >= DESCRIPTOR_SLOTS {
        return Err(DescriptorError::SlotOutOfRange { slot, slots: DESCRIPTOR_SLOTS });
    }
    Ok(crate::edid::DETAILED_START + slot * 18)
}

fn decode_standard6(p: &[u8; 13]) -> (t: [StandardTimingEntry; 6])
    ensures
        t@ == Seq::new(6, |i: int| spec_decode_standard(p@[2 * i], p@[2 * i + 1])),
{
    let mut t = [StandardTimingEntry::Unused; 6];
    let mut i: usize = 0;
    while i < 6
        invariant
            i <= 6,
            forall|k: int| 0 <= k < i ==> t@[k] == spec_decode_standard(p@[2 * k], p@[2 * k + 1]),
        decreases 6 - i,
    {
        t[i] = StandardTimingEntry::decode([p[2 * i], p[2 * i + 1]]);
        i = i + 1;
    }
    assert(t@ =~= Seq::new(6, |i: int| spec_decode_standard(p@[2 * i], p@[2 * i + 1])));
    t
}

fn decode_range_ext(p: &[u8; 13]) -> (e: RangeLimitsExtension)
    ensures
        e == spec_decode_range_ext(p@),
{
    let code = p[5];
    if code == 0 || code == 1 {
        RangeLimitsExtension::Standard
    } else if code == 2 {
        RangeLimitsExtension::SecondaryGtf(
            SecondaryGtfParameters {
                start_horizontal_frequency_khz: p[7] as u16 * 2,
                parameter_c: p[8],
                slope_m: p[9] as u16 + 256 * p[10] as u16,
                offset_k: p[11],
                scaling_j: p[12],
            },
        )
    } else if code == 4 {
        RangeLimitsExtension::Cvt(
            CvtRangeSupport {
                revision: p[6],
                max_pixel_clock_precision: p[7] / 4,
                max_active_pixels: ((p[7] % 4) as u16 * 256 + p[8] as u16) * 8,
                supported_aspect_ratios: p[9],
                preferred_aspect_ratio_and_flags: p[10],
                scaling_support: p[11],
                preferred_vertical_rate_hz: p[12],
            },
        )
    } else {
        let payload = [p[6], p[7], p[8], p[9], p[10], p[11], p[12]];
        assert(payload =~= [p@[6], p@[7], p@[8], p@[9], p@[10], p@[11], p@[12]]);
        RangeLimitsExtension::Unknown { definition_code: code, payload }
    }
}

impl EdidBlock {
    /// Decode a monitor descriptor slot, or return `None` for a timing or
    /// free slot.
    pub fn monitor_descriptor(&self, slot: usize) -> (res: Result<Option<MonitorDescriptor>, DescriptorError>)
        ensures
            slot >= 4 ==> res == Err::<Option<MonitorDescriptor>, DescriptorError>(
                DescriptorError::SlotOutOfRange { slot, slots: 4 },
            ),
            slot < 4 && spec_descriptor_free(spec_slot_bytes(self.raw@, slot as int)) ==> res == Ok::<
                Option<MonitorDescriptor>,
                DescriptorError,
            >(None),
            slot < 4 && !spec_descriptor_free(spec_slot_bytes(self.raw@, slot as int)) && spec_decode_error(
                spec_slot_bytes(self.raw@, slot as int),
            ) is Some ==> res == Err::<Option<MonitorDescriptor>, DescriptorError>(
                spec_decode_error(spec_slot_bytes(self.raw@, slot as int))->0,
            ),
            slot < 4 && !spec_descriptor_free(spec_slot_bytes(self.raw@, slot as int)) && spec_decode_error(
                spec_slot_bytes(self.raw@, slot as int),
            ) is None ==> (res matches Ok(Some(md)) && spec_descriptor_decodes(
                spec_slot_bytes(self.raw@, slot as int),
                md,
            )),
    {
        let offset = descriptor_offset(slot)?;
        let ghost d = spec_slot_bytes(self.raw@, slot as int);
        let mut all_ones = true;
        let mut all_zero = true;
        let mut k: usize = 0;
        while k < 18
            invariant
                k <= 18,
                offset == 54 + 18 * slot,
                slot < 4,
                d == spec_slot_bytes(self.raw@, slot as int),
                all_ones == (forall|j: int| 0 <= j < k ==> d[j] == 1),
                all_zero == (forall|j: int| 0 <= j < k ==> d[j] == 0),
            decreases 18 - k,
        {
            let b = self.raw[offset + k];
            assert(b == d[k as int]);
            all_ones = all_ones && b == 1;
            all_zero = all_zero && b == 0;
            k = k + 1;
        }
        if all_ones || self.raw[offset] != 0 || self.raw[offset + 1] != 0 || all_zero {
            return Ok(None);
        }
        let mut payload = [0u8; 13];
        let mut i: usize = 0;
        while i < 13
            invariant
                i <= 13,
                offset == 54 + 18 * slot,
                slot < 4,
                d == spec_slot_bytes(self.raw@, slot as int),
                forall|j: int| 0 <= j < i ==> payload@[j] == d[5 + j],
            decreases 13 - i,
        {
            payload[i] = self.raw[offset + 5 + i];
            i = i + 1;
        }
        assert(payload@ =~= spec_payload(d));
        let tag = self.raw[offset + 3];
        let value = if tag == 0xFF {
            MonitorDescriptor::SerialNumber(decode_text(&payload)?)
        } else if tag == 0xFC {
            MonitorDescriptor::ProductName(decode_text(&payload)?)
        } else if tag == 0xFE {
            MonitorDescriptor::AlphanumericString(decode_text(&payload)?)
        } else if tag == 0xFB {
            let point1 = match decode_color_point(&payload, 0) {
                Some(p) => p,
                None => {
                    return Err(DescriptorError::RangeOutOfBounds);
                },
            };
            let point2 = decode_color_point(&payload, 5);
            MonitorDescriptor::AdditionalColorPoint { point1, point2 }
        } else if tag == 0xFA {
            MonitorDescriptor::AdditionalStandardTimings(decode_standard6(&payload))
        } else if tag == 0xF7 && payload[0] == 0x0A {
            let raw = [payload[1], payload[2], payload[3], payload[4], payload[5], payload[6]];
            assert(raw@ =~= spec_payload(d).subrange(1, 7));
            MonitorDescriptor::EstablishedTimings3(EstablishedTimings3 { revision: payload[0], raw })
        } else if tag == 0xF8 && payload[0] == 0x01 {
            let slot0 = Cvt3ByteTimingEntry::decode([payload[1], payload[2], payload[3]]);
            let slot1 = Cvt3ByteTimingEntry::decode([payload[4], payload[5], payload[6]]);
            let slot2 = Cvt3ByteTimingEntry::decode([payload[7], payload[8], payload[9]]);
            let slot3 = Cvt3ByteTimingEntry::decode([payload[10], payload[11], payload[12]]);
            let c = [slot0, slot1, slot2, slot3];
            assert(c@ =~= Seq::new(
                4,
                |i: int| spec_decode_cvt3(payload@[1 + 3 * i], payload@[2 + 3 * i], payload@[3 + 3 * i]),
            ));
            MonitorDescriptor::Cvt3ByteTimings(c)
        } else if tag == 0xF9 && payload[0] == 0x03 {
            MonitorDescriptor::ColorManagement(
                ColorManagementDescriptor {
                    revision: payload[0],
                    red_a3: payload[1] as u16 + 256 * payload[2] as u16,
                    red_a2: payload[3] as u16 + 256 * payload[4] as u16,
                    green_a3: payload[5] as u16 + 256 * payload[6] as u16,
                    green_a2: payload[7] as u16 + 256 * payload[8] as u16,
                    blue_a3: payload[9] as u16 + 256 * payload[10] as u16,
                    blue_a2: payload[11] as u16 + 256 * payload[12] as u16,
                },
            )
        } else if tag == 0xFD {
            MonitorDescriptor::RangeLimits {
                min_vertical_hz: payload[0],
                max_vertical_hz: payload[1],
                min_horizontal_khz: payload[2],
                max_horizontal_khz: payload[3],
                max_pixel_clock_mhz: payload[4] as u16 * 10,
                extension: decode_range_ext(&payload),
            }
        } else {
            let mut zero = true;
            let mut j: usize = 0;
            while j < 13
                invariant
                    j <= 13,
                    zero == (forall|m: int| 0 <= m < j ==> payload@[m] == 0),
                decreases 13 - j,
            {
                zero = zero && payload[j] == 0;
                j = j + 1;
            }
            if tag == 0x10 && zero {
                MonitorDescriptor::Dummy
            } else {
                MonitorDescriptor::Unknown { tag, payload }
            }
        };
        Ok(Some(value))
    }

    /// Replace a monitor descriptor slot and update the block checksum.
    ///
    /// The descriptor is encoded before any byte is written, so on failure
    /// the block is left unchanged.
    pub fn set_monitor_descriptor(&mut self, slot: usize, descriptor: &MonitorDescriptor) -> (res: Result<
        (),
        DescriptorError,
    >)
        ensures
            !spec_has_header(old(self).raw@) ==> res == Err::<(), DescriptorError>(DescriptorError::NotBaseBlock),
            spec_has_header(old(self).raw@) && slot >= 4 ==> res == Err::<(), DescriptorError>(
                DescriptorError::SlotOutOfRange { slot, slots: 4 },
            ),
            spec_has_header(old(self).raw@) && slot < 4 && spec_encode_descriptor(*descriptor) is Err ==> res
                == Err::<(), DescriptorError>(spec_encode_descriptor(*descriptor)->Err_0),
            spec_has_header(old(self).raw@) && slot < 4 && spec_encode_descriptor(*descriptor) is Ok ==> res is Ok,
            res is Ok ==> final(self).raw@ == spec_with_checksum(
                spec_splice(
                    old(self).raw@,
                    54 + 18 * slot,
                    seq![0u8, 0u8, 0u8, spec_encode_descriptor(*descriptor)->Ok_0.0, 0u8] + spec_encode_descriptor(
                        *descriptor,
                    )->Ok_0.1,
                ),
            ),
            res is Ok ==> byte_sum(final(self).raw@) % 256 == 0,
            res is Err ==> final(self).raw@ == old(self).raw@,
    {
        if !has_header(&self.raw) {
            return Err(DescriptorError::NotBaseBlock);
        }
        let offset = descriptor_offset(slot)?;
        let (tag, payload) = descriptor.encode()?;
        let ghost before = self.raw@;
        let ghost d = seq![0u8, 0u8, 0u8, tag, 0u8] + payload@;
        let mut k: usize = 0;
        while k < 18
            invariant
                k <= 18,
                offset == 54 + 18 * slot,
                slot < 4,
                d == seq![0u8, 0u8, 0u8, tag, 0u8] + payload@,
                self.raw@.len() == 128,
                before.len() == 128,
                forall|j: int| 0 <= j < offset ==> self.raw@[j] == before[j],
                forall|j: int| offset + 18 <= j < 128 ==> self.raw@[j] == before[j],
                forall|j: int| 0 <= j < k ==> self.raw@[offset + j] == d[j],
            decreases 18 - k,
        {
            let b = if k == 3 {
                tag
            } else if k < 5 {
                0
            } else {
                payload[k - 5]
            };
            self.raw[offset + k] = b;
            k = k + 1;
        }
        assert(self.raw@ =~= spec_splice(before, offset as int, d));
        proof {
            lemma_with_checksum_sum(self.raw@);
        }
        self.update_checksum();
        Ok(())
    }
}

/// Base-block slot `slot` holds a readable text descriptor with `tag`.
pub open spec fn spec_text_slot(s: Seq<u8>, slot: int, tag: u8) -> bool {
    let d = spec_slot_bytes(s, slot);
    !spec_descriptor_free(d) && d[3] == tag && spec_ascii_bytes(spec_payload(d))
}

/// The first slot from `from` on that holds a readable text descriptor
/// with `tag`.
pub open spec fn spec_first_text_slot(s: Seq<u8>, tag: u8, from: int) -> Option<int>
    decreases 4 - from,
{
    if from < 0 || from >= 4 {
        None
    } else if spec_text_slot(s, from, tag) {
        Some(from)
    } else {
        spec_first_text_slot(s, tag, from + 1)
    }
}

/// The text of the first readable text descriptor with `tag`, if any.
pub open spec fn spec_find_text(s: Seq<u8>, tag: u8) -> Option<Seq<char>> {
    match spec_first_text_slot(s, tag, 0) {
        Some(k) => Some(spec_decode_text(spec_payload(spec_slot_bytes(s, k)))),
        None => None,
    }
}

impl Edid {
    /// The text of the first readable product-name (0xFC) or serial-number
    /// (0xFF) descriptor of the base block.
    fn find_text(&self, tag: u8) -> (res: Option<String>)
        requires
            tag == 0xFC || tag == 0xFF,
        ensures
            match res {
                Some(t) => spec_find_text(self.base.raw@, tag) == Some(t@),
                None => spec_find_text(self.base.raw@, tag) is None,
            },
    {
        let mut slot: usize = 0;
        while slot < 4
            invariant
                slot <= 4,
                tag == 0xFC || tag == 0xFF,
                spec_first_text_slot(self.base.raw@, tag, 0) == spec_first_text_slot(
                    self.base.raw@,
                    tag,
                    slot as int,
                ),
            decreases 4 - slot,
        {
            let md = self.base.monitor_descriptor(slot);
            let ghost d = spec_slot_bytes(self.base.raw@, slot as int);
            match md {
                Ok(Some(MonitorDescriptor::ProductName(name))) => {
                    if tag == 0xFC {
                        assert(spec_text_slot(self.base.raw@, slot as int, tag));
                        return Some(name);
                    }
                },
                Ok(Some(MonitorDescriptor::SerialNumber(serial))) => {
                    if tag == 0xFF {
                        assert(spec_text_slot(self.base.raw@, slot as int, tag));
                        return Some(serial);
                    }
                },
                _ => {},
            }
            assert(!spec_text_slot(self.base.raw@, slot as int, tag));
            slot = slot + 1;
        }
        None
    }

    /// Extract the monitor product name from the Base Block descriptors, if present.
    pub fn monitor_name(&self) -> (res: Option<String>)
        ensures
            match res {
                Some(t) => spec_find_text(self.base.raw@, 0xFC) == Some(t@),
                None => spec_find_text(self.base.raw@, 0xFC) is None,
            },
    {
        self.find_text(0xFC)
    }

    /// Extract the monitor serial number string from the Base Block descriptors, if present.
    pub fn serial_number(&self) -> (res: Option<String>)
        ensures
            match res {
                Some(t) => spec_find_text(self.base.raw@, 0xFF) == Some(t@),
                None => spec_find_text(self.base.raw@, 0xFF) is None,
            },
    {
        self.find_text(0xFF)
    }
}

// ---------------------------------------------------------------------------
// Descriptor round trip
// ---------------------------------------------------------------------------

/// Text that reads back unchanged from a text descriptor: no newline or NUL
/// inside it and no trailing space.
pub open spec fn spec_text_canonical(t: Seq<char>) -> bool {
    &&& forall|i: int| 0 <= i < t.len() ==> t[i] != '\n' && t[i] != '\0'
    &&& (t.len() == 0 || t.last() != ' ')
}

/// A CVT 3-byte entry that reads back unchanged from its encoding.
pub open spec fn spec_cvt3_canonical(e: Cvt3ByteTimingEntry) -> bool {
    match e {
        Cvt3ByteTimingEntry::Unused => true,
        Cvt3ByteTimingEntry::Reserved(raw) => spec_decode_cvt3(raw[0], raw[1], raw[2]) == e,
        Cvt3ByteTimingEntry::Active { preferred_rate, supported_rates, .. } => {
            &&& supported_rates.raw < 32
            &&& (preferred_rate matches CvtPreferredRate::Reserved(c) ==> 5 <= c < 8)
            &&& spec_encode_cvt3(e) is Some ==> spec_encode_cvt3(e)->0 != seq![0u8, 0u8, 0u8]
        },
    }
}

/// A monitor descriptor in the form that reading it back reproduces: text
/// without newline, NUL or trailing space, CVT entries and range-limit
/// extensions in their decoded form, and unknown tags that no typed
/// variant claims.
pub open spec fn spec_descriptor_canonical(md: MonitorDescriptor) -> bool {
    match md {
        MonitorDescriptor::SerialNumber(t) => spec_text_canonical(t@),
        MonitorDescriptor::ProductName(t) => spec_text_canonical(t@),
        MonitorDescriptor::AlphanumericString(t) => spec_text_canonical(t@),
        MonitorDescriptor::Cvt3ByteTimings(t) => forall|i: int| 0 <= i < 4 ==> spec_cvt3_canonical(#[trigger] t@[i]),
        MonitorDescriptor::RangeLimits { extension, .. } => match extension {
            RangeLimitsExtension::Unknown { definition_code, .. } => definition_code != 0
                && definition_code != 1 && definition_code != 2 && definition_code != 4,
            _ => true,
        },
        MonitorDescriptor::Unknown { tag, payload } => !spec_known_tag(tag, payload@) && !(tag == 0
            && crate::edid::spec_all_bytes(payload@, 0)),
        _ => true,
    }
}

/// The 18 bytes written for a descriptor that encodes.
pub open spec fn spec_descriptor_bytes(md: MonitorDescriptor) -> Seq<u8> {
    seq![0u8, 0u8, 0u8, spec_encode_descriptor(md)->Ok_0.0, 0u8] + spec_encode_descriptor(md)->Ok_0.1
}

proof fn lemma_text_end_at(p: Seq<u8>, n: int, i: int)
    requires
        0 <= i <= n < p.len(),
        forall|k: int| 0 <= k < n ==> p[k] != 0x0A && p[k] != 0,
        p[n] == 0x0A,
    ensures
        spec_text_end(p, i) == n,
    decreases n - i,
{
    if i < n {
        lemma_text_end_at(p, n, i + 1);
    }
}

proof fn lemma_text_roundtrip(t: Seq<char>)
    requires
        spec_encode_text(t) is Ok,
        spec_text_canonical(t),
    ensures
        spec_decode_text(spec_encode_text(t)->Ok_0) == t,
        spec_ascii_bytes(spec_encode_text(t)->Ok_0),
        spec_encode_text(t)->Ok_0.len() == 13,
{
    let b = encode_utf8(t);
    let p = spec_encode_text(t)->Ok_0;
    lemma_ascii_chars(t);
    assert(t.len() == b.len());
    assert forall|k: int| 0 <= k < b.len() implies p[k] != 0x0A && p[k] != 0 by {
        assert(t[k] == b[k] as char);
    }
    lemma_text_end_at(p, b.len() as int, 0);
    assert(p.take(b.len() as int) =~= b);
    if b.len() > 0 {
        assert(t.last() == b.last() as char);
    }
    assert(spec_trim_spaces(b) == b);
}

proof fn lemma_first_cvt_error_none(t: Seq<Cvt3ByteTimingEntry>, n: int)
    requires
        0 <= n,
        spec_first_cvt_error(t, n) is None,
    ensures
        forall|k: int| 0 <= k < n ==> spec_encode_cvt3(#[trigger] t[k]) is Some,
    decreases n,
{
    if n > 0 {
        lemma_first_cvt_error_none(t, n - 1);
    }
}

/// The 18 bytes of a descriptor read back as that descriptor.
pub open spec fn spec_reads_back(md: MonitorDescriptor) -> bool {
    &&& spec_descriptor_bytes(md).len() == 18
    &&& !spec_descriptor_free(spec_descriptor_bytes(md))
    &&& spec_decode_error(spec_descriptor_bytes(md)) is None
    &&& spec_descriptor_decodes(spec_descriptor_bytes(md), md)
}

#[verifier::spinoff_prover]
proof fn lemma_text_descriptor_roundtrip(md: MonitorDescriptor)
    requires
        spec_encode_descriptor(md) is Ok,
        spec_descriptor_canonical(md),
        md is SerialNumber || md is ProductName || md is AlphanumericString,
    ensures
        spec_reads_back(md),
{
    let t = match md {
        MonitorDescriptor::SerialNumber(t) => t,
        MonitorDescriptor::ProductName(t) => t,
        MonitorDescriptor::AlphanumericString(t) => t,
        _ => arbitrary(),
    };
    lemma_text_roundtrip(t@);
    let d = spec_descriptor_bytes(md);
    let p = spec_encode_descriptor(md)->Ok_0.1;
    assert(p == spec_encode_text(t@)->Ok_0);
    assert(p.len() == 13);
    assert(d.len() == 18);
    assert(spec_payload(d) =~= p);
    assert(d[3] == spec_encode_descriptor(md)->Ok_0.0);
    assert(d[3] != 0 && d[0] == 0);
    assert(!crate::edid::spec_all_bytes(d, 0));
    assert(!crate::edid::spec_all_bytes(d, 1));
}

#[verifier::spinoff_prover]
proof fn lemma_color_point_descriptor_roundtrip(md: MonitorDescriptor)
    requires
        spec_encode_descriptor(md) is Ok,
        md is AdditionalColorPoint,
    ensures
        spec_reads_back(md),
{
    let d = spec_descriptor_bytes(md);
    let p = spec_encode_descriptor(md)->Ok_0.1;
    assert(spec_payload(d) =~= p);
    if let MonitorDescriptor::AdditionalColorPoint { point1, point2 } = md {
        assert(p.subrange(0, 5) =~= spec_encode_color_point(point1));
        match point2 {
            Some(p2) => {
                assert(p.subrange(5, 10) =~= spec_encode_color_point(p2));
            },
            None => {
                assert(p.subrange(5, 10) =~= spec_zeros(5));
            },
        }
    }
}

#[verifier::spinoff_prover]
proof fn lemma_timing_list_descriptor_roundtrip(md: MonitorDescriptor)
    requires
        spec_encode_descriptor(md) is Ok,
        spec_descriptor_canonical(md),
        md is AdditionalStandardTimings || md is Cvt3ByteTimings || md is EstablishedTimings3,
    ensures
        spec_reads_back(md),
{
    let d = spec_descriptor_bytes(md);
    let p = spec_encode_descriptor(md)->Ok_0.1;
    assert(spec_payload(d) =~= p);
    match md {
        MonitorDescriptor::AdditionalStandardTimings(t) => {
            lemma_first_standard_error_step(t@, 6);
            assert forall|i: int| 0 <= i < 6 implies spec_decode_standard(p[2 * i], p[2 * i + 1])
                == #[trigger] t@[i] by {
                lemma_standard_timing_roundtrip(t@[i]);
            }
            assert(t@ =~= Seq::new(6, |i: int| spec_decode_standard(p[2 * i], p[2 * i + 1])));
        },
        MonitorDescriptor::EstablishedTimings3(e) => {
            assert(p.subrange(1, 7) =~= e.raw@);
        },
        MonitorDescriptor::Cvt3ByteTimings(t) => {
            lemma_first_cvt_error_none(t@, 4);
            assert forall|i: int| 0 <= i < 4 implies spec_decode_cvt3(p[1 + 3 * i], p[2 + 3 * i], p[3 + 3 * i])
                == #[trigger] t@[i] by {
                let b = spec_encode_cvt3(t@[i])->0;
                assert(p[1 + 3 * i] == b[0] && p[2 + 3 * i] == b[1] && p[3 + 3 * i] == b[2]);
                if !(t@[i] is Reserved) {
                    lemma_cvt3_entry_roundtrip(t@[i]);
                }
            }
            assert(t@ =~= Seq::new(4, |i: int| spec_decode_cvt3(p[1 + 3 * i], p[2 + 3 * i], p[3 + 3 * i])));
        },
        _ => {},
    }
}

#[verifier::spinoff_prover]
proof fn lemma_other_descriptor_roundtrip(md: MonitorDescriptor)
    requires
        spec_encode_descriptor(md) is Ok,
        spec_descriptor_canonical(md),
        md is ColorManagement || md is RangeLimits || md is Dummy || md is Unknown,
    ensures
        spec_reads_back(md),
{
    let d = spec_descriptor_bytes(md);
    let p = spec_encode_descriptor(md)->Ok_0.1;
    assert(spec_payload(d) =~= p);
    match md {
        MonitorDescriptor::ColorManagement(m) => {
            assert(p[1] + 256 * p[2] == m.red_a3);
            assert(p[3] + 256 * p[4] == m.red_a2);
            assert(p[5] + 256 * p[6] == m.green_a3);
            assert(p[7] + 256 * p[8] == m.green_a2);
            assert(p[9] + 256 * p[10] == m.blue_a3);
            assert(p[11] + 256 * p[12] == m.blue_a2);
            assert(spec_decode_dcm(p) == m);
            assert(d[3] == 0xF9);
            assert(!crate::edid::spec_all_bytes(d, 0));
            assert(spec_reads_back(md));
        },
        MonitorDescriptor::RangeLimits { extension, max_pixel_clock_mhz, .. } => {
            assert(p[4] * 10 == max_pixel_clock_mhz);
            assert(d[3] == 0xFD);
            assert(!crate::edid::spec_all_bytes(d, 0));
            match extension {
                RangeLimitsExtension::Unknown { definition_code, payload } => {
                    assert(p.subrange(6, 13) =~= payload@);
                    let arr = [p[6], p[7], p[8], p[9], p[10], p[11], p[12]];
                    assert(arr@ =~= payload@);
                    assert(arr == payload);
                    assert(spec_decode_range_ext(p) == extension);
                },
                RangeLimitsExtension::SecondaryGtf(g) => {
                    assert(p[7] * 2 == g.start_horizontal_frequency_khz);
                    assert(p[9] + 256 * p[10] == g.slope_m);
                    assert(spec_decode_range_ext(p) == extension);
                },
                RangeLimitsExtension::Cvt(c) => {
                    let units = c.max_active_pixels / 8;
                    assert(p[7] / 4 == c.max_pixel_clock_precision);
                    assert(((p[7] % 4) * 256 + p[8]) == units);
                    assert(units * 8 == c.max_active_pixels);
                    assert(spec_decode_range_ext(p) == extension);
                },
                RangeLimitsExtension::Standard => {
                    assert(spec_decode_range_ext(p) == extension);
                },
            }
            assert(p.len() == 13);
            assert(spec_decode_error(d) is None);
            assert(!spec_descriptor_free(d));
            assert(spec_descriptor_decodes(d, md));
            assert(d.len() == 18);
            assert(spec_reads_back(md));
        },
        MonitorDescriptor::Dummy => {
            assert(!crate::edid::spec_all_bytes(d, 0)) by {
                assert(d[3] == 0x10);
            }
            assert(p =~= spec_zeros(13));
            assert(crate::edid::spec_all_bytes(p, 0));
            assert(spec_reads_back(md));
        },
        MonitorDescriptor::Unknown { tag, payload } => {
            if crate::edid::spec_all_bytes(d, 0) {
                assert(tag == d[3]);
                assert forall|k: int| 0 <= k < 13 implies payload@[k] == 0 by {
                    assert(d[5 + k] == payload@[k]);
                }
                assert(d[3] == 0);
                assert(crate::edid::spec_all_bytes(payload@, 0));
                assert(false);
            }
            assert(p == payload@);
            assert(d[3] == tag);
            assert(d[0] == 0 && d[1] == 0);
            assert(!crate::edid::spec_all_bytes(d, 1));
            assert(!crate::edid::spec_all_bytes(d, 0));
            assert(!spec_descriptor_free(d));
            assert(spec_decode_error(d) is None);
            assert(spec_reads_back(md));
        },
        _ => {},
    }
}

/// Writing a canonical monitor descriptor into a slot and reading the slot
/// back gives the same descriptor: the slot is not free, decodes without
/// error, and decodes to exactly `md`.
pub proof fn lemma_descriptor_roundtrip(md: MonitorDescriptor)
    requires
        spec_encode_descriptor(md) is Ok,
        spec_descriptor_canonical(md),
    ensures
        spec_descriptor_bytes(md).len() == 18,
        !spec_descriptor_free(spec_descriptor_bytes(md)),
        spec_decode_error(spec_descriptor_bytes(md)) is None,
        spec_descriptor_decodes(spec_descriptor_bytes(md), md),
{
    if md is SerialNumber || md is ProductName || md is AlphanumericString {
        lemma_text_descriptor_roundtrip(md);
    } else if md is AdditionalColorPoint {
        lemma_color_point_descriptor_roundtrip(md);
    } else if md is AdditionalStandardTimings || md is Cvt3ByteTimings || md is EstablishedTimings3 {
        lemma_timing_list_descriptor_roundtrip(md);
    } else {
        lemma_other_descriptor_roundtrip(md);
    }
}

/// Reading a slot back after writing a canonical descriptor into it gives
/// that descriptor, whatever the rest of the block holds.
pub proof fn lemma_set_then_get_descriptor(s: Seq<u8>, slot: int, md: MonitorDescriptor)
    requires
        s.len() == 128,
        0 <= slot < 4,
        spec_encode_descriptor(md) is Ok,
        spec_descriptor_canonical(md),
    ensures
        ({
            let after = spec_with_checksum(spec_splice(s, 54 + 18 * slot, spec_descriptor_bytes(md)));
            &&& spec_slot_bytes(after, slot) == spec_descriptor_bytes(md)
            &&& !spec_descriptor_free(spec_slot_bytes(after, slot))
            &&& spec_decode_error(spec_slot_bytes(after, slot)) is None
            &&& spec_descriptor_decodes(spec_slot_bytes(after, slot), md)
        }),
{
    lemma_descriptor_roundtrip(md);
    let d = spec_descriptor_bytes(md);
    let after = spec_with_checksum(spec_splice(s, 54 + 18 * slot, d));
    assert(spec_slot_bytes(after, slot) =~= d);
}

} // verus!
