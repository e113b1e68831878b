//! DisplayID extension sections: data blocks, typed views and their
//! encoders.
use vstd::prelude::*;
use vstd::utf8::valid_utf8;
use super::{ExtensionError, ExtensionWriteError};
use super::cta::{CtaDataBlock, CtaDataBlockView, spec_cta_view_error, spec_cta_view_matches, spec_to_data_block, spec_cta_block_bytes};
use crate::edid::{EdidBlock, byte_sum};
use crate::metadata::{spec_with_checksum, lemma_with_checksum_sum};

verus! {

/// Parsed DisplayID base-section header.
#[derive(Clone, Copy, Debug, PartialEq, Eq)]
pub struct DisplayIdHeader {
    /// DisplayID structure revision byte.
    pub revision: u8,
    /// Number of bytes occupied by data blocks after the four-byte header.
    pub payload_length: usize,
    /// Product type in DisplayID 1.x, or primary use case in 2.x.
    pub product_type_or_primary_use: u8,
    /// Number of following DisplayID extension sections.
    pub extension_count: u8,
}

/// A DisplayID data block with its header fields and uninterpreted payload.
#[derive(Clone, Debug, PartialEq, Eq)]
pub struct DisplayIdDataBlock {
    /// DisplayID data-block tag.
    pub tag: u8,
    /// DisplayID data-block revision.
    pub revision: u8,
    /// Data-block payload without the three-byte header.
    pub payload: Vec<u8>,
}


/// Aspect ratio of a DisplayID Type I/VII detailed timing (byte 3 bits 3:0).
#[derive(Clone, Copy, Debug, PartialEq, Eq)]
pub enum DisplayIdAspectRatio {
    /// 1:1.
    OneToOne,
    /// 5:4.
    FiveToFour,
    /// 4:3.
    FourToThree,
    /// 15:9.
    FifteenToNine,
    /// 16:9.
    SixteenToNine,
    /// 16:10.
    SixteenToTen,
    /// 64:27.
    SixtyFourToTwentySeven,
    /// 256:135.
    TwoHundredFiftySixToOneThirtyFive,
    /// Value 8: derive the ratio from the active image size.
    Calculated,
    /// Reserved value (9..=15), preserved verbatim.
    Reserved(u8),
}


/// Stereoscopic 3D mode of a DisplayID Type I/VII detailed timing (byte 3 bits 6:5).
#[derive(Clone, Copy, Debug, PartialEq, Eq)]
pub enum DisplayIdStereo3d {
    /// Mono timing.
    Mono,
    /// 3D stereo timing.
    Stereo3d,
    /// Mono or 3D stereo depending on user action.
    UserAction,
    /// Reserved.
    Reserved,
}

/// One DisplayID detailed timing entry.
#[derive(Clone, Copy, Debug, PartialEq, Eq)]
pub struct DisplayIdDetailedTiming {
    /// Pixel clock in kHz.
    pub pixel_clock_khz: u32,
    /// Active horizontal pixels.
    pub h_active: u32,
    /// Horizontal blanking pixels.
    pub h_blank: u32,
    /// Horizontal sync offset in pixels.
    pub h_sync_offset: u32,
    /// Horizontal sync width in pixels.
    pub h_sync_width: u32,
    /// Active vertical lines.
    pub v_active: u32,
    /// Vertical blanking lines.
    pub v_blank: u32,
    /// Vertical sync offset in lines.
    pub v_sync_offset: u32,
    /// Vertical sync width in lines.
    pub v_sync_width: u32,
    /// Horizontal sync polarity.
    pub h_sync_positive: bool,
    /// Vertical sync polarity.
    pub v_sync_positive: bool,
    /// Aspect ratio (byte 3 bits 3:0).
    pub aspect_ratio: DisplayIdAspectRatio,
    /// Whether the timing is interlaced (byte 3 bit 4).
    pub interlaced: bool,
    /// Stereoscopic 3D mode (byte 3 bits 6:5).
    pub stereo_3d: DisplayIdStereo3d,
    /// Preferred timing (byte 3 bit 7, block revision < 2).
    pub preferred: bool,
    /// YCbCr 4:2:0 support (byte 3 bit 7, block revision >= 2).
    pub ycbcr420: bool,
}

/// Typed DisplayID 1.x or 2.x Display Parameters Data Block.
#[derive(Clone, Debug, PartialEq, Eq)]
pub struct DisplayIdDisplayParameters {
    /// Horizontal image size in millimetres.
    pub horizontal_image_size_mm: u16,
    /// Vertical image size in millimetres.
    pub vertical_image_size_mm: u16,
    /// Horizontal native pixel count.
    pub horizontal_pixel_count: u16,
    /// Vertical native pixel count.
    pub vertical_pixel_count: u16,
    /// Display feature flags.
    pub features: u8,
    /// Primary color 1 chromaticity bytes.
    pub primary_color_1: [u8; 3],
    /// Primary color 2 chromaticity bytes.
    pub primary_color_2: [u8; 3],
    /// Primary color 3 chromaticity bytes.
    pub primary_color_3: [u8; 3],
    /// White-point chromaticity bytes.
    pub white_point: [u8; 3],
    /// Maximum luminance for full-screen white.
    pub max_luminance_full: u16,
    /// Maximum luminance for a 10-percent window.
    pub max_luminance_10_percent: u16,
    /// Minimum luminance.
    pub min_luminance: u16,
    /// Color depth and display technology flags.
    pub color_depth_and_technology: u8,
    /// Gamma and EOTF byte.
    pub gamma_eotf: u8,
    /// Original payload bytes.
    pub raw: Vec<u8>,
}

/// DisplayID Dynamic Video Timing Range Limits Data Block (Tag 0x25 in 2.0, Tag 0x09 in 1.x).
#[derive(Clone, Debug, PartialEq, Eq)]
pub struct DisplayIdDynamicVideoTimingRange {
    /// Minimum pixel clock in kHz (1 kHz .. 16,777,216 kHz).
    pub min_pixel_clock_khz: u32,
    /// Maximum pixel clock in kHz (1 kHz .. 16,777,216 kHz).
    pub max_pixel_clock_khz: u32,
    /// Minimum vertical refresh rate in Hz.
    pub min_vfreq_hz: u8,
    /// Maximum vertical refresh rate in Hz.
    pub max_vfreq_hz: u16,
    /// Seamless dynamic video timing change / VRR support flag.
    pub seamless_dynamic_video_timing: bool,
    /// Original payload bytes.
    pub raw: Vec<u8>,
}

/// DisplayID 1.x Video Timing Range Limits Data Block (Tag 0x09).
///
/// Distinct from the 2.0 [`DisplayIdDynamicVideoTimingRange`] (Tag 0x25):
/// the 1.x block is a fixed 15-byte structure that additionally carries
/// horizontal-frequency, horizontal-blanking and vertical-blanking limits,
/// plus CVT/interlaced/device-class capability flags.
#[derive(Clone, Debug, PartialEq, Eq)]
pub struct DisplayIdVideoTimingRangeLimits {
    /// Minimum pixel clock in kHz.
    pub min_pixel_clock_khz: u32,
    /// Maximum pixel clock in kHz.
    pub max_pixel_clock_khz: u32,
    /// Minimum horizontal frequency in kHz.
    pub min_hfreq_khz: u8,
    /// Maximum horizontal frequency in kHz.
    pub max_hfreq_khz: u8,
    /// Minimum horizontal blanking in pixels.
    pub min_h_blanking: u16,
    /// Minimum vertical refresh rate in Hz.
    pub min_vfreq_hz: u8,
    /// Maximum vertical refresh rate in Hz.
    pub max_vfreq_hz: u8,
    /// Minimum vertical blanking in lines.
    pub min_v_blanking: u16,
    /// Supports interlaced timings (flag bit 7).
    pub supports_interlaced: bool,
    /// Supports CVT timings (flag bit 6).
    pub supports_cvt: bool,
    /// Supports CVT reduced blanking (flag bit 5).
    pub supports_cvt_reduced_blanking: bool,
    /// Discrete-frequency display device (flag bit 4).
    pub discrete_frequency: bool,
    /// Original payload bytes.
    pub raw: Vec<u8>,
}

/// DisplayID Display Interface Features Data Block (Tag 0x26 in 2.0, Tag 0x0F in 1.x).
#[derive(Clone, Debug, PartialEq, Eq)]
pub struct DisplayIdInterfaceFeatures {
    /// Color-depth support for RGB encoding (byte 0): bit0=6bpc, bit1=8bpc,
    /// bit2=10bpc, bit3=12bpc, bit4=14bpc, bit5=16bpc.
    pub color_depth_rgb: u8,
    /// Color-depth support for YCbCr 4:4:4 encoding (byte 1).
    pub color_depth_ycbcr444: u8,
    /// Color-depth support for YCbCr 4:2:2 encoding (byte 2).
    pub color_depth_ycbcr422: u8,
    /// Color-depth support for YCbCr 4:2:0 encoding (byte 3).
    pub color_depth_ycbcr420: u8,
    /// Minimum pixel rate for YCbCr 4:2:0 in 74.25 MP/s units, 0 = supported at all modes (byte 4).
    pub min_ycbcr420_pixel_rate: u8,
    /// Audio capability and feature support flags (byte 5).
    pub audio_flags: u8,
    /// Color space and EOTF combination 1 flags (byte 6).
    pub colorspace_eotf_1: u8,
    /// Color space and EOTF combination 2 flags, reserved (byte 7).
    pub colorspace_eotf_2: u8,
    /// Number of additional color space and EOTF bytes (byte 8).
    pub additional_colorspace_count: u8,
    /// Original payload bytes.
    pub raw: Vec<u8>,
}

/// DisplayID Product Identification Data Block (Tag 0x20 in 2.0, Tag 0x00 in 1.x).
///
/// 2.0 uses an IEEE OUI for the vendor; 1.x uses a three-character vendor ID.
/// The 3-byte `vendor_id` is stored verbatim and `vendor_id_is_oui` distinguishes
/// the two layouts so a typed round-trip never mixes the field rules.
#[derive(Clone, Debug, PartialEq, Eq)]
pub struct DisplayIdProductIdentification {
    /// Vendor identifier: 2.0 IEEE OUI bytes or 1.x three-character vendor ID.
    pub vendor_id: [u8; 3],
    /// Whether `vendor_id` is a 2.0 IEEE OUI (true) or a 1.x character ID (false).
    pub vendor_id_is_oui: bool,
    /// Product code (2 bytes, LSB/MSB).
    pub product_code: u16,
    /// Serial number (4 bytes, little-endian), 0 if unspecified.
    pub serial_number: u32,
    /// Week of manufacture, 0 = unspecified, 255 = model-year tag.
    pub week_of_manufacture: u8,
    /// Year of manufacture / model year (2000 + stored value).
    pub year: u16,
    /// Product name raw bytes (exact, possibly non-UTF-8), up to 236 bytes.
    pub product_name: Vec<u8>,
    /// Original payload bytes.
    pub raw: Vec<u8>,
}

/// DisplayID Tiled Display Topology Data Block (Tag 0x28 in 2.0, Tag 0x12 in 1.x).
#[derive(Clone, Debug, PartialEq, Eq)]
pub struct DisplayIdTiledDisplayTopology {
    /// Raw capability flags byte.
    pub caps: u8,
    /// Horizontal tile count (1..=64).
    pub tiles_h: u8,
    /// Vertical tile count (1..=64).
    pub tiles_v: u8,
    /// Horizontal tile location (0-based).
    pub tile_location_h: u8,
    /// Vertical tile location (0-based).
    pub tile_location_v: u8,
    /// Tile width in pixels (1..=65536).
    pub tile_width: u16,
    /// Tile height in pixels (1..=65536).
    pub tile_height: u16,
    /// Pixel multiplier for bevel sizes (0 = no bevel scale).
    pub pixel_multiplier: u8,
    /// Top bevel size, present when bevel info is available.
    pub bevel_top: Option<u8>,
    /// Bottom bevel size, present when bevel info is available.
    pub bevel_bottom: Option<u8>,
    /// Right bevel size, present when bevel info is available.
    pub bevel_right: Option<u8>,
    /// Left bevel size, present when bevel info is available.
    pub bevel_left: Option<u8>,
    /// Vendor identifier: 2.0 IEEE OUI or 1.x character ID.
    pub vendor_id: [u8; 3],
    /// Whether `vendor_id` is a 2.0 IEEE OUI (true) or a 1.x character ID (false).
    pub vendor_id_is_oui: bool,
    /// Tiled display product code.
    pub product_code: u16,
    /// Tiled display serial number.
    pub serial_number: u32,
    /// Original payload bytes.
    pub raw: Vec<u8>,
}

/// DisplayID Type IX formula-based timing descriptor (part of tag 0x24).
#[derive(Clone, Copy, Debug, PartialEq, Eq)]
pub struct DisplayIdFormulaTiming {
    /// Horizontal active pixels (1..=65536).
    pub h_active: u16,
    /// Vertical active lines (1..=65536).
    pub v_active: u16,
    /// Vertical refresh rate in Hz (1..=256).
    pub v_refresh_hz: u16,
    /// Timing formula: 0 = CVT, 1 = CVT-RB, 2 = CVT-R2.
    pub formula: u8,
    /// Whether the NTSC refresh rate × (1000/1001) variant is supported.
    pub ntsc_refresh: bool,
    /// Stereoscopic 3D mode (bits 6..5): 0 = mono, 1 = 3D, 2 = user action.
    pub stereo_3d: u8,
}

/// A DisplayID Type VIII enumerated timing code (part of tag 0x23).
#[derive(Clone, Copy, Debug, PartialEq, Eq)]
pub struct DisplayIdEnumeratedTiming {
    /// Timing code type: 0 = DMT, 1 = CTA VIC, 2 = HDMI VIC.
    pub code_type: u8,
    /// Timing code value.
    pub code: u16,
}

/// Ordering policy used when re-ordering DisplayID data blocks.
#[derive(Clone, Copy, Debug, PartialEq, Eq)]
pub enum DisplayIdOrdering {
    /// Keep the source order; the block bytes are left unchanged.
    PreserveSourceOrder,
    /// Deterministically sort data blocks by tag, revision, then payload.
    Canonical,
}

/// Typed read-only views for DisplayID data blocks.
#[derive(Clone, Debug, PartialEq, Eq)]
pub enum DisplayIdDataBlockView {
    /// DisplayID 1.x or 2.x Product Identification Data Block.
    ProductIdentification {
        /// Decoded product identification fields.
        product: DisplayIdProductIdentification,
    },
    /// DisplayID 1.x or 2.x Display Parameters Data Block.
    DisplayParameters {
        /// Decoded display parameters.
        parameters: DisplayIdDisplayParameters,
    },
    /// DisplayID Type I (1.x) or Type VII (2.x) detailed timings.
    DetailedTiming {
        /// Timing entries in source order.
        timings: Vec<DisplayIdDetailedTiming>,
    },
    /// DisplayID Display Interface Features (Tag 0x26 or Tag 0x0F).
    InterfaceFeatures {
        /// Decoded interface features.
        features: DisplayIdInterfaceFeatures,
    },
    /// DisplayID 2.0 Dynamic Video Timing Range Limits (Tag 0x25).
    DynamicVideoTimingRange {
        /// Decoded dynamic video timing range limits.
        range: DisplayIdDynamicVideoTimingRange,
    },
    /// DisplayID 1.x Video Timing Range Limits (Tag 0x09).
    VideoTimingRange1x {
        /// Decoded 1.x video timing range limits.
        range: DisplayIdVideoTimingRangeLimits,
    },
    /// DisplayID Type IX formula-based timings (Tag 0x24).
    FormulaTiming {
        /// Formula-based timing descriptors in source order.
        timings: Vec<DisplayIdFormulaTiming>,
    },
    /// DisplayID Type VIII enumerated timing codes (Tag 0x23).
    EnumeratedTiming {
        /// Timing code type (DMT / CTA VIC / HDMI VIC) shared by all codes.
        code_type: u8,
        /// Timing code size in bytes (1 or 2).
        code_size: u8,
        /// Timing code values in source order.
        codes: Vec<u16>,
    },
    /// DisplayID Tiled Display Topology (Tag 0x28 or Tag 0x12).
    TiledDisplayTopology {
        /// Decoded tiled display topology.
        topology: DisplayIdTiledDisplayTopology,
    },
    /// Embedded CTA data-block collection.
    Cta {
        /// Parsed CTA data blocks in source order.
        data_blocks: Vec<CtaDataBlock>,
        /// Original embedded CTA payload. Re-encoding the typed view uses the parsed
        /// blocks and may canonicalize padding or other unmodeled tail bytes.
        raw: Vec<u8>,
    },
    /// Any DisplayID tag not modeled by this version.
    Unknown {
        /// DisplayID data-block tag.
        tag: u8,
        /// Uninterpreted payload bytes.
        payload: Vec<u8>,
    },
}


/// The aspect ratio of a four-bit code.
pub open spec fn spec_aspect_of(v: u8) -> DisplayIdAspectRatio {
    if v == 0 {
        DisplayIdAspectRatio::OneToOne
    } else if v == 1 {
        DisplayIdAspectRatio::FiveToFour
    } else if v == 2 {
        DisplayIdAspectRatio::FourToThree
    } else if v == 3 {
        DisplayIdAspectRatio::FifteenToNine
    } else if v == 4 {
        DisplayIdAspectRatio::SixteenToNine
    } else if v == 5 {
        DisplayIdAspectRatio::SixteenToTen
    } else if v == 6 {
        DisplayIdAspectRatio::SixtyFourToTwentySeven
    } else if v == 7 {
        DisplayIdAspectRatio::TwoHundredFiftySixToOneThirtyFive
    } else if v == 8 {
        DisplayIdAspectRatio::Calculated
    } else {
        DisplayIdAspectRatio::Reserved(v)
    }
}

/// The four-bit code written for an aspect ratio.
pub open spec fn spec_aspect_nibble(a: DisplayIdAspectRatio) -> u8 {
    match a {
        DisplayIdAspectRatio::OneToOne => 0,
        DisplayIdAspectRatio::FiveToFour => 1,
        DisplayIdAspectRatio::FourToThree => 2,
        DisplayIdAspectRatio::FifteenToNine => 3,
        DisplayIdAspectRatio::SixteenToNine => 4,
        DisplayIdAspectRatio::SixteenToTen => 5,
        DisplayIdAspectRatio::SixtyFourToTwentySeven => 6,
        DisplayIdAspectRatio::TwoHundredFiftySixToOneThirtyFive => 7,
        DisplayIdAspectRatio::Calculated => 8,
        DisplayIdAspectRatio::Reserved(v) => v % 16,
    }
}

impl DisplayIdAspectRatio {
    fn from_nibble(value: u8) -> (a: Self)
        ensures
            a == spec_aspect_of(value),
    {
        match value {
            0 => Self::OneToOne,
            1 => Self::FiveToFour,
            2 => Self::FourToThree,
            3 => Self::FifteenToNine,
            4 => Self::SixteenToNine,
            5 => Self::SixteenToTen,
            6 => Self::SixtyFourToTwentySeven,
            7 => Self::TwoHundredFiftySixToOneThirtyFive,
            8 => Self::Calculated,
            v => Self::Reserved(v),
        }
    }

    fn nibble(self) -> (n: u8)
        ensures
            n == spec_aspect_nibble(self),
    {
        match self {
            Self::OneToOne => 0,
            Self::FiveToFour => 1,
            Self::FourToThree => 2,
            Self::FifteenToNine => 3,
            Self::SixteenToNine => 4,
            Self::SixteenToTen => 5,
            Self::SixtyFourToTwentySeven => 6,
            Self::TwoHundredFiftySixToOneThirtyFive => 7,
            Self::Calculated => 8,
            Self::Reserved(v) => v % 16,
        }
    }
}

/// The stereo mode of a two-bit code.
pub open spec fn spec_stereo_of(v: u8) -> DisplayIdStereo3d {
    if v % 4 == 0 {
        DisplayIdStereo3d::Mono
    } else if v % 4 == 1 {
        DisplayIdStereo3d::Stereo3d
    } else if v % 4 == 2 {
        DisplayIdStereo3d::UserAction
    } else {
        DisplayIdStereo3d::Reserved
    }
}

/// The two-bit code of a stereo mode.
pub open spec fn spec_stereo_bits(s: DisplayIdStereo3d) -> u8 {
    match s {
        DisplayIdStereo3d::Mono => 0,
        DisplayIdStereo3d::Stereo3d => 1,
        DisplayIdStereo3d::UserAction => 2,
        DisplayIdStereo3d::Reserved => 3,
    }
}

impl DisplayIdStereo3d {
    fn from_bits(value: u8) -> (s: Self)
        ensures
            s == spec_stereo_of(value),
    {
        match value % 4 {
            0 => Self::Mono,
            1 => Self::Stereo3d,
            2 => Self::UserAction,
            _ => Self::Reserved,
        }
    }

    fn bits(self) -> (b: u8)
        ensures
            b == spec_stereo_bits(self),
    {
        match self {
            Self::Mono => 0,
            Self::Stereo3d => 1,
            Self::UserAction => 2,
            Self::Reserved => 3,
        }
    }
}

/// The bit mask of an RGB bit depth (6, 8, 10, 12, 14 or 16 bpc), or zero.
pub open spec fn spec_rgb_bpc_mask(bpc: u8) -> int {
    if bpc == 6 {
        1
    } else if bpc == 8 {
        2
    } else if bpc == 10 {
        4
    } else if bpc == 12 {
        8
    } else if bpc == 14 {
        16
    } else if bpc == 16 {
        32
    } else {
        0
    }
}

/// The bit mask of a YCbCr bit depth (8, 10, 12, 14 or 16 bpc), or zero.
pub open spec fn spec_ycbcr_bpc_mask(bpc: u8) -> int {
    if bpc == 8 {
        1
    } else if bpc == 10 {
        2
    } else if bpc == 12 {
        4
    } else if bpc == 14 {
        8
    } else if bpc == 16 {
        16
    } else {
        0
    }
}

/// Bit `mask` of `flags` is set, for a non-zero power-of-two mask.
pub open spec fn spec_mask_set(flags: u8, mask: int) -> bool {
    mask != 0 && (flags as int / mask) % 2 == 1
}

impl DisplayIdInterfaceFeatures {
    /// Return whether the given RGB bit depth (6, 8, 10, 12, 14, or 16 bpc)
    /// is supported.
    pub fn supports_rgb_bpc(&self, bpc: u8) -> (b: bool)
        ensures
            b == spec_mask_set(self.color_depth_rgb, spec_rgb_bpc_mask(bpc)),
    {
        Self::supports_rgb_bpc_flags(self.color_depth_rgb, bpc)
    }

    /// Return whether the given YCbCr 4:4:4 bit depth is supported.
    pub fn supports_ycbcr444_bpc(&self, bpc: u8) -> (b: bool)
        ensures
            b == spec_mask_set(self.color_depth_ycbcr444, spec_ycbcr_bpc_mask(bpc)),
    {
        Self::supports_ycbcr_bpc_flags(self.color_depth_ycbcr444, bpc)
    }

    /// Return whether the given YCbCr 4:2:2 bit depth is supported.
    pub fn supports_ycbcr422_bpc(&self, bpc: u8) -> (b: bool)
        ensures
            b == spec_mask_set(self.color_depth_ycbcr422, spec_ycbcr_bpc_mask(bpc)),
    {
        Self::supports_ycbcr_bpc_flags(self.color_depth_ycbcr422, bpc)
    }

    /// Return whether the given YCbCr 4:2:0 bit depth is supported.
    pub fn supports_ycbcr420_bpc(&self, bpc: u8) -> (b: bool)
        ensures
            b == spec_mask_set(self.color_depth_ycbcr420, spec_ycbcr_bpc_mask(bpc)),
    {
        Self::supports_ycbcr_bpc_flags(self.color_depth_ycbcr420, bpc)
    }

    fn supports_rgb_bpc_flags(flags: u8, bpc: u8) -> (b: bool)
        ensures
            b == spec_mask_set(flags, spec_rgb_bpc_mask(bpc)),
    {
        let mask: u8 = if bpc == 6 {
            1
        } else if bpc == 8 {
            2
        } else if bpc == 10 {
            4
        } else if bpc == 12 {
            8
        } else if bpc == 14 {
            16
        } else if bpc == 16 {
            32
        } else {
            0
        };
        mask != 0 && (flags / mask) % 2 == 1
    }

    fn supports_ycbcr_bpc_flags(flags: u8, bpc: u8) -> (b: bool)
        ensures
            b == spec_mask_set(flags, spec_ycbcr_bpc_mask(bpc)),
    {
        let mask: u8 = if bpc == 8 {
            1
        } else if bpc == 10 {
            2
        } else if bpc == 12 {
            4
        } else if bpc == 14 {
            8
        } else if bpc == 16 {
            16
        } else {
            0
        };
        mask != 0 && (flags / mask) % 2 == 1
    }

    /// Return whether BT.2020 color space with SMPTE ST 2084 (PQ) EOTF is
    /// supported (byte 6 bit 6).
    pub fn supports_bt2020_st2084(&self) -> (b: bool)
        ensures
            b == ((self.colorspace_eotf_1 / 64) % 2 == 1),
    {
        (self.colorspace_eotf_1 / 64) % 2 == 1
    }

    /// Return whether BT.2020 color space with the BT.2020 EOTF is supported
    /// (byte 6 bit 5).
    pub fn supports_bt2020(&self) -> (b: bool)
        ensures
            b == ((self.colorspace_eotf_1 / 32) % 2 == 1),
    {
        (self.colorspace_eotf_1 / 32) % 2 == 1
    }

    /// Return whether BT.709 color space with BT.1886 EOTF is supported
    /// (byte 6 bit 2).
    pub fn supports_bt709(&self) -> (b: bool)
        ensures
            b == ((self.colorspace_eotf_1 / 4) % 2 == 1),
    {
        (self.colorspace_eotf_1 / 4) % 2 == 1
    }
}

/// Convert bytes to a string slice when they are valid UTF-8.
///
/// Trusted wrapper of `std::str::from_utf8`, which std documents as
/// succeeding exactly when the bytes are valid UTF-8 and then returning a
/// string slice over those same bytes.
#[verifier::external_body]
fn str_from_utf8(bytes: &[u8]) -> (r: Option<&str>)
    ensures
        r is Some <==> valid_utf8(bytes@),
        r matches Some(s) ==> vstd::utf8::encode_utf8(s@) == bytes@,
{
    std::str::from_utf8(bytes).ok()
}

/// Convert bytes to a string, replacing invalid UTF-8 sequences.
///
/// Trusted wrapper of `String::from_utf8_lossy`; for valid UTF-8 std
/// documents the result as the same text. How invalid sequences are
/// replaced (by U+FFFD) is left unstated here.
#[verifier::external_body]
fn string_from_utf8_lossy(bytes: &[u8]) -> (s: String)
    ensures
        valid_utf8(bytes@) ==> s@ == vstd::utf8::decode_utf8(bytes@),
{
    String::from_utf8_lossy(bytes).into_owned()
}

impl DisplayIdProductIdentification {
    /// Return the product name as a UTF-8 slice, or `None` if it is not
    /// valid UTF-8.
    pub fn product_name_str(&self) -> (r: Option<&str>)
        ensures
            r is Some <==> valid_utf8(self.product_name@),
            r matches Some(s) ==> vstd::utf8::encode_utf8(s@) == self.product_name@,
    {
        str_from_utf8(self.product_name.as_slice())
    }

    /// Return a lossy UTF-8 copy of the product name, replacing invalid
    /// sequences.
    pub fn product_name_lossy(&self) -> (s: String)
        ensures
            valid_utf8(self.product_name@) ==> s@ == vstd::utf8::decode_utf8(self.product_name@),
    {
        string_from_utf8_lossy(self.product_name.as_slice())
    }

    /// Whether byte 12 uses the model-year tag (`0xFF`) instead of a
    /// manufacture week.
    pub fn is_model_year(&self) -> (b: bool)
        ensures
            b == (self.week_of_manufacture == 0xFF),
    {
        self.week_of_manufacture == 0xFF
    }
}

impl DisplayIdTiledDisplayTopology {
    /// Whether bevel information is present (capability bit 6).
    pub fn has_bevel_info(&self) -> (b: bool)
        ensures
            b == ((self.caps / 64) % 2 == 1),
    {
        (self.caps / 64) % 2 == 1
    }

    /// Whether the tiled display is a single physical enclosure (capability
    /// bit 7).
    pub fn single_enclosure(&self) -> (b: bool)
        ensures
            b == (self.caps >= 128),
    {
        self.caps >= 128
    }

    /// Behavior when this is the only visible tile (capability bits 0..2).
    pub fn only_tile_behavior(&self) -> (b: u8)
        ensures
            b == self.caps % 8,
    {
        self.caps % 8
    }

    /// Behavior when more than one tile is visible but not all (capability
    /// bits 3..4).
    pub fn multi_tile_behavior(&self) -> (b: u8)
        ensures
            b == (self.caps / 8) % 4,
    {
        (self.caps / 8) % 4
    }
}

// ---------------------------------------------------------------------------
// Data blocks and sections
// ---------------------------------------------------------------------------

/// Largest number of data-block bytes in one DisplayID section of an EDID
/// extension block.
pub const MAX_DISPLAY_ID_PAYLOAD: usize = 121;

/// Tag, revision and payload of each block.
pub open spec fn spec_did_views(blocks: Seq<DisplayIdDataBlock>) -> Seq<(u8, u8, Seq<u8>)> {
    Seq::new(blocks.len(), |i: int| (blocks[i].tag, blocks[i].revision, blocks[i].payload@))
}

/// The three header bytes and payload of a data block.
pub open spec fn spec_did_block_bytes(tag: u8, revision: u8, payload: Seq<u8>) -> Seq<u8> {
    seq![tag, revision, payload.len() as u8] + payload
}

impl DisplayIdDataBlock {
    /// Encode this DisplayID data block with its three-byte header.
    pub fn encode(&self) -> (res: Result<Vec<u8>, ExtensionWriteError>)
        ensures
            self.payload@.len() > 255 ==> res == Err::<Vec<u8>, ExtensionWriteError>(
                ExtensionWriteError::DisplayIdPayloadTooLong { length: self.payload@.len() as usize, maximum: 255 },
            ),
            self.payload@.len() <= 255 ==> (res matches Ok(v) && v@ == spec_did_block_bytes(
                self.tag,
                self.revision,
                self.payload@,
            )),
    {
        if self.payload.len() > 255 {
            return Err(ExtensionWriteError::DisplayIdPayloadTooLong { length: self.payload.len(), maximum: 255 });
        }
        let mut encoded: Vec<u8> = Vec::new();
        encoded.push(self.tag);
        encoded.push(self.revision);
        encoded.push(self.payload.len() as u8);
        let mut i: usize = 0;
        while i < self.payload.len()
            invariant
                i <= self.payload@.len() <= 255,
                encoded@ == seq![self.tag, self.revision, self.payload@.len() as u8] + self.payload@.take(i as int),
            decreases self.payload@.len() - i,
        {
            encoded.push(self.payload[i]);
            assert(self.payload@.take(i + 1) =~= self.payload@.take(i as int).push(self.payload@[i as int]));
            i = i + 1;
        }
        assert(self.payload@.take(i as int) =~= self.payload@);
        Ok(encoded)
    }
}

fn check_display_id_payload_length(length: usize) -> (res: Result<(), ExtensionWriteError>)
    ensures
        length > 121 ==> res == Err::<(), ExtensionWriteError>(
            ExtensionWriteError::DisplayIdPayloadTooLong { length, maximum: 121 },
        ),
        length <= 121 ==> res is Ok,
{
    if length > MAX_DISPLAY_ID_PAYLOAD {
        return Err(ExtensionWriteError::DisplayIdPayloadTooLong { length, maximum: MAX_DISPLAY_ID_PAYLOAD });
    }
    Ok(())
}

/// The data blocks of `data` from offset `off` on, with offsets in errors
/// counted from `base`.
pub open spec fn spec_parse_did(data: Seq<u8>, off: int, base: int) -> Result<Seq<(u8, u8, Seq<u8>)>, ExtensionError>
    decreases data.len() - off,
{
    if off < 0 || off >= data.len() {
        Ok(Seq::empty())
    } else if data.len() - off < 3 {
        Err(ExtensionError::TruncatedDisplayIdDataBlockHeader {
            offset: (base + off) as usize,
            available: (data.len() - off) as usize,
        })
    } else {
        let tag = data[off];
        let revision = data[off + 1];
        let length = data[off + 2] as int;
        let available = data.len() - (off + 3);
        if length > available {
            Err(ExtensionError::TruncatedDisplayIdDataBlock {
                offset: (base + off) as usize,
                tag,
                length: length as usize,
                available: available as usize,
            })
        } else {
            match spec_parse_did(data, off + 3 + length, base) {
                Ok(rest) => Ok(seq![(tag, revision, data.subrange(off + 3, off + 3 + length))] + rest),
                Err(e) => Err(e),
            }
        }
    }
}

/// Why the DisplayID section header cannot be read, if it cannot.
pub open spec fn spec_did_header_error(s: Seq<u8>) -> Option<ExtensionError> {
    if s[0] != 0x70 {
        Some(ExtensionError::NotDisplayId)
    } else if s[2] > 121 {
        Some(ExtensionError::InvalidDisplayIdLength { length: s[2] as usize, maximum: 121 })
    } else if byte_sum(s.subrange(1, 6 + s[2] as int)) % 256 != 0 {
        Some(ExtensionError::InvalidDisplayIdChecksum { sum: (byte_sum(s.subrange(1, 6 + s[2] as int)) % 256) as u8 })
    } else {
        None
    }
}

/// The DisplayID section header fields of a block.
pub open spec fn spec_did_header(s: Seq<u8>) -> DisplayIdHeader {
    DisplayIdHeader {
        revision: s[1],
        payload_length: s[2] as usize,
        product_type_or_primary_use: s[3],
        extension_count: s[4],
    }
}

/// The DisplayID data blocks of a block, or why they cannot be read.
pub open spec fn spec_did_blocks(s: Seq<u8>) -> Result<Seq<(u8, u8, Seq<u8>)>, ExtensionError> {
    match spec_did_header_error(s) {
        Some(e) => Err(e),
        None => spec_parse_did(s.subrange(5, 5 + s[2] as int), 0, 5),
    }
}

/// `acc` followed by the blocks of `r`, or the error of `r`.
pub open spec fn spec_prepend_did(acc: Seq<(u8, u8, Seq<u8>)>, r: Result<Seq<(u8, u8, Seq<u8>)>, ExtensionError>) -> Result<
    Seq<(u8, u8, Seq<u8>)>,
    ExtensionError,
> {
    match r {
        Ok(v) => Ok(acc + v),
        Err(e) => Err(e),
    }
}

fn parse_display_id_data_blocks(raw: &[u8; 128], start: usize, end: usize) -> (res: Result<
    Vec<DisplayIdDataBlock>,
    ExtensionError,
>)
    requires
        start <= end <= 128,
    ensures
        res matches Ok(v) ==> spec_parse_did(raw@.subrange(start as int, end as int), 0, start as int) == Ok::<
            Seq<(u8, u8, Seq<u8>)>,
            ExtensionError,
        >(spec_did_views(v@)),
        res matches Err(e) ==> spec_parse_did(raw@.subrange(start as int, end as int), 0, start as int) == Err::<
            Seq<(u8, u8, Seq<u8>)>,
            ExtensionError,
        >(e),
{
    let ghost data = raw@.subrange(start as int, end as int);
    let mut blocks: Vec<DisplayIdDataBlock> = Vec::new();
    let mut offset = start;
    while offset < end
        invariant
            start <= offset <= end <= 128,
            data == raw@.subrange(start as int, end as int),
            spec_parse_did(data, 0, start as int) == spec_prepend_did(
                spec_did_views(blocks@),
                spec_parse_did(data, offset - start, start as int),
            ),
        decreases end - offset,
    {
        let available_header = end - offset;
        if available_header < 3 {
            return Err(ExtensionError::TruncatedDisplayIdDataBlockHeader { offset, available: available_header });
        }
        let tag = raw[offset];
        let revision = raw[offset + 1];
        let length = raw[offset + 2] as usize;
        let payload_start = offset + 3;
        let available = end - payload_start;
        if length > available {
            return Err(ExtensionError::TruncatedDisplayIdDataBlock { offset, tag, length, available });
        }
        let payload = super::cta::copy_range(raw.as_slice(), payload_start, payload_start + length);
        proof {
            assert(payload@ =~= data.subrange(offset - start + 3, offset - start + 3 + length));
        }
        let ghost before = spec_did_views(blocks@);
        blocks.push(DisplayIdDataBlock { tag, revision, payload });
        proof {
            assert(spec_did_views(blocks@) =~= before.push((tag, revision, payload@)));
            let r = spec_parse_did(data, payload_start + length - start, start as int);
            match r {
                Ok(v) => {
                    assert(before + (seq![(tag, revision, payload@)] + v) =~= before.push((tag, revision, payload@)) + v);
                },
                Err(e) => {},
            }
        }
        offset = payload_start + length;
    }
    assert(spec_did_views(blocks@) + Seq::<(u8, u8, Seq<u8>)>::empty() =~= spec_did_views(blocks@));
    Ok(blocks)
}

fn section_sum(raw: &[u8; 128], from: usize, to: usize) -> (sum: u8)
    requires
        from <= to <= 128,
    ensures
        sum == byte_sum(raw@.subrange(from as int, to as int)) % 256,
{
    let mut acc: u32 = 0;
    let mut i = from;
    while i < to
        invariant
            from <= i <= to <= 128,
            acc < 256,
            acc == byte_sum(raw@.subrange(from as int, i as int)) % 256,
        decreases to - i,
    {
        assert(raw@.subrange(from as int, i + 1).drop_last() =~= raw@.subrange(from as int, i as int));
        acc = (acc + raw[i] as u32) % 256;
        i = i + 1;
    }
    acc as u8
}

impl EdidBlock {
    /// Read and validate the DisplayID base-section header.
    pub fn display_id_header(&self) -> (res: Result<DisplayIdHeader, ExtensionError>)
        ensures
            spec_did_header_error(self.raw@) is Some ==> res == Err::<DisplayIdHeader, ExtensionError>(
                spec_did_header_error(self.raw@)->0,
            ),
            spec_did_header_error(self.raw@) is None ==> res == Ok::<DisplayIdHeader, ExtensionError>(
                spec_did_header(self.raw@),
            ),
    {
        if self.raw[0] != 0x70 {
            return Err(ExtensionError::NotDisplayId);
        }
        let payload_length = self.raw[2] as usize;
        if payload_length > MAX_DISPLAY_ID_PAYLOAD {
            return Err(ExtensionError::InvalidDisplayIdLength { length: payload_length, maximum: MAX_DISPLAY_ID_PAYLOAD });
        }
        let sum = section_sum(&self.raw, 1, 6 + payload_length);
        if sum != 0 {
            return Err(ExtensionError::InvalidDisplayIdChecksum { sum });
        }
        Ok(
            DisplayIdHeader {
                revision: self.raw[1],
                payload_length,
                product_type_or_primary_use: self.raw[3],
                extension_count: self.raw[4],
            },
        )
    }

    /// Read bounded DisplayID data blocks without modifying the block.
    pub fn display_id_data_blocks(&self) -> (res: Result<Vec<DisplayIdDataBlock>, ExtensionError>)
        ensures
            res matches Ok(v) ==> spec_did_blocks(self.raw@) == Ok::<Seq<(u8, u8, Seq<u8>)>, ExtensionError>(
                spec_did_views(v@),
            ),
            res matches Err(e) ==> spec_did_blocks(self.raw@) == Err::<Seq<(u8, u8, Seq<u8>)>, ExtensionError>(e),
    {
        let header = self.display_id_header()?;
        parse_display_id_data_blocks(&self.raw, 5, 5 + header.payload_length)
    }
}

/// The first data block among the first `n` whose payload does not fit its
/// length byte.
pub open spec fn spec_first_did_block_error(bv: Seq<(u8, u8, Seq<u8>)>, n: int) -> Option<ExtensionWriteError>
    decreases n,
{
    if n <= 0 {
        None
    } else {
        match spec_first_did_block_error(bv, n - 1) {
            Some(e) => Some(e),
            None => if bv[n - 1].2.len() > 255 {
                Some(ExtensionWriteError::DisplayIdPayloadTooLong { length: bv[n - 1].2.len() as usize, maximum: 255 })
            } else {
                None
            },
        }
    }
}

/// The encoded length of the first `n` data blocks, saturating at
/// `usize::MAX`.
pub open spec fn spec_did_total(bv: Seq<(u8, u8, Seq<u8>)>, n: int) -> int
    decreases n,
{
    if n <= 0 {
        0
    } else {
        let t = spec_did_total(bv, n - 1) + 3 + bv[n - 1].2.len();
        if t > usize::MAX {
            usize::MAX as int
        } else {
            t
        }
    }
}

/// The encoded data blocks, in order.
pub open spec fn spec_did_collection(bv: Seq<(u8, u8, Seq<u8>)>) -> Seq<u8>
    decreases bv.len(),
{
    if bv.len() == 0 {
        Seq::empty()
    } else {
        spec_did_collection(bv.drop_last()) + spec_did_block_bytes(bv.last().0, bv.last().1, bv.last().2)
    }
}

/// The DisplayID extension block built from data blocks, with its section
/// and block checksums, or why it cannot be built.
pub open spec fn spec_did_build(revision: u8, product: u8, extension_count: u8, bv: Seq<(u8, u8, Seq<u8>)>) -> Result<
    Seq<u8>,
    ExtensionWriteError,
> {
    let total = spec_did_total(bv, bv.len() as int);
    let body = seq![revision, total as u8, product, extension_count] + spec_did_collection(bv);
    if spec_first_did_block_error(bv, bv.len() as int) is Some {
        Err(spec_first_did_block_error(bv, bv.len() as int)->0)
    } else if total > 121 {
        Err(ExtensionWriteError::DisplayIdPayloadTooLong { length: total as usize, maximum: 121 })
    } else {
        Ok(
            spec_with_checksum(
                seq![0x70u8] + body + seq![((256 - byte_sum(body) % 256) % 256) as u8] + Seq::new(
                    (122 - total) as nat,
                    |i: int| 0u8,
                ),
            ),
        )
    }
}

proof fn lemma_first_did_block_error_keeps(bv: Seq<(u8, u8, Seq<u8>)>, n: int, m: int)
    requires
        0 <= n <= m,
        spec_first_did_block_error(bv, n) is Some,
    ensures
        spec_first_did_block_error(bv, m) == spec_first_did_block_error(bv, n),
    decreases m - n,
{
    if m > n {
        lemma_first_did_block_error_keeps(bv, n, m - 1);
    }
}

proof fn lemma_first_did_block_error_prefix(bv: Seq<(u8, u8, Seq<u8>)>, n: int, m: int)
    requires
        0 <= m <= n,
        spec_first_did_block_error(bv, n) is None,
    ensures
        spec_first_did_block_error(bv, m) is None,
    decreases n - m,
{
    if m < n {
        lemma_first_did_block_error_prefix(bv, n - 1, m);
    }
}

proof fn lemma_no_did_block_error_at(bv: Seq<(u8, u8, Seq<u8>)>, n: int, k: int)
    requires
        0 <= k < n,
        spec_first_did_block_error(bv, n) is None,
    ensures
        bv[k].2.len() <= 255,
    decreases n,
{
    if k < n - 1 {
        lemma_no_did_block_error_at(bv, n - 1, k);
    }
}

proof fn lemma_did_total_bound(bv: Seq<(u8, u8, Seq<u8>)>, n: int)
    requires
        0 <= n <= bv.len(),
        spec_first_did_block_error(bv, n) is None,
        spec_did_total(bv, n) <= 121,
    ensures
        spec_did_collection(bv.take(n)).len() == spec_did_total(bv, n),
        forall|k: int| 0 <= k <= n ==> #[trigger] spec_did_total(bv, k) <= spec_did_total(bv, n),
    decreases n,
{
    if n > 0 {
        assert(bv.take(n).drop_last() =~= bv.take(n - 1));
        lemma_did_total_bound(bv, n - 1);
    }
}

impl EdidBlock {
    /// Construct a DisplayID extension containing raw data blocks, with a
    /// valid section checksum, zero padding and a valid block checksum.
    #[verifier::rlimit(40)]
    pub fn from_display_id_data_blocks(
        revision: u8,
        product_type_or_primary_use: u8,
        extension_count: u8,
        blocks: &[DisplayIdDataBlock],
    ) -> (res: Result<Self, ExtensionWriteError>)
        ensures
            res matches Ok(b) ==> spec_did_build(
                revision,
                product_type_or_primary_use,
                extension_count,
                spec_did_views(blocks@),
            ) == Ok::<Seq<u8>, ExtensionWriteError>(b.raw@),
            res matches Err(e) ==> spec_did_build(
                revision,
                product_type_or_primary_use,
                extension_count,
                spec_did_views(blocks@),
            ) == Err::<Seq<u8>, ExtensionWriteError>(e),
    {
        let ghost bv = spec_did_views(blocks@);
        let mut total: usize = 0;
        let mut i: usize = 0;
        while i < blocks.len()
            invariant
                i <= blocks@.len(),
                bv == spec_did_views(blocks@),
                spec_first_did_block_error(bv, i as int) is None,
                total == spec_did_total(bv, i as int),
            decreases blocks@.len() - i,
        {
            let block = &blocks[i];
            if block.payload.len() > 255 {
                proof {
                    lemma_first_did_block_error_keeps(bv, i + 1, bv.len() as int);
                }
                return Err(ExtensionWriteError::DisplayIdPayloadTooLong { length: block.payload.len(), maximum: 255 });
            }
            total = total.saturating_add(3 + block.payload.len());
            i = i + 1;
        }
        check_display_id_payload_length(total)?;
        proof {
            lemma_did_total_bound(bv, bv.len() as int);
        }
        let mut out: Vec<u8> = Vec::new();
        out.push(0x70);
        out.push(revision);
        out.push(total as u8);
        out.push(product_type_or_primary_use);
        out.push(extension_count);
        let ghost head = seq![revision, total as u8, product_type_or_primary_use, extension_count];
        assert(out@ =~= seq![0x70u8] + head);
        let mut k: usize = 0;
        while k < blocks.len()
            invariant
                k <= blocks@.len(),
                bv == spec_did_views(blocks@),
                spec_first_did_block_error(bv, bv.len() as int) is None,
                out@ == seq![0x70u8] + head + spec_did_collection(bv.take(k as int)),
                head == seq![revision, total as u8, product_type_or_primary_use, extension_count],
                spec_did_total(bv, bv.len() as int) <= 121,
                forall|j: int| 0 <= j <= bv.len() ==> #[trigger] spec_did_total(bv, j) <= spec_did_total(bv, bv.len() as int),
            decreases blocks@.len() - k,
        {
            proof {
                lemma_first_did_block_error_prefix(bv, bv.len() as int, k + 1);
                lemma_first_did_block_error_prefix(bv, bv.len() as int, k as int);
                assert(spec_did_total(bv, k + 1) <= spec_did_total(bv, bv.len() as int));
                assert(spec_did_total(bv, k as int) <= spec_did_total(bv, bv.len() as int));
                lemma_did_total_bound(bv, k + 1);
                lemma_did_total_bound(bv, k as int);
                lemma_no_did_block_error_at(bv, bv.len() as int, k as int);
            }
            let ghost before = out@;
            assert(bv[k as int] == (blocks@[k as int].tag, blocks@[k as int].revision, blocks@[k as int].payload@));
            assert(spec_did_collection(bv.take(k as int)).len() == spec_did_total(bv, k as int));
            assert(spec_did_total(bv, k + 1) == spec_did_total(bv, k as int) + 3 + bv[k as int].2.len());
            assert(before.len() == 5 + spec_did_total(bv, k as int));
            let encoded = blocks[k].encode();
            let encoded = match encoded {
                Ok(v) => v,
                Err(e) => {
                    return Err(e);
                },
            };
            let mut j: usize = 0;
            while j < encoded.len()
                invariant
                    j <= encoded@.len(),
                    out@ == before + encoded@.take(j as int),
                    before.len() + encoded@.len() <= 128,
                decreases encoded@.len() - j,
            {
                out.push(encoded[j]);
                assert(encoded@.take(j + 1) =~= encoded@.take(j as int).push(encoded@[j as int]));
                j = j + 1;
            }
            assert(encoded@.take(j as int) =~= encoded@);
            assert(bv.take(k + 1).drop_last() =~= bv.take(k as int));
            k = k + 1;
        }
        assert(bv.take(k as int) =~= bv);
        assert(out@.len() == 5 + total);
        let ghost body = head + spec_did_collection(bv);
        let mut sum: u32 = 0;
        let mut m: usize = 1;
        while m < out.len()
            invariant
                1 <= m <= out@.len(),
                out@ == seq![0x70u8] + body,
                sum < 256,
                sum == byte_sum(out@.subrange(1, m as int)) % 256,
            decreases out@.len() - m,
        {
            assert(out@.subrange(1, m + 1).drop_last() =~= out@.subrange(1, m as int));
            sum = (sum + out[m] as u32) % 256;
            m = m + 1;
        }
        assert(out@.subrange(1, m as int) =~= body);
        out.push(((256 - sum) % 256) as u8);
        let ghost filled = out@;
        while out.len() < 128
            invariant
                out@.len() <= 128,
                filled.len() <= out@.len(),
                out@ == filled + Seq::new((out@.len() - filled.len()) as nat, |i: int| 0u8),
            decreases 128 - out@.len(),
        {
            out.push(0);
            assert(out@ =~= filled + Seq::new((out@.len() - filled.len()) as nat, |i: int| 0u8));
        }
        let mut block = Self { raw: [0u8; 128] };
        let mut q: usize = 0;
        while q < 128
            invariant
                q <= 128,
                out@.len() == 128,
                forall|r: int| 0 <= r < q ==> block.raw@[r] == out@[r],
            decreases 128 - q,
        {
            block.raw[q] = out[q];
            q = q + 1;
        }
        assert(block.raw@ =~= out@);
        proof {
            let pre = seq![0x70u8] + body + seq![((256 - byte_sum(body) % 256) % 256) as u8] + Seq::new(
                (122 - total) as nat,
                |i: int| 0u8,
            );
            assert(total == spec_did_total(bv, bv.len() as int));
            assert(body == seq![revision, total as u8, product_type_or_primary_use, extension_count] + spec_did_collection(bv));
            assert(spec_first_did_block_error(bv, bv.len() as int) is None);
            assert(out@ =~= pre);
        }
        block.update_checksum();
        Ok(block)
    }

    /// Replace DisplayID data blocks while keeping the section revision,
    /// product type and extension count. On failure the block is left
    /// unchanged.
    pub fn replace_display_id_data_blocks(&mut self, blocks: &[DisplayIdDataBlock]) -> (res: Result<
        (),
        ExtensionWriteError,
    >)
        ensures
            old(self).raw@[0] != 0x70 ==> res == Err::<(), ExtensionWriteError>(ExtensionWriteError::NotDisplayId),
            old(self).raw@[0] == 0x70 ==> (match spec_did_build(
                old(self).raw@[1],
                old(self).raw@[3],
                old(self).raw@[4],
                spec_did_views(blocks@),
            ) {
                Ok(b) => res is Ok && final(self).raw@ == b,
                Err(e) => res == Err::<(), ExtensionWriteError>(e),
            }),
            res is Err ==> final(self).raw@ == old(self).raw@,
    {
        if self.raw[0] != 0x70 {
            return Err(ExtensionWriteError::NotDisplayId);
        }
        let rebuilt = Self::from_display_id_data_blocks(self.raw[1], self.raw[3], self.raw[4], blocks)?;
        *self = rebuilt;
        Ok(())
    }
}

proof fn lemma_did_collection_front(bv: Seq<(u8, u8, Seq<u8>)>)
    requires
        bv.len() > 0,
    ensures
        spec_did_collection(bv) == spec_did_block_bytes(bv[0].0, bv[0].1, bv[0].2) + spec_did_collection(
            bv.drop_first(),
        ),
    decreases bv.len(),
{
    if bv.len() == 1 {
        assert(bv.drop_first() =~= Seq::<(u8, u8, Seq<u8>)>::empty());
        assert(bv.drop_last() =~= Seq::<(u8, u8, Seq<u8>)>::empty());
        assert(spec_did_collection(bv) =~= spec_did_block_bytes(bv[0].0, bv[0].1, bv[0].2) + spec_did_collection(
            bv.drop_first(),
        ));
    } else {
        lemma_did_collection_front(bv.drop_last());
        assert(bv.drop_last().drop_first() =~= bv.drop_first().drop_last());
        assert(bv.drop_first().last() == bv.last());
        assert(bv.drop_last()[0] == bv[0]);
    }
}

proof fn lemma_parse_did_collection(bv: Seq<(u8, u8, Seq<u8>)>, pre: Seq<u8>, base: int)
    requires
        forall|k: int| 0 <= k < bv.len() ==> (#[trigger] bv[k]).2.len() <= 255,
    ensures
        spec_parse_did(pre + spec_did_collection(bv), pre.len() as int, base) == Ok::<
            Seq<(u8, u8, Seq<u8>)>,
            ExtensionError,
        >(bv),
    decreases bv.len(),
{
    let data = pre + spec_did_collection(bv);
    if bv.len() == 0 {
        assert(data =~= pre);
        assert(bv =~= Seq::<(u8, u8, Seq<u8>)>::empty());
    } else {
        lemma_did_collection_front(bv);
        let (tag, rev, p) = bv[0];
        let b0 = spec_did_block_bytes(tag, rev, p);
        let rest = bv.drop_first();
        assert(forall|k: int| 0 <= k < rest.len() ==> rest[k] == bv[k + 1]);
        let pre2 = pre + b0;
        lemma_parse_did_collection(rest, pre2, base);
        assert(pre2 + spec_did_collection(rest) =~= data);
        let off = pre.len() as int;
        assert(data[off] == tag);
        assert(data[off + 1] == rev);
        assert(data[off + 2] == p.len());
        assert(data.subrange(off + 3, off + 3 + p.len()) =~= p);
        assert(pre2.len() == off + 3 + p.len());
        assert(spec_parse_did(data, off + 3 + p.len(), base) == Ok::<Seq<(u8, u8, Seq<u8>)>, ExtensionError>(rest));
        assert(seq![(tag, rev, p)] + rest =~= bv);
        assert(spec_parse_did(data, off, base) == Ok::<Seq<(u8, u8, Seq<u8>)>, ExtensionError>(
            seq![(tag, rev, data.subrange(off + 3, off + 3 + p.len()))] + rest,
        ));
    }
}

/// Reading back a DisplayID extension built from data blocks gives a valid
/// section header with the given fields and exactly those data blocks; the
/// block checksum is valid.
pub proof fn lemma_did_build_then_read(revision: u8, product: u8, extension_count: u8, bv: Seq<(u8, u8, Seq<u8>)>)
    requires
        spec_did_build(revision, product, extension_count, bv) is Ok,
    ensures
        ({
            let out = spec_did_build(revision, product, extension_count, bv)->Ok_0;
            &&& spec_did_header_error(out) is None
            &&& spec_did_header(out).revision == revision
            &&& spec_did_header(out).product_type_or_primary_use == product
            &&& spec_did_header(out).extension_count == extension_count
            &&& spec_did_blocks(out) == Ok::<Seq<(u8, u8, Seq<u8>)>, ExtensionError>(bv)
            &&& byte_sum(out) % 256 == 0
        }),
{
    let total = spec_did_total(bv, bv.len() as int);
    lemma_did_total_bound(bv, bv.len() as int);
    assert(bv.take(bv.len() as int) =~= bv);
    let body = seq![revision, total as u8, product, extension_count] + spec_did_collection(bv);
    let sc = ((256 - byte_sum(body) % 256) % 256) as u8;
    let pre = seq![0x70u8] + body + seq![sc] + Seq::new((122 - total) as nat, |i: int| 0u8);
    let out = spec_with_checksum(pre);
    assert(out.subrange(1, 6 + total) =~= body.push(sc));
    assert(body.push(sc).drop_last() =~= body);
    assert(out.subrange(5, 5 + total) =~= spec_did_collection(bv));
    assert forall|k: int| 0 <= k < bv.len() implies (#[trigger] bv[k]).2.len() <= 255 by {
        lemma_no_did_block_error_at(bv, bv.len() as int, k);
    }
    lemma_parse_did_collection(bv, Seq::empty(), 5);
    assert(Seq::<u8>::empty() + spec_did_collection(bv) =~= spec_did_collection(bv));
    lemma_with_checksum_sum(pre);
}

// ---------------------------------------------------------------------------
// Typed views
// ---------------------------------------------------------------------------

/// Little-endian 16-bit value at `i`.
pub open spec fn spec_le16_at(p: Seq<u8>, i: int) -> int {
    p[i] + 256 * p[i + 1]
}

/// Little-endian 24-bit value at `i`.
pub open spec fn spec_le24_at(p: Seq<u8>, i: int) -> int {
    p[i] + 256 * p[i + 1] + 65536 * p[i + 2]
}

/// Little-endian 32-bit value at `i`.
pub open spec fn spec_le32_at(p: Seq<u8>, i: int) -> int {
    p[i] + 256 * p[i + 1] + 65536 * p[i + 2] + 16777216 * p[i + 3]
}

/// The length error reported for a data block of the wrong shape.
pub open spec fn spec_len_error(tag: u8, length: int, minimum: int, multiple: int) -> ExtensionError {
    ExtensionError::InvalidDisplayIdDataBlockLength {
        tag,
        length: length as usize,
        minimum: minimum as usize,
        multiple: multiple as usize,
    }
}

/// One 20-byte Type I/VII detailed timing.
pub open spec fn spec_did_timing(b: Seq<u8>, type_one: bool, block_revision: int) -> DisplayIdDetailedTiming {
    let hsync = spec_le16_at(b, 8);
    let vsync = spec_le16_at(b, 16);
    DisplayIdDetailedTiming {
        pixel_clock_khz: ((spec_le24_at(b, 0) + 1) * (if type_one { 10int } else { 1int })) as u32,
        h_active: (spec_le16_at(b, 4) + 1) as u32,
        h_blank: (spec_le16_at(b, 6) + 1) as u32,
        h_sync_offset: (hsync % 32768 + 1) as u32,
        h_sync_width: (spec_le16_at(b, 10) + 1) as u32,
        v_active: (spec_le16_at(b, 12) + 1) as u32,
        v_blank: (spec_le16_at(b, 14) + 1) as u32,
        v_sync_offset: (vsync % 32768 + 1) as u32,
        v_sync_width: (spec_le16_at(b, 18) + 1) as u32,
        h_sync_positive: hsync >= 32768,
        v_sync_positive: vsync >= 32768,
        aspect_ratio: spec_aspect_of(b[3] % 16),
        interlaced: (b[3] / 16) % 2 == 1,
        stereo_3d: spec_stereo_of(b[3] / 32),
        preferred: block_revision < 2 && b[3] >= 128,
        ycbcr420: block_revision >= 2 && b[3] >= 128,
    }
}

/// The detailed timings of a Type I/VII payload.
pub open spec fn spec_did_timings(p: Seq<u8>, type_one: bool, block_revision: int) -> Seq<DisplayIdDetailedTiming> {
    Seq::new(p.len() / 20, |k: int| spec_did_timing(p.subrange(20 * k, 20 * k + 20), type_one, block_revision))
}

/// The formula timings of a Type IX payload.
pub open spec fn spec_formula_timings(p: Seq<u8>) -> Seq<DisplayIdFormulaTiming> {
    Seq::new(
        p.len() / 6,
        |k: int|
            DisplayIdFormulaTiming {
                h_active: (spec_le16_at(p, 6 * k + 1) + 1) as u16,
                v_active: (spec_le16_at(p, 6 * k + 3) + 1) as u16,
                v_refresh_hz: (p[6 * k + 5] + 1) as u16,
                formula: p[6 * k] % 8,
                ntsc_refresh: (p[6 * k] / 16) % 2 == 1,
                stereo_3d: (p[6 * k] / 32) % 4,
            },
    )
}

/// The enumerated timing codes of a Type VIII payload.
pub open spec fn spec_enumerated_codes(p: Seq<u8>, two_byte: bool) -> Seq<u16> {
    if two_byte {
        Seq::new(p.len() / 2, |k: int| spec_le16_at(p, 2 * k) as u16)
    } else {
        Seq::new(p.len(), |k: int| p[k] as u16)
    }
}

/// The data block can be decoded without a 16-bit overflow: formula and
/// tile sizes are stored minus one and cannot be 65535.
pub open spec fn spec_did_view_defined(tag: u8, p: Seq<u8>) -> bool {
    &&& (tag == 0x24 && p.len() >= 6 && p.len() % 6 == 0) ==> forall|k: int|
        0 <= k < p.len() / 6 ==> #[trigger] spec_formula_entry_ok(p, k)
    &&& ((tag == 0x12 || tag == 0x28) && p.len() >= 22) ==> spec_le16_at(p, 4) < 65535 && spec_le16_at(p, 6)
        < 65535
}

/// Formula timing `k` has sizes that fit after adding one.
pub open spec fn spec_formula_entry_ok(p: Seq<u8>, k: int) -> bool {
    spec_le16_at(p, 6 * k + 1) < 65535 && spec_le16_at(p, 6 * k + 3) < 65535
}

/// Stored tile count and location fields of a tiled-topology payload.
pub open spec fn spec_tile_fields(p: Seq<u8>) -> (u8, u8, u8, u8) {
    let num_v = (p[1] % 16 + ((p[3] / 16) % 4) * 16) as u8;
    let num_h = (p[1] / 16 + ((p[3] / 64) % 4) * 16) as u8;
    let loc_v = (p[2] % 16 + (p[3] % 4) * 16) as u8;
    let loc_h = (p[2] / 16 + ((p[3] / 4) % 4) * 16) as u8;
    (num_h, num_v, loc_h, loc_v)
}

/// Why a data block has no typed view, if it has none.
pub open spec fn spec_did_view_error(tag: u8, revision: u8, p: Seq<u8>) -> Option<ExtensionError> {
    let len = p.len() as int;
    if tag == 0x00 || tag == 0x20 {
        if len < 12 {
            Some(spec_len_error(tag, len, 12, 0))
        } else if 12 + p[11] > len {
            Some(spec_len_error(tag, len, 12 + p[11], 0))
        } else {
            None
        }
    } else if tag == 0x01 || tag == 0x21 {
        if len < 29 {
            Some(spec_len_error(tag, len, 29, 0))
        } else {
            None
        }
    } else if tag == 0x03 || tag == 0x22 {
        if len == 0 || len % 20 != 0 {
            Some(spec_len_error(tag, len, 20, 20))
        } else {
            None
        }
    } else if tag == 0x0F || tag == 0x26 {
        if len < 9 {
            Some(spec_len_error(tag, len, 9, 0))
        } else if p[8] > 7 {
            Some(ExtensionError::InvalidDisplayIdFeatureField { field: "additional_colorspace_count", value: p[8], maximum: 7 })
        } else {
            None
        }
    } else if tag == 0x09 {
        if len != 15 {
            Some(spec_len_error(tag, len, 15, 15))
        } else if spec_le24_at(p, 0) > spec_le24_at(p, 3) {
            Some(ExtensionError::InvalidDisplayIdDynamicRange { tag, reason: "min pixel clock exceeds max pixel clock" })
        } else if p[6] > p[7] {
            Some(ExtensionError::InvalidDisplayIdDynamicRange { tag, reason: "min horizontal frequency exceeds max" })
        } else if p[10] == 0 || p[11] == 0 || p[10] > p[11] {
            Some(ExtensionError::InvalidDisplayIdDynamicRange {
                tag,
                reason: "min refresh rate exceeds max refresh rate or is zero",
            })
        } else {
            None
        }
    } else if tag == 0x25 {
        let max_v = (p[8] % 4) * 256 + p[7];
        if len < 9 {
            Some(spec_len_error(tag, len, 9, 0))
        } else if spec_le24_at(p, 0) > spec_le24_at(p, 3) {
            Some(ExtensionError::InvalidDisplayIdDynamicRange { tag, reason: "min pixel clock exceeds max pixel clock" })
        } else if p[6] == 0 || max_v == 0 || p[6] > max_v {
            Some(ExtensionError::InvalidDisplayIdDynamicRange {
                tag,
                reason: "min refresh rate exceeds max refresh rate or is zero",
            })
        } else {
            None
        }
    } else if tag == 0x06 || tag == 0x23 {
        if len == 0 {
            Some(spec_len_error(tag, 0, 1, 0))
        } else if (revision / 8) % 2 == 1 && len % 2 != 0 {
            Some(spec_len_error(tag, len, 2, 2))
        } else {
            None
        }
    } else if tag == 0x24 {
        if len < 6 || len % 6 != 0 {
            Some(spec_len_error(tag, len, 6, 6))
        } else if !spec_did_view_defined(tag, p) {
            Some(ExtensionError::InvalidDisplayIdDynamicRange { tag, reason: "stored size exceeds 16-bit range" })
        } else {
            None
        }
    } else if tag == 0x12 || tag == 0x28 {
        let f = spec_tile_fields(p);
        if len < 22 {
            Some(spec_len_error(tag, len, 22, 0))
        } else if !spec_did_view_defined(tag, p) {
            Some(ExtensionError::InvalidDisplayIdDynamicRange { tag, reason: "stored size exceeds 16-bit range" })
        } else if f.2 >= f.0 + 1 || f.3 >= f.1 + 1 {
            Some(ExtensionError::InvalidDisplayIdDynamicRange { tag, reason: "tile location exceeds tile count" })
        } else if !((p[0] / 64) % 2 == 1) && p[8] != 0 {
            Some(ExtensionError::InvalidDisplayIdDynamicRange { tag, reason: "bevel multiplier set without bevel info" })
        } else {
            None
        }
    } else if tag == 0x81 {
        match crate::extensions::spec_parse_cta(p, 0, 0, false) {
            Err(e) => Some(e),
            Ok(_) => None,
        }
    } else {
        None
    }
}

/// `x` holds the product identification fields of payload `p`.
pub open spec fn spec_product_of(tag: u8, p: Seq<u8>, x: DisplayIdProductIdentification) -> bool {
    &&& x.vendor_id@ == p.subrange(0, 3)
    &&& x.vendor_id_is_oui == (tag == 0x20)
    &&& x.product_code == spec_le16_at(p, 3)
    &&& x.serial_number == spec_le32_at(p, 5)
    &&& x.week_of_manufacture == p[9]
    &&& x.year == 2000 + p[10]
    &&& x.product_name@ == p.subrange(12, 12 + p[11])
    &&& x.raw@ == p
}

/// `x` holds the display parameter fields of payload `p`.
pub open spec fn spec_params_of(p: Seq<u8>, x: DisplayIdDisplayParameters) -> bool {
    &&& x.horizontal_image_size_mm == spec_le16_at(p, 0)
    &&& x.vertical_image_size_mm == spec_le16_at(p, 2)
    &&& x.horizontal_pixel_count == spec_le16_at(p, 4)
    &&& x.vertical_pixel_count == spec_le16_at(p, 6)
    &&& x.features == p[8]
    &&& x.primary_color_1@ == p.subrange(9, 12)
    &&& x.primary_color_2@ == p.subrange(12, 15)
    &&& x.primary_color_3@ == p.subrange(15, 18)
    &&& x.white_point@ == p.subrange(18, 21)
    &&& x.max_luminance_full == spec_le16_at(p, 21)
    &&& x.max_luminance_10_percent == spec_le16_at(p, 23)
    &&& x.min_luminance == spec_le16_at(p, 25)
    &&& x.color_depth_and_technology == p[27]
    &&& x.gamma_eotf == p[28]
    &&& x.raw@ == p
}

/// `x` holds the interface feature fields of payload `p`.
pub open spec fn spec_features_of(p: Seq<u8>, x: DisplayIdInterfaceFeatures) -> bool {
    &&& x.color_depth_rgb == p[0]
    &&& x.color_depth_ycbcr444 == p[1]
    &&& x.color_depth_ycbcr422 == p[2]
    &&& x.color_depth_ycbcr420 == p[3]
    &&& x.min_ycbcr420_pixel_rate == p[4]
    &&& x.audio_flags == p[5]
    &&& x.colorspace_eotf_1 == p[6]
    &&& x.colorspace_eotf_2 == p[7]
    &&& x.additional_colorspace_count == p[8]
    &&& x.raw@ == p
}

/// `x` holds the 1.x video timing range fields of payload `p`.
pub open spec fn spec_range1x_of(p: Seq<u8>, x: DisplayIdVideoTimingRangeLimits) -> bool {
    &&& x.min_pixel_clock_khz == (spec_le24_at(p, 0) + 1) * 10
    &&& x.max_pixel_clock_khz == (spec_le24_at(p, 3) + 1) * 10
    &&& x.min_hfreq_khz == p[6]
    &&& x.max_hfreq_khz == p[7]
    &&& x.min_h_blanking == spec_le16_at(p, 8)
    &&& x.min_vfreq_hz == p[10]
    &&& x.max_vfreq_hz == p[11]
    &&& x.min_v_blanking == spec_le16_at(p, 12)
    &&& x.supports_interlaced == (p[14] >= 128)
    &&& x.supports_cvt == ((p[14] / 64) % 2 == 1)
    &&& x.supports_cvt_reduced_blanking == ((p[14] / 32) % 2 == 1)
    &&& x.discrete_frequency == ((p[14] / 16) % 2 == 1)
    &&& x.raw@ == p
}

/// `x` holds the dynamic video timing range fields of payload `p`.
pub open spec fn spec_dynamic_of(p: Seq<u8>, x: DisplayIdDynamicVideoTimingRange) -> bool {
    &&& x.min_pixel_clock_khz == spec_le24_at(p, 0) + 1
    &&& x.max_pixel_clock_khz == spec_le24_at(p, 3) + 1
    &&& x.min_vfreq_hz == p[6]
    &&& x.max_vfreq_hz == (p[8] % 4) * 256 + p[7]
    &&& x.seamless_dynamic_video_timing == (p[8] >= 128)
    &&& x.raw@ == p
}

/// `x` holds the tiled topology fields of payload `p`.
pub open spec fn spec_tiled_of(tag: u8, p: Seq<u8>, x: DisplayIdTiledDisplayTopology) -> bool {
    let f = spec_tile_fields(p);
    let bevel = (p[0] / 64) % 2 == 1;
    &&& x.caps == p[0]
    &&& x.tiles_h == f.0 + 1
    &&& x.tiles_v == f.1 + 1
    &&& x.tile_location_h == f.2
    &&& x.tile_location_v == f.3
    &&& x.tile_width == spec_le16_at(p, 4) + 1
    &&& x.tile_height == spec_le16_at(p, 6) + 1
    &&& x.pixel_multiplier == p[8]
    &&& x.bevel_top == (if bevel { Some(p[9]) } else { None })
    &&& x.bevel_bottom == (if bevel { Some(p[10]) } else { None })
    &&& x.bevel_right == (if bevel { Some(p[11]) } else { None })
    &&& x.bevel_left == (if bevel { Some(p[12]) } else { None })
    &&& x.vendor_id@ == p.subrange(13, 16)
    &&& x.vendor_id_is_oui == (tag == 0x28)
    &&& x.product_code == spec_le16_at(p, 16)
    &&& x.serial_number == spec_le32_at(p, 18)
    &&& x.raw@ == p
}

/// `v` is the typed view of a data block with `tag`, `revision` and
/// payload `p`.
pub open spec fn spec_did_view_matches(tag: u8, revision: u8, p: Seq<u8>, v: DisplayIdDataBlockView) -> bool {
    if tag == 0x00 || tag == 0x20 {
        v matches DisplayIdDataBlockView::ProductIdentification { product } && spec_product_of(tag, p, product)
    } else if tag == 0x01 || tag == 0x21 {
        v matches DisplayIdDataBlockView::DisplayParameters { parameters } && spec_params_of(p, parameters)
    } else if tag == 0x03 || tag == 0x22 {
        v matches DisplayIdDataBlockView::DetailedTiming { timings } && timings@ == spec_did_timings(
            p,
            tag == 0x03,
            revision as int % 8,
        )
    } else if tag == 0x0F || tag == 0x26 {
        v matches DisplayIdDataBlockView::InterfaceFeatures { features } && spec_features_of(p, features)
    } else if tag == 0x09 {
        v matches DisplayIdDataBlockView::VideoTimingRange1x { range } && spec_range1x_of(p, range)
    } else if tag == 0x25 {
        v matches DisplayIdDataBlockView::DynamicVideoTimingRange { range } && spec_dynamic_of(p, range)
    } else if tag == 0x06 || tag == 0x23 {
        v matches DisplayIdDataBlockView::EnumeratedTiming { code_type, code_size, codes } && code_type == revision
            / 64 && code_size == (if (revision / 8) % 2 == 1 { 2u8 } else { 1u8 }) && codes@ == spec_enumerated_codes(
            p,
            (revision / 8) % 2 == 1,
        )
    } else if tag == 0x24 {
        v matches DisplayIdDataBlockView::FormulaTiming { timings } && timings@ == spec_formula_timings(p)
    } else if tag == 0x12 || tag == 0x28 {
        v matches DisplayIdDataBlockView::TiledDisplayTopology { topology } && spec_tiled_of(tag, p, topology)
    } else if tag == 0x81 {
        v matches DisplayIdDataBlockView::Cta { data_blocks, raw } && crate::extensions::spec_parse_cta(p, 0, 0, false)
            == Ok::<Seq<(u8, Seq<u8>)>, ExtensionError>(super::cta::spec_cta_views(data_blocks@)) && raw@ == p
    } else {
        v matches DisplayIdDataBlockView::Unknown { tag: t, payload } && t == tag && payload@ == p
    }
}

fn le16(p: &Vec<u8>, i: usize) -> (v: u16)
    requires
        i + 1 < p@.len(),
        p@.len() <= usize::MAX,
    ensures
        v == spec_le16_at(p@, i as int),
{
    let lo: u16 = p[i] as u16;
    let hi: u16 = p[i + 1] as u16;
    lo + 256 * hi
}

fn le24(p: &Vec<u8>, i: usize) -> (v: u32)
    requires
        i + 2 < p@.len(),
        p@.len() <= usize::MAX,
    ensures
        v == spec_le24_at(p@, i as int),
{
    let b0: u32 = p[i] as u32;
    let b1: u32 = p[i + 1] as u32;
    let b2: u32 = p[i + 2] as u32;
    b0 + 256 * b1 + 65536 * b2
}

fn le32(p: &Vec<u8>, i: usize) -> (v: u32)
    requires
        i + 3 < p@.len(),
        p@.len() <= usize::MAX,
    ensures
        v == spec_le32_at(p@, i as int),
{
    let b0: u32 = p[i] as u32;
    let b1: u32 = p[i + 1] as u32;
    let b2: u32 = p[i + 2] as u32;
    let b3: u32 = p[i + 3] as u32;
    b0 + 256 * b1 + 65536 * b2 + 16777216 * b3
}

fn copy3(p: &Vec<u8>, i: usize) -> (a: [u8; 3])
    requires
        i + 2 < p@.len(),
        p@.len() <= usize::MAX,
    ensures
        a@ == p@.subrange(i as int, i + 3),
{
    let a = [p[i], p[i + 1], p[i + 2]];
    assert(a@ =~= p@.subrange(i as int, i + 3));
    a
}

fn decode_did_timing(p: &Vec<u8>, off: usize, type_one: bool, block_revision: u8) -> (t: DisplayIdDetailedTiming)
    requires
        off + 20 <= p@.len(),
        p@.len() <= usize::MAX,
    ensures
        t == spec_did_timing(p@.subrange(off as int, off + 20), type_one, block_revision as int),
{
    let ghost b = p@.subrange(off as int, off + 20);
    let pixel_clock = le24(p, off) + 1;
    let hsync = le16(p, off + 8);
    let vsync = le16(p, off + 16);
    let byte3 = p[off + 3];
    let bit7 = byte3 >= 128;
    let t = DisplayIdDetailedTiming {
        pixel_clock_khz: if type_one { pixel_clock * 10 } else { pixel_clock },
        h_active: le16(p, off + 4) as u32 + 1,
        h_blank: le16(p, off + 6) as u32 + 1,
        h_sync_offset: (hsync % 32768) as u32 + 1,
        h_sync_width: le16(p, off + 10) as u32 + 1,
        v_active: le16(p, off + 12) as u32 + 1,
        v_blank: le16(p, off + 14) as u32 + 1,
        v_sync_offset: (vsync % 32768) as u32 + 1,
        v_sync_width: le16(p, off + 18) as u32 + 1,
        h_sync_positive: hsync >= 32768,
        v_sync_positive: vsync >= 32768,
        aspect_ratio: DisplayIdAspectRatio::from_nibble(byte3 % 16),
        interlaced: (byte3 / 16) % 2 == 1,
        stereo_3d: DisplayIdStereo3d::from_bits(byte3 / 32),
        preferred: block_revision < 2 && bit7,
        ycbcr420: block_revision >= 2 && bit7,
    };
    assert(spec_le24_at(b, 0) == spec_le24_at(p@, off as int));
    assert(spec_le16_at(b, 4) == spec_le16_at(p@, off + 4));
    assert(spec_le16_at(b, 6) == spec_le16_at(p@, off + 6));
    assert(spec_le16_at(b, 8) == spec_le16_at(p@, off + 8));
    assert(spec_le16_at(b, 10) == spec_le16_at(p@, off + 10));
    assert(spec_le16_at(b, 12) == spec_le16_at(p@, off + 12));
    assert(spec_le16_at(b, 14) == spec_le16_at(p@, off + 14));
    assert(spec_le16_at(b, 16) == spec_le16_at(p@, off + 16));
    assert(spec_le16_at(b, 18) == spec_le16_at(p@, off + 18));
    t
}

fn decode_detailed_timings(block: &DisplayIdDataBlock, type_one: bool) -> (res: Result<
    Vec<DisplayIdDetailedTiming>,
    ExtensionError,
>)
    ensures
        (block.payload@.len() == 0 || block.payload@.len() % 20 != 0) ==> res == Err::<
            Vec<DisplayIdDetailedTiming>,
            ExtensionError,
        >(spec_len_error(block.tag, block.payload@.len() as int, 20, 20)),
        !(block.payload@.len() == 0 || block.payload@.len() % 20 != 0) ==> (res matches Ok(v) && v@
            == spec_did_timings(block.payload@, type_one, block.revision as int % 8)),
{
    let p = &block.payload;
    if p.len() == 0 || p.len() % 20 != 0 {
        return Err(
            ExtensionError::InvalidDisplayIdDataBlockLength { tag: block.tag, length: p.len(), minimum: 20, multiple: 20 },
        );
    }
    let block_revision = block.revision % 8;
    let mut timings: Vec<DisplayIdDetailedTiming> = Vec::new();
    let mut k: usize = 0;
    while k < p.len() / 20
        invariant
            k <= p@.len() / 20,
            block_revision == block.revision % 8,
            timings@ == spec_did_timings(p@, type_one, block_revision as int).take(k as int),
        decreases p@.len() / 20 - k,
    {
        let t = decode_did_timing(p, 20 * k, type_one, block_revision);
        timings.push(t);
        assert(spec_did_timings(p@, type_one, block_revision as int).take(k + 1) =~= spec_did_timings(
            p@,
            type_one,
            block_revision as int,
        ).take(k as int).push(t));
        k = k + 1;
    }
    assert(spec_did_timings(p@, type_one, block_revision as int).take(k as int) =~= spec_did_timings(
        p@,
        type_one,
        block_revision as int,
    ));
    Ok(timings)
}

fn copy_all(p: &Vec<u8>) -> (out: Vec<u8>)
    ensures
        out@ == p@,
{
    let out = super::cta::copy_range(p.as_slice(), 0, p.len());
    assert(p@.subrange(0, p@.len() as int) =~= p@);
    out
}

fn decode_display_parameters(block: &DisplayIdDataBlock) -> (res: Result<DisplayIdDisplayParameters, ExtensionError>)
    ensures
        block.payload@.len() < 29 ==> res == Err::<DisplayIdDisplayParameters, ExtensionError>(
            spec_len_error(block.tag, block.payload@.len() as int, 29, 0),
        ),
        block.payload@.len() >= 29 ==> (res matches Ok(x) && spec_params_of(block.payload@, x)),
{
    let b = &block.payload;
    if b.len() < 29 {
        return Err(ExtensionError::InvalidDisplayIdDataBlockLength { tag: block.tag, length: b.len(), minimum: 29, multiple: 0 });
    }
    Ok(
        DisplayIdDisplayParameters {
            horizontal_image_size_mm: le16(b, 0),
            vertical_image_size_mm: le16(b, 2),
            horizontal_pixel_count: le16(b, 4),
            vertical_pixel_count: le16(b, 6),
            features: b[8],
            primary_color_1: copy3(b, 9),
            primary_color_2: copy3(b, 12),
            primary_color_3: copy3(b, 15),
            white_point: copy3(b, 18),
            max_luminance_full: le16(b, 21),
            max_luminance_10_percent: le16(b, 23),
            min_luminance: le16(b, 25),
            color_depth_and_technology: b[27],
            gamma_eotf: b[28],
            raw: copy_all(b),
        },
    )
}

fn decode_dynamic_video_timing_range(block: &DisplayIdDataBlock) -> (res: Result<
    DisplayIdDynamicVideoTimingRange,
    ExtensionError,
>)
    requires
        block.tag == 0x25,
    ensures
        spec_did_view_error(block.tag, block.revision, block.payload@) is Some ==> res == Err::<
            DisplayIdDynamicVideoTimingRange,
            ExtensionError,
        >(spec_did_view_error(block.tag, block.revision, block.payload@)->0),
        spec_did_view_error(block.tag, block.revision, block.payload@) is None ==> (res matches Ok(x)
            && spec_dynamic_of(block.payload@, x)),
{
    let b = &block.payload;
    if b.len() < 9 {
        return Err(ExtensionError::InvalidDisplayIdDataBlockLength { tag: block.tag, length: b.len(), minimum: 9, multiple: 0 });
    }
    let min_pixel_clock_khz = le24(b, 0) + 1;
    let max_pixel_clock_khz = le24(b, 3) + 1;
    let min_vfreq_hz = b[6];
    let max_vfreq_hz: u16 = (b[8] % 4) as u16 * 256 + b[7] as u16;
    if min_pixel_clock_khz > max_pixel_clock_khz {
        return Err(ExtensionError::InvalidDisplayIdDynamicRange { tag: block.tag, reason: "min pixel clock exceeds max pixel clock" });
    }
    if min_vfreq_hz == 0 || max_vfreq_hz == 0 || min_vfreq_hz as u16 > max_vfreq_hz {
        return Err(
            ExtensionError::InvalidDisplayIdDynamicRange {
                tag: block.tag,
                reason: "min refresh rate exceeds max refresh rate or is zero",
            },
        );
    }
    Ok(
        DisplayIdDynamicVideoTimingRange {
            min_pixel_clock_khz,
            max_pixel_clock_khz,
            min_vfreq_hz,
            max_vfreq_hz,
            seamless_dynamic_video_timing: b[8] >= 128,
            raw: copy_all(b),
        },
    )
}

fn decode_video_timing_range_limits(block: &DisplayIdDataBlock) -> (res: Result<
    DisplayIdVideoTimingRangeLimits,
    ExtensionError,
>)
    requires
        block.tag == 0x09,
    ensures
        spec_did_view_error(block.tag, block.revision, block.payload@) is Some ==> res == Err::<
            DisplayIdVideoTimingRangeLimits,
            ExtensionError,
        >(spec_did_view_error(block.tag, block.revision, block.payload@)->0),
        spec_did_view_error(block.tag, block.revision, block.payload@) is None ==> (res matches Ok(x)
            && spec_range1x_of(block.payload@, x)),
{
    let b = &block.payload;
    if b.len() != 15 {
        return Err(ExtensionError::InvalidDisplayIdDataBlockLength { tag: block.tag, length: b.len(), minimum: 15, multiple: 15 });
    }
    let min_raw = le24(b, 0);
    let max_raw = le24(b, 3);
    if min_raw > max_raw {
        return Err(ExtensionError::InvalidDisplayIdDynamicRange { tag: block.tag, reason: "min pixel clock exceeds max pixel clock" });
    }
    if b[6] > b[7] {
        return Err(ExtensionError::InvalidDisplayIdDynamicRange { tag: block.tag, reason: "min horizontal frequency exceeds max" });
    }
    if b[10] == 0 || b[11] == 0 || b[10] > b[11] {
        return Err(
            ExtensionError::InvalidDisplayIdDynamicRange {
                tag: block.tag,
                reason: "min refresh rate exceeds max refresh rate or is zero",
            },
        );
    }
    let flags = b[14];
    Ok(
        DisplayIdVideoTimingRangeLimits {
            min_pixel_clock_khz: (min_raw + 1) * 10,
            max_pixel_clock_khz: (max_raw + 1) * 10,
            min_hfreq_khz: b[6],
            max_hfreq_khz: b[7],
            min_h_blanking: le16(b, 8),
            min_vfreq_hz: b[10],
            max_vfreq_hz: b[11],
            min_v_blanking: le16(b, 12),
            supports_interlaced: flags >= 128,
            supports_cvt: (flags / 64) % 2 == 1,
            supports_cvt_reduced_blanking: (flags / 32) % 2 == 1,
            discrete_frequency: (flags / 16) % 2 == 1,
            raw: copy_all(b),
        },
    )
}

fn decode_interface_features(block: &DisplayIdDataBlock) -> (res: Result<DisplayIdInterfaceFeatures, ExtensionError>)
    requires
        block.tag == 0x0F || block.tag == 0x26,
    ensures
        spec_did_view_error(block.tag, block.revision, block.payload@) is Some ==> res == Err::<
            DisplayIdInterfaceFeatures,
            ExtensionError,
        >(spec_did_view_error(block.tag, block.revision, block.payload@)->0),
        spec_did_view_error(block.tag, block.revision, block.payload@) is None ==> (res matches Ok(x)
            && spec_features_of(block.payload@, x)),
{
    let b = &block.payload;
    if b.len() < 9 {
        return Err(ExtensionError::InvalidDisplayIdDataBlockLength { tag: block.tag, length: b.len(), minimum: 9, multiple: 0 });
    }
    if b[8] > 7 {
        return Err(
            ExtensionError::InvalidDisplayIdFeatureField { field: "additional_colorspace_count", value: b[8], maximum: 7 },
        );
    }
    Ok(
        DisplayIdInterfaceFeatures {
            color_depth_rgb: b[0],
            color_depth_ycbcr444: b[1],
            color_depth_ycbcr422: b[2],
            color_depth_ycbcr420: b[3],
            min_ycbcr420_pixel_rate: b[4],
            audio_flags: b[5],
            colorspace_eotf_1: b[6],
            colorspace_eotf_2: b[7],
            additional_colorspace_count: b[8],
            raw: copy_all(b),
        },
    )
}

fn decode_product_identification(block: &DisplayIdDataBlock) -> (res: Result<
    DisplayIdProductIdentification,
    ExtensionError,
>)
    requires
        block.tag == 0x00 || block.tag == 0x20,
    ensures
        spec_did_view_error(block.tag, block.revision, block.payload@) is Some ==> res == Err::<
            DisplayIdProductIdentification,
            ExtensionError,
        >(spec_did_view_error(block.tag, block.revision, block.payload@)->0),
        spec_did_view_error(block.tag, block.revision, block.payload@) is None ==> (res matches Ok(x)
            && spec_product_of(block.tag, block.payload@, x)),
{
    let b = &block.payload;
    if b.len() < 12 {
        return Err(ExtensionError::InvalidDisplayIdDataBlockLength { tag: block.tag, length: b.len(), minimum: 12, multiple: 0 });
    }
    let name_len = b[11] as usize;
    if 12 + name_len > b.len() {
        return Err(
            ExtensionError::InvalidDisplayIdDataBlockLength { tag: block.tag, length: b.len(), minimum: 12 + name_len, multiple: 0 },
        );
    }
    Ok(
        DisplayIdProductIdentification {
            vendor_id: copy3(b, 0),
            vendor_id_is_oui: block.tag == 0x20,
            product_code: le16(b, 3),
            serial_number: le32(b, 5),
            week_of_manufacture: b[9],
            year: 2000 + b[10] as u16,
            product_name: super::cta::copy_range(b.as_slice(), 12, 12 + name_len),
            raw: copy_all(b),
        },
    )
}

fn decode_tiled_display_topology(block: &DisplayIdDataBlock) -> (res: Result<
    DisplayIdTiledDisplayTopology,
    ExtensionError,
>)
    requires
        block.tag == 0x12 || block.tag == 0x28,
    ensures
        spec_did_view_error(block.tag, block.revision, block.payload@) is Some ==> res == Err::<
            DisplayIdTiledDisplayTopology,
            ExtensionError,
        >(spec_did_view_error(block.tag, block.revision, block.payload@)->0),
        spec_did_view_error(block.tag, block.revision, block.payload@) is None ==> (res matches Ok(x)
            && spec_tiled_of(block.tag, block.payload@, x)),
{
    let b = &block.payload;
    if b.len() < 22 {
        return Err(ExtensionError::InvalidDisplayIdDataBlockLength { tag: block.tag, length: b.len(), minimum: 22, multiple: 0 });
    }
    let caps = b[0];
    let b1 = b[1];
    let b3 = b[3];
    let num_v_stored: u8 = b1 % 16 + ((b3 / 16) % 4) * 16;
    let num_h_stored: u8 = b1 / 16 + ((b3 / 64) % 4) * 16;
    let tile_v_location: u8 = b[2] % 16 + (b3 % 4) * 16;
    let tile_h_location: u8 = b[2] / 16 + ((b3 / 4) % 4) * 16;
    let stored_width = le16(b, 4);
    let stored_height = le16(b, 6);
    if stored_width == 65535 || stored_height == 65535 {
        return Err(ExtensionError::InvalidDisplayIdDynamicRange { tag: block.tag, reason: "stored size exceeds 16-bit range" });
    }
    let tile_width = stored_width + 1;
    let tile_height = stored_height + 1;
    let pixel_multiplier = b[8];
    let has_bevel = (caps / 64) % 2 == 1;
    let tiles_h = num_h_stored + 1;
    let tiles_v = num_v_stored + 1;
    if tile_h_location >= tiles_h || tile_v_location >= tiles_v {
        return Err(ExtensionError::InvalidDisplayIdDynamicRange { tag: block.tag, reason: "tile location exceeds tile count" });
    }
    if !has_bevel && pixel_multiplier != 0 {
        return Err(
            ExtensionError::InvalidDisplayIdDynamicRange { tag: block.tag, reason: "bevel multiplier set without bevel info" },
        );
    }
    Ok(
        DisplayIdTiledDisplayTopology {
            caps,
            tiles_h,
            tiles_v,
            tile_location_h: tile_h_location,
            tile_location_v: tile_v_location,
            tile_width,
            tile_height,
            pixel_multiplier,
            bevel_top: if has_bevel { Some(b[9]) } else { None },
            bevel_bottom: if has_bevel { Some(b[10]) } else { None },
            bevel_right: if has_bevel { Some(b[11]) } else { None },
            bevel_left: if has_bevel { Some(b[12]) } else { None },
            vendor_id: copy3(b, 13),
            vendor_id_is_oui: block.tag == 0x28,
            product_code: le16(b, 16),
            serial_number: le32(b, 18),
            raw: copy_all(b),
        },
    )
}

fn decode_formula_timings(block: &DisplayIdDataBlock) -> (res: Result<Vec<DisplayIdFormulaTiming>, ExtensionError>)
    requires
        block.tag == 0x24,
    ensures
        spec_did_view_error(block.tag, block.revision, block.payload@) is Some ==> res == Err::<
            Vec<DisplayIdFormulaTiming>,
            ExtensionError,
        >(spec_did_view_error(block.tag, block.revision, block.payload@)->0),
        spec_did_view_error(block.tag, block.revision, block.payload@) is None ==> (res matches Ok(v) && v@
            == spec_formula_timings(block.payload@)),
{
    let b = &block.payload;
    if b.len() < 6 || b.len() % 6 != 0 {
        return Err(ExtensionError::InvalidDisplayIdDataBlockLength { tag: block.tag, length: b.len(), minimum: 6, multiple: 6 });
    }
    let mut j: usize = 0;
    while j < b.len() / 6
        invariant
            j <= b@.len() / 6,
            b@.len() % 6 == 0,
            b@.len() >= 6,
            block.tag == 0x24,
            b@ == block.payload@,
            b@.len() <= usize::MAX,
            forall|i: int| 0 <= i < j ==> #[trigger] spec_formula_entry_ok(b@, i),
        decreases b@.len() / 6 - j,
    {
        assert(6 * j + 6 <= b@.len()) by (nonlinear_arith)
            requires
                j < b@.len() / 6,
        ;
        if le16(b, 6 * j + 1) == 65535 || le16(b, 6 * j + 3) == 65535 {
            assert(!spec_formula_entry_ok(b@, j as int));
            return Err(ExtensionError::InvalidDisplayIdDynamicRange { tag: block.tag, reason: "stored size exceeds 16-bit range" });
        }
        j = j + 1;
    }
    let mut timings: Vec<DisplayIdFormulaTiming> = Vec::new();
    let mut k: usize = 0;
    while k < b.len() / 6
        invariant
            k <= b@.len() / 6,
            b@.len() % 6 == 0,
            b@.len() <= usize::MAX,
            forall|j: int| 0 <= j < b@.len() / 6 ==> #[trigger] spec_formula_entry_ok(b@, j),
            timings@ == spec_formula_timings(b@).take(k as int),
        decreases b@.len() / 6 - k,
    {
        let off = 6 * k;
        assert(spec_formula_entry_ok(b@, k as int));
        let options = b[off];
        let t = DisplayIdFormulaTiming {
            h_active: le16(b, off + 1) + 1,
            v_active: le16(b, off + 3) + 1,
            v_refresh_hz: b[off + 5] as u16 + 1,
            formula: options % 8,
            ntsc_refresh: (options / 16) % 2 == 1,
            stereo_3d: (options / 32) % 4,
        };
        timings.push(t);
        assert(spec_formula_timings(b@).take(k + 1) =~= spec_formula_timings(b@).take(k as int).push(t));
        k = k + 1;
    }
    assert(spec_formula_timings(b@).take(k as int) =~= spec_formula_timings(b@));
    Ok(timings)
}

fn decode_enumerated_timing_codes(block: &DisplayIdDataBlock) -> (res: Result<Vec<u16>, ExtensionError>)
    requires
        block.tag == 0x06 || block.tag == 0x23,
    ensures
        spec_did_view_error(block.tag, block.revision, block.payload@) is Some ==> res == Err::<Vec<u16>, ExtensionError>(
            spec_did_view_error(block.tag, block.revision, block.payload@)->0,
        ),
        spec_did_view_error(block.tag, block.revision, block.payload@) is None ==> (res matches Ok(v) && v@
            == spec_enumerated_codes(block.payload@, (block.revision / 8) % 2 == 1)),
{
    let two_byte = (block.revision / 8) % 2 == 1;
    let b = &block.payload;
    if b.len() == 0 {
        return Err(ExtensionError::InvalidDisplayIdDataBlockLength { tag: block.tag, length: 0, minimum: 1, multiple: 0 });
    }
    let mut codes: Vec<u16> = Vec::new();
    if two_byte {
        if b.len() % 2 != 0 {
            return Err(ExtensionError::InvalidDisplayIdDataBlockLength { tag: block.tag, length: b.len(), minimum: 2, multiple: 2 });
        }
        let mut k: usize = 0;
        while k < b.len() / 2
            invariant
                k <= b@.len() / 2,
                b@.len() % 2 == 0,
                b@.len() <= usize::MAX,
                codes@ == spec_enumerated_codes(b@, true).take(k as int),
            decreases b@.len() / 2 - k,
        {
            let c = le16(b, 2 * k);
            codes.push(c);
            assert(spec_enumerated_codes(b@, true).take(k + 1) =~= spec_enumerated_codes(b@, true).take(k as int).push(c));
            k = k + 1;
        }
        assert(spec_enumerated_codes(b@, true).take(k as int) =~= spec_enumerated_codes(b@, true));
    } else {
        let mut k: usize = 0;
        while k < b.len()
            invariant
                k <= b@.len(),
                codes@ == spec_enumerated_codes(b@, false).take(k as int),
            decreases b@.len() - k,
        {
            let c = b[k] as u16;
            codes.push(c);
            assert(spec_enumerated_codes(b@, false).take(k + 1) =~= spec_enumerated_codes(b@, false).take(k as int).push(c));
            k = k + 1;
        }
        assert(spec_enumerated_codes(b@, false).take(k as int) =~= spec_enumerated_codes(b@, false));
    }
    Ok(codes)
}

impl DisplayIdDataBlock {
    /// Decode this data block into a typed read-only view.
    pub fn view(&self) -> (res: Result<DisplayIdDataBlockView, ExtensionError>)
        ensures
            spec_did_view_error(self.tag, self.revision, self.payload@) is Some ==> res == Err::<
                DisplayIdDataBlockView,
                ExtensionError,
            >(spec_did_view_error(self.tag, self.revision, self.payload@)->0),
            spec_did_view_error(self.tag, self.revision, self.payload@) is None ==> (res matches Ok(v)
                && spec_did_view_matches(self.tag, self.revision, self.payload@, v)),
    {
        let tag = self.tag;
        if tag == 0x00 || tag == 0x20 {
            Ok(DisplayIdDataBlockView::ProductIdentification { product: decode_product_identification(self)? })
        } else if tag == 0x01 || tag == 0x21 {
            Ok(DisplayIdDataBlockView::DisplayParameters { parameters: decode_display_parameters(self)? })
        } else if tag == 0x03 {
            Ok(DisplayIdDataBlockView::DetailedTiming { timings: decode_detailed_timings(self, true)? })
        } else if tag == 0x22 {
            Ok(DisplayIdDataBlockView::DetailedTiming { timings: decode_detailed_timings(self, false)? })
        } else if tag == 0x0F || tag == 0x26 {
            Ok(DisplayIdDataBlockView::InterfaceFeatures { features: decode_interface_features(self)? })
        } else if tag == 0x09 {
            Ok(DisplayIdDataBlockView::VideoTimingRange1x { range: decode_video_timing_range_limits(self)? })
        } else if tag == 0x25 {
            Ok(DisplayIdDataBlockView::DynamicVideoTimingRange { range: decode_dynamic_video_timing_range(self)? })
        } else if tag == 0x06 || tag == 0x23 {
            let codes = decode_enumerated_timing_codes(self)?;
            Ok(
                DisplayIdDataBlockView::EnumeratedTiming {
                    code_type: self.revision / 64,
                    code_size: if (self.revision / 8) % 2 == 1 { 2 } else { 1 },
                    codes,
                },
            )
        } else if tag == 0x24 {
            Ok(DisplayIdDataBlockView::FormulaTiming { timings: decode_formula_timings(self)? })
        } else if tag == 0x12 || tag == 0x28 {
            Ok(DisplayIdDataBlockView::TiledDisplayTopology { topology: decode_tiled_display_topology(self)? })
        } else if tag == 0x81 {
            let raw = copy_all(&self.payload);
            assert(self.payload@.subrange(0, self.payload@.len() as int) =~= self.payload@);
            let data_blocks = crate::extensions::parse_cta_data_blocks(self.payload.as_slice(), 0, self.payload.len(), false)?;
            Ok(DisplayIdDataBlockView::Cta { data_blocks, raw })
        } else {
            Ok(DisplayIdDataBlockView::Unknown { tag, payload: copy_all(&self.payload) })
        }
    }
}

// ---------------------------------------------------------------------------
// Typed view encoding
// ---------------------------------------------------------------------------

/// Little-endian bytes of a 16-bit value.
pub open spec fn spec_le16_bytes(v: int) -> Seq<u8> {
    seq![(v % 256) as u8, ((v / 256) % 256) as u8]
}

/// Little-endian bytes of a 24-bit value.
pub open spec fn spec_le24_bytes(v: int) -> Seq<u8> {
    seq![(v % 256) as u8, ((v / 256) % 256) as u8, ((v / 65536) % 256) as u8]
}

/// Little-endian bytes of a 32-bit value.
pub open spec fn spec_le32_bytes(v: int) -> Seq<u8> {
    seq![(v % 256) as u8, ((v / 256) % 256) as u8, ((v / 65536) % 256) as u8, ((v / 16777216) % 256) as u8]
}

/// `n` zero bytes.
pub open spec fn spec_zeros(n: int) -> Seq<u8> {
    Seq::new(n as nat, |i: int| 0u8)
}

/// The payload written for a product identification view.
pub open spec fn spec_encode_product(x: DisplayIdProductIdentification) -> Result<Seq<u8>, ExtensionWriteError> {
    if !(2000 <= x.year <= 2255) {
        Err(ExtensionWriteError::InvalidDisplayIdProductField { field: "year", value: x.year as u32, maximum: 2255 })
    } else if x.product_name@.len() > 255 {
        Err(ExtensionWriteError::InvalidDisplayIdProductField {
            field: "product_name",
            value: x.product_name@.len() as u32,
            maximum: 255,
        })
    } else {
        let p = x.vendor_id@ + spec_le16_bytes(x.product_code as int) + spec_le32_bytes(x.serial_number as int) + seq![
            x.week_of_manufacture,
            (x.year - 2000) as u8,
            x.product_name@.len() as u8,
        ] + x.product_name@;
        if p.len() > 121 {
            Err(ExtensionWriteError::DisplayIdPayloadTooLong { length: p.len() as usize, maximum: 121 })
        } else {
            Ok(p)
        }
    }
}

/// The first 29 payload bytes of a display parameters view.
pub open spec fn spec_params_prefix(x: DisplayIdDisplayParameters) -> Seq<u8> {
    spec_le16_bytes(x.horizontal_image_size_mm as int) + spec_le16_bytes(x.vertical_image_size_mm as int)
        + spec_le16_bytes(x.horizontal_pixel_count as int) + spec_le16_bytes(x.vertical_pixel_count as int) + seq![
        x.features,
    ] + x.primary_color_1@ + x.primary_color_2@ + x.primary_color_3@ + x.white_point@ + spec_le16_bytes(
        x.max_luminance_full as int,
    ) + spec_le16_bytes(x.max_luminance_10_percent as int) + spec_le16_bytes(x.min_luminance as int) + seq![
        x.color_depth_and_technology,
        x.gamma_eotf,
    ]
}

/// The payload written for a display parameters view.
pub open spec fn spec_encode_params(tag: u8, x: DisplayIdDisplayParameters) -> Result<Seq<u8>, ExtensionWriteError> {
    if x.raw@.len() > 121 {
        Err(ExtensionWriteError::DisplayIdPayloadTooLong { length: x.raw@.len() as usize, maximum: 121 })
    } else if x.raw@.len() < 29 {
        Err(ExtensionWriteError::DisplayIdPayloadTooShort { tag, length: x.raw@.len() as usize, minimum: 29 })
    } else {
        Ok(spec_params_prefix(x) + x.raw@.skip(29))
    }
}

/// The payload written for an interface features view.
pub open spec fn spec_encode_features(x: DisplayIdInterfaceFeatures) -> Result<Seq<u8>, ExtensionWriteError> {
    let base = if x.raw@.len() >= 9 { x.raw@ } else { spec_zeros(9) };
    if x.additional_colorspace_count > 7 {
        Err(ExtensionWriteError::InvalidDisplayIdFeatureField {
            field: "additional_colorspace_count",
            value: x.additional_colorspace_count,
            maximum: 7,
        })
    } else if base.len() > 121 {
        Err(ExtensionWriteError::DisplayIdPayloadTooLong { length: base.len() as usize, maximum: 121 })
    } else {
        Ok(
            seq![
                x.color_depth_rgb,
                x.color_depth_ycbcr444,
                x.color_depth_ycbcr422,
                x.color_depth_ycbcr420,
                x.min_ycbcr420_pixel_rate,
                x.audio_flags,
                x.colorspace_eotf_1,
                x.colorspace_eotf_2,
                x.additional_colorspace_count,
            ] + base.skip(9),
        )
    }
}

/// The payload written for a tiled topology view.
pub open spec fn spec_encode_tiled(tag: u8, x: DisplayIdTiledDisplayTopology) -> Result<Seq<u8>, ExtensionWriteError> {
    let bevel = (x.caps / 64) % 2 == 1;
    let base = if x.raw@.len() < 22 { x.raw@ + spec_zeros(22 - x.raw@.len()) } else { x.raw@ };
    let nh = x.tiles_h - 1;
    let nv = x.tiles_v - 1;
    if x.tiles_h == 0 || x.tiles_v == 0 || x.tile_location_h >= x.tiles_h || x.tile_location_v >= x.tiles_v
        || x.tile_width == 0 || x.tile_height == 0 {
        Err(ExtensionWriteError::InvalidDisplayIdDynamicRange { tag, reason: "tile count, location, or size is invalid" })
    } else if !bevel && x.pixel_multiplier != 0 {
        Err(ExtensionWriteError::InvalidDisplayIdDynamicRange { tag, reason: "bevel multiplier set without bevel info" })
    } else if x.tiles_h > 64 || x.tiles_v > 64 || x.tile_location_h >= 64 || x.tile_location_v >= 64 {
        Err(ExtensionWriteError::InvalidDisplayIdDynamicRange { tag, reason: "tile count or location exceeds 6-bit field" })
    } else if base.len() > 121 {
        Err(ExtensionWriteError::DisplayIdPayloadTooLong { length: base.len() as usize, maximum: 121 })
    } else {
        Ok(
            seq![
                x.caps,
                ((nh % 16) * 16 + nv % 16) as u8,
                ((x.tile_location_h % 16) * 16 + x.tile_location_v % 16) as u8,
                (((nh / 16) % 4) * 64 + ((nv / 16) % 4) * 16 + ((x.tile_location_h / 16) % 4) * 4 + (x.tile_location_v
                    / 16) % 4) as u8,
            ] + spec_le16_bytes(x.tile_width - 1) + spec_le16_bytes(x.tile_height - 1) + seq![x.pixel_multiplier] + (
            if bevel {
                seq![
                    match x.bevel_top { Some(v) => v, None => 0u8 },
                    match x.bevel_bottom { Some(v) => v, None => 0u8 },
                    match x.bevel_right { Some(v) => v, None => 0u8 },
                    match x.bevel_left { Some(v) => v, None => 0u8 },
                ]
            } else {
                base.subrange(9, 13)
            }) + x.vendor_id@ + spec_le16_bytes(x.product_code as int) + spec_le32_bytes(x.serial_number as int)
                + base.skip(22),
        )
    }
}

/// The payload written for a dynamic video timing range view.
pub open spec fn spec_encode_dynamic(tag: u8, x: DisplayIdDynamicVideoTimingRange) -> Result<Seq<u8>, ExtensionWriteError> {
    let base = if x.raw@.len() >= 9 { x.raw@ } else { spec_zeros(9) };
    if !(1 <= x.min_pixel_clock_khz <= 0x0100_0000) || !(1 <= x.max_pixel_clock_khz <= 0x0100_0000)
        || x.min_pixel_clock_khz > x.max_pixel_clock_khz {
        Err(ExtensionWriteError::InvalidDisplayIdDynamicRange { tag, reason: "pixel clock out of range or min exceeds max" })
    } else if x.min_vfreq_hz == 0 || x.max_vfreq_hz == 0 || x.max_vfreq_hz > 1023 || x.min_vfreq_hz > x.max_vfreq_hz {
        Err(ExtensionWriteError::InvalidDisplayIdDynamicRange { tag, reason: "refresh rate out of range or min exceeds max" })
    } else if base.len() > 121 {
        Err(ExtensionWriteError::DisplayIdPayloadTooLong { length: base.len() as usize, maximum: 121 })
    } else {
        Ok(
            spec_le24_bytes(x.min_pixel_clock_khz - 1) + spec_le24_bytes(x.max_pixel_clock_khz - 1) + seq![
                x.min_vfreq_hz,
                (x.max_vfreq_hz % 256) as u8,
                (((base[8] / 4) % 32) * 4 + (if x.seamless_dynamic_video_timing { 128int } else { 0int })
                    + (x.max_vfreq_hz / 256) % 4) as u8,
            ] + base.skip(9),
        )
    }
}

/// The payload written for a 1.x video timing range view.
pub open spec fn spec_encode_range1x(tag: u8, x: DisplayIdVideoTimingRangeLimits) -> Result<Seq<u8>, ExtensionWriteError> {
    let base = if x.raw@.len() >= 15 { x.raw@ } else { spec_zeros(15) };
    if !(1 <= x.min_pixel_clock_khz <= 0x0100_0000) || !(1 <= x.max_pixel_clock_khz <= 0x0100_0000)
        || x.min_pixel_clock_khz > x.max_pixel_clock_khz {
        Err(ExtensionWriteError::InvalidDisplayIdDynamicRange { tag, reason: "pixel clock out of range or min exceeds max" })
    } else if x.min_pixel_clock_khz % 10 != 0 || x.max_pixel_clock_khz % 10 != 0 {
        Err(ExtensionWriteError::InvalidDisplayIdDynamicRange { tag, reason: "1.x pixel clock must be a multiple of 10 kHz" })
    } else if x.min_hfreq_khz > x.max_hfreq_khz {
        Err(ExtensionWriteError::InvalidDisplayIdDynamicRange { tag, reason: "horizontal frequency min exceeds max" })
    } else if x.min_vfreq_hz == 0 || x.max_vfreq_hz == 0 || x.min_vfreq_hz > x.max_vfreq_hz {
        Err(ExtensionWriteError::InvalidDisplayIdDynamicRange { tag, reason: "vertical refresh out of range or min exceeds max" })
    } else if base.len() > 121 {
        Err(ExtensionWriteError::DisplayIdPayloadTooLong { length: base.len() as usize, maximum: 121 })
    } else {
        Ok(
            spec_le24_bytes(x.min_pixel_clock_khz / 10 - 1) + spec_le24_bytes(x.max_pixel_clock_khz / 10 - 1) + seq![
                x.min_hfreq_khz,
                x.max_hfreq_khz,
            ] + spec_le16_bytes(x.min_h_blanking as int) + seq![x.min_vfreq_hz, x.max_vfreq_hz] + spec_le16_bytes(
                x.min_v_blanking as int,
            ) + seq![
                (base[14] % 16 + (if x.supports_interlaced { 128int } else { 0int }) + (if x.supports_cvt {
                    64int
                } else {
                    0int
                }) + (if x.supports_cvt_reduced_blanking { 32int } else { 0int }) + (if x.discrete_frequency {
                    16int
                } else {
                    0int
                })) as u8,
            ] + base.skip(15),
        )
    }
}

/// A timing field outside `1..=maximum`, reported for timing `index`.
pub open spec fn spec_field_error(tag: u8, index: int, field: &'static str, value: u32, maximum: u32) -> Option<
    ExtensionWriteError,
> {
    if !(1 <= value <= maximum) {
        Some(ExtensionWriteError::InvalidDisplayIdTimingField { tag, index: index as usize, field, value, maximum })
    } else {
        None
    }
}

/// The first field of a detailed timing outside its encoded range.
pub open spec fn spec_timing_field_error(t: DisplayIdDetailedTiming, tag: u8, index: int) -> Option<ExtensionWriteError> {
    if spec_field_error(tag, index, "h_active", t.h_active, 65536) is Some {
        spec_field_error(tag, index, "h_active", t.h_active, 65536)
    } else if spec_field_error(tag, index, "h_blank", t.h_blank, 65536) is Some {
        spec_field_error(tag, index, "h_blank", t.h_blank, 65536)
    } else if spec_field_error(tag, index, "h_sync_offset", t.h_sync_offset, 32768) is Some {
        spec_field_error(tag, index, "h_sync_offset", t.h_sync_offset, 32768)
    } else if spec_field_error(tag, index, "h_sync_width", t.h_sync_width, 65536) is Some {
        spec_field_error(tag, index, "h_sync_width", t.h_sync_width, 65536)
    } else if spec_field_error(tag, index, "v_active", t.v_active, 65536) is Some {
        spec_field_error(tag, index, "v_active", t.v_active, 65536)
    } else if spec_field_error(tag, index, "v_blank", t.v_blank, 65536) is Some {
        spec_field_error(tag, index, "v_blank", t.v_blank, 65536)
    } else if spec_field_error(tag, index, "v_sync_offset", t.v_sync_offset, 32768) is Some {
        spec_field_error(tag, index, "v_sync_offset", t.v_sync_offset, 32768)
    } else {
        spec_field_error(tag, index, "v_sync_width", t.v_sync_width, 65536)
    }
}

/// Why a detailed timing cannot be encoded, if it cannot.
pub open spec fn spec_did_timing_error(t: DisplayIdDetailedTiming, index: int, type_one: bool, tag: u8) -> Option<
    ExtensionWriteError,
> {
    let unit = if type_one { t.pixel_clock_khz / 10 } else { t.pixel_clock_khz };
    if type_one && (t.pixel_clock_khz == 0 || t.pixel_clock_khz % 10 != 0) {
        Some(ExtensionWriteError::InvalidDisplayIdPixelClock { index: index as usize, value: t.pixel_clock_khz })
    } else if !(1 <= unit <= 0x0100_0000) {
        Some(ExtensionWriteError::InvalidDisplayIdTimingField {
            tag,
            index: index as usize,
            field: "pixel_clock_khz",
            value: t.pixel_clock_khz,
            maximum: if type_one { 0x0A00_0000u32 } else { 0x0100_0000u32 },
        })
    } else {
        spec_timing_field_error(t, tag, index)
    }
}

/// The byte holding aspect ratio, interlace, stereo mode and the
/// preferred or YCbCr 4:2:0 bit.
pub open spec fn spec_timing_byte3(t: DisplayIdDetailedTiming, block_revision: u8) -> u8 {
    (spec_aspect_nibble(t.aspect_ratio) + (if t.interlaced { 16int } else { 0int }) + spec_stereo_bits(t.stereo_3d)
        * 32 + (if (if block_revision < 2 { t.preferred } else { t.ycbcr420 }) { 128int } else { 0int })) as u8
}

/// The 20 bytes of a (valid) detailed timing.
pub open spec fn spec_did_timing_bytes(t: DisplayIdDetailedTiming, type_one: bool, block_revision: u8) -> Seq<u8> {
    let unit = if type_one { t.pixel_clock_khz / 10 } else { t.pixel_clock_khz };
    spec_le24_bytes(unit - 1) + seq![spec_timing_byte3(t, block_revision)] + spec_le16_bytes(t.h_active - 1)
        + spec_le16_bytes(t.h_blank - 1) + spec_le16_bytes(
        t.h_sync_offset - 1 + (if t.h_sync_positive { 32768int } else { 0int }),
    ) + spec_le16_bytes(t.h_sync_width - 1) + spec_le16_bytes(t.v_active - 1) + spec_le16_bytes(t.v_blank - 1)
        + spec_le16_bytes(t.v_sync_offset - 1 + (if t.v_sync_positive { 32768int } else { 0int })) + spec_le16_bytes(
        t.v_sync_width - 1,
    )
}

/// The first timing among the first `n` that cannot be encoded.
pub open spec fn spec_first_did_timing_error(ts: Seq<DisplayIdDetailedTiming>, n: int, type_one: bool, tag: u8) -> Option<
    ExtensionWriteError,
>
    decreases n,
{
    if n <= 0 {
        None
    } else {
        match spec_first_did_timing_error(ts, n - 1, type_one, tag) {
            Some(e) => Some(e),
            None => spec_did_timing_error(ts[n - 1], n - 1, type_one, tag),
        }
    }
}

/// The concatenated encodings of (valid) detailed timings.
pub open spec fn spec_did_timings_bytes(ts: Seq<DisplayIdDetailedTiming>, type_one: bool, block_revision: u8) -> Seq<u8>
    decreases ts.len(),
{
    if ts.len() == 0 {
        Seq::empty()
    } else {
        spec_did_timings_bytes(ts.drop_last(), type_one, block_revision) + spec_did_timing_bytes(
            ts.last(),
            type_one,
            block_revision,
        )
    }
}

/// Revision and payload written for detailed timings under `tag`.
pub open spec fn spec_encode_timings(tag: u8, ts: Seq<DisplayIdDetailedTiming>) -> Result<(u8, Seq<u8>), ExtensionWriteError> {
    let rev: u8 = if exists|i: int| 0 <= i < ts.len() && (#[trigger] ts[i]).ycbcr420 { 2 } else { 0 };
    if ts.len() == 0 {
        Err(ExtensionWriteError::DisplayIdPayloadTooShort { tag, length: 0, minimum: 20 })
    } else if ts.len() * 20 > usize::MAX {
        Err(ExtensionWriteError::DisplayIdPayloadTooLong { length: usize::MAX, maximum: 121 })
    } else if ts.len() * 20 > 121 {
        Err(ExtensionWriteError::DisplayIdPayloadTooLong { length: (ts.len() * 20) as usize, maximum: 121 })
    } else if spec_first_did_timing_error(ts, ts.len() as int, tag == 0x03, tag) is Some {
        Err(spec_first_did_timing_error(ts, ts.len() as int, tag == 0x03, tag)->0)
    } else {
        Ok((rev, spec_did_timings_bytes(ts, tag == 0x03, rev)))
    }
}

/// The first code among the first `n` that does not fit one byte.
pub open spec fn spec_first_wide_code(codes: Seq<u16>, n: int) -> Option<int>
    decreases n,
{
    if n <= 0 {
        None
    } else {
        match spec_first_wide_code(codes, n - 1) {
            Some(i) => Some(i),
            None => if codes[n - 1] > 255 {
                Some(n - 1)
            } else {
                None
            },
        }
    }
}

/// The payload bytes of enumerated timing codes.
pub open spec fn spec_codes_bytes(codes: Seq<u16>, two_byte: bool) -> Seq<u8>
    decreases codes.len(),
{
    if codes.len() == 0 {
        Seq::empty()
    } else {
        spec_codes_bytes(codes.drop_last(), two_byte) + if two_byte {
            spec_le16_bytes(codes.last() as int)
        } else {
            seq![codes.last() as u8]
        }
    }
}

/// Revision and payload written for enumerated timing codes.
pub open spec fn spec_encode_enumerated(code_type: u8, code_size: u8, codes: Seq<u16>) -> Result<
    (u8, Seq<u8>),
    ExtensionWriteError,
> {
    let bytes = spec_codes_bytes(codes, code_size == 2);
    if code_type > 2 {
        Err(ExtensionWriteError::InvalidDisplayIdFeatureField { field: "code_type", value: code_type, maximum: 2 })
    } else if code_size != 1 && code_size != 2 {
        Err(ExtensionWriteError::InvalidDisplayIdFeatureField { field: "code_size", value: code_size, maximum: 2 })
    } else if code_size == 1 && spec_first_wide_code(codes, codes.len() as int) is Some {
        Err(ExtensionWriteError::InvalidDisplayIdFeatureField {
            field: "code",
            value: codes[spec_first_wide_code(codes, codes.len() as int)->0] as u8,
            maximum: 255,
        })
    } else if bytes.len() > 121 {
        Err(ExtensionWriteError::DisplayIdPayloadTooLong { length: bytes.len() as usize, maximum: 121 })
    } else {
        Ok(((code_type * 64 + if code_size == 2 { 8int } else { 0int }) as u8, bytes))
    }
}

/// Why a formula timing cannot be encoded, if it cannot.
pub open spec fn spec_formula_error(t: DisplayIdFormulaTiming, tag: u8, index: int) -> Option<ExtensionWriteError> {
    if t.h_active == 0 || t.v_active == 0 || t.v_refresh_hz == 0 || t.v_refresh_hz > 256 {
        Some(ExtensionWriteError::InvalidDisplayIdTimingField {
            tag,
            index: index as usize,
            field: "formula_timing",
            value: t.h_active as u32,
            maximum: 65536,
        })
    } else if t.stereo_3d > 3 {
        Some(ExtensionWriteError::InvalidDisplayIdFeatureField { field: "stereo_3d", value: t.stereo_3d, maximum: 3 })
    } else {
        None
    }
}

/// The first formula timing among the first `n` that cannot be encoded.
pub open spec fn spec_first_formula_error(ts: Seq<DisplayIdFormulaTiming>, n: int, tag: u8) -> Option<ExtensionWriteError>
    decreases n,
{
    if n <= 0 {
        None
    } else {
        match spec_first_formula_error(ts, n - 1, tag) {
            Some(e) => Some(e),
            None => spec_formula_error(ts[n - 1], tag, n - 1),
        }
    }
}

/// The six bytes of a (valid) formula timing.
pub open spec fn spec_formula_bytes(t: DisplayIdFormulaTiming) -> Seq<u8> {
    seq![(t.stereo_3d * 32 + (if t.ntsc_refresh { 16int } else { 0int }) + t.formula % 8) as u8] + spec_le16_bytes(
        t.h_active - 1,
    ) + spec_le16_bytes(t.v_active - 1) + seq![(t.v_refresh_hz - 1) as u8]
}

/// The concatenated bytes of (valid) formula timings.
pub open spec fn spec_formulas_bytes(ts: Seq<DisplayIdFormulaTiming>) -> Seq<u8>
    decreases ts.len(),
{
    if ts.len() == 0 {
        Seq::empty()
    } else {
        spec_formulas_bytes(ts.drop_last()) + spec_formula_bytes(ts.last())
    }
}

/// The payload written for formula timings.
pub open spec fn spec_encode_formula(tag: u8, ts: Seq<DisplayIdFormulaTiming>) -> Result<Seq<u8>, ExtensionWriteError> {
    if ts.len() == 0 {
        Err(ExtensionWriteError::DisplayIdPayloadTooShort { tag, length: 0, minimum: 6 })
    } else if spec_first_formula_error(ts, ts.len() as int, tag) is Some {
        Err(spec_first_formula_error(ts, ts.len() as int, tag)->0)
    } else if spec_formulas_bytes(ts).len() > 121 {
        Err(ExtensionWriteError::DisplayIdPayloadTooLong { length: spec_formulas_bytes(ts).len() as usize, maximum: 121 })
    } else {
        Ok(spec_formulas_bytes(ts))
    }
}

/// The bytes an embedded CTA data block is written back as: its typed
/// view, encoded again.
pub open spec fn spec_cta_reencode(tag: u8, p: Seq<u8>) -> Result<Seq<u8>, ExtensionWriteError> {
    match spec_cta_view_error(tag, p) {
        Some(e) => Err(ExtensionWriteError::InvalidDisplayIdEmbeddedCta { source: e }),
        None => match spec_to_data_block(choose|v: CtaDataBlockView| spec_cta_view_matches(tag, p, v)) {
            Err(e) => Err(e),
            Ok(b) => Ok(spec_cta_block_bytes(b.0, b.1)),
        },
    }
}

/// The re-encoded bytes of the first `n` embedded CTA data blocks.
pub open spec fn spec_cta_embedded_bytes(bv: Seq<(u8, Seq<u8>)>, n: int) -> Result<Seq<u8>, ExtensionWriteError>
    decreases n,
{
    if n <= 0 {
        Ok(Seq::empty())
    } else {
        match spec_cta_embedded_bytes(bv, n - 1) {
            Err(e) => Err(e),
            Ok(acc) => match spec_cta_reencode(bv[n - 1].0, bv[n - 1].1) {
                Err(e) => Err(e),
                Ok(b) => Ok(acc + b),
            },
        }
    }
}

/// The payload written for an embedded CTA view.
pub open spec fn spec_encode_cta_embedded(bv: Seq<(u8, Seq<u8>)>) -> Result<Seq<u8>, ExtensionWriteError> {
    match spec_cta_embedded_bytes(bv, bv.len() as int) {
        Err(e) => Err(e),
        Ok(b) => if b.len() > 121 {
            Err(ExtensionWriteError::DisplayIdPayloadTooLong { length: b.len() as usize, maximum: 121 })
        } else {
            Ok(b)
        },
    }
}

/// The same bytes, with revision zero.
pub open spec fn spec_rev0(r: Result<Seq<u8>, ExtensionWriteError>) -> Result<(u8, Seq<u8>), ExtensionWriteError> {
    match r {
        Ok(p) => Ok((0u8, p)),
        Err(e) => Err(e),
    }
}

/// Revision and payload of the data block a typed view is written as under
/// `tag`, or why it cannot be written.
pub open spec fn spec_did_encode(v: DisplayIdDataBlockView, tag: u8) -> Result<(u8, Seq<u8>), ExtensionWriteError> {
    match v {
        DisplayIdDataBlockView::ProductIdentification { product } if tag == 0x00 || tag == 0x20 => spec_rev0(
            spec_encode_product(product),
        ),
        DisplayIdDataBlockView::DisplayParameters { parameters } if tag == 0x01 || tag == 0x21 => spec_rev0(
            spec_encode_params(tag, parameters),
        ),
        DisplayIdDataBlockView::DetailedTiming { timings } if tag == 0x03 || tag == 0x22 => spec_encode_timings(
            tag,
            timings@,
        ),
        DisplayIdDataBlockView::Cta { data_blocks, raw } if tag == 0x81 => spec_rev0(
            spec_encode_cta_embedded(super::cta::spec_cta_views(data_blocks@)),
        ),
        DisplayIdDataBlockView::Unknown { tag: original, payload } if original == tag => if payload@.len() > 121 {
            Err(ExtensionWriteError::DisplayIdPayloadTooLong { length: payload@.len() as usize, maximum: 121 })
        } else {
            Ok((0u8, payload@))
        },
        DisplayIdDataBlockView::InterfaceFeatures { features } if tag == 0x0F || tag == 0x26 => spec_rev0(
            spec_encode_features(features),
        ),
        DisplayIdDataBlockView::TiledDisplayTopology { topology } if tag == 0x12 || tag == 0x28 => spec_rev0(
            spec_encode_tiled(tag, topology),
        ),
        DisplayIdDataBlockView::EnumeratedTiming { code_type, code_size, codes } if tag == 0x06 || tag == 0x23 =>
            spec_encode_enumerated(code_type, code_size, codes@),
        DisplayIdDataBlockView::FormulaTiming { timings } if tag == 0x24 => spec_rev0(spec_encode_formula(tag, timings@)),
        DisplayIdDataBlockView::DynamicVideoTimingRange { range } if tag == 0x25 => spec_rev0(
            spec_encode_dynamic(tag, range),
        ),
        DisplayIdDataBlockView::VideoTimingRange1x { range } if tag == 0x09 => spec_rev0(spec_encode_range1x(tag, range)),
        _ => Err(ExtensionWriteError::InvalidDisplayIdTag { tag }),
    }
}

/// The canonical tag used when encoding a typed view.
pub open spec fn spec_canonical_tag(v: DisplayIdDataBlockView) -> u8 {
    match v {
        DisplayIdDataBlockView::ProductIdentification { .. } => 0x00,
        DisplayIdDataBlockView::DisplayParameters { .. } => 0x01,
        DisplayIdDataBlockView::DetailedTiming { timings } => if timings@.len() == 0 {
            0x22
        } else if forall|i: int| 0 <= i < timings@.len() ==> (#[trigger] timings@[i]).pixel_clock_khz % 10 == 0 {
            0x03
        } else {
            0x22
        },
        DisplayIdDataBlockView::InterfaceFeatures { .. } => 0x26,
        DisplayIdDataBlockView::FormulaTiming { .. } => 0x24,
        DisplayIdDataBlockView::EnumeratedTiming { .. } => 0x23,
        DisplayIdDataBlockView::DynamicVideoTimingRange { .. } => 0x25,
        DisplayIdDataBlockView::VideoTimingRange1x { .. } => 0x09,
        DisplayIdDataBlockView::TiledDisplayTopology { .. } => 0x28,
        DisplayIdDataBlockView::Cta { .. } => 0x81,
        DisplayIdDataBlockView::Unknown { tag, .. } => tag,
    }
}

fn push_le16(out: &mut Vec<u8>, v: u16)
    ensures
        final(out)@ == old(out)@ + spec_le16_bytes(v as int),
{
    out.push((v % 256) as u8);
    out.push((v / 256) as u8);
    assert(final(out)@ =~= old(out)@ + spec_le16_bytes(v as int));
}

fn push_le24(out: &mut Vec<u8>, v: u32)
    requires
        v < 0x0100_0000,
    ensures
        final(out)@ == old(out)@ + spec_le24_bytes(v as int),
{
    out.push((v % 256) as u8);
    out.push(((v / 256) % 256) as u8);
    out.push((v / 65536) as u8);
    assert(final(out)@ =~= old(out)@ + spec_le24_bytes(v as int));
}

fn push_le32(out: &mut Vec<u8>, v: u32)
    ensures
        final(out)@ == old(out)@ + spec_le32_bytes(v as int),
{
    out.push((v % 256) as u8);
    out.push(((v / 256) % 256) as u8);
    out.push(((v / 65536) % 256) as u8);
    out.push((v / 16777216) as u8);
    assert(final(out)@ =~= old(out)@ + spec_le32_bytes(v as int));
}

fn push_bytes(out: &mut Vec<u8>, src: &[u8])
    ensures
        final(out)@ == old(out)@ + src@,
{
    let ghost start = out@;
    let mut i: usize = 0;
    while i < src.len()
        invariant
            i <= src@.len(),
            out@ == start + src@.take(i as int),
        decreases src@.len() - i,
    {
        out.push(src[i]);
        assert(src@.take(i + 1) =~= src@.take(i as int).push(src@[i as int]));
        i = i + 1;
    }
    assert(src@.take(i as int) =~= src@);
}

fn encode_product(x: &DisplayIdProductIdentification) -> (res: Result<Vec<u8>, ExtensionWriteError>)
    ensures
        res matches Ok(p) ==> spec_encode_product(*x) == Ok::<Seq<u8>, ExtensionWriteError>(p@),
        res matches Err(e) ==> spec_encode_product(*x) == Err::<Seq<u8>, ExtensionWriteError>(e),
{
    if !(2000 <= x.year && x.year <= 2255) {
        return Err(ExtensionWriteError::InvalidDisplayIdProductField { field: "year", value: x.year as u32, maximum: 2255 });
    }
    if x.product_name.len() > 255 {
        return Err(
            ExtensionWriteError::InvalidDisplayIdProductField {
                field: "product_name",
                value: x.product_name.len() as u32,
                maximum: 255,
            },
        );
    }
    let mut payload: Vec<u8> = Vec::new();
    push_bytes(&mut payload, x.vendor_id.as_slice());
    push_le16(&mut payload, x.product_code);
    push_le32(&mut payload, x.serial_number);
    payload.push(x.week_of_manufacture);
    payload.push((x.year - 2000) as u8);
    payload.push(x.product_name.len() as u8);
    push_bytes(&mut payload, x.product_name.as_slice());
    assert(payload@ =~= x.vendor_id@ + spec_le16_bytes(x.product_code as int) + spec_le32_bytes(x.serial_number as int)
        + seq![x.week_of_manufacture, (x.year - 2000) as u8, x.product_name@.len() as u8] + x.product_name@);
    check_display_id_payload_length(payload.len())?;
    Ok(payload)
}

fn encode_params(tag: u8, x: &DisplayIdDisplayParameters) -> (res: Result<Vec<u8>, ExtensionWriteError>)
    ensures
        res matches Ok(p) ==> spec_encode_params(tag, *x) == Ok::<Seq<u8>, ExtensionWriteError>(p@),
        res matches Err(e) ==> spec_encode_params(tag, *x) == Err::<Seq<u8>, ExtensionWriteError>(e),
{
    check_display_id_payload_length(x.raw.len())?;
    if x.raw.len() < 29 {
        return Err(ExtensionWriteError::DisplayIdPayloadTooShort { tag, length: x.raw.len(), minimum: 29 });
    }
    let mut payload: Vec<u8> = Vec::new();
    push_le16(&mut payload, x.horizontal_image_size_mm);
    push_le16(&mut payload, x.vertical_image_size_mm);
    push_le16(&mut payload, x.horizontal_pixel_count);
    push_le16(&mut payload, x.vertical_pixel_count);
    payload.push(x.features);
    push_bytes(&mut payload, x.primary_color_1.as_slice());
    push_bytes(&mut payload, x.primary_color_2.as_slice());
    push_bytes(&mut payload, x.primary_color_3.as_slice());
    push_bytes(&mut payload, x.white_point.as_slice());
    push_le16(&mut payload, x.max_luminance_full);
    push_le16(&mut payload, x.max_luminance_10_percent);
    push_le16(&mut payload, x.min_luminance);
    payload.push(x.color_depth_and_technology);
    payload.push(x.gamma_eotf);
    assert(payload@ =~= spec_params_prefix(*x));
    super::cta::push_all(&mut payload, &x.raw, 29);
    Ok(payload)
}

fn encode_features(x: &DisplayIdInterfaceFeatures) -> (res: Result<Vec<u8>, ExtensionWriteError>)
    ensures
        res matches Ok(p) ==> spec_encode_features(*x) == Ok::<Seq<u8>, ExtensionWriteError>(p@),
        res matches Err(e) ==> spec_encode_features(*x) == Err::<Seq<u8>, ExtensionWriteError>(e),
{
    if x.additional_colorspace_count > 7 {
        return Err(
            ExtensionWriteError::InvalidDisplayIdFeatureField {
                field: "additional_colorspace_count",
                value: x.additional_colorspace_count,
                maximum: 7,
            },
        );
    }
    let base_len: usize = if x.raw.len() >= 9 { x.raw.len() } else { 9 };
    check_display_id_payload_length(base_len)?;
    let mut payload: Vec<u8> = Vec::new();
    payload.push(x.color_depth_rgb);
    payload.push(x.color_depth_ycbcr444);
    payload.push(x.color_depth_ycbcr422);
    payload.push(x.color_depth_ycbcr420);
    payload.push(x.min_ycbcr420_pixel_rate);
    payload.push(x.audio_flags);
    payload.push(x.colorspace_eotf_1);
    payload.push(x.colorspace_eotf_2);
    payload.push(x.additional_colorspace_count);
    if x.raw.len() >= 9 {
        super::cta::push_all(&mut payload, &x.raw, 9);
    } else {
        assert(spec_zeros(9).skip(9) =~= Seq::<u8>::empty());
    }
    assert(payload@ =~= spec_encode_features(*x)->Ok_0);
    Ok(payload)
}

fn encode_dynamic(tag: u8, x: &DisplayIdDynamicVideoTimingRange) -> (res: Result<Vec<u8>, ExtensionWriteError>)
    ensures
        res matches Ok(p) ==> spec_encode_dynamic(tag, *x) == Ok::<Seq<u8>, ExtensionWriteError>(p@),
        res matches Err(e) ==> spec_encode_dynamic(tag, *x) == Err::<Seq<u8>, ExtensionWriteError>(e),
{
    if !(1 <= x.min_pixel_clock_khz && x.min_pixel_clock_khz <= 0x0100_0000) || !(1 <= x.max_pixel_clock_khz
        && x.max_pixel_clock_khz <= 0x0100_0000) || x.min_pixel_clock_khz > x.max_pixel_clock_khz {
        return Err(ExtensionWriteError::InvalidDisplayIdDynamicRange { tag, reason: "pixel clock out of range or min exceeds max" });
    }
    if x.min_vfreq_hz == 0 || x.max_vfreq_hz == 0 || x.max_vfreq_hz > 1023 || x.min_vfreq_hz as u16 > x.max_vfreq_hz {
        return Err(ExtensionWriteError::InvalidDisplayIdDynamicRange { tag, reason: "refresh rate out of range or min exceeds max" });
    }
    let long = x.raw.len() >= 9;
    let base_len: usize = if long { x.raw.len() } else { 9 };
    check_display_id_payload_length(base_len)?;
    let old8: u8 = if long { x.raw[8] } else { 0 };
    let mut payload: Vec<u8> = Vec::new();
    push_le24(&mut payload, x.min_pixel_clock_khz - 1);
    push_le24(&mut payload, x.max_pixel_clock_khz - 1);
    payload.push(x.min_vfreq_hz);
    payload.push((x.max_vfreq_hz % 256) as u8);
    payload.push(((old8 / 4) % 32) * 4 + (if x.seamless_dynamic_video_timing { 128u8 } else { 0u8 }) + ((x.max_vfreq_hz
        / 256) % 4) as u8);
    if long {
        super::cta::push_all(&mut payload, &x.raw, 9);
    } else {
        assert(spec_zeros(9).skip(9) =~= Seq::<u8>::empty());
    }
    assert(payload@ =~= spec_encode_dynamic(tag, *x)->Ok_0);
    Ok(payload)
}

fn encode_range1x(tag: u8, x: &DisplayIdVideoTimingRangeLimits) -> (res: Result<Vec<u8>, ExtensionWriteError>)
    ensures
        res matches Ok(p) ==> spec_encode_range1x(tag, *x) == Ok::<Seq<u8>, ExtensionWriteError>(p@),
        res matches Err(e) ==> spec_encode_range1x(tag, *x) == Err::<Seq<u8>, ExtensionWriteError>(e),
{
    if !(1 <= x.min_pixel_clock_khz && x.min_pixel_clock_khz <= 0x0100_0000) || !(1 <= x.max_pixel_clock_khz
        && x.max_pixel_clock_khz <= 0x0100_0000) || x.min_pixel_clock_khz > x.max_pixel_clock_khz {
        return Err(ExtensionWriteError::InvalidDisplayIdDynamicRange { tag, reason: "pixel clock out of range or min exceeds max" });
    }
    if x.min_pixel_clock_khz % 10 != 0 || x.max_pixel_clock_khz % 10 != 0 {
        return Err(ExtensionWriteError::InvalidDisplayIdDynamicRange { tag, reason: "1.x pixel clock must be a multiple of 10 kHz" });
    }
    if x.min_hfreq_khz > x.max_hfreq_khz {
        return Err(ExtensionWriteError::InvalidDisplayIdDynamicRange { tag, reason: "horizontal frequency min exceeds max" });
    }
    if x.min_vfreq_hz == 0 || x.max_vfreq_hz == 0 || x.min_vfreq_hz > x.max_vfreq_hz {
        return Err(
            ExtensionWriteError::InvalidDisplayIdDynamicRange { tag, reason: "vertical refresh out of range or min exceeds max" },
        );
    }
    let long = x.raw.len() >= 15;
    let base_len: usize = if long { x.raw.len() } else { 15 };
    check_display_id_payload_length(base_len)?;
    let old14: u8 = if long { x.raw[14] } else { 0 };
    let mut payload: Vec<u8> = Vec::new();
    push_le24(&mut payload, x.min_pixel_clock_khz / 10 - 1);
    push_le24(&mut payload, x.max_pixel_clock_khz / 10 - 1);
    payload.push(x.min_hfreq_khz);
    payload.push(x.max_hfreq_khz);
    push_le16(&mut payload, x.min_h_blanking);
    payload.push(x.min_vfreq_hz);
    payload.push(x.max_vfreq_hz);
    push_le16(&mut payload, x.min_v_blanking);
    let flags: u8 = old14 % 16 + (if x.supports_interlaced { 128u8 } else { 0u8 }) + (if x.supports_cvt {
        64u8
    } else {
        0u8
    }) + (if x.supports_cvt_reduced_blanking { 32u8 } else { 0u8 }) + (if x.discrete_frequency { 16u8 } else { 0u8 });
    payload.push(flags);
    if long {
        super::cta::push_all(&mut payload, &x.raw, 15);
    } else {
        assert(spec_zeros(15).skip(15) =~= Seq::<u8>::empty());
    }
    assert(payload@ =~= spec_encode_range1x(tag, *x)->Ok_0);
    Ok(payload)
}

fn opt_or_zero(o: Option<u8>) -> (b: u8)
    ensures
        b == (match o {
            Some(v) => v,
            None => 0u8,
        }),
{
    match o {
        Some(v) => v,
        None => 0,
    }
}

#[verifier::spinoff_prover]
#[verifier::rlimit(80)]
fn encode_tiled(tag: u8, x: &DisplayIdTiledDisplayTopology) -> (res: Result<Vec<u8>, ExtensionWriteError>)
    ensures
        res matches Ok(p) ==> spec_encode_tiled(tag, *x) == Ok::<Seq<u8>, ExtensionWriteError>(p@),
        res matches Err(e) ==> spec_encode_tiled(tag, *x) == Err::<Seq<u8>, ExtensionWriteError>(e),
{
    if x.tiles_h == 0 || x.tiles_v == 0 || x.tile_location_h >= x.tiles_h || x.tile_location_v >= x.tiles_v
        || x.tile_width == 0 || x.tile_height == 0 {
        return Err(ExtensionWriteError::InvalidDisplayIdDynamicRange { tag, reason: "tile count, location, or size is invalid" });
    }
    let bevel = x.has_bevel_info();
    if !bevel && x.pixel_multiplier != 0 {
        return Err(ExtensionWriteError::InvalidDisplayIdDynamicRange { tag, reason: "bevel multiplier set without bevel info" });
    }
    if x.tiles_h > 64 || x.tiles_v > 64 || x.tile_location_h >= 64 || x.tile_location_v >= 64 {
        return Err(
            ExtensionWriteError::InvalidDisplayIdDynamicRange { tag, reason: "tile count or location exceeds 6-bit field" },
        );
    }
    let mut base = copy_all(&x.raw);
    while base.len() < 22
        invariant
            base@.len() <= 22 || base@ == x.raw@,
            x.raw@.len() < 22 ==> base@ == x.raw@ + spec_zeros(base@.len() - x.raw@.len()),
            x.raw@.len() >= 22 ==> base@ == x.raw@,
            base@.len() >= x.raw@.len(),
        decreases 22 - base@.len(),
    {
        base.push(0);
        assert(base@ =~= x.raw@ + spec_zeros(base@.len() - x.raw@.len()));
    }
    check_display_id_payload_length(base.len())?;
    let ghost sbase = if x.raw@.len() < 22 { x.raw@ + spec_zeros(22 - x.raw@.len()) } else { x.raw@ };
    assert(base@ =~= sbase);
    let nh = x.tiles_h - 1;
    let nv = x.tiles_v - 1;
    let mut payload: Vec<u8> = Vec::new();
    payload.push(x.caps);
    payload.push((nh % 16) * 16 + nv % 16);
    payload.push((x.tile_location_h % 16) * 16 + x.tile_location_v % 16);
    payload.push(((nh / 16) % 4) * 64 + ((nv / 16) % 4) * 16 + ((x.tile_location_h / 16) % 4) * 4 + (x.tile_location_v / 16)
        % 4);
    push_le16(&mut payload, x.tile_width - 1);
    push_le16(&mut payload, x.tile_height - 1);
    payload.push(x.pixel_multiplier);
    let ghost pre = payload@;
    if bevel {
        payload.push(opt_or_zero(x.bevel_top));
        payload.push(opt_or_zero(x.bevel_bottom));
        payload.push(opt_or_zero(x.bevel_right));
        payload.push(opt_or_zero(x.bevel_left));
    } else {
        payload.push(base[9]);
        payload.push(base[10]);
        payload.push(base[11]);
        payload.push(base[12]);
        assert(payload@ =~= pre + sbase.subrange(9, 13));
    }
    push_bytes(&mut payload, x.vendor_id.as_slice());
    push_le16(&mut payload, x.product_code);
    push_le32(&mut payload, x.serial_number);
    super::cta::push_all(&mut payload, &base, 22);
    assert(payload@ =~= spec_encode_tiled(tag, *x)->Ok_0);
    Ok(payload)
}

proof fn lemma_first_wide_code_keeps(c: Seq<u16>, n: int, m: int)
    requires
        0 <= n <= m,
        spec_first_wide_code(c, n) is Some,
    ensures
        spec_first_wide_code(c, m) == spec_first_wide_code(c, n),
    decreases m - n,
{
    if m > n {
        lemma_first_wide_code_keeps(c, n, m - 1);
    }
}

fn encode_enumerated(code_type: u8, code_size: u8, codes: &Vec<u16>) -> (res: Result<(u8, Vec<u8>), ExtensionWriteError>)
    ensures
        res matches Ok(r) ==> spec_encode_enumerated(code_type, code_size, codes@) == Ok::<(u8, Seq<u8>), ExtensionWriteError>(
            (r.0, r.1@),
        ),
        res matches Err(e) ==> spec_encode_enumerated(code_type, code_size, codes@) == Err::<
            (u8, Seq<u8>),
            ExtensionWriteError,
        >(e),
{
    if code_type > 2 {
        return Err(ExtensionWriteError::InvalidDisplayIdFeatureField { field: "code_type", value: code_type, maximum: 2 });
    }
    if code_size != 1 && code_size != 2 {
        return Err(ExtensionWriteError::InvalidDisplayIdFeatureField { field: "code_size", value: code_size, maximum: 2 });
    }
    let two = code_size == 2;
    let mut payload: Vec<u8> = Vec::new();
    let mut i: usize = 0;
    while i < codes.len()
        invariant
            i <= codes@.len(),
            code_size == 1 || code_size == 2,
            two == (code_size == 2),
            code_type <= 2,
            !two ==> spec_first_wide_code(codes@, i as int) is None,
            payload@ == spec_codes_bytes(codes@.take(i as int), two),
        decreases codes@.len() - i,
    {
        let code = codes[i];
        let ghost before = payload@;
        if two {
            push_le16(&mut payload, code);
        } else {
            if code > 255 {
                proof {
                    lemma_first_wide_code_keeps(codes@, i + 1, codes@.len() as int);
                }
                return Err(ExtensionWriteError::InvalidDisplayIdFeatureField { field: "code", value: code as u8, maximum: 255 });
            }
            payload.push(code as u8);
        }
        assert(codes@.take(i + 1).drop_last() =~= codes@.take(i as int));
        assert(payload@ =~= spec_codes_bytes(codes@.take(i + 1), two));
        i = i + 1;
    }
    assert(codes@.take(i as int) =~= codes@);
    check_display_id_payload_length(payload.len())?;
    let revision: u8 = code_type * 64 + if two { 8 } else { 0 };
    Ok((revision, payload))
}

proof fn lemma_first_formula_error_keeps(t: Seq<DisplayIdFormulaTiming>, n: int, m: int, tag: u8)
    requires
        0 <= n <= m,
        spec_first_formula_error(t, n, tag) is Some,
    ensures
        spec_first_formula_error(t, m, tag) == spec_first_formula_error(t, n, tag),
    decreases m - n,
{
    if m > n {
        lemma_first_formula_error_keeps(t, n, m - 1, tag);
    }
}

fn encode_formula(tag: u8, timings: &Vec<DisplayIdFormulaTiming>) -> (res: Result<Vec<u8>, ExtensionWriteError>)
    ensures
        res matches Ok(p) ==> spec_encode_formula(tag, timings@) == Ok::<Seq<u8>, ExtensionWriteError>(p@),
        res matches Err(e) ==> spec_encode_formula(tag, timings@) == Err::<Seq<u8>, ExtensionWriteError>(e),
{
    if timings.len() == 0 {
        return Err(ExtensionWriteError::DisplayIdPayloadTooShort { tag, length: 0, minimum: 6 });
    }
    let mut payload: Vec<u8> = Vec::new();
    let mut index: usize = 0;
    while index < timings.len()
        invariant
            index <= timings@.len(),
            timings@.len() > 0,
            spec_first_formula_error(timings@, index as int, tag) is None,
            payload@ == spec_formulas_bytes(timings@.take(index as int)),
        decreases timings@.len() - index,
    {
        let t = timings[index];
        if t.h_active == 0 || t.v_active == 0 || t.v_refresh_hz == 0 || t.v_refresh_hz > 256 {
            proof {
                lemma_first_formula_error_keeps(timings@, index + 1, timings@.len() as int, tag);
            }
            return Err(
                ExtensionWriteError::InvalidDisplayIdTimingField {
                    tag,
                    index,
                    field: "formula_timing",
                    value: t.h_active as u32,
                    maximum: 65536,
                },
            );
        }
        if t.stereo_3d > 3 {
            proof {
                lemma_first_formula_error_keeps(timings@, index + 1, timings@.len() as int, tag);
            }
            return Err(ExtensionWriteError::InvalidDisplayIdFeatureField { field: "stereo_3d", value: t.stereo_3d, maximum: 3 });
        }
        let ghost before = payload@;
        payload.push(t.stereo_3d * 32 + (if t.ntsc_refresh { 16u8 } else { 0u8 }) + t.formula % 8);
        push_le16(&mut payload, t.h_active - 1);
        push_le16(&mut payload, t.v_active - 1);
        payload.push((t.v_refresh_hz - 1) as u8);
        assert(timings@.take(index + 1).drop_last() =~= timings@.take(index as int));
        assert(payload@ =~= before + spec_formula_bytes(t));
        index = index + 1;
    }
    assert(timings@.take(index as int) =~= timings@);
    check_display_id_payload_length(payload.len())?;
    Ok(payload)
}

fn check_field(tag: u8, index: usize, field: &'static str, value: u32, maximum: u32) -> (res: Result<u16, ExtensionWriteError>)
    requires
        maximum <= 65536,
    ensures
        spec_field_error(tag, index as int, field, value, maximum) is Some ==> res == Err::<u16, ExtensionWriteError>(
            spec_field_error(tag, index as int, field, value, maximum)->0,
        ),
        spec_field_error(tag, index as int, field, value, maximum) is None ==> res == Ok::<u16, ExtensionWriteError>(
            (value - 1) as u16,
        ),
{
    if !(1 <= value && value <= maximum) {
        return Err(ExtensionWriteError::InvalidDisplayIdTimingField { tag, index, field, value, maximum });
    }
    Ok((value - 1) as u16)
}

#[verifier::spinoff_prover]
#[verifier::rlimit(100)]
fn encode_did_timing(t: &DisplayIdDetailedTiming, index: usize, type_one: bool, tag: u8, block_revision: u8) -> (res:
    Result<Vec<u8>, ExtensionWriteError>)
    ensures
        spec_did_timing_error(*t, index as int, type_one, tag) is Some ==> res == Err::<Vec<u8>, ExtensionWriteError>(
            spec_did_timing_error(*t, index as int, type_one, tag)->0,
        ),
        spec_did_timing_error(*t, index as int, type_one, tag) is None ==> (res matches Ok(b) && b@
            == spec_did_timing_bytes(*t, type_one, block_revision)),
{
    let pixel_unit = if type_one {
        if t.pixel_clock_khz == 0 || t.pixel_clock_khz % 10 != 0 {
            return Err(ExtensionWriteError::InvalidDisplayIdPixelClock { index, value: t.pixel_clock_khz });
        }
        t.pixel_clock_khz / 10
    } else {
        t.pixel_clock_khz
    };
    if !(1 <= pixel_unit && pixel_unit <= 0x0100_0000) {
        return Err(
            ExtensionWriteError::InvalidDisplayIdTimingField {
                tag,
                index,
                field: "pixel_clock_khz",
                value: t.pixel_clock_khz,
                maximum: if type_one { 0x0A00_0000 } else { 0x0100_0000 },
            },
        );
    }
    let h_active = check_field(tag, index, "h_active", t.h_active, 65536)?;
    let h_blank = check_field(tag, index, "h_blank", t.h_blank, 65536)?;
    let h_offset = check_field(tag, index, "h_sync_offset", t.h_sync_offset, 32768)?;
    let h_width = check_field(tag, index, "h_sync_width", t.h_sync_width, 65536)?;
    let v_active = check_field(tag, index, "v_active", t.v_active, 65536)?;
    let v_blank = check_field(tag, index, "v_blank", t.v_blank, 65536)?;
    let v_offset = check_field(tag, index, "v_sync_offset", t.v_sync_offset, 32768)?;
    let v_width = check_field(tag, index, "v_sync_width", t.v_sync_width, 65536)?;
    let flag = if block_revision < 2 { t.preferred } else { t.ycbcr420 };
    let byte3: u8 = t.aspect_ratio.nibble() + (if t.interlaced { 16u8 } else { 0u8 }) + t.stereo_3d.bits() * 32 + (if flag {
        128u8
    } else {
        0u8
    });
    let mut bytes: Vec<u8> = Vec::new();
    push_le24(&mut bytes, pixel_unit - 1);
    bytes.push(byte3);
    push_le16(&mut bytes, h_active);
    push_le16(&mut bytes, h_blank);
    push_le16(&mut bytes, h_offset + if t.h_sync_positive { 32768u16 } else { 0u16 });
    push_le16(&mut bytes, h_width);
    push_le16(&mut bytes, v_active);
    push_le16(&mut bytes, v_blank);
    push_le16(&mut bytes, v_offset + if t.v_sync_positive { 32768u16 } else { 0u16 });
    push_le16(&mut bytes, v_width);
    assert(bytes@ =~= spec_did_timing_bytes(*t, type_one, block_revision));
    Ok(bytes)
}

proof fn lemma_first_did_timing_error_keeps(t: Seq<DisplayIdDetailedTiming>, n: int, m: int, type_one: bool, tag: u8)
    requires
        0 <= n <= m,
        spec_first_did_timing_error(t, n, type_one, tag) is Some,
    ensures
        spec_first_did_timing_error(t, m, type_one, tag) == spec_first_did_timing_error(t, n, type_one, tag),
    decreases m - n,
{
    if m > n {
        lemma_first_did_timing_error_keeps(t, n, m - 1, type_one, tag);
    }
}

fn encode_timings(tag: u8, timings: &Vec<DisplayIdDetailedTiming>) -> (res: Result<(u8, Vec<u8>), ExtensionWriteError>)
    ensures
        res matches Ok(r) ==> spec_encode_timings(tag, timings@) == Ok::<(u8, Seq<u8>), ExtensionWriteError>((r.0, r.1@)),
        res matches Err(e) ==> spec_encode_timings(tag, timings@) == Err::<(u8, Seq<u8>), ExtensionWriteError>(e),
{
    if timings.len() == 0 {
        return Err(ExtensionWriteError::DisplayIdPayloadTooShort { tag, length: 0, minimum: 20 });
    }
    let type_one = tag == 0x03;
    let length = match timings.len().checked_mul(20) {
        Some(l) => l,
        None => {
            return Err(ExtensionWriteError::DisplayIdPayloadTooLong { length: usize::MAX, maximum: 121 });
        },
    };
    check_display_id_payload_length(length)?;
    let mut any420 = false;
    let mut j: usize = 0;
    while j < timings.len()
        invariant
            j <= timings@.len(),
            any420 == (exists|i: int| 0 <= i < j && (#[trigger] timings@[i]).ycbcr420),
        decreases timings@.len() - j,
    {
        if timings[j].ycbcr420 {
            any420 = true;
        }
        j = j + 1;
    }
    let block_revision: u8 = if any420 { 2 } else { 0 };
    let mut payload: Vec<u8> = Vec::new();
    let mut index: usize = 0;
    while index < timings.len()
        invariant
            index <= timings@.len() <= 6,
            type_one == (tag == 0x03),
            timings@.len() > 0,
            spec_first_did_timing_error(timings@, index as int, type_one, tag) is None,
            payload@ == spec_did_timings_bytes(timings@.take(index as int), type_one, block_revision),
        decreases timings@.len() - index,
    {
        let ghost before = payload@;
        let bytes = match encode_did_timing(&timings[index], index, type_one, tag, block_revision) {
            Ok(b) => b,
            Err(e) => {
                proof {
                    lemma_first_did_timing_error_keeps(timings@, index + 1, timings@.len() as int, type_one, tag);
                }
                return Err(e);
            },
        };
        push_bytes(&mut payload, bytes.as_slice());
        assert(timings@.take(index + 1).drop_last() =~= timings@.take(index as int));
        index = index + 1;
    }
    assert(timings@.take(index as int) =~= timings@);
    Ok((block_revision, payload))
}

/// Two views of the same CTA data block are written back identically.
proof fn lemma_cta_view_encoding_determined(tag: u8, p: Seq<u8>, v1: CtaDataBlockView, v2: CtaDataBlockView)
    requires
        spec_cta_view_matches(tag, p, v1),
        spec_cta_view_matches(tag, p, v2),
    ensures
        spec_to_data_block(v1) == spec_to_data_block(v2),
{
}

proof fn lemma_embedded_err_keeps(bv: Seq<(u8, Seq<u8>)>, n: int, m: int)
    requires
        0 <= n <= m,
        spec_cta_embedded_bytes(bv, n) is Err,
    ensures
        spec_cta_embedded_bytes(bv, m) == spec_cta_embedded_bytes(bv, n),
    decreases m - n,
{
    if m > n {
        lemma_embedded_err_keeps(bv, n, m - 1);
    }
}

fn encode_cta_embedded(blocks: &Vec<CtaDataBlock>) -> (res: Result<Vec<u8>, ExtensionWriteError>)
    ensures
        res matches Ok(p) ==> spec_encode_cta_embedded(super::cta::spec_cta_views(blocks@)) == Ok::<
            Seq<u8>,
            ExtensionWriteError,
        >(p@),
        res matches Err(e) ==> spec_encode_cta_embedded(super::cta::spec_cta_views(blocks@)) == Err::<
            Seq<u8>,
            ExtensionWriteError,
        >(e),
{
    let ghost bv = super::cta::spec_cta_views(blocks@);
    let mut payload: Vec<u8> = Vec::new();
    let mut i: usize = 0;
    while i < blocks.len()
        invariant
            i <= blocks@.len(),
            bv == super::cta::spec_cta_views(blocks@),
            spec_cta_embedded_bytes(bv, i as int) == Ok::<Seq<u8>, ExtensionWriteError>(payload@),
        decreases blocks@.len() - i,
    {
        let block = &blocks[i];
        assert(bv[i as int] == (block.tag, block.payload@));
        let typed = match block.view() {
            Ok(v) => v,
            Err(source) => {
                let e = ExtensionWriteError::InvalidDisplayIdEmbeddedCta { source };
                proof {
                    lemma_embedded_err_keeps(bv, i + 1, bv.len() as int);
                }
                return Err(e);
            },
        };
        proof {
            let chosen = choose|v: CtaDataBlockView| spec_cta_view_matches(block.tag, block.payload@, v);
            lemma_cta_view_encoding_determined(block.tag, block.payload@, typed, chosen);
        }
        let encoded_block = match typed.to_data_block() {
            Ok(b) => b,
            Err(e) => {
                proof {
                    lemma_embedded_err_keeps(bv, i + 1, bv.len() as int);
                }
                return Err(e);
            },
        };
        let bytes = match encoded_block.encode() {
            Ok(b) => b,
            Err(e) => {
                return Err(e);
            },
        };
        push_bytes(&mut payload, bytes.as_slice());
        i = i + 1;
    }
    check_display_id_payload_length(payload.len())?;
    Ok(payload)
}

impl DisplayIdDataBlockView {
    /// Encode this typed view using its canonical DisplayID data-block tag:
    /// the 1.x tag for product and parameter views, Type I timings when
    /// every pixel clock is a whole number of 10 kHz units (Type VII
    /// otherwise), and the 2.x tag for the other known views.
    pub fn to_data_block(&self) -> (res: Result<DisplayIdDataBlock, ExtensionWriteError>)
        ensures
            res matches Ok(b) ==> b.tag == spec_canonical_tag(*self) && spec_did_encode(*self, b.tag) == Ok::<
                (u8, Seq<u8>),
                ExtensionWriteError,
            >((b.revision, b.payload@)),
            res matches Err(e) ==> spec_did_encode(*self, spec_canonical_tag(*self)) == Err::<
                (u8, Seq<u8>),
                ExtensionWriteError,
            >(e),
    {
        let tag: u8 = match self {
            Self::ProductIdentification { .. } => 0x00,
            Self::DisplayParameters { .. } => 0x01,
            Self::DetailedTiming { timings } => {
                if timings.len() == 0 {
                    0x22
                } else {
                    let mut all = true;
                    let mut i: usize = 0;
                    while i < timings.len()
                        invariant
                            i <= timings@.len(),
                            all == (forall|k: int| 0 <= k < i ==> (#[trigger] timings@[k]).pixel_clock_khz % 10 == 0),
                        decreases timings@.len() - i,
                    {
                        if timings[i].pixel_clock_khz % 10 != 0 {
                            all = false;
                        }
                        i = i + 1;
                    }
                    if all {
                        0x03
                    } else {
                        0x22
                    }
                }
            },
            Self::InterfaceFeatures { .. } => 0x26,
            Self::FormulaTiming { .. } => 0x24,
            Self::EnumeratedTiming { .. } => 0x23,
            Self::DynamicVideoTimingRange { .. } => 0x25,
            Self::VideoTimingRange1x { .. } => 0x09,
            Self::TiledDisplayTopology { .. } => 0x28,
            Self::Cta { .. } => 0x81,
            Self::Unknown { tag, .. } => *tag,
        };
        self.to_data_block_with_tag(tag)
    }

    /// Encode this typed view while explicitly selecting its DisplayID tag;
    /// a view can only be written under the tags of its own kind.
    pub fn to_data_block_with_tag(&self, tag: u8) -> (res: Result<DisplayIdDataBlock, ExtensionWriteError>)
        ensures
            res matches Ok(b) ==> b.tag == tag && spec_did_encode(*self, tag) == Ok::<(u8, Seq<u8>), ExtensionWriteError>(
                (b.revision, b.payload@),
            ),
            res matches Err(e) ==> spec_did_encode(*self, tag) == Err::<(u8, Seq<u8>), ExtensionWriteError>(e),
    {
        match self {
            Self::ProductIdentification { product } if tag == 0x00 || tag == 0x20 => {
                let payload = encode_product(product)?;
                Ok(DisplayIdDataBlock { tag, revision: 0, payload })
            },
            Self::DisplayParameters { parameters } if tag == 0x01 || tag == 0x21 => {
                let payload = encode_params(tag, parameters)?;
                Ok(DisplayIdDataBlock { tag, revision: 0, payload })
            },
            Self::DetailedTiming { timings } if tag == 0x03 || tag == 0x22 => {
                let (revision, payload) = encode_timings(tag, timings)?;
                Ok(DisplayIdDataBlock { tag, revision, payload })
            },
            Self::Cta { data_blocks, .. } if tag == 0x81 => {
                let payload = encode_cta_embedded(data_blocks)?;
                Ok(DisplayIdDataBlock { tag, revision: 0, payload })
            },
            Self::Unknown { tag: original, payload } if *original == tag => {
                check_display_id_payload_length(payload.len())?;
                Ok(DisplayIdDataBlock { tag, revision: 0, payload: copy_all(payload) })
            },
            Self::InterfaceFeatures { features } if tag == 0x0F || tag == 0x26 => {
                let payload = encode_features(features)?;
                Ok(DisplayIdDataBlock { tag, revision: 0, payload })
            },
            Self::TiledDisplayTopology { topology } if tag == 0x12 || tag == 0x28 => {
                let payload = encode_tiled(tag, topology)?;
                Ok(DisplayIdDataBlock { tag, revision: 0, payload })
            },
            Self::EnumeratedTiming { code_type, code_size, codes } if tag == 0x06 || tag == 0x23 => {
                let (revision, payload) = encode_enumerated(*code_type, *code_size, codes)?;
                Ok(DisplayIdDataBlock { tag, revision, payload })
            },
            Self::FormulaTiming { timings } if tag == 0x24 => {
                let payload = encode_formula(tag, timings)?;
                Ok(DisplayIdDataBlock { tag, revision: 0, payload })
            },
            Self::DynamicVideoTimingRange { range } if tag == 0x25 => {
                let payload = encode_dynamic(tag, range)?;
                Ok(DisplayIdDataBlock { tag, revision: 0, payload })
            },
            Self::VideoTimingRange1x { range } if tag == 0x09 => {
                let payload = encode_range1x(tag, range)?;
                Ok(DisplayIdDataBlock { tag, revision: 0, payload })
            },
            _ => Err(ExtensionWriteError::InvalidDisplayIdTag { tag }),
        }
    }
}

// ---------------------------------------------------------------------------
// Typed section readers
// ---------------------------------------------------------------------------

/// The first data block among the first `n` without a typed view.
pub open spec fn spec_first_view_error(bv: Seq<(u8, u8, Seq<u8>)>, n: int) -> Option<ExtensionError>
    decreases n,
{
    if n <= 0 {
        None
    } else {
        match spec_first_view_error(bv, n - 1) {
            Some(e) => Some(e),
            None => spec_did_view_error(bv[n - 1].0, bv[n - 1].1, bv[n - 1].2),
        }
    }
}

/// Whether `tag` is one of the tags of view kind `kind`: 0 dynamic
/// video timing range, 1 video timing range 1.x, 2 interface features,
/// 3 product identification, 4 tiled topology.
pub open spec fn spec_kind_tag(kind: int, tag: u8) -> bool {
    if kind == 0 {
        tag == 0x25
    } else if kind == 1 {
        tag == 0x09
    } else if kind == 2 {
        tag == 0x0F || tag == 0x26
    } else if kind == 3 {
        tag == 0x00 || tag == 0x20
    } else {
        tag == 0x12 || tag == 0x28
    }
}

/// The blocks among the first `n` with a tag of view kind `kind`.
pub open spec fn spec_select(bv: Seq<(u8, u8, Seq<u8>)>, n: int, kind: int) -> Seq<(u8, u8, Seq<u8>)>
    decreases n,
{
    if n <= 0 {
        Seq::empty()
    } else {
        spec_select(bv, n - 1, kind) + if spec_kind_tag(kind, bv[n - 1].0) {
            seq![bv[n - 1]]
        } else {
            Seq::empty()
        }
    }
}

/// The detailed timings of the first `n` blocks, in order.
pub open spec fn spec_collect_timings(bv: Seq<(u8, u8, Seq<u8>)>, n: int) -> Seq<DisplayIdDetailedTiming>
    decreases n,
{
    if n <= 0 {
        Seq::empty()
    } else {
        spec_collect_timings(bv, n - 1) + if bv[n - 1].0 == 0x03 || bv[n - 1].0 == 0x22 {
            spec_did_timings(bv[n - 1].2, bv[n - 1].0 == 0x03, bv[n - 1].1 as int % 8)
        } else {
            Seq::empty()
        }
    }
}

/// The formula timings of the first `n` blocks, in order.
pub open spec fn spec_collect_formulas(bv: Seq<(u8, u8, Seq<u8>)>, n: int) -> Seq<DisplayIdFormulaTiming>
    decreases n,
{
    if n <= 0 {
        Seq::empty()
    } else {
        spec_collect_formulas(bv, n - 1) + if bv[n - 1].0 == 0x24 {
            spec_formula_timings(bv[n - 1].2)
        } else {
            Seq::empty()
        }
    }
}

/// The enumerated timing codes of one block, tagged with its code type.
pub open spec fn spec_enumerated_entries(revision: u8, p: Seq<u8>) -> Seq<DisplayIdEnumeratedTiming> {
    let codes = spec_enumerated_codes(p, (revision / 8) % 2 == 1);
    Seq::new(codes.len(), |k: int| DisplayIdEnumeratedTiming { code_type: revision / 64, code: codes[k] })
}

/// The enumerated timing codes of the first `n` blocks, in order.
pub open spec fn spec_collect_enumerated(bv: Seq<(u8, u8, Seq<u8>)>, n: int) -> Seq<DisplayIdEnumeratedTiming>
    decreases n,
{
    if n <= 0 {
        Seq::empty()
    } else {
        spec_collect_enumerated(bv, n - 1) + if bv[n - 1].0 == 0x06 || bv[n - 1].0 == 0x23 {
            spec_enumerated_entries(bv[n - 1].1, bv[n - 1].2)
        } else {
            Seq::empty()
        }
    }
}

proof fn lemma_first_view_error_keeps(bv: Seq<(u8, u8, Seq<u8>)>, n: int, m: int)
    requires
        0 <= n <= m,
        spec_first_view_error(bv, n) is Some,
    ensures
        spec_first_view_error(bv, m) == spec_first_view_error(bv, n),
    decreases m - n,
{
    if m > n {
        lemma_first_view_error_keeps(bv, n, m - 1);
    }
}

impl EdidBlock {
    /// Read detailed timings from this DisplayID extension block, from every
    /// Type I and Type VII data block in order. Every data block must have a
    /// typed view.
    pub fn display_id_detailed_timings(&self) -> (res: Result<Vec<DisplayIdDetailedTiming>, ExtensionError>)
        ensures
            spec_did_blocks(self.raw@) matches Err(e) ==> res == Err::<Vec<DisplayIdDetailedTiming>, ExtensionError>(e),
            spec_did_blocks(self.raw@) matches Ok(bv) ==> (match spec_first_view_error(bv, bv.len() as int) {
                Some(e) => res == Err::<Vec<DisplayIdDetailedTiming>, ExtensionError>(e),
                None => res matches Ok(v) && v@ == spec_collect_timings(bv, bv.len() as int),
            }),
    {
        let blocks = self.display_id_data_blocks()?;
        let ghost bv = spec_did_views(blocks@);
        let mut timings: Vec<DisplayIdDetailedTiming> = Vec::new();
        let mut i: usize = 0;
        while i < blocks.len()
            invariant
                i <= blocks@.len(),
                bv == spec_did_views(blocks@),
                spec_did_blocks(self.raw@) == Ok::<Seq<(u8, u8, Seq<u8>)>, ExtensionError>(bv),
                spec_first_view_error(bv, i as int) is None,
                timings@ == spec_collect_timings(bv, i as int),
            decreases blocks@.len() - i,
        {
            let block = &blocks[i];
            assert(bv[i as int] == (block.tag, block.revision, block.payload@));
            let v = match block.view() {
                Ok(v) => v,
                Err(e) => {
                    proof {
                        lemma_first_view_error_keeps(bv, i + 1, bv.len() as int);
                    }
                    return Err(e);
                },
            };
            let ghost before = timings@;
            if let DisplayIdDataBlockView::DetailedTiming { timings: t } = v {
                let mut j: usize = 0;
                while j < t.len()
                    invariant
                        j <= t@.len(),
                        timings@ == before + t@.take(j as int),
                    decreases t@.len() - j,
                {
                    timings.push(t[j]);
                    assert(t@.take(j + 1) =~= t@.take(j as int).push(t@[j as int]));
                    j = j + 1;
                }
                assert(t@.take(j as int) =~= t@);
            } else {
                assert(timings@ =~= before + Seq::<DisplayIdDetailedTiming>::empty());
            }
            i = i + 1;
        }
        Ok(timings)
    }
}

impl EdidBlock {
    /// Read all Dynamic Video Timing Range Limits from this DisplayID extension block.
    pub fn display_id_dynamic_video_timing_ranges(&self) -> (res: Result<Vec<DisplayIdDynamicVideoTimingRange>, ExtensionError>)
        ensures
            spec_did_blocks(self.raw@) matches Err(e) ==> res == Err::<Vec<DisplayIdDynamicVideoTimingRange>, ExtensionError>(e),
            spec_did_blocks(self.raw@) matches Ok(bv) ==> (match spec_first_view_error(bv, bv.len() as int) {
                Some(e) => res == Err::<Vec<DisplayIdDynamicVideoTimingRange>, ExtensionError>(e),
                None => res matches Ok(v) && v@.len() == spec_select(bv, bv.len() as int, 0).len() && forall|k: int|
                    0 <= k < v@.len() ==> spec_dynamic_of(spec_select(bv, bv.len() as int, 0)[k].2, #[trigger] v@[k]),
            }),
    {
        let blocks = self.display_id_data_blocks()?;
        let ghost bv = spec_did_views(blocks@);
        let mut out: Vec<DisplayIdDynamicVideoTimingRange> = Vec::new();
        let mut i: usize = 0;
        while i < blocks.len()
            invariant
                i <= blocks@.len(),
                bv == spec_did_views(blocks@),
                spec_did_blocks(self.raw@) == Ok::<Seq<(u8, u8, Seq<u8>)>, ExtensionError>(bv),
                spec_first_view_error(bv, i as int) is None,
                out@.len() == spec_select(bv, i as int, 0).len(),
                forall|k: int| 0 <= k < out@.len() ==> spec_dynamic_of(spec_select(bv, i as int, 0)[k].2, #[trigger] out@[k]),
            decreases blocks@.len() - i,
        {
            let block = &blocks[i];
            assert(bv[i as int] == (block.tag, block.revision, block.payload@));
            let v = match block.view() {
                Ok(v) => v,
                Err(e) => {
                    proof {
                        lemma_first_view_error_keeps(bv, i + 1, bv.len() as int);
                    }
                    return Err(e);
                },
            };
            let ghost before = spec_select(bv, i as int, 0);
            assert(spec_select(bv, i + 1, 0) == before + if spec_kind_tag(0, bv[i as int].0) {
                seq![bv[i as int]]
            } else {
                Seq::empty()
            });
            if let DisplayIdDataBlockView::DynamicVideoTimingRange { range: x } = v {
                out.push(x);
            } else {
                assert(before + Seq::<(u8, u8, Seq<u8>)>::empty() =~= before);
            }
            i = i + 1;
        }
        Ok(out)
    }

    /// Read all 1.x Video Timing Range Limits from this DisplayID extension block.
    pub fn display_id_video_timing_range_limits(&self) -> (res: Result<Vec<DisplayIdVideoTimingRangeLimits>, ExtensionError>)
        ensures
            spec_did_blocks(self.raw@) matches Err(e) ==> res == Err::<Vec<DisplayIdVideoTimingRangeLimits>, ExtensionError>(e),
            spec_did_blocks(self.raw@) matches Ok(bv) ==> (match spec_first_view_error(bv, bv.len() as int) {
                Some(e) => res == Err::<Vec<DisplayIdVideoTimingRangeLimits>, ExtensionError>(e),
                None => res matches Ok(v) && v@.len() == spec_select(bv, bv.len() as int, 1).len() && forall|k: int|
                    0 <= k < v@.len() ==> spec_range1x_of(spec_select(bv, bv.len() as int, 1)[k].2, #[trigger] v@[k]),
            }),
    {
        let blocks = self.display_id_data_blocks()?;
        let ghost bv = spec_did_views(blocks@);
        let mut out: Vec<DisplayIdVideoTimingRangeLimits> = Vec::new();
        let mut i: usize = 0;
        while i < blocks.len()
            invariant
                i <= blocks@.len(),
                bv == spec_did_views(blocks@),
                spec_did_blocks(self.raw@) == Ok::<Seq<(u8, u8, Seq<u8>)>, ExtensionError>(bv),
                spec_first_view_error(bv, i as int) is None,
                out@.len() == spec_select(bv, i as int, 1).len(),
                forall|k: int| 0 <= k < out@.len() ==> spec_range1x_of(spec_select(bv, i as int, 1)[k].2, #[trigger] out@[k]),
            decreases blocks@.len() - i,
        {
            let block = &blocks[i];
            assert(bv[i as int] == (block.tag, block.revision, block.payload@));
            let v = match block.view() {
                Ok(v) => v,
                Err(e) => {
                    proof {
                        lemma_first_view_error_keeps(bv, i + 1, bv.len() as int);
                    }
                    return Err(e);
                },
            };
            let ghost before = spec_select(bv, i as int, 1);
            assert(spec_select(bv, i + 1, 1) == before + if spec_kind_tag(1, bv[i as int].0) {
                seq![bv[i as int]]
            } else {
                Seq::empty()
            });
            if let DisplayIdDataBlockView::VideoTimingRange1x { range: x } = v {
                out.push(x);
            } else {
                assert(before + Seq::<(u8, u8, Seq<u8>)>::empty() =~= before);
            }
            i = i + 1;
        }
        Ok(out)
    }

    /// Read all Display Interface Features from this DisplayID extension block.
    pub fn display_id_interface_features(&self) -> (res: Result<Vec<DisplayIdInterfaceFeatures>, ExtensionError>)
        ensures
            spec_did_blocks(self.raw@) matches Err(e) ==> res == Err::<Vec<DisplayIdInterfaceFeatures>, ExtensionError>(e),
            spec_did_blocks(self.raw@) matches Ok(bv) ==> (match spec_first_view_error(bv, bv.len() as int) {
                Some(e) => res == Err::<Vec<DisplayIdInterfaceFeatures>, ExtensionError>(e),
                None => res matches Ok(v) && v@.len() == spec_select(bv, bv.len() as int, 2).len() && forall|k: int|
                    0 <= k < v@.len() ==> spec_features_of(spec_select(bv, bv.len() as int, 2)[k].2, #[trigger] v@[k]),
            }),
    {
        let blocks = self.display_id_data_blocks()?;
        let ghost bv = spec_did_views(blocks@);
        let mut out: Vec<DisplayIdInterfaceFeatures> = Vec::new();
        let mut i: usize = 0;
        while i < blocks.len()
            invariant
                i <= blocks@.len(),
                bv == spec_did_views(blocks@),
                spec_did_blocks(self.raw@) == Ok::<Seq<(u8, u8, Seq<u8>)>, ExtensionError>(bv),
                spec_first_view_error(bv, i as int) is None,
                out@.len() == spec_select(bv, i as int, 2).len(),
                forall|k: int| 0 <= k < out@.len() ==> spec_features_of(spec_select(bv, i as int, 2)[k].2, #[trigger] out@[k]),
            decreases blocks@.len() - i,
        {
            let block = &blocks[i];
            assert(bv[i as int] == (block.tag, block.revision, block.payload@));
            let v = match block.view() {
                Ok(v) => v,
                Err(e) => {
                    proof {
                        lemma_first_view_error_keeps(bv, i + 1, bv.len() as int);
                    }
                    return Err(e);
                },
            };
            let ghost before = spec_select(bv, i as int, 2);
            assert(spec_select(bv, i + 1, 2) == before + if spec_kind_tag(2, bv[i as int].0) {
                seq![bv[i as int]]
            } else {
                Seq::empty()
            });
            if let DisplayIdDataBlockView::InterfaceFeatures { features: x } = v {
                out.push(x);
            } else {
                assert(before + Seq::<(u8, u8, Seq<u8>)>::empty() =~= before);
            }
            i = i + 1;
        }
        Ok(out)
    }

    /// Read all Product Identification blocks from this DisplayID extension block.
    pub fn display_id_product_identifications(&self) -> (res: Result<Vec<DisplayIdProductIdentification>, ExtensionError>)
        ensures
            spec_did_blocks(self.raw@) matches Err(e) ==> res == Err::<Vec<DisplayIdProductIdentification>, ExtensionError>(e),
            spec_did_blocks(self.raw@) matches Ok(bv) ==> (match spec_first_view_error(bv, bv.len() as int) {
                Some(e) => res == Err::<Vec<DisplayIdProductIdentification>, ExtensionError>(e),
                None => res matches Ok(v) && v@.len() == spec_select(bv, bv.len() as int, 3).len() && forall|k: int|
                    0 <= k < v@.len() ==> spec_product_of(spec_select(bv, bv.len() as int, 3)[k].0, spec_select(bv, bv.len() as int, 3)[k].2, #[trigger] v@[k]),
            }),
    {
        let blocks = self.display_id_data_blocks()?;
        let ghost bv = spec_did_views(blocks@);
        let mut out: Vec<DisplayIdProductIdentification> = Vec::new();
        let mut i: usize = 0;
        while i < blocks.len()
            invariant
                i <= blocks@.len(),
                bv == spec_did_views(blocks@),
                spec_did_blocks(self.raw@) == Ok::<Seq<(u8, u8, Seq<u8>)>, ExtensionError>(bv),
                spec_first_view_error(bv, i as int) is None,
                out@.len() == spec_select(bv, i as int, 3).len(),
                forall|k: int| 0 <= k < out@.len() ==> spec_product_of(spec_select(bv, i as int, 3)[k].0, spec_select(bv, i as int, 3)[k].2, #[trigger] out@[k]),
            decreases blocks@.len() - i,
        {
            let block = &blocks[i];
            assert(bv[i as int] == (block.tag, block.revision, block.payload@));
            let v = match block.view() {
                Ok(v) => v,
                Err(e) => {
                    proof {
                        lemma_first_view_error_keeps(bv, i + 1, bv.len() as int);
                    }
                    return Err(e);
                },
            };
            let ghost before = spec_select(bv, i as int, 3);
            assert(spec_select(bv, i + 1, 3) == before + if spec_kind_tag(3, bv[i as int].0) {
                seq![bv[i as int]]
            } else {
                Seq::empty()
            });
            if let DisplayIdDataBlockView::ProductIdentification { product: x } = v {
                out.push(x);
            } else {
                assert(before + Seq::<(u8, u8, Seq<u8>)>::empty() =~= before);
            }
            i = i + 1;
        }
        Ok(out)
    }

    /// Read all Tiled Display Topology blocks from this DisplayID extension block.
    pub fn display_id_tiled_topologies(&self) -> (res: Result<Vec<DisplayIdTiledDisplayTopology>, ExtensionError>)
        ensures
            spec_did_blocks(self.raw@) matches Err(e) ==> res == Err::<Vec<DisplayIdTiledDisplayTopology>, ExtensionError>(e),
            spec_did_blocks(self.raw@) matches Ok(bv) ==> (match spec_first_view_error(bv, bv.len() as int) {
                Some(e) => res == Err::<Vec<DisplayIdTiledDisplayTopology>, ExtensionError>(e),
                None => res matches Ok(v) && v@.len() == spec_select(bv, bv.len() as int, 4).len() && forall|k: int|
                    0 <= k < v@.len() ==> spec_tiled_of(spec_select(bv, bv.len() as int, 4)[k].0, spec_select(bv, bv.len() as int, 4)[k].2, #[trigger] v@[k]),
            }),
    {
        let blocks = self.display_id_data_blocks()?;
        let ghost bv = spec_did_views(blocks@);
        let mut out: Vec<DisplayIdTiledDisplayTopology> = Vec::new();
        let mut i: usize = 0;
        while i < blocks.len()
            invariant
                i <= blocks@.len(),
                bv == spec_did_views(blocks@),
                spec_did_blocks(self.raw@) == Ok::<Seq<(u8, u8, Seq<u8>)>, ExtensionError>(bv),
                spec_first_view_error(bv, i as int) is None,
                out@.len() == spec_select(bv, i as int, 4).len(),
                forall|k: int| 0 <= k < out@.len() ==> spec_tiled_of(spec_select(bv, i as int, 4)[k].0, spec_select(bv, i as int, 4)[k].2, #[trigger] out@[k]),
            decreases blocks@.len() - i,
        {
            let block = &blocks[i];
            assert(bv[i as int] == (block.tag, block.revision, block.payload@));
            let v = match block.view() {
                Ok(v) => v,
                Err(e) => {
                    proof {
                        lemma_first_view_error_keeps(bv, i + 1, bv.len() as int);
                    }
                    return Err(e);
                },
            };
            let ghost before = spec_select(bv, i as int, 4);
            assert(spec_select(bv, i + 1, 4) == before + if spec_kind_tag(4, bv[i as int].0) {
                seq![bv[i as int]]
            } else {
                Seq::empty()
            });
            if let DisplayIdDataBlockView::TiledDisplayTopology { topology: x } = v {
                out.push(x);
            } else {
                assert(before + Seq::<(u8, u8, Seq<u8>)>::empty() =~= before);
            }
            i = i + 1;
        }
        Ok(out)
    }
}

impl EdidBlock {
    /// Read all Type IX formula-based timings from this DisplayID extension
    /// block, in order.
    pub fn display_id_formula_timings(&self) -> (res: Result<Vec<DisplayIdFormulaTiming>, ExtensionError>)
        ensures
            spec_did_blocks(self.raw@) matches Err(e) ==> res == Err::<Vec<DisplayIdFormulaTiming>, ExtensionError>(e),
            spec_did_blocks(self.raw@) matches Ok(bv) ==> (match spec_first_view_error(bv, bv.len() as int) {
                Some(e) => res == Err::<Vec<DisplayIdFormulaTiming>, ExtensionError>(e),
                None => res matches Ok(v) && v@ == spec_collect_formulas(bv, bv.len() as int),
            }),
    {
        let blocks = self.display_id_data_blocks()?;
        let ghost bv = spec_did_views(blocks@);
        let mut out: Vec<DisplayIdFormulaTiming> = Vec::new();
        let mut i: usize = 0;
        while i < blocks.len()
            invariant
                i <= blocks@.len(),
                bv == spec_did_views(blocks@),
                spec_did_blocks(self.raw@) == Ok::<Seq<(u8, u8, Seq<u8>)>, ExtensionError>(bv),
                spec_first_view_error(bv, i as int) is None,
                out@ == spec_collect_formulas(bv, i as int),
            decreases blocks@.len() - i,
        {
            let block = &blocks[i];
            assert(bv[i as int] == (block.tag, block.revision, block.payload@));
            let v = match block.view() {
                Ok(v) => v,
                Err(e) => {
                    proof {
                        lemma_first_view_error_keeps(bv, i + 1, bv.len() as int);
                    }
                    return Err(e);
                },
            };
            let ghost before = out@;
            if let DisplayIdDataBlockView::FormulaTiming { timings: t } = v {
                let mut j: usize = 0;
                while j < t.len()
                    invariant
                        j <= t@.len(),
                        out@ == before + t@.take(j as int),
                    decreases t@.len() - j,
                {
                    out.push(t[j]);
                    assert(t@.take(j + 1) =~= t@.take(j as int).push(t@[j as int]));
                    j = j + 1;
                }
                assert(t@.take(j as int) =~= t@);
            } else {
                assert(out@ =~= before + Seq::<DisplayIdFormulaTiming>::empty());
            }
            i = i + 1;
        }
        Ok(out)
    }

    /// Read all Type VIII enumerated timing codes from this DisplayID
    /// extension block, in order, each with its block's code type.
    pub fn display_id_enumerated_timings(&self) -> (res: Result<Vec<DisplayIdEnumeratedTiming>, ExtensionError>)
        ensures
            spec_did_blocks(self.raw@) matches Err(e) ==> res == Err::<Vec<DisplayIdEnumeratedTiming>, ExtensionError>(e),
            spec_did_blocks(self.raw@) matches Ok(bv) ==> (match spec_first_view_error(bv, bv.len() as int) {
                Some(e) => res == Err::<Vec<DisplayIdEnumeratedTiming>, ExtensionError>(e),
                None => res matches Ok(v) && v@ == spec_collect_enumerated(bv, bv.len() as int),
            }),
    {
        let blocks = self.display_id_data_blocks()?;
        let ghost bv = spec_did_views(blocks@);
        let mut out: Vec<DisplayIdEnumeratedTiming> = Vec::new();
        let mut i: usize = 0;
        while i < blocks.len()
            invariant
                i <= blocks@.len(),
                bv == spec_did_views(blocks@),
                spec_did_blocks(self.raw@) == Ok::<Seq<(u8, u8, Seq<u8>)>, ExtensionError>(bv),
                spec_first_view_error(bv, i as int) is None,
                out@ == spec_collect_enumerated(bv, i as int),
            decreases blocks@.len() - i,
        {
            let block = &blocks[i];
            assert(bv[i as int] == (block.tag, block.revision, block.payload@));
            let v = match block.view() {
                Ok(v) => v,
                Err(e) => {
                    proof {
                        lemma_first_view_error_keeps(bv, i + 1, bv.len() as int);
                    }
                    return Err(e);
                },
            };
            let ghost before = out@;
            if let DisplayIdDataBlockView::EnumeratedTiming { code_type, codes, .. } = v {
                let ghost entries = spec_enumerated_entries(block.revision, block.payload@);
                let mut j: usize = 0;
                while j < codes.len()
                    invariant
                        j <= codes@.len(),
                        entries.len() == codes@.len(),
                        forall|k: int| 0 <= k < codes@.len() ==> (#[trigger] entries[k]) == (DisplayIdEnumeratedTiming {
                            code_type,
                            code: codes@[k],
                        }),
                        out@ == before + entries.take(j as int),
                    decreases codes@.len() - j,
                {
                    out.push(DisplayIdEnumeratedTiming { code_type, code: codes[j] });
                    assert(entries.take(j + 1) =~= entries.take(j as int).push(entries[j as int]));
                    j = j + 1;
                }
                assert(entries.take(j as int) =~= entries);
            } else {
                assert(out@ =~= before + Seq::<DisplayIdEnumeratedTiming>::empty());
            }
            i = i + 1;
        }
        Ok(out)
    }
}

} // verus!
