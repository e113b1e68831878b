//! CTA-861 extension data blocks and their typed views.
use vstd::prelude::*;
use super::{ExtensionError, ExtensionWriteError};

verus! {

/// Parsed CTA-861 extension block header and capability flags (Bytes 1-3).
#[derive(Clone, Copy, Debug, PartialEq, Eq)]
pub struct CtaHeader {
    /// CTA-861 extension revision byte (typically 3).
    pub revision: u8,
    /// Byte offset where 18-byte Detailed Timing Descriptors start, or 0 if no DTDs.
    pub dtd_offset: u8,
    /// Total number of Native DTDs in this block (from byte 3 bits 0..3).
    pub native_dtd_count: u8,
    /// IT video formats are underscanned by default (byte 3 bit 7).
    pub underscan: bool,
    /// Basic Audio is supported (byte 3 bit 6).
    pub basic_audio: bool,
    /// YCbCr 4:4:4 is supported (byte 3 bit 5).
    pub ycbcr_444: bool,
    /// YCbCr 4:2:2 is supported (byte 3 bit 4).
    pub ycbcr_422: bool,
}

/// A CTA Speaker Allocation Data Block (Tag 4).
#[derive(Clone, Copy, Debug, PartialEq, Eq)]
pub struct CtaSpeakerAllocation {
    /// Raw 3-byte speaker allocation payload bitmask.
    pub raw_mask: [u8; 3],
}

impl CtaSpeakerAllocation {
    /// Front Left / Front Right (FL/FR, byte 0 bit 0).
    pub fn front_left_right(self) -> (b: bool)
        ensures
            b == (self.raw_mask[0] % 2 == 1),
    {
        self.raw_mask[0] % 2 == 1
    }

    /// Low Frequency Effects / Subwoofer (LFE, byte 0 bit 1).
    pub fn lfe(self) -> (b: bool)
        ensures
            b == ((self.raw_mask[0] / 2) % 2 == 1),
    {
        (self.raw_mask[0] / 2) % 2 == 1
    }

    /// Front Center (FC, byte 0 bit 2).
    pub fn front_center(self) -> (b: bool)
        ensures
            b == ((self.raw_mask[0] / 4) % 2 == 1),
    {
        (self.raw_mask[0] / 4) % 2 == 1
    }

    /// Rear Left / Rear Right (RL/RR, byte 0 bit 3).
    pub fn rear_left_right(self) -> (b: bool)
        ensures
            b == ((self.raw_mask[0] / 8) % 2 == 1),
    {
        (self.raw_mask[0] / 8) % 2 == 1
    }

    /// Rear Center (RC, byte 0 bit 4).
    pub fn rear_center(self) -> (b: bool)
        ensures
            b == ((self.raw_mask[0] / 16) % 2 == 1),
    {
        (self.raw_mask[0] / 16) % 2 == 1
    }

    /// Front Left Center / Front Right Center (FLC/FRC, byte 0 bit 5).
    pub fn front_left_right_center(self) -> (b: bool)
        ensures
            b == ((self.raw_mask[0] / 32) % 2 == 1),
    {
        (self.raw_mask[0] / 32) % 2 == 1
    }

    /// Rear Left Center / Rear Right Center (RLC/RRC, byte 0 bit 6).
    pub fn rear_left_right_center(self) -> (b: bool)
        ensures
            b == ((self.raw_mask[0] / 64) % 2 == 1),
    {
        (self.raw_mask[0] / 64) % 2 == 1
    }

    /// Front Left Wide / Front Right Wide (FLW/FRW, byte 1 bit 0).
    pub fn front_left_right_wide(self) -> (b: bool)
        ensures
            b == (self.raw_mask[1] % 2 == 1),
    {
        self.raw_mask[1] % 2 == 1
    }

    /// Front Left High / Front Right High (FLH/FRH, byte 1 bit 1).
    pub fn front_left_right_high(self) -> (b: bool)
        ensures
            b == ((self.raw_mask[1] / 2) % 2 == 1),
    {
        (self.raw_mask[1] / 2) % 2 == 1
    }

    /// Top Center (TC, byte 1 bit 2).
    pub fn top_center(self) -> (b: bool)
        ensures
            b == ((self.raw_mask[1] / 4) % 2 == 1),
    {
        (self.raw_mask[1] / 4) % 2 == 1
    }

    /// Front Center High (FCH, byte 1 bit 3).
    pub fn front_center_high(self) -> (b: bool)
        ensures
            b == ((self.raw_mask[1] / 8) % 2 == 1),
    {
        (self.raw_mask[1] / 8) % 2 == 1
    }
}

/// A CTA Colorimetry Data Block (Extended Tag 0x05).
#[derive(Clone, Copy, Debug, PartialEq, Eq)]
pub struct CtaColorimetry {
    /// xvYCC601 color space support (byte 1 bit 0).
    pub xvycc601: bool,
    /// xvYCC709 color space support (byte 1 bit 1).
    pub xvycc709: bool,
    /// sYCC601 color space support (byte 1 bit 2).
    pub sycc601: bool,
    /// AdobeYCC601 color space support (byte 1 bit 3).
    pub adobe_ycc601: bool,
    /// AdobeRGB color space support (byte 1 bit 4).
    pub adobe_rgb: bool,
    /// BT2020CYCC color space support (byte 1 bit 5).
    pub bt2020_cycc: bool,
    /// BT2020YCC color space support (byte 1 bit 6).
    pub bt2020_ycc: bool,
    /// BT2020RGB color space support (byte 1 bit 7).
    pub bt2020_rgb: bool,
    /// Gamut boundary metadata profile support flags (byte 2 bits 0..1).
    pub md_flags: u8,
}

/// A CTA Video Capability Data Block (Extended Tag 0x00).
#[derive(Clone, Copy, Debug, PartialEq, Eq)]
pub struct CtaVideoCapability {
    /// Selectable RGB Quantization Range (Q, bit 7).
    pub selectable_quantization_range_rgb: bool,
    /// Selectable YCC Quantization Range (QS, bit 6).
    pub selectable_quantization_range_ycc: bool,
    /// Preferred Timing overscan/underscan behavior (PT, bits 5..4).
    pub pt_behavior: u8,
    /// IT Video overscan/underscan behavior (IT, bits 3..2).
    pub it_behavior: u8,
    /// CE Video overscan/underscan behavior (CE, bits 1..0).
    pub ce_behavior: u8,
}

/// A CTA data block with its three-bit tag and raw payload.
#[derive(Clone, Debug, PartialEq, Eq)]
pub struct CtaDataBlock {
    /// CTA data-block tag.
    pub tag: u8,
    /// Data-block payload without the header byte.
    pub payload: Vec<u8>,
}

/// The tag and payload of each block.
pub open spec fn spec_cta_views(blocks: Seq<CtaDataBlock>) -> Seq<(u8, Seq<u8>)> {
    Seq::new(blocks.len(), |i: int| (blocks[i].tag, blocks[i].payload@))
}

/// A CTA Short Audio Descriptor.
#[derive(Clone, Copy, Debug, PartialEq, Eq)]
pub struct CtaAudioDescriptor {
    /// CTA audio coding format, 1 = LPCM.
    pub format: u8,
    /// Maximum channel count.
    pub channels: u8,
    /// Supported sample-rate bit mask.
    pub sample_rates: u8,
    /// Format-specific third byte.
    pub format_specific: u8,
}

/// A CTA Video Data Block entry.
#[derive(Clone, Copy, Debug, PartialEq, Eq)]
pub struct CtaVideoMode {
    /// CEA/CTA Video Identification Code without the native bit.
    pub vic: u8,
    /// Whether this entry is marked native.
    pub native: bool,
}

/// A CTA Vendor-Specific Data Block (Tag 3).
#[derive(Clone, Debug, PartialEq, Eq)]
pub enum CtaVendorSpecificBlock {
    /// HDMI 1.4b VSDB (IEEE OUI 0x000C03).
    Hdmi14b {
        /// Source Physical Address (CEC A.B.C.D).
        physical_address: [u8; 2],
        /// Maximum TMDS clock in MHz, if specified.
        max_tmds_clock_mhz: Option<u16>,
        /// Deep Color support flags (byte 5).
        deep_color_flags: u8,
        /// Latency and video feature flags (byte 7).
        feature_flags: u8,
        /// Original payload including the 3-byte OUI.
        raw: Vec<u8>,
    },
    /// HDMI Forum (HDMI 2.0+) VSDB (IEEE OUI 0xC45DD8).
    HdmiForum {
        /// HF-VSDB version (usually 1).
        version: u8,
        /// Maximum TMDS character rate in MHz, if specified (5 MHz units).
        max_tmds_character_rate_mhz: Option<u16>,
        /// SCDC and scrambling capability flags (byte 5).
        scdc_flags: u8,
        /// Deep Color 4:2:0 support flags (byte 7).
        deep_color_420_flags: u8,
        /// Original payload including the 3-byte OUI.
        raw: Vec<u8>,
    },
    /// AMD FreeSync VSDB (IEEE OUI 0x00001A).
    AmdFreeSync {
        /// FreeSync block version.
        version: u8,
        /// Minimum supported refresh rate in Hz, if specified.
        min_refresh_hz: Option<u8>,
        /// Maximum supported refresh rate in Hz, if specified.
        max_refresh_hz: Option<u8>,
        /// FreeSync capability flags (LFC, Native Color Space, etc.).
        flags: u8,
        /// Original payload including the 3-byte OUI.
        raw: Vec<u8>,
    },
    /// Dolby Vision VSDB (IEEE OUI 0x00D046).
    DolbyVision {
        /// Dolby Vision version byte.
        version: u8,
        /// Original payload including the 3-byte OUI.
        raw: Vec<u8>,
    },
    /// Any other Vendor-Specific Data Block.
    Other {
        /// 24-bit IEEE Organizationally Unique Identifier in Little-Endian byte order.
        oui: [u8; 3],
        /// Payload bytes after the 3-byte OUI.
        payload: Vec<u8>,
    },
}

/// Typed read-only views for CTA data blocks.
#[derive(Clone, Debug, PartialEq, Eq)]
pub enum CtaDataBlockView {
    /// Video Data Block entries.
    Video {
        /// Video Identification Code entries.
        modes: Vec<CtaVideoMode>,
    },
    /// Short Audio Descriptor entries.
    Audio {
        /// Audio descriptors in source order.
        descriptors: Vec<CtaAudioDescriptor>,
    },
    /// Speaker Allocation Data Block (Tag 4).
    SpeakerAllocation(CtaSpeakerAllocation),
    /// Vendor-Specific Data Block (Tag 3).
    VendorSpecific(CtaVendorSpecificBlock),
    /// Extended CTA data block.
    Extended(CtaExtendedDataBlockView),
    /// Any CTA tag not modeled by this version.
    Unknown {
        /// Three-bit CTA data-block tag.
        tag: u8,
        /// Uninterpreted payload bytes.
        payload: Vec<u8>,
    },
}

/// Typed views for selected CTA extended data blocks.
#[derive(Clone, Debug, PartialEq, Eq)]
pub enum CtaExtendedDataBlockView {
    /// Video Capability Data Block, extended tag 0x00.
    VideoCapability(CtaVideoCapability),
    /// Colorimetry Data Block, extended tag 0x05.
    Colorimetry(CtaColorimetry),
    /// CTA-861 HDR Static Metadata Data Block, extended tag 0x06.
    HdrStaticMetadata {
        /// Supported EOTF flags.
        eotf_flags: u8,
        /// Supported static metadata descriptor flags.
        metadata_descriptor_flags: u8,
        /// Optional desired content maximum luminance byte.
        max_luminance: Option<u8>,
        /// Optional frame-average maximum luminance byte.
        max_frame_average_luminance: Option<u8>,
        /// Optional minimum luminance byte.
        min_luminance: Option<u8>,
        /// Original extended-tag-prefixed payload.
        raw: Vec<u8>,
    },
    /// CTA Adaptive-Sync Data Block, extended tag 0x1A; raw fields retained.
    AdaptiveSync {
        /// Original extended-tag-prefixed payload.
        raw: Vec<u8>,
    },
    /// An unsupported CTA extended data block.
    Unknown {
        /// Extended tag code.
        extended_tag: u8,
        /// Payload bytes after the extended tag.
        payload: Vec<u8>,
    },
}

/// Copy `src[from..to]` into a new vector.
pub(crate) fn copy_range(src: &[u8], from: usize, to: usize) -> (out: Vec<u8>)
    requires
        from <= to <= src@.len(),
    ensures
        out@ == src@.subrange(from as int, to as int),
{
    let mut out: Vec<u8> = Vec::new();
    let mut i = from;
    while i < to
        invariant
            from <= i <= to <= src@.len(),
            out@ == src@.subrange(from as int, i as int),
        decreases to - i,
    {
        out.push(src[i]);
        i = i + 1;
    }
    out
}

// ---------------------------------------------------------------------------
// Raw data-block encoding
// ---------------------------------------------------------------------------

/// Why a CTA data block cannot be written, if it cannot.
pub open spec fn spec_cta_block_error(tag: u8, payload: Seq<u8>) -> Option<ExtensionWriteError> {
    if tag > 7 {
        Some(ExtensionWriteError::InvalidCtaTag { tag })
    } else if payload.len() > 31 {
        Some(ExtensionWriteError::CtaPayloadTooLong { length: payload.len() as usize, maximum: 31 })
    } else {
        None
    }
}

/// The header byte and payload of a (valid) CTA data block.
pub open spec fn spec_cta_block_bytes(tag: u8, payload: Seq<u8>) -> Seq<u8> {
    seq![(tag * 32 + payload.len()) as u8] + payload
}

impl CtaDataBlock {
    /// Encode this block as a CTA data-block header followed by its payload.
    pub fn encode(&self) -> (res: Result<Vec<u8>, ExtensionWriteError>)
        ensures
            spec_cta_block_error(self.tag, self.payload@) is Some ==> res == Err::<Vec<u8>, ExtensionWriteError>(
                spec_cta_block_error(self.tag, self.payload@)->0,
            ),
            spec_cta_block_error(self.tag, self.payload@) is None ==> (res matches Ok(v) && v@
                == spec_cta_block_bytes(self.tag, self.payload@)),
    {
        if self.tag > 7 {
            return Err(ExtensionWriteError::InvalidCtaTag { tag: self.tag });
        }
        if self.payload.len() > 31 {
            return Err(ExtensionWriteError::CtaPayloadTooLong { length: self.payload.len(), maximum: 31 });
        }
        let mut encoded: Vec<u8> = Vec::new();
        encoded.push(self.tag * 32 + self.payload.len() as u8);
        let mut i: usize = 0;
        while i < self.payload.len()
            invariant
                i <= self.payload@.len(),
                encoded@ == seq![(self.tag * 32 + self.payload@.len()) as u8] + self.payload@.subrange(0, i as int),
            decreases self.payload@.len() - i,
        {
            encoded.push(self.payload[i]);
            assert(self.payload@.subrange(0, i + 1) =~= self.payload@.subrange(0, i as int).push(self.payload@[i as int]));
            i = i + 1;
        }
        assert(self.payload@.subrange(0, self.payload@.len() as int) =~= self.payload@);
        Ok(encoded)
    }
}

// ---------------------------------------------------------------------------
// Typed views
// ---------------------------------------------------------------------------

/// Byte `i` of `p`, or `d` past its end.
pub open spec fn spec_get_or(p: Seq<u8>, i: int, d: u8) -> u8 {
    if 0 <= i < p.len() {
        p[i]
    } else {
        d
    }
}

/// Byte `i` of `p`, if present.
pub open spec fn spec_get(p: Seq<u8>, i: int) -> Option<u8> {
    if 0 <= i < p.len() {
        Some(p[i])
    } else {
        None
    }
}

/// A rate byte in five-MHz units, absent when missing or zero.
pub open spec fn spec_rate(p: Seq<u8>, i: int) -> Option<u16> {
    if 0 <= i < p.len() && p[i] != 0 {
        Some((p[i] * 5) as u16)
    } else {
        None
    }
}

/// The short audio descriptors of an audio payload.
pub open spec fn spec_audio_descriptors(p: Seq<u8>) -> Seq<CtaAudioDescriptor> {
    Seq::new(
        p.len() / 3,
        |k: int|
            CtaAudioDescriptor {
                format: p[3 * k] / 8,
                channels: (p[3 * k] % 8 + 1) as u8,
                sample_rates: p[3 * k + 1],
                format_specific: p[3 * k + 2],
            },
    )
}

/// The video modes of a video payload.
pub open spec fn spec_video_modes(p: Seq<u8>) -> Seq<CtaVideoMode> {
    Seq::new(p.len(), |i: int| CtaVideoMode { vic: p[i] % 128, native: p[i] >= 128 })
}

/// Index of the first entry among the first `n` whose VIC is zero.
pub open spec fn spec_first_zero_vic(p: Seq<u8>, n: int) -> Option<int>
    decreases n,
{
    if n <= 0 {
        None
    } else {
        match spec_first_zero_vic(p, n - 1) {
            Some(i) => Some(i),
            None => if p[n - 1] % 128 == 0 {
                Some(n - 1)
            } else {
                None
            },
        }
    }
}

/// The video capability flags of byte `b`.
pub open spec fn spec_video_capability(b: u8) -> CtaVideoCapability {
    CtaVideoCapability {
        selectable_quantization_range_rgb: b >= 128,
        selectable_quantization_range_ycc: (b / 64) % 2 == 1,
        pt_behavior: (b / 16) % 4,
        it_behavior: (b / 4) % 4,
        ce_behavior: b % 4,
    }
}

/// The colorimetry flags of bytes `b1` and `b2`.
pub open spec fn spec_colorimetry(b1: u8, b2: u8) -> CtaColorimetry {
    CtaColorimetry {
        xvycc601: b1 % 2 == 1,
        xvycc709: (b1 / 2) % 2 == 1,
        sycc601: (b1 / 4) % 2 == 1,
        adobe_ycc601: (b1 / 8) % 2 == 1,
        adobe_rgb: (b1 / 16) % 2 == 1,
        bt2020_cycc: (b1 / 32) % 2 == 1,
        bt2020_ycc: (b1 / 64) % 2 == 1,
        bt2020_rgb: b1 >= 128,
        md_flags: b2 % 4,
    }
}

/// Why a data block has no typed view, if it has none.
pub open spec fn spec_cta_view_error(tag: u8, p: Seq<u8>) -> Option<ExtensionError> {
    if tag == 1 && (p.len() == 0 || p.len() % 3 != 0) {
        Some(ExtensionError::InvalidAudioDataBlockLength { length: p.len() as usize })
    } else if tag == 2 && p.len() == 0 {
        Some(ExtensionError::InvalidVideoDataBlockLength { length: 0 })
    } else if tag == 2 && spec_first_zero_vic(p, p.len() as int) is Some {
        Some(ExtensionError::InvalidVideoCode { index: spec_first_zero_vic(p, p.len() as int)->0 as usize })
    } else if tag == 3 && p.len() < 3 {
        Some(ExtensionError::TruncatedVendorSpecificDataBlock { length: p.len() as usize })
    } else if tag == 4 && p.len() == 0 {
        Some(ExtensionError::InvalidSpeakerAllocationDataBlockLength { length: 0 })
    } else if tag == 7 && p.len() == 0 {
        Some(ExtensionError::TruncatedExtendedDataBlock { extended_tag: 0, length: 0, minimum: 1 })
    } else if tag == 7 && p[0] == 0 && p.len() < 2 {
        Some(ExtensionError::TruncatedExtendedDataBlock { extended_tag: 0, length: p.len() as usize, minimum: 2 })
    } else if tag == 7 && (p[0] == 5 || p[0] == 6) && p.len() < 3 {
        Some(ExtensionError::TruncatedExtendedDataBlock { extended_tag: p[0], length: p.len() as usize, minimum: 3 })
    } else {
        None
    }
}

/// `vs` is the vendor-specific view of payload `p` (at least three bytes).
pub open spec fn spec_vendor_matches(p: Seq<u8>, vs: CtaVendorSpecificBlock) -> bool {
    if p[0] == 0x03 && p[1] == 0x0C && p[2] == 0x00 {
        vs matches CtaVendorSpecificBlock::Hdmi14b {
            physical_address,
            max_tmds_clock_mhz,
            deep_color_flags,
            feature_flags,
            raw,
        } && physical_address@ == (if p.len() >= 5 { seq![p[3], p[4]] } else { seq![0u8, 0u8] })
            && max_tmds_clock_mhz == spec_rate(p, 6) && deep_color_flags == spec_get_or(p, 5, 0)
            && feature_flags == spec_get_or(p, 7, 0) && raw@ == p
    } else if p[0] == 0xD8 && p[1] == 0x5D && p[2] == 0xC4 {
        vs matches CtaVendorSpecificBlock::HdmiForum {
            version,
            max_tmds_character_rate_mhz,
            scdc_flags,
            deep_color_420_flags,
            raw,
        } && version == spec_get_or(p, 3, 1) && max_tmds_character_rate_mhz == spec_rate(p, 4) && scdc_flags
            == spec_get_or(p, 5, 0) && deep_color_420_flags == spec_get_or(p, 7, 0) && raw@ == p
    } else if p[0] == 0x1A && p[1] == 0x00 && p[2] == 0x00 {
        vs matches CtaVendorSpecificBlock::AmdFreeSync { version, min_refresh_hz, max_refresh_hz, flags, raw }
            && version == spec_get_or(p, 3, 1) && min_refresh_hz == spec_get(p, 4) && max_refresh_hz == spec_get(
            p,
            5,
        ) && flags == spec_get_or(p, 6, 0) && raw@ == p
    } else if p[0] == 0x46 && p[1] == 0xD0 && p[2] == 0x00 {
        vs matches CtaVendorSpecificBlock::DolbyVision { version, raw } && version == spec_get_or(p, 3, 0)
            && raw@ == p
    } else {
        vs matches CtaVendorSpecificBlock::Other { oui, payload } && oui@ == p.take(3) && payload@ == p.skip(3)
    }
}

/// `e` is the extended-tag view of payload `p` (at least one byte).
pub open spec fn spec_extended_matches(p: Seq<u8>, e: CtaExtendedDataBlockView) -> bool {
    let ext = p[0];
    if ext == 0x00 {
        e == CtaExtendedDataBlockView::VideoCapability(spec_video_capability(p[1]))
    } else if ext == 0x05 {
        e == CtaExtendedDataBlockView::Colorimetry(spec_colorimetry(p[1], p[2]))
    } else if ext == 0x06 {
        e matches CtaExtendedDataBlockView::HdrStaticMetadata {
            eotf_flags,
            metadata_descriptor_flags,
            max_luminance,
            max_frame_average_luminance,
            min_luminance,
            raw,
        } && eotf_flags == p[1] && metadata_descriptor_flags == p[2] && max_luminance == spec_get(p, 3)
            && max_frame_average_luminance == spec_get(p, 4) && min_luminance == spec_get(p, 5) && raw@ == p
    } else if ext == 0x1A {
        e matches CtaExtendedDataBlockView::AdaptiveSync { raw } && raw@ == p
    } else {
        e matches CtaExtendedDataBlockView::Unknown { extended_tag, payload } && extended_tag == ext && payload@
            == p.skip(1)
    }
}

/// `v` is the typed view of a data block with `tag` and payload `p`.
pub open spec fn spec_cta_view_matches(tag: u8, p: Seq<u8>, v: CtaDataBlockView) -> bool {
    if tag == 1 {
        v matches CtaDataBlockView::Audio { descriptors } && descriptors@ == spec_audio_descriptors(p)
    } else if tag == 2 {
        v matches CtaDataBlockView::Video { modes } && modes@ == spec_video_modes(p)
    } else if tag == 3 {
        v matches CtaDataBlockView::VendorSpecific(vs) && spec_vendor_matches(p, vs)
    } else if tag == 4 {
        v matches CtaDataBlockView::SpeakerAllocation(sp) && sp.raw_mask@ == seq![
            spec_get_or(p, 0, 0),
            spec_get_or(p, 1, 0),
            spec_get_or(p, 2, 0),
        ]
    } else if tag == 7 {
        v matches CtaDataBlockView::Extended(e) && spec_extended_matches(p, e)
    } else {
        v matches CtaDataBlockView::Unknown { tag: t, payload } && t == tag && payload@ == p
    }
}

fn get_or(p: &Vec<u8>, i: usize, d: u8) -> (b: u8)
    ensures
        b == spec_get_or(p@, i as int, d),
{
    if i < p.len() {
        p[i]
    } else {
        d
    }
}

fn get_opt(p: &Vec<u8>, i: usize) -> (b: Option<u8>)
    ensures
        b == spec_get(p@, i as int),
{
    if i < p.len() {
        Some(p[i])
    } else {
        None
    }
}

fn get_rate(p: &Vec<u8>, i: usize) -> (b: Option<u16>)
    ensures
        b == spec_rate(p@, i as int),
{
    if i < p.len() && p[i] != 0 {
        Some(p[i] as u16 * 5)
    } else {
        None
    }
}

impl CtaDataBlock {
    /// Decode this data block into a typed read-only view.
    pub fn view(&self) -> (res: Result<CtaDataBlockView, ExtensionError>)
        ensures
            spec_cta_view_error(self.tag, self.payload@) is Some ==> res == Err::<CtaDataBlockView, ExtensionError>(
                spec_cta_view_error(self.tag, self.payload@)->0,
            ),
            spec_cta_view_error(self.tag, self.payload@) is None ==> (res matches Ok(v) && spec_cta_view_matches(
                self.tag,
                self.payload@,
                v,
            )),
    {
        let p = &self.payload;
        if self.tag == 1 {
            if p.len() == 0 || p.len() % 3 != 0 {
                return Err(ExtensionError::InvalidAudioDataBlockLength { length: p.len() });
            }
            let mut descriptors: Vec<CtaAudioDescriptor> = Vec::new();
            let mut k: usize = 0;
            while k < p.len() / 3
                invariant
                    k <= p@.len() / 3,
                    descriptors@ == spec_audio_descriptors(p@).take(k as int),
                decreases p@.len() / 3 - k,
            {
                let b0 = p[3 * k];
                descriptors.push(
                    CtaAudioDescriptor {
                        format: b0 / 8,
                        channels: b0 % 8 + 1,
                        sample_rates: p[3 * k + 1],
                        format_specific: p[3 * k + 2],
                    },
                );
                assert(spec_audio_descriptors(p@).take(k + 1) =~= spec_audio_descriptors(p@).take(k as int).push(
                    spec_audio_descriptors(p@)[k as int],
                ));
                k = k + 1;
            }
            assert(spec_audio_descriptors(p@).take(k as int) =~= spec_audio_descriptors(p@));
            Ok(CtaDataBlockView::Audio { descriptors })
        } else if self.tag == 2 {
            if p.len() == 0 {
                return Err(ExtensionError::InvalidVideoDataBlockLength { length: 0 });
            }
            let mut modes: Vec<CtaVideoMode> = Vec::new();
            let mut i: usize = 0;
            while i < p.len()
                invariant
                    i <= p@.len(),
                    p@.len() > 0,
                    p@ == self.payload@,
                    self.tag == 2,
                    spec_first_zero_vic(p@, i as int) is None,
                    modes@ == spec_video_modes(p@).take(i as int),
                decreases p@.len() - i,
            {
                let code = p[i];
                let vic = code % 128;
                if vic == 0 {
                    proof {
                        assert(spec_first_zero_vic(p@, i + 1) == Some(i as int));
                        lemma_first_zero_vic_keeps(p@, i + 1, p@.len() as int);
                    }
                    return Err(ExtensionError::InvalidVideoCode { index: i });
                }
                modes.push(CtaVideoMode { vic, native: code >= 128 });
                assert(spec_video_modes(p@).take(i + 1) =~= spec_video_modes(p@).take(i as int).push(
                    spec_video_modes(p@)[i as int],
                ));
                i = i + 1;
            }
            assert(spec_video_modes(p@).take(i as int) =~= spec_video_modes(p@));
            Ok(CtaDataBlockView::Video { modes })
        } else if self.tag == 3 {
            self.vendor_specific_view()
        } else if self.tag == 4 {
            if p.len() == 0 {
                return Err(ExtensionError::InvalidSpeakerAllocationDataBlockLength { length: 0 });
            }
            let raw_mask = [get_or(p, 0, 0), get_or(p, 1, 0), get_or(p, 2, 0)];
            assert(raw_mask@ =~= seq![spec_get_or(p@, 0, 0), spec_get_or(p@, 1, 0), spec_get_or(p@, 2, 0)]);
            Ok(CtaDataBlockView::SpeakerAllocation(CtaSpeakerAllocation { raw_mask }))
        } else if self.tag == 7 {
            self.extended_view()
        } else {
            let payload = copy_range(p.as_slice(), 0, p.len());
            assert(p@.subrange(0, p@.len() as int) =~= p@);
            Ok(CtaDataBlockView::Unknown { tag: self.tag, payload })
        }
    }

    fn extended_view(&self) -> (res: Result<CtaDataBlockView, ExtensionError>)
        requires
            self.tag == 7,
        ensures
            spec_cta_view_error(self.tag, self.payload@) is Some ==> res == Err::<CtaDataBlockView, ExtensionError>(
                spec_cta_view_error(self.tag, self.payload@)->0,
            ),
            spec_cta_view_error(self.tag, self.payload@) is None ==> (res matches Ok(v) && spec_cta_view_matches(
                self.tag,
                self.payload@,
                v,
            )),
    {
        let p = &self.payload;
        if p.len() == 0 {
            return Err(ExtensionError::TruncatedExtendedDataBlock { extended_tag: 0, length: 0, minimum: 1 });
        }
        let extended_tag = p[0];
        assert(p@.subrange(0, p@.len() as int) =~= p@);
        assert(p@.subrange(1, p@.len() as int) =~= p@.skip(1));
        if extended_tag == 0x00 {
            if p.len() < 2 {
                return Err(
                    ExtensionError::TruncatedExtendedDataBlock { extended_tag, length: p.len(), minimum: 2 },
                );
            }
            let b = p[1];
            Ok(
                CtaDataBlockView::Extended(
                    CtaExtendedDataBlockView::VideoCapability(
                        CtaVideoCapability {
                            selectable_quantization_range_rgb: b >= 128,
                            selectable_quantization_range_ycc: (b / 64) % 2 == 1,
                            pt_behavior: (b / 16) % 4,
                            it_behavior: (b / 4) % 4,
                            ce_behavior: b % 4,
                        },
                    ),
                ),
            )
        } else if extended_tag == 0x05 {
            if p.len() < 3 {
                return Err(
                    ExtensionError::TruncatedExtendedDataBlock { extended_tag, length: p.len(), minimum: 3 },
                );
            }
            let b1 = p[1];
            let b2 = p[2];
            Ok(
                CtaDataBlockView::Extended(
                    CtaExtendedDataBlockView::Colorimetry(
                        CtaColorimetry {
                            xvycc601: b1 % 2 == 1,
                            xvycc709: (b1 / 2) % 2 == 1,
                            sycc601: (b1 / 4) % 2 == 1,
                            adobe_ycc601: (b1 / 8) % 2 == 1,
                            adobe_rgb: (b1 / 16) % 2 == 1,
                            bt2020_cycc: (b1 / 32) % 2 == 1,
                            bt2020_ycc: (b1 / 64) % 2 == 1,
                            bt2020_rgb: b1 >= 128,
                            md_flags: b2 % 4,
                        },
                    ),
                ),
            )
        } else if extended_tag == 0x06 {
            if p.len() < 3 {
                return Err(
                    ExtensionError::TruncatedExtendedDataBlock { extended_tag, length: p.len(), minimum: 3 },
                );
            }
            Ok(
                CtaDataBlockView::Extended(
                    CtaExtendedDataBlockView::HdrStaticMetadata {
                        eotf_flags: p[1],
                        metadata_descriptor_flags: p[2],
                        max_luminance: get_opt(p, 3),
                        max_frame_average_luminance: get_opt(p, 4),
                        min_luminance: get_opt(p, 5),
                        raw: copy_range(p.as_slice(), 0, p.len()),
                    },
                ),
            )
        } else if extended_tag == 0x1A {
            Ok(
                CtaDataBlockView::Extended(
                    CtaExtendedDataBlockView::AdaptiveSync { raw: copy_range(p.as_slice(), 0, p.len()) },
                ),
            )
        } else {
            Ok(
                CtaDataBlockView::Extended(
                    CtaExtendedDataBlockView::Unknown {
                        extended_tag,
                        payload: copy_range(p.as_slice(), 1, p.len()),
                    },
                ),
            )
        }
    }

    fn vendor_specific_view(&self) -> (res: Result<CtaDataBlockView, ExtensionError>)
        requires
            self.tag == 3,
        ensures
            spec_cta_view_error(self.tag, self.payload@) is Some ==> res == Err::<CtaDataBlockView, ExtensionError>(
                spec_cta_view_error(self.tag, self.payload@)->0,
            ),
            spec_cta_view_error(self.tag, self.payload@) is None ==> (res matches Ok(v) && spec_cta_view_matches(
                self.tag,
                self.payload@,
                v,
            )),
    {
        let p = &self.payload;
        if p.len() < 3 {
            return Err(ExtensionError::TruncatedVendorSpecificDataBlock { length: p.len() });
        }
        let raw = copy_range(p.as_slice(), 0, p.len());
        assert(p@.subrange(0, p@.len() as int) =~= p@);
        if p[0] == 0x03 && p[1] == 0x0C && p[2] == 0x00 {
            let physical_address = if p.len() >= 5 {
                [p[3], p[4]]
            } else {
                [0, 0]
            };
            assert(physical_address@ =~= (if p@.len() >= 5 {
                seq![p@[3], p@[4]]
            } else {
                seq![0u8, 0u8]
            }));
            Ok(
                CtaDataBlockView::VendorSpecific(
                    CtaVendorSpecificBlock::Hdmi14b {
                        physical_address,
                        max_tmds_clock_mhz: get_rate(p, 6),
                        deep_color_flags: get_or(p, 5, 0),
                        feature_flags: get_or(p, 7, 0),
                        raw,
                    },
                ),
            )
        } else if p[0] == 0xD8 && p[1] == 0x5D && p[2] == 0xC4 {
            Ok(
                CtaDataBlockView::VendorSpecific(
                    CtaVendorSpecificBlock::HdmiForum {
                        version: get_or(p, 3, 1),
                        max_tmds_character_rate_mhz: get_rate(p, 4),
                        scdc_flags: get_or(p, 5, 0),
                        deep_color_420_flags: get_or(p, 7, 0),
                        raw,
                    },
                ),
            )
        } else if p[0] == 0x1A && p[1] == 0x00 && p[2] == 0x00 {
            Ok(
                CtaDataBlockView::VendorSpecific(
                    CtaVendorSpecificBlock::AmdFreeSync {
                        version: get_or(p, 3, 1),
                        min_refresh_hz: get_opt(p, 4),
                        max_refresh_hz: get_opt(p, 5),
                        flags: get_or(p, 6, 0),
                        raw,
                    },
                ),
            )
        } else if p[0] == 0x46 && p[1] == 0xD0 && p[2] == 0x00 {
            Ok(CtaDataBlockView::VendorSpecific(CtaVendorSpecificBlock::DolbyVision { version: get_or(p, 3, 0), raw }))
        } else {
            let oui = [p[0], p[1], p[2]];
            assert(oui@ =~= p@.take(3));
            let payload = copy_range(p.as_slice(), 3, p.len());
            assert(p@.subrange(3, p@.len() as int) =~= p@.skip(3));
            Ok(CtaDataBlockView::VendorSpecific(CtaVendorSpecificBlock::Other { oui, payload }))
        }
    }
}

proof fn lemma_first_zero_vic_keeps(p: Seq<u8>, n: int, m: int)
    requires
        0 <= n <= m,
        spec_first_zero_vic(p, n) is Some,
    ensures
        spec_first_zero_vic(p, m) == spec_first_zero_vic(p, n),
    decreases m - n,
{
    if m > n {
        lemma_first_zero_vic_keeps(p, n, m - 1);
    }
}

// ---------------------------------------------------------------------------
// Typed view encoding
// ---------------------------------------------------------------------------

/// The copy of a known vendor payload used as the encoding template.
pub open spec fn spec_vendor_template(raw: Seq<u8>, e0: u8, e1: u8, e2: u8) -> Result<Seq<u8>, ExtensionWriteError> {
    if raw.len() < 3 {
        Err(ExtensionWriteError::CtaPayloadTooShort { tag: 3, length: raw.len() as usize, minimum: 3 })
    } else if raw[0] != e0 || raw[1] != e1 || raw[2] != e2 {
        Err(ExtensionWriteError::InvalidCtaVendorOui { expected: [e0, e1, e2], actual: [raw[0], raw[1], raw[2]] })
    } else {
        Ok(raw)
    }
}

/// Write byte `off` of a vendor payload when it differs from the raw byte
/// (`default` standing for a missing raw byte).
pub open spec fn spec_vendor_byte(p: Seq<u8>, raw: Seq<u8>, off: int, value: u8, default: u8) -> Result<
    Seq<u8>,
    ExtensionWriteError,
> {
    if spec_get_or(raw, off, default) != value {
        if raw.len() <= off {
            Err(ExtensionWriteError::CtaPayloadTooShort { tag: 3, length: raw.len() as usize, minimum: (off + 1) as usize })
        } else {
            Ok(p.update(off, value))
        }
    } else {
        Ok(p)
    }
}

/// Write an optional vendor byte; a present raw byte cannot be removed.
pub open spec fn spec_vendor_opt(p: Seq<u8>, raw: Seq<u8>, off: int, value: Option<u8>, field: &'static str) -> Result<
    Seq<u8>,
    ExtensionWriteError,
> {
    if value is None && off < raw.len() {
        Err(ExtensionWriteError::InvalidCtaVendorField { field })
    } else if spec_get(raw, off) != value {
        if raw.len() <= off {
            Err(ExtensionWriteError::CtaPayloadTooShort { tag: 3, length: raw.len() as usize, minimum: (off + 1) as usize })
        } else {
            Ok(p.update(off, value->0))
        }
    } else {
        Ok(p)
    }
}

/// Write a rate in five-MHz units; absent is stored as zero.
pub open spec fn spec_vendor_rate(p: Seq<u8>, raw: Seq<u8>, off: int, value: Option<u16>, field: &'static str) -> Result<
    Seq<u8>,
    ExtensionWriteError,
> {
    if value is Some && !(value->0 != 0 && value->0 % 5 == 0 && value->0 / 5 <= 255) {
        Err(ExtensionWriteError::InvalidCtaVendorRate { field, value: value->0 })
    } else if value != spec_rate(raw, off) {
        if raw.len() <= off {
            Err(ExtensionWriteError::CtaPayloadTooShort { tag: 3, length: raw.len() as usize, minimum: (off + 1) as usize })
        } else {
            Ok(p.update(off, match value { Some(r) => (r / 5) as u8, None => 0u8 }))
        }
    } else {
        Ok(p)
    }
}

/// The payload of an HDMI 1.4b vendor view.
pub open spec fn spec_hdmi14b_payload(
    physical_address: [u8; 2],
    max_tmds_clock_mhz: Option<u16>,
    deep_color_flags: u8,
    feature_flags: u8,
    raw: Seq<u8>,
) -> Result<Seq<u8>, ExtensionWriteError> {
    match spec_vendor_template(raw, 0x03, 0x0C, 0x00) {
        Err(e) => Err(e),
        Ok(p0) => if raw.len() < 5 {
            Err(ExtensionWriteError::CtaPayloadTooShort { tag: 3, length: raw.len() as usize, minimum: 5 })
        } else {
            match spec_vendor_byte(p0, raw, 3, physical_address[0], 0) {
                Err(e) => Err(e),
                Ok(p1) => match spec_vendor_byte(p1, raw, 4, physical_address[1], 0) {
                    Err(e) => Err(e),
                    Ok(p2) => match spec_vendor_rate(p2, raw, 6, max_tmds_clock_mhz, "max_tmds_clock_mhz") {
                        Err(e) => Err(e),
                        Ok(p3) => match spec_vendor_byte(p3, raw, 5, deep_color_flags, 0) {
                            Err(e) => Err(e),
                            Ok(p4) => spec_vendor_byte(p4, raw, 7, feature_flags, 0),
                        },
                    },
                },
            }
        },
    }
}

/// The payload of an HDMI Forum vendor view.
pub open spec fn spec_hdmi_forum_payload(
    version: u8,
    max_tmds_character_rate_mhz: Option<u16>,
    scdc_flags: u8,
    deep_color_420_flags: u8,
    raw: Seq<u8>,
) -> Result<Seq<u8>, ExtensionWriteError> {
    match spec_vendor_template(raw, 0xD8, 0x5D, 0xC4) {
        Err(e) => Err(e),
        Ok(p0) => match spec_vendor_byte(p0, raw, 3, version, 1) {
            Err(e) => Err(e),
            Ok(p1) => match spec_vendor_rate(p1, raw, 4, max_tmds_character_rate_mhz, "max_tmds_character_rate_mhz") {
                Err(e) => Err(e),
                Ok(p2) => match spec_vendor_byte(p2, raw, 5, scdc_flags, 0) {
                    Err(e) => Err(e),
                    Ok(p3) => spec_vendor_byte(p3, raw, 7, deep_color_420_flags, 0),
                },
            },
        },
    }
}

/// The payload of an AMD FreeSync vendor view.
pub open spec fn spec_freesync_payload(
    version: u8,
    min_refresh_hz: Option<u8>,
    max_refresh_hz: Option<u8>,
    flags: u8,
    raw: Seq<u8>,
) -> Result<Seq<u8>, ExtensionWriteError> {
    match spec_vendor_template(raw, 0x1A, 0x00, 0x00) {
        Err(e) => Err(e),
        Ok(p0) => match spec_vendor_byte(p0, raw, 3, version, 1) {
            Err(e) => Err(e),
            Ok(p1) => match spec_vendor_opt(p1, raw, 4, min_refresh_hz, "min_refresh_hz") {
                Err(e) => Err(e),
                Ok(p2) => match spec_vendor_opt(p2, raw, 5, max_refresh_hz, "max_refresh_hz") {
                    Err(e) => Err(e),
                    Ok(p3) => spec_vendor_byte(p3, raw, 6, flags, 0),
                },
            },
        },
    }
}

/// The payload of a Dolby Vision vendor view.
pub open spec fn spec_dolby_payload(version: u8, raw: Seq<u8>) -> Result<Seq<u8>, ExtensionWriteError> {
    match spec_vendor_template(raw, 0x46, 0xD0, 0x00) {
        Err(e) => Err(e),
        Ok(p0) => spec_vendor_byte(p0, raw, 3, version, 0),
    }
}

/// The payload of a vendor-specific view.
pub open spec fn spec_vendor_payload(vs: CtaVendorSpecificBlock) -> Result<Seq<u8>, ExtensionWriteError> {
    match vs {
        CtaVendorSpecificBlock::Hdmi14b { physical_address, max_tmds_clock_mhz, deep_color_flags, feature_flags, raw } =>
            spec_hdmi14b_payload(physical_address, max_tmds_clock_mhz, deep_color_flags, feature_flags, raw@),
        CtaVendorSpecificBlock::HdmiForum {
            version,
            max_tmds_character_rate_mhz,
            scdc_flags,
            deep_color_420_flags,
            raw,
        } => spec_hdmi_forum_payload(version, max_tmds_character_rate_mhz, scdc_flags, deep_color_420_flags, raw@),
        CtaVendorSpecificBlock::AmdFreeSync { version, min_refresh_hz, max_refresh_hz, flags, raw } =>
            spec_freesync_payload(version, min_refresh_hz, max_refresh_hz, flags, raw@),
        CtaVendorSpecificBlock::DolbyVision { version, raw } => spec_dolby_payload(version, raw@),
        CtaVendorSpecificBlock::Other { oui, payload } => Ok(oui@ + payload@),
    }
}

/// The first video mode among the first `n` whose VIC does not fit 1..=127.
pub open spec fn spec_first_bad_vic(modes: Seq<CtaVideoMode>, n: int) -> Option<int>
    decreases n,
{
    if n <= 0 {
        None
    } else {
        match spec_first_bad_vic(modes, n - 1) {
            Some(i) => Some(i),
            None => if !(1 <= modes[n - 1].vic <= 127) {
                Some(n - 1)
            } else {
                None
            },
        }
    }
}

/// The video payload of (valid) modes.
pub open spec fn spec_video_bytes(modes: Seq<CtaVideoMode>) -> Seq<u8> {
    Seq::new(modes.len(), |i: int| (modes[i].vic + if modes[i].native { 128int } else { 0int }) as u8)
}

/// Why a short audio descriptor cannot be encoded, if it cannot.
pub open spec fn spec_audio_error(i: int, d: CtaAudioDescriptor) -> Option<ExtensionWriteError> {
    if !(1 <= d.format <= 15) {
        Some(ExtensionWriteError::InvalidCtaAudioFormat { index: i as usize, format: d.format })
    } else if !(1 <= d.channels <= 8) {
        Some(ExtensionWriteError::InvalidCtaAudioChannels { index: i as usize, channels: d.channels })
    } else if d.sample_rates >= 128 {
        Some(ExtensionWriteError::InvalidCtaAudioSampleRates { index: i as usize, sample_rates: d.sample_rates })
    } else {
        None
    }
}

/// The first audio descriptor error among the first `n`.
pub open spec fn spec_first_audio_error(ds: Seq<CtaAudioDescriptor>, n: int) -> Option<ExtensionWriteError>
    decreases n,
{
    if n <= 0 {
        None
    } else {
        match spec_first_audio_error(ds, n - 1) {
            Some(e) => Some(e),
            None => spec_audio_error(n - 1, ds[n - 1]),
        }
    }
}

/// The audio payload of (valid) descriptors.
pub open spec fn spec_audio_bytes(ds: Seq<CtaAudioDescriptor>) -> Seq<u8> {
    Seq::new(
        3 * ds.len(),
        |j: int|
            if j % 3 == 0 {
                (ds[j / 3].format * 8 + ds[j / 3].channels - 1) as u8
            } else if j % 3 == 1 {
                ds[j / 3].sample_rates
            } else {
                ds[j / 3].format_specific
            },
    )
}

/// The one-byte seqence of a present value.
pub open spec fn spec_opt_bytes(o: Option<u8>) -> Seq<u8> {
    match o {
        Some(v) => seq![v],
        None => Seq::empty(),
    }
}

/// The payload of an HDR static metadata view.
pub open spec fn spec_hdr_payload(
    eotf: u8,
    md: u8,
    max: Option<u8>,
    avg: Option<u8>,
    min: Option<u8>,
    raw: Seq<u8>,
) -> Result<Seq<u8>, ExtensionWriteError> {
    let typed = 3 + (if max is Some { 1int } else { 0int }) + (if avg is Some { 1int } else { 0int }) + (
    if min is Some { 1int } else { 0int });
    if raw.len() < 3 || raw[0] != 0x06 {
        Err(ExtensionWriteError::InvalidCtaExtendedPayload { expected_tag: 0x06, actual_tag: spec_get(raw, 0), length: raw.len() as usize })
    } else if max is None && (avg is Some || min is Some) || avg is None && min is Some {
        Err(ExtensionWriteError::InvalidCtaHdrLuminanceOrder)
    } else if raw.len() > 6 && typed < 6 {
        Err(ExtensionWriteError::InvalidCtaHdrRawTail)
    } else {
        Ok(
            seq![0x06u8, eotf, md] + spec_opt_bytes(max) + spec_opt_bytes(avg) + spec_opt_bytes(min) + (if raw.len() > 6 {
                raw.skip(6)
            } else {
                Seq::empty()
            }),
        )
    }
}

/// Tag and payload of a typed view before the final size check.
pub open spec fn spec_view_block(v: CtaDataBlockView) -> Result<(u8, Seq<u8>), ExtensionWriteError> {
    match v {
        CtaDataBlockView::Video { modes } => match spec_video_payload(modes@) {
            Ok(p) => Ok((2u8, p)),
            Err(e) => Err(e),
        },
        CtaDataBlockView::Audio { descriptors } => match spec_audio_payload(descriptors@) {
            Ok(p) => Ok((1u8, p)),
            Err(e) => Err(e),
        },
        CtaDataBlockView::SpeakerAllocation(sp) => Ok((4u8, sp.raw_mask@)),
        CtaDataBlockView::Unknown { tag, payload } => Ok((tag, payload@)),
        CtaDataBlockView::VendorSpecific(vs) => match spec_vendor_payload(vs) {
            Ok(p) => Ok((3u8, p)),
            Err(e) => Err(e),
        },
        CtaDataBlockView::Extended(e) => spec_extended_block(e),
    }
}

/// Tag and payload of an extended view.
pub open spec fn spec_extended_block(e: CtaExtendedDataBlockView) -> Result<(u8, Seq<u8>), ExtensionWriteError> {
    match e {
        CtaExtendedDataBlockView::Unknown { extended_tag, payload } => Ok((7u8, seq![extended_tag] + payload@)),
        CtaExtendedDataBlockView::AdaptiveSync { raw } => if spec_get(raw@, 0) != Some(0x1Au8) {
            Err(ExtensionWriteError::InvalidCtaExtendedPayload {
                expected_tag: 0x1A,
                actual_tag: spec_get(raw@, 0),
                length: raw@.len() as usize,
            })
        } else {
            Ok((7u8, raw@))
        },
        CtaExtendedDataBlockView::VideoCapability(c) => if c.pt_behavior > 3 {
            Err(ExtensionWriteError::InvalidCtaField { field: "PT", value: c.pt_behavior, maximum: 3 })
        } else if c.it_behavior > 3 {
            Err(ExtensionWriteError::InvalidCtaField { field: "IT", value: c.it_behavior, maximum: 3 })
        } else if c.ce_behavior > 3 {
            Err(ExtensionWriteError::InvalidCtaField { field: "CE", value: c.ce_behavior, maximum: 3 })
        } else {
            Ok((7u8, seq![0x00u8, spec_video_capability_byte(c)]))
        },
        CtaExtendedDataBlockView::Colorimetry(c) => if c.md_flags > 3 {
            Err(ExtensionWriteError::InvalidCtaField { field: "MD", value: c.md_flags, maximum: 3 })
        } else {
            Ok((7u8, seq![0x05u8, spec_colorimetry_byte(c), c.md_flags]))
        },
        CtaExtendedDataBlockView::HdrStaticMetadata {
            eotf_flags,
            metadata_descriptor_flags,
            max_luminance,
            max_frame_average_luminance,
            min_luminance,
            raw,
        } => match spec_hdr_payload(
            eotf_flags,
            metadata_descriptor_flags,
            max_luminance,
            max_frame_average_luminance,
            min_luminance,
            raw@,
        ) {
            Ok(p) => Ok((7u8, p)),
            Err(e) => Err(e),
        },
    }
}

/// The video payload of typed modes, or why it has none.
pub open spec fn spec_video_payload(modes: Seq<CtaVideoMode>) -> Result<Seq<u8>, ExtensionWriteError> {
    if modes.len() == 0 {
        Err(ExtensionWriteError::CtaPayloadTooShort { tag: 2, length: 0, minimum: 1 })
    } else if spec_first_bad_vic(modes, modes.len() as int) is Some {
        Err(ExtensionWriteError::InvalidCtaVideoCode {
            index: spec_first_bad_vic(modes, modes.len() as int)->0 as usize,
            vic: modes[spec_first_bad_vic(modes, modes.len() as int)->0].vic,
        })
    } else {
        Ok(spec_video_bytes(modes))
    }
}

/// The audio payload of typed descriptors, or why it has none.
pub open spec fn spec_audio_payload(ds: Seq<CtaAudioDescriptor>) -> Result<Seq<u8>, ExtensionWriteError> {
    if ds.len() == 0 {
        Err(ExtensionWriteError::CtaPayloadTooShort { tag: 1, length: 0, minimum: 3 })
    } else if spec_first_audio_error(ds, ds.len() as int) is Some {
        Err(spec_first_audio_error(ds, ds.len() as int)->0)
    } else {
        Ok(spec_audio_bytes(ds))
    }
}

/// `1` for true, `0` for false.
pub open spec fn spec_flag(b: bool) -> int {
    if b { 1 } else { 0 }
}

/// The byte of a (valid) video capability view.
pub open spec fn spec_video_capability_byte(c: CtaVideoCapability) -> u8 {
    (spec_flag(c.selectable_quantization_range_rgb) * 128 + spec_flag(c.selectable_quantization_range_ycc) * 64
        + c.pt_behavior * 16 + c.it_behavior * 4 + c.ce_behavior) as u8
}

/// The flag byte of a colorimetry view.
pub open spec fn spec_colorimetry_byte(c: CtaColorimetry) -> u8 {
    (spec_flag(c.xvycc601) + spec_flag(c.xvycc709) * 2 + spec_flag(c.sycc601) * 4 + spec_flag(c.adobe_ycc601) * 8
        + spec_flag(c.adobe_rgb) * 16 + spec_flag(c.bt2020_cycc) * 32 + spec_flag(c.bt2020_ycc) * 64 + spec_flag(
        c.bt2020_rgb,
    ) * 128) as u8
}

/// The data block written for a typed view, or the first reason it cannot
/// be written.
pub open spec fn spec_to_data_block(v: CtaDataBlockView) -> Result<(u8, Seq<u8>), ExtensionWriteError> {
    match spec_view_block(v) {
        Err(e) => Err(e),
        Ok(b) => match spec_cta_block_error(b.0, b.1) {
            Some(e) => Err(e),
            None => Ok(b),
        },
    }
}

fn vendor_payload_template(raw: &Vec<u8>, e0: u8, e1: u8, e2: u8) -> (res: Result<Vec<u8>, ExtensionWriteError>)
    ensures
        res matches Ok(p) ==> spec_vendor_template(raw@, e0, e1, e2) == Ok::<Seq<u8>, ExtensionWriteError>(p@),
        res matches Err(e) ==> spec_vendor_template(raw@, e0, e1, e2) == Err::<Seq<u8>, ExtensionWriteError>(e),
{
    if raw.len() < 3 {
        return Err(ExtensionWriteError::CtaPayloadTooShort { tag: 3, length: raw.len(), minimum: 3 });
    }
    if raw[0] != e0 || raw[1] != e1 || raw[2] != e2 {
        return Err(ExtensionWriteError::InvalidCtaVendorOui { expected: [e0, e1, e2], actual: [raw[0], raw[1], raw[2]] });
    }
    let p = copy_range(raw.as_slice(), 0, raw.len());
    assert(raw@.subrange(0, raw@.len() as int) =~= raw@);
    Ok(p)
}

fn write_vendor_byte(payload: &mut Vec<u8>, raw: &Vec<u8>, offset: usize, value: u8, default: u8) -> (res: Result<
    (),
    ExtensionWriteError,
>)
    requires
        old(payload)@.len() == raw@.len(),
        offset < 16,
    ensures
        res is Ok ==> spec_vendor_byte(old(payload)@, raw@, offset as int, value, default) == Ok::<
            Seq<u8>,
            ExtensionWriteError,
        >(final(payload)@),
        res matches Err(e) ==> spec_vendor_byte(old(payload)@, raw@, offset as int, value, default) == Err::<
            Seq<u8>,
            ExtensionWriteError,
        >(e),
        final(payload)@.len() == raw@.len(),
{
    let current = get_or(raw, offset, default);
    if current != value {
        if raw.len() <= offset {
            return Err(ExtensionWriteError::CtaPayloadTooShort { tag: 3, length: raw.len(), minimum: offset + 1 });
        }
        payload.set(offset, value);
    }
    Ok(())
}

fn write_vendor_optional_byte(
    payload: &mut Vec<u8>,
    raw: &Vec<u8>,
    offset: usize,
    value: Option<u8>,
    field: &'static str,
) -> (res: Result<(), ExtensionWriteError>)
    requires
        old(payload)@.len() == raw@.len(),
        offset < 16,
    ensures
        res is Ok ==> spec_vendor_opt(old(payload)@, raw@, offset as int, value, field) == Ok::<
            Seq<u8>,
            ExtensionWriteError,
        >(final(payload)@),
        res matches Err(e) ==> spec_vendor_opt(old(payload)@, raw@, offset as int, value, field) == Err::<
            Seq<u8>,
            ExtensionWriteError,
        >(e),
        final(payload)@.len() == raw@.len(),
{
    if value.is_none() && offset < raw.len() {
        return Err(ExtensionWriteError::InvalidCtaVendorField { field });
    }
    let current = get_opt(raw, offset);
    if current != value {
        if raw.len() <= offset {
            return Err(ExtensionWriteError::CtaPayloadTooShort { tag: 3, length: raw.len(), minimum: offset + 1 });
        }
        match value {
            Some(v) => payload.set(offset, v),
            None => {},
        }
    }
    Ok(())
}

fn write_vendor_rate(
    payload: &mut Vec<u8>,
    raw: &Vec<u8>,
    offset: usize,
    value: Option<u16>,
    field: &'static str,
) -> (res: Result<(), ExtensionWriteError>)
    requires
        old(payload)@.len() == raw@.len(),
        offset < 16,
    ensures
        res is Ok ==> spec_vendor_rate(old(payload)@, raw@, offset as int, value, field) == Ok::<
            Seq<u8>,
            ExtensionWriteError,
        >(final(payload)@),
        res matches Err(e) ==> spec_vendor_rate(old(payload)@, raw@, offset as int, value, field) == Err::<
            Seq<u8>,
            ExtensionWriteError,
        >(e),
        final(payload)@.len() == raw@.len(),
{
    let encoded: u8 = match value {
        None => 0,
        Some(rate) => {
            if rate != 0 && rate % 5 == 0 && rate / 5 <= 255 {
                (rate / 5) as u8
            } else {
                return Err(ExtensionWriteError::InvalidCtaVendorRate { field, value: rate });
            }
        },
    };
    let decoded = get_rate(raw, offset);
    if value != decoded {
        if raw.len() <= offset {
            return Err(ExtensionWriteError::CtaPayloadTooShort { tag: 3, length: raw.len(), minimum: offset + 1 });
        }
        payload.set(offset, encoded);
    }
    Ok(())
}

fn vendor_payload(vs: &CtaVendorSpecificBlock) -> (res: Result<Vec<u8>, ExtensionWriteError>)
    ensures
        res matches Ok(p) ==> spec_vendor_payload(*vs) == Ok::<Seq<u8>, ExtensionWriteError>(p@),
        res matches Err(e) ==> spec_vendor_payload(*vs) == Err::<Seq<u8>, ExtensionWriteError>(e),
{
    match vs {
        CtaVendorSpecificBlock::Hdmi14b { physical_address, max_tmds_clock_mhz, deep_color_flags, feature_flags, raw } => {
            let mut payload = vendor_payload_template(raw, 0x03, 0x0C, 0x00)?;
            if raw.len() < 5 {
                return Err(ExtensionWriteError::CtaPayloadTooShort { tag: 3, length: raw.len(), minimum: 5 });
            }
            write_vendor_byte(&mut payload, raw, 3, physical_address[0], 0)?;
            write_vendor_byte(&mut payload, raw, 4, physical_address[1], 0)?;
            write_vendor_rate(&mut payload, raw, 6, *max_tmds_clock_mhz, "max_tmds_clock_mhz")?;
            write_vendor_byte(&mut payload, raw, 5, *deep_color_flags, 0)?;
            write_vendor_byte(&mut payload, raw, 7, *feature_flags, 0)?;
            Ok(payload)
        },
        CtaVendorSpecificBlock::HdmiForum {
            version,
            max_tmds_character_rate_mhz,
            scdc_flags,
            deep_color_420_flags,
            raw,
        } => {
            let mut payload = vendor_payload_template(raw, 0xD8, 0x5D, 0xC4)?;
            write_vendor_byte(&mut payload, raw, 3, *version, 1)?;
            write_vendor_rate(&mut payload, raw, 4, *max_tmds_character_rate_mhz, "max_tmds_character_rate_mhz")?;
            write_vendor_byte(&mut payload, raw, 5, *scdc_flags, 0)?;
            write_vendor_byte(&mut payload, raw, 7, *deep_color_420_flags, 0)?;
            Ok(payload)
        },
        CtaVendorSpecificBlock::AmdFreeSync { version, min_refresh_hz, max_refresh_hz, flags, raw } => {
            let mut payload = vendor_payload_template(raw, 0x1A, 0x00, 0x00)?;
            write_vendor_byte(&mut payload, raw, 3, *version, 1)?;
            write_vendor_optional_byte(&mut payload, raw, 4, *min_refresh_hz, "min_refresh_hz")?;
            write_vendor_optional_byte(&mut payload, raw, 5, *max_refresh_hz, "max_refresh_hz")?;
            write_vendor_byte(&mut payload, raw, 6, *flags, 0)?;
            Ok(payload)
        },
        CtaVendorSpecificBlock::DolbyVision { version, raw } => {
            let mut payload = vendor_payload_template(raw, 0x46, 0xD0, 0x00)?;
            write_vendor_byte(&mut payload, raw, 3, *version, 0)?;
            Ok(payload)
        },
        CtaVendorSpecificBlock::Other { oui, payload } => {
            let mut encoded: Vec<u8> = Vec::new();
            encoded.push(oui[0]);
            encoded.push(oui[1]);
            encoded.push(oui[2]);
            let mut i: usize = 0;
            while i < payload.len()
                invariant
                    i <= payload@.len(),
                    encoded@ == oui@ + payload@.take(i as int),
                decreases payload@.len() - i,
            {
                encoded.push(payload[i]);
                assert(payload@.take(i + 1) =~= payload@.take(i as int).push(payload@[i as int]));
                i = i + 1;
            }
            assert(payload@.take(i as int) =~= payload@);
            Ok(encoded)
        },
    }
}

proof fn lemma_first_bad_vic_keeps(m: Seq<CtaVideoMode>, n: int, k: int)
    requires
        0 <= n <= k,
        spec_first_bad_vic(m, n) is Some,
    ensures
        spec_first_bad_vic(m, k) == spec_first_bad_vic(m, n),
    decreases k - n,
{
    if k > n {
        lemma_first_bad_vic_keeps(m, n, k - 1);
    }
}

proof fn lemma_first_audio_error_keeps(d: Seq<CtaAudioDescriptor>, n: int, k: int)
    requires
        0 <= n <= k,
        spec_first_audio_error(d, n) is Some,
    ensures
        spec_first_audio_error(d, k) == spec_first_audio_error(d, n),
    decreases k - n,
{
    if k > n {
        lemma_first_audio_error_keeps(d, n, k - 1);
    }
}

pub(crate) fn push_all(dst: &mut Vec<u8>, src: &Vec<u8>, from: usize)
    requires
        from <= src@.len(),
    ensures
        final(dst)@ == old(dst)@ + src@.skip(from as int),
{
    let ghost start = dst@;
    let mut i = from;
    while i < src.len()
        invariant
            from <= i <= src@.len(),
            dst@ == start + src@.subrange(from as int, i as int),
        decreases src@.len() - i,
    {
        dst.push(src[i]);
        assert(src@.subrange(from as int, i + 1) =~= src@.subrange(from as int, i as int).push(src@[i as int]));
        i = i + 1;
    }
    assert(src@.subrange(from as int, i as int) =~= src@.skip(from as int));
}

fn encode_video(modes: &Vec<CtaVideoMode>) -> (res: Result<Vec<u8>, ExtensionWriteError>)
    ensures
        res matches Ok(p) ==> spec_video_payload(modes@) == Ok::<Seq<u8>, ExtensionWriteError>(p@),
        res matches Err(e) ==> spec_video_payload(modes@) == Err::<Seq<u8>, ExtensionWriteError>(e),
{
    if modes.len() == 0 {
        return Err(ExtensionWriteError::CtaPayloadTooShort { tag: 2, length: 0, minimum: 1 });
    }
    let mut payload: Vec<u8> = Vec::new();
    let mut index: usize = 0;
    while index < modes.len()
        invariant
            index <= modes@.len(),
            modes@.len() > 0,
                spec_first_bad_vic(modes@, index as int) is None,
            payload@ == spec_video_bytes(modes@.take(index as int)),
        decreases modes@.len() - index,
    {
        let mode = modes[index];
        if !(1 <= mode.vic && mode.vic <= 127) {
            proof {
                lemma_first_bad_vic_keeps(modes@, index + 1, modes@.len() as int);
            }
            return Err(ExtensionWriteError::InvalidCtaVideoCode { index, vic: mode.vic });
        }
        payload.push(mode.vic + if mode.native { 128 } else { 0 });
        assert(spec_video_bytes(modes@.take(index + 1)) =~= spec_video_bytes(modes@.take(index as int)).push(
            (mode.vic + if mode.native { 128int } else { 0int }) as u8,
        ));
        index = index + 1;
    }
    assert(modes@.take(index as int) =~= modes@);
    Ok(payload)
}

fn encode_audio(descriptors: &Vec<CtaAudioDescriptor>) -> (res: Result<Vec<u8>, ExtensionWriteError>)
    ensures
        res matches Ok(p) ==> spec_audio_payload(descriptors@) == Ok::<Seq<u8>, ExtensionWriteError>(p@),
        res matches Err(e) ==> spec_audio_payload(descriptors@) == Err::<Seq<u8>, ExtensionWriteError>(e),
{
    if descriptors.len() == 0 {
        return Err(ExtensionWriteError::CtaPayloadTooShort { tag: 1, length: 0, minimum: 3 });
    }
    let mut payload: Vec<u8> = Vec::new();
    let mut index: usize = 0;
    while index < descriptors.len()
        invariant
            index <= descriptors@.len(),
            descriptors@.len() > 0,
                spec_first_audio_error(descriptors@, index as int) is None,
            payload@ == spec_audio_bytes(descriptors@.take(index as int)),
        decreases descriptors@.len() - index,
    {
        let d = descriptors[index];
        if !(1 <= d.format && d.format <= 15) {
            proof {
                lemma_first_audio_error_keeps(descriptors@, index + 1, descriptors@.len() as int);
            }
            return Err(ExtensionWriteError::InvalidCtaAudioFormat { index, format: d.format });
        }
        if !(1 <= d.channels && d.channels <= 8) {
            proof {
                lemma_first_audio_error_keeps(descriptors@, index + 1, descriptors@.len() as int);
            }
            return Err(ExtensionWriteError::InvalidCtaAudioChannels { index, channels: d.channels });
        }
        if d.sample_rates >= 128 {
            proof {
                lemma_first_audio_error_keeps(descriptors@, index + 1, descriptors@.len() as int);
            }
            return Err(ExtensionWriteError::InvalidCtaAudioSampleRates { index, sample_rates: d.sample_rates });
        }
        payload.push(d.format * 8 + (d.channels - 1));
        payload.push(d.sample_rates);
        payload.push(d.format_specific);
        assert(spec_audio_bytes(descriptors@.take(index + 1)) =~= spec_audio_bytes(descriptors@.take(index as int))
            + seq![(d.format * 8 + d.channels - 1) as u8, d.sample_rates, d.format_specific]);
        index = index + 1;
    }
    assert(descriptors@.take(index as int) =~= descriptors@);
    Ok(payload)
}

fn encode_hdr(
    eotf_flags: u8,
    metadata_descriptor_flags: u8,
    max_luminance: Option<u8>,
    max_frame_average_luminance: Option<u8>,
    min_luminance: Option<u8>,
    raw: &Vec<u8>,
) -> (res: Result<Vec<u8>, ExtensionWriteError>)
    ensures
        res matches Ok(p) ==> spec_hdr_payload(
            eotf_flags,
            metadata_descriptor_flags,
            max_luminance,
            max_frame_average_luminance,
            min_luminance,
            raw@,
        ) == Ok::<Seq<u8>, ExtensionWriteError>(p@),
        res matches Err(e) ==> spec_hdr_payload(
            eotf_flags,
            metadata_descriptor_flags,
            max_luminance,
            max_frame_average_luminance,
            min_luminance,
            raw@,
        ) == Err::<Seq<u8>, ExtensionWriteError>(e),
{
    if raw.len() < 3 || raw[0] != 0x06 {
        return Err(
            ExtensionWriteError::InvalidCtaExtendedPayload {
                expected_tag: 0x06,
                actual_tag: get_opt(raw, 0),
                length: raw.len(),
            },
        );
    }
    if max_luminance.is_none() && (max_frame_average_luminance.is_some() || min_luminance.is_some())
        || max_frame_average_luminance.is_none() && min_luminance.is_some() {
        return Err(ExtensionWriteError::InvalidCtaHdrLuminanceOrder);
    }
    let typed_prefix_length: usize = 3 + (if max_luminance.is_some() { 1usize } else { 0usize }) + (
    if max_frame_average_luminance.is_some() { 1usize } else { 0usize }) + (if min_luminance.is_some() {
        1usize
    } else {
        0usize
    });
    if raw.len() > 6 && typed_prefix_length < 6 {
        return Err(ExtensionWriteError::InvalidCtaHdrRawTail);
    }
    let mut payload: Vec<u8> = Vec::new();
    payload.push(0x06);
    payload.push(eotf_flags);
    payload.push(metadata_descriptor_flags);
    let ghost mut want = seq![0x06u8, eotf_flags, metadata_descriptor_flags];
    assert(payload@ =~= want);
    if let Some(value) = max_luminance {
        payload.push(value);
    }
    proof {
        want = want + spec_opt_bytes(max_luminance);
    }
    assert(payload@ =~= want);
    if let Some(value) = max_frame_average_luminance {
        payload.push(value);
    }
    proof {
        want = want + spec_opt_bytes(max_frame_average_luminance);
    }
    assert(payload@ =~= want);
    if let Some(value) = min_luminance {
        payload.push(value);
    }
    proof {
        want = want + spec_opt_bytes(min_luminance);
    }
    assert(payload@ =~= want);
    if raw.len() > 6 {
        push_all(&mut payload, raw, 6);
    } else {
        assert(payload@ =~= want + Seq::<u8>::empty());
    }
    Ok(payload)
}

fn colorimetry_byte(c: &CtaColorimetry) -> (b: u8)
    ensures
        b == spec_colorimetry_byte(*c),
{
    let mut f: u8 = 0;
    if c.xvycc601 {
        f = f + 1;
    }
    assert(f == spec_flag(c.xvycc601));
    if c.xvycc709 {
        f = f + 2;
    }
    assert(f == spec_flag(c.xvycc601) + spec_flag(c.xvycc709) * 2);
    if c.sycc601 {
        f = f + 4;
    }
    assert(f == spec_flag(c.xvycc601) + spec_flag(c.xvycc709) * 2 + spec_flag(c.sycc601) * 4);
    if c.adobe_ycc601 {
        f = f + 8;
    }
    assert(f == spec_flag(c.xvycc601) + spec_flag(c.xvycc709) * 2 + spec_flag(c.sycc601) * 4 + spec_flag(
        c.adobe_ycc601,
    ) * 8);
    if c.adobe_rgb {
        f = f + 16;
    }
    if c.bt2020_cycc {
        f = f + 32;
    }
    if c.bt2020_ycc {
        f = f + 64;
    }
    if c.bt2020_rgb {
        f = f + 128;
    }
    f
}

fn video_capability_byte(c: &CtaVideoCapability) -> (b: u8)
    requires
        c.pt_behavior <= 3,
        c.it_behavior <= 3,
        c.ce_behavior <= 3,
    ensures
        b == spec_video_capability_byte(*c),
{
    let value: u8 = (if c.selectable_quantization_range_rgb { 128u8 } else { 0u8 }) + (
    if c.selectable_quantization_range_ycc { 64u8 } else { 0u8 }) + c.pt_behavior * 16 + c.it_behavior * 4
        + c.ce_behavior;
    value
}

fn extended_block(e: &CtaExtendedDataBlockView) -> (res: Result<CtaDataBlock, ExtensionWriteError>)
    ensures
        res matches Ok(b) ==> spec_extended_block(*e) == Ok::<(u8, Seq<u8>), ExtensionWriteError>((b.tag, b.payload@)),
        res matches Err(x) ==> spec_extended_block(*e) == Err::<(u8, Seq<u8>), ExtensionWriteError>(x),
{
    match e {
        CtaExtendedDataBlockView::Unknown { extended_tag, payload } => {
            let mut encoded: Vec<u8> = Vec::new();
            encoded.push(*extended_tag);
            push_all(&mut encoded, payload, 0);
            assert(payload@.skip(0) =~= payload@);
            Ok(CtaDataBlock { tag: 7, payload: encoded })
        },
        CtaExtendedDataBlockView::AdaptiveSync { raw } => {
            let first = get_opt(raw, 0);
            if first != Some(0x1Au8) {
                return Err(
                    ExtensionWriteError::InvalidCtaExtendedPayload { expected_tag: 0x1A, actual_tag: first, length: raw.len() },
                );
            }
            let copy = copy_range(raw.as_slice(), 0, raw.len());
            assert(raw@.subrange(0, raw@.len() as int) =~= raw@);
            Ok(CtaDataBlock { tag: 7, payload: copy })
        },
        CtaExtendedDataBlockView::VideoCapability(c) => {
            if c.pt_behavior > 3 {
                return Err(ExtensionWriteError::InvalidCtaField { field: "PT", value: c.pt_behavior, maximum: 3 });
            }
            if c.it_behavior > 3 {
                return Err(ExtensionWriteError::InvalidCtaField { field: "IT", value: c.it_behavior, maximum: 3 });
            }
            if c.ce_behavior > 3 {
                return Err(ExtensionWriteError::InvalidCtaField { field: "CE", value: c.ce_behavior, maximum: 3 });
            }
            let value = video_capability_byte(c);
            let mut payload: Vec<u8> = Vec::new();
            payload.push(0x00);
            payload.push(value);
            assert(payload@ =~= seq![0x00u8, spec_video_capability_byte(*c)]);
            Ok(CtaDataBlock { tag: 7, payload })
        },
        CtaExtendedDataBlockView::Colorimetry(c) => {
            if c.md_flags > 3 {
                return Err(ExtensionWriteError::InvalidCtaField { field: "MD", value: c.md_flags, maximum: 3 });
            }
            let flags = colorimetry_byte(c);
            let mut payload: Vec<u8> = Vec::new();
            payload.push(0x05);
            payload.push(flags);
            payload.push(c.md_flags);
            assert(payload@ =~= seq![0x05u8, spec_colorimetry_byte(*c), c.md_flags]);
            Ok(CtaDataBlock { tag: 7, payload })
        },
        CtaExtendedDataBlockView::HdrStaticMetadata {
            eotf_flags,
            metadata_descriptor_flags,
            max_luminance,
            max_frame_average_luminance,
            min_luminance,
            raw,
        } => {
            let payload = encode_hdr(
                *eotf_flags,
                *metadata_descriptor_flags,
                *max_luminance,
                *max_frame_average_luminance,
                *min_luminance,
                raw,
            )?;
            Ok(CtaDataBlock { tag: 7, payload })
        },
    }
}

fn view_block(v: &CtaDataBlockView) -> (res: Result<CtaDataBlock, ExtensionWriteError>)
    ensures
        res matches Ok(b) ==> spec_view_block(*v) == Ok::<(u8, Seq<u8>), ExtensionWriteError>((b.tag, b.payload@)),
        res matches Err(e) ==> spec_view_block(*v) == Err::<(u8, Seq<u8>), ExtensionWriteError>(e),
{
    match v {
        CtaDataBlockView::Video { modes } => {
            let payload = encode_video(modes)?;
            Ok(CtaDataBlock { tag: 2, payload })
        },
        CtaDataBlockView::Audio { descriptors } => {
            let payload = encode_audio(descriptors)?;
            Ok(CtaDataBlock { tag: 1, payload })
        },
        CtaDataBlockView::SpeakerAllocation(sp) => {
            let mut payload: Vec<u8> = Vec::new();
            payload.push(sp.raw_mask[0]);
            payload.push(sp.raw_mask[1]);
            payload.push(sp.raw_mask[2]);
            assert(payload@ =~= sp.raw_mask@);
            Ok(CtaDataBlock { tag: 4, payload })
        },
        CtaDataBlockView::Unknown { tag, payload } => {
            let copy = copy_range(payload.as_slice(), 0, payload.len());
            assert(payload@.subrange(0, payload@.len() as int) =~= payload@);
            Ok(CtaDataBlock { tag: *tag, payload: copy })
        },
        CtaDataBlockView::VendorSpecific(vs) => {
            let payload = vendor_payload(vs)?;
            Ok(CtaDataBlock { tag: 3, payload })
        },
        CtaDataBlockView::Extended(e) => extended_block(e),
    }
}

impl CtaDataBlockView {
    /// Encode a typed CTA view without discarding fields represented by the
    /// view.
    pub fn to_data_block(&self) -> (res: Result<CtaDataBlock, ExtensionWriteError>)
        ensures
            res matches Ok(b) ==> spec_to_data_block(*self) == Ok::<(u8, Seq<u8>), ExtensionWriteError>(
                (b.tag, b.payload@),
            ),
            res matches Err(e) ==> spec_to_data_block(*self) == Err::<(u8, Seq<u8>), ExtensionWriteError>(e),
    {
        let block = view_block(self)?;
        if block.tag > 7 {
            return Err(ExtensionWriteError::InvalidCtaTag { tag: block.tag });
        }
        if block.payload.len() > 31 {
            return Err(ExtensionWriteError::CtaPayloadTooLong { length: block.payload.len(), maximum: 31 });
        }
        Ok(block)
    }
}

} // verus!
