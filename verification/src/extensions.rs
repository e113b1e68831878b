//! Views and constructors for EDID extension blocks: CTA-861 data-block
//! collections and DisplayID sections.
use vstd::prelude::*;
use crate::edid::{Edid, EdidBlock, DecodedDtd, spec_block_views, spec_collect_progressive, spec_collect_flagged, spec_read_progressive, byte_sum, spec_decode_dtd, decode_dtd_bytes};
use crate::error::DtdError;
use crate::timing::{DetailedTiming, spec_dtd_error, validate_dtd};
use crate::edid::{spec_encode_dtd, encode_dtd};
use crate::metadata::{spec_with_checksum, lemma_with_checksum_sum};
use cta::{spec_cta_views, spec_cta_block_error, spec_cta_block_bytes};

pub mod cta;
pub mod cta_layout;
pub mod cta_roundtrip;
pub mod display_id;
pub mod display_id_roundtrip;
pub mod embedded_cta;
pub mod ordering;

pub use cta::{
    CtaAudioDescriptor, CtaColorimetry, CtaDataBlock, CtaDataBlockView, CtaExtendedDataBlockView,
    CtaHeader, CtaSpeakerAllocation, CtaVendorSpecificBlock, CtaVideoCapability, CtaVideoMode,
};
pub use display_id::{
    DisplayIdAspectRatio, DisplayIdDataBlock, DisplayIdDataBlockView, DisplayIdDetailedTiming,
    DisplayIdDisplayParameters, DisplayIdDynamicVideoTimingRange, DisplayIdEnumeratedTiming,
    DisplayIdFormulaTiming, DisplayIdHeader, DisplayIdInterfaceFeatures, DisplayIdOrdering,
    DisplayIdProductIdentification, DisplayIdStereo3d, DisplayIdTiledDisplayTopology,
    DisplayIdVideoTimingRangeLimits,
};

verus! {

/// Recognized kind of an EDID extension block.
#[derive(Clone, Copy, Debug, PartialEq, Eq)]
pub enum ExtensionKind {
    /// CTA-861 extension with its revision.
    Cta861 {
        /// CTA extension revision.
        revision: u8,
    },
    /// DisplayID extension with its version byte.
    DisplayId {
        /// DisplayID version byte.
        version: u8,
    },
    /// Unknown extension tag, preserved as raw bytes.
    Unknown {
        /// Extension tag byte.
        tag: u8,
    },
}

impl ExtensionKind {
    /// Return the CTA-861 revision when this is a CTA extension.
    pub fn cta_revision(self) -> (r: Option<u8>)
        ensures
            r == (match self {
                ExtensionKind::Cta861 { revision } => Some(revision),
                _ => None,
            }),
    {
        match self {
            Self::Cta861 { revision } => Some(revision),
            _ => None,
        }
    }

    /// Return the DisplayID version when this is a DisplayID extension.
    pub fn display_id_version(self) -> (r: Option<u8>)
        ensures
            r == (match self {
                ExtensionKind::DisplayId { version } => Some(version),
                _ => None,
            }),
    {
        match self {
            Self::DisplayId { version } => Some(version),
            _ => None,
        }
    }

    /// Return the raw extension tag when this is an unknown extension.
    pub fn unknown_tag(self) -> (r: Option<u8>)
        ensures
            r == (match self {
                ExtensionKind::Unknown { tag } => Some(tag),
                _ => None,
            }),
    {
        match self {
            Self::Unknown { tag } => Some(tag),
            _ => None,
        }
    }
}

/// Errors returned while encoding EDID extension structures.
#[derive(Clone, Debug, PartialEq, Eq)]
#[non_exhaustive]
#[allow(inconsistent_fields)]
pub enum ExtensionWriteError {
    /// CTA data-block tag does not fit its three-bit field.
    InvalidCtaTag {
        /// Supplied tag.
        tag: u8,
    },
    /// CTA data-block payload exceeds its five-bit length field.
    CtaPayloadTooLong {
        /// Supplied length.
        length: usize,
        /// Maximum length.
        maximum: usize,
    },
    /// A CTA data block is shorter than the typed representation requires.
    CtaPayloadTooShort {
        /// CTA data-block tag.
        tag: u8,
        /// Supplied payload length.
        length: usize,
        /// Minimum representable payload length.
        minimum: usize,
    },
    /// A raw extended CTA payload has the wrong extended tag or is empty.
    InvalidCtaExtendedPayload {
        /// Expected extended tag.
        expected_tag: u8,
        /// Actual first byte, if present.
        actual_tag: Option<u8>,
        /// Supplied payload length.
        length: usize,
    },
    /// HDR luminance fields must be present as a contiguous prefix.
    InvalidCtaHdrLuminanceOrder,
    /// An HDR raw tail cannot be preserved after shortening its luminance prefix.
    InvalidCtaHdrRawTail,
    /// A CTA Video Identification Code cannot fit its seven-bit field.
    InvalidCtaVideoCode {
        /// Zero-based mode index.
        index: usize,
        /// Supplied VIC.
        vic: u8,
    },
    /// A CTA audio format cannot fit its four-bit field.
    InvalidCtaAudioFormat {
        /// Zero-based descriptor index.
        index: usize,
        /// Supplied format.
        format: u8,
    },
    /// A CTA audio channel count is outside 1..=8.
    InvalidCtaAudioChannels {
        /// Zero-based descriptor index.
        index: usize,
        /// Supplied channel count.
        channels: u8,
    },
    /// A CTA audio descriptor uses the reserved sample-rate bit.
    InvalidCtaAudioSampleRates {
        /// Zero-based descriptor index.
        index: usize,
        /// Supplied mask.
        sample_rates: u8,
    },
    /// A CTA bitfield value is outside its encoded range.
    InvalidCtaField {
        /// Field name.
        field: &'static str,
        /// Supplied value.
        value: u8,
        /// Maximum value.
        maximum: u8,
    },
    /// A known CTA vendor-specific block has a different OUI than its typed variant.
    InvalidCtaVendorOui {
        /// Expected OUI in little-endian byte order.
        expected: [u8; 3],
        /// OUI found in the raw payload.
        actual: [u8; 3],
    },
    /// A vendor-specific TMDS rate is not representable in its five-MHz byte field.
    InvalidCtaVendorRate {
        /// Typed field name.
        field: &'static str,
        /// Supplied rate in MHz.
        value: u16,
    },
    /// A typed vendor-specific field cannot be represented by the raw payload shape.
    InvalidCtaVendorField {
        /// Typed field name.
        field: &'static str,
    },
    /// Minimum refresh rate exceeds maximum refresh rate or is zero.
    InvalidRefreshRateRange {
        /// Minimum refresh rate in Hz.
        min_refresh_hz: u8,
        /// Maximum refresh rate in Hz.
        max_refresh_hz: u8,
    },
    /// The complete CTA data-block collection does not fit before byte 127.
    CtaDataBlocksTooLong {
        /// Supplied collection length.
        length: usize,
        /// Maximum collection length.
        maximum: usize,
    },
    /// The CTA DTD collection exceeds available slots.
    CtaDtdsTooLong {
        /// Supplied DTD count.
        count: usize,
        /// Maximum slot count.
        maximum: usize,
    },
    /// A CTA DTD cannot be represented.
    CtaDtdInvalid {
        /// Zero-based DTD index.
        index: usize,
        /// Underlying error.
        source: DtdError,
    },
    /// CTA's DTD offset is outside the block or does not match its layout.
    InvalidDtdOffset {
        /// Raw CTA DTD offset byte.
        offset: usize,
    },
    /// The complete DisplayID payload exceeds the available section space.
    DisplayIdPayloadTooLong {
        /// Supplied payload length.
        length: usize,
        /// Maximum representable payload length.
        maximum: usize,
    },
    /// The DisplayID payload is shorter than a typed representation requires.
    DisplayIdPayloadTooShort {
        /// DisplayID data-block tag.
        tag: u8,
        /// Supplied payload length.
        length: usize,
        /// Minimum representable payload length.
        minimum: usize,
    },
    /// A DisplayID timing field cannot be represented after the encoded minus-one transform.
    InvalidDisplayIdTimingField {
        /// DisplayID data-block tag.
        tag: u8,
        /// Zero-based timing index.
        index: usize,
        /// Field name.
        field: &'static str,
        /// Supplied value.
        value: u32,
        /// Largest representable decoded value.
        maximum: u32,
    },
    /// A Type I DisplayID pixel clock is not an integral number of 10-kHz units.
    InvalidDisplayIdPixelClock {
        /// Zero-based timing index.
        index: usize,
        /// Supplied pixel clock in kHz.
        value: u32,
    },
    /// A DisplayID data-block tag cannot be emitted by the canonical typed encoder.
    InvalidDisplayIdTag {
        /// Supplied tag.
        tag: u8,
    },
    /// An embedded CTA block could not be decoded and re-encoded through its typed view.
    InvalidDisplayIdEmbeddedCta {
        /// Underlying CTA parsing error.
        source: ExtensionError,
    },
    /// DisplayID Dynamic Video Timing Range has an invalid range (min > max or out of range).
    InvalidDisplayIdDynamicRange {
        /// DisplayID data-block tag.
        tag: u8,
        /// Detail description of the invalid range constraint.
        reason: &'static str,
    },
    /// A DisplayID interface feature field is out of its representable range.
    InvalidDisplayIdFeatureField {
        /// Field name.
        field: &'static str,
        /// Supplied value.
        value: u8,
        /// Maximum representable value.
        maximum: u8,
    },
    /// A DisplayID product-identification field is out of its representable range.
    InvalidDisplayIdProductField {
        /// Field name.
        field: &'static str,
        /// Supplied value.
        value: u32,
        /// Maximum representable value.
        maximum: u32,
    },
    /// A DisplayID data-block layout cannot be re-read while re-ordering.
    InvalidDisplayIdLayout {
        /// Underlying read error.
        source: ExtensionError,
    },
    /// An HDR dynamic metadata entry cannot be represented.
    InvalidHdrDynamicMetadataEntry {
        /// Zero-based entry index.
        index: usize,
        /// Reason the entry is not representable.
        reason: &'static str,
    },
    /// The CTA extension has a malformed data-block collection or DTD layout.
    InvalidCtaLayout {
        /// Underlying structured CTA parsing error.
        source: ExtensionError,
    },
    /// The target block is not a CTA-861 extension.
    NotCta861,
    /// The target block is not a DisplayID extension.
    NotDisplayId,
}

/// Errors returned while reading an extension's structured view.
#[derive(Clone, Debug, PartialEq, Eq)]
#[non_exhaustive]
#[allow(inconsistent_fields)]
pub enum ExtensionError {
    /// The block is not a CTA-861 extension.
    NotCta861,
    /// The block is not a DisplayID extension.
    NotDisplayId,
    /// The DisplayID payload cannot fit inside one EDID extension block.
    InvalidDisplayIdLength {
        /// Declared number of data-block bytes.
        length: usize,
        /// Maximum representable number of data-block bytes.
        maximum: usize,
    },
    /// The DisplayID section checksum is invalid.
    InvalidDisplayIdChecksum {
        /// Section byte sum modulo 256.
        sum: u8,
    },
    /// A DisplayID data-block declaration exceeds the bounded section.
    TruncatedDisplayIdDataBlock {
        /// Offset of the data-block header within the EDID block.
        offset: usize,
        /// DisplayID data-block tag.
        tag: u8,
        /// Declared payload length.
        length: usize,
        /// Payload bytes available before the section checksum.
        available: usize,
    },
    /// A known DisplayID data block has an unsupported payload shape.
    InvalidDisplayIdDataBlockLength {
        /// DisplayID data-block tag.
        tag: u8,
        /// Actual payload length.
        length: usize,
        /// Minimum payload length for the typed view.
        minimum: usize,
        /// Required entry multiple, or zero when no multiple applies.
        multiple: usize,
    },
    /// A DisplayID section ends with fewer than three bytes for a block header.
    TruncatedDisplayIdDataBlockHeader {
        /// Offset where the incomplete header starts.
        offset: usize,
        /// Header bytes available before the section checksum.
        available: usize,
    },
    /// A CTA data-block header declares bytes beyond the data-block collection.
    TruncatedDataBlock {
        /// Offset of the data-block header within the extension.
        offset: usize,
        /// Declared payload length.
        length: usize,
    },
    /// CTA's DTD offset is outside the block.
    InvalidDtdOffset {
        /// Raw CTA DTD offset byte.
        offset: usize,
    },
    /// CTA data block payload has an invalid audio length.
    InvalidAudioDataBlockLength {
        /// Actual payload length.
        length: usize,
    },
    /// CTA video data block has no SVD entries.
    InvalidVideoDataBlockLength {
        /// Actual payload length.
        length: usize,
    },
    /// CTA video data block contains a zero VIC.
    InvalidVideoCode {
        /// Zero-based payload index.
        index: usize,
    },
    /// CTA extended data block payload is shorter than its known minimum.
    TruncatedExtendedDataBlock {
        /// Extended tag code.
        extended_tag: u8,
        /// Actual payload length including the extended tag.
        length: usize,
        /// Minimum payload length including the extended tag.
        minimum: usize,
    },
    /// CTA vendor-specific data block payload is shorter than 3-byte OUI.
    TruncatedVendorSpecificDataBlock {
        /// Actual payload length.
        length: usize,
    },
    /// CTA speaker allocation data block has an invalid length.
    InvalidSpeakerAllocationDataBlockLength {
        /// Actual payload length.
        length: usize,
    },
    /// A CTA YCbCr 4:2:0 Capability Map references an SVD index that does not exist in the collection.
    Y420CapabilityMapIndexOutOfRange {
        /// SVD index indicated by the capability map (zero-based).
        index: usize,
        /// Total number of SVD entries available in regular Video Data Blocks.
        available_svds: usize,
    },
    /// A CTA YCbCr 4:2:0 Capability Map is present but no Video Data Block exists.
    Y420CapabilityMapMissingVideoDataBlock,
    /// CTA Adaptive-Sync block has an invalid refresh rate range.
    InvalidRefreshRateRange {
        /// Minimum refresh rate in Hz.
        min_refresh_hz: u8,
        /// Maximum refresh rate in Hz.
        max_refresh_hz: u8,
    },
    /// DisplayID Dynamic Video Timing Range block has an invalid range (min > max or out of range).
    InvalidDisplayIdDynamicRange {
        /// DisplayID data-block tag.
        tag: u8,
        /// Detail description of the invalid range constraint.
        reason: &'static str,
    },
    /// A DisplayID interface feature field is out of its representable range.
    InvalidDisplayIdFeatureField {
        /// Field name.
        field: &'static str,
        /// Supplied value.
        value: u8,
        /// Maximum representable value.
        maximum: u8,
    },
    /// A DisplayID product-identification field is out of its representable range.
    InvalidDisplayIdProductField {
        /// Field name.
        field: &'static str,
        /// Supplied value.
        value: u32,
        /// Maximum representable value.
        maximum: u32,
    },
    /// A CTA HDR dynamic metadata entry has an invalid length (type_len < 2).
    InvalidDynamicHdrMetadataLength {
        /// Zero-based entry index.
        index: usize,
        /// Declared entry length byte.
        length: usize,
    },
    /// A CTA HDR dynamic metadata entry is truncated relative to the block payload.
    TruncatedDynamicHdrMetadataEntry {
        /// Zero-based entry index.
        index: usize,
        /// Available bytes.
        length: usize,
        /// Minimum required bytes.
        minimum: usize,
    },
}

/// The ExtensionWriteError reported for a CTA layout that cannot be read.
pub open spec fn spec_map_cta_error(e: ExtensionError) -> ExtensionWriteError {
    match e {
        ExtensionError::NotCta861 => ExtensionWriteError::NotCta861,
        ExtensionError::InvalidDtdOffset { offset } => ExtensionWriteError::InvalidDtdOffset { offset },
        source => ExtensionWriteError::InvalidCtaLayout { source },
    }
}

fn map_cta_extension_write_error(error: ExtensionError) -> (r: ExtensionWriteError)
    ensures
        r == spec_map_cta_error(error),
{
    match error {
        ExtensionError::NotCta861 => ExtensionWriteError::NotCta861,
        ExtensionError::InvalidDtdOffset { offset } => ExtensionWriteError::InvalidDtdOffset { offset },
        source => ExtensionWriteError::InvalidCtaLayout { source },
    }
}

// ---------------------------------------------------------------------------
// CTA data-block collections
// ---------------------------------------------------------------------------

/// The data blocks of `data` from offset `off` on, with offsets in errors
/// counted from `base`; a zero header byte ends the collection when `stop`.
pub open spec fn spec_parse_cta(data: Seq<u8>, off: int, base: int, stop: bool) -> Result<
    Seq<(u8, Seq<u8>)>,
    ExtensionError,
>
    decreases data.len() - off,
{
    if off < 0 || off >= data.len() {
        Ok(Seq::empty())
    } else if data[off] == 0 && stop {
        Ok(Seq::empty())
    } else {
        let tag = data[off] / 32;
        let len = data[off] % 32;
        let end = off + 1 + len;
        if end > data.len() {
            Err(ExtensionError::TruncatedDataBlock { offset: (base + off) as usize, length: len as usize })
        } else {
            match spec_parse_cta(data, end, base, stop) {
                Ok(rest) => Ok(seq![(tag, data.subrange(off + 1, end))] + rest),
                Err(e) => Err(e),
            }
        }
    }
}

/// `acc` followed by the blocks of `r`, or the error of `r`.
pub open spec fn spec_prepend_blocks(acc: Seq<(u8, Seq<u8>)>, r: Result<Seq<(u8, Seq<u8>)>, ExtensionError>) -> Result<
    Seq<(u8, Seq<u8>)>,
    ExtensionError,
> {
    match r {
        Ok(v) => Ok(acc + v),
        Err(e) => Err(e),
    }
}

/// The CTA data-block collection of an extension block.
pub open spec fn spec_cta_blocks(s: Seq<u8>) -> Result<Seq<(u8, Seq<u8>)>, ExtensionError> {
    let end: int = if s[2] == 0 { 127 } else { s[2] as int };
    if s[0] != 0x02 {
        Err(ExtensionError::NotCta861)
    } else if end < 4 || end > 127 {
        Err(ExtensionError::InvalidDtdOffset { offset: end as usize })
    } else {
        spec_parse_cta(s.subrange(4, end), 0, 4, s[2] == 0)
    }
}

pub(crate) fn parse_cta_data_blocks(raw: &[u8], start: usize, end: usize, stop_at_zero_padding: bool) -> (res: Result<
    Vec<CtaDataBlock>,
    ExtensionError,
>)
    requires
        start <= end <= raw@.len(),
    ensures
        res matches Ok(v) ==> spec_parse_cta(raw@.subrange(start as int, end as int), 0, start as int, stop_at_zero_padding)
            == Ok::<Seq<(u8, Seq<u8>)>, ExtensionError>(spec_cta_views(v@)),
        res matches Err(e) ==> spec_parse_cta(raw@.subrange(start as int, end as int), 0, start as int, stop_at_zero_padding)
            == Err::<Seq<(u8, Seq<u8>)>, ExtensionError>(e),
{
    let ghost data = raw@.subrange(start as int, end as int);
    let mut blocks: Vec<CtaDataBlock> = Vec::new();
    let mut offset = start;
    while offset < end
        invariant
            start <= offset <= end <= raw@.len(),
            data == raw@.subrange(start as int, end as int),
            spec_parse_cta(data, 0, start as int, stop_at_zero_padding) == spec_prepend_blocks(
                spec_cta_views(blocks@),
                spec_parse_cta(data, offset - start, start as int, stop_at_zero_padding),
            ),
        decreases end - offset,
    {
        let header = raw[offset];
        if header == 0 && stop_at_zero_padding {
            assert(spec_parse_cta(data, offset - start, start as int, stop_at_zero_padding) == Ok::<
                Seq<(u8, Seq<u8>)>,
                ExtensionError,
            >(Seq::empty()));
            assert(spec_cta_views(blocks@) + Seq::<(u8, Seq<u8>)>::empty() =~= spec_cta_views(blocks@));
            return Ok(blocks);
        }
        let tag = header / 32;
        let length = (header % 32) as usize;
        let payload_start = offset + 1;
        if length > end - payload_start {
            return Err(ExtensionError::TruncatedDataBlock { offset, length });
        }
        let payload_end = payload_start + length;
        let payload = cta::copy_range(raw, payload_start, payload_end);
        proof {
            assert(payload@ =~= data.subrange(offset - start + 1, payload_end - start));
        }
        let ghost before = spec_cta_views(blocks@);
        blocks.push(CtaDataBlock { tag, payload });
        proof {
            assert(spec_cta_views(blocks@) =~= before.push((tag, payload@)));
            let r = spec_parse_cta(data, payload_end - start, start as int, stop_at_zero_padding);
            match r {
                Ok(v) => {
                    assert(before + (seq![(tag, payload@)] + v) =~= before.push((tag, payload@)) + v);
                },
                Err(e) => {},
            }
        }
        offset = payload_end;
    }
    assert(spec_cta_views(blocks@) + Seq::<(u8, Seq<u8>)>::empty() =~= spec_cta_views(blocks@));
    Ok(blocks)
}

/// The capability header of a (valid) CTA extension block.
pub open spec fn spec_cta_header(s: Seq<u8>) -> CtaHeader {
    CtaHeader {
        revision: s[1],
        dtd_offset: s[2],
        native_dtd_count: s[3] % 16,
        underscan: s[3] >= 128,
        basic_audio: (s[3] / 64) % 2 == 1,
        ycbcr_444: (s[3] / 32) % 2 == 1,
        ycbcr_422: (s[3] / 16) % 2 == 1,
    }
}

/// Why the CTA header cannot be read, if it cannot.
pub open spec fn spec_cta_header_error(s: Seq<u8>) -> Option<ExtensionError> {
    if s[0] != 0x02 {
        Some(ExtensionError::NotCta861)
    } else if s[2] != 0 && !(4 <= s[2] <= 127) {
        Some(ExtensionError::InvalidDtdOffset { offset: s[2] as usize })
    } else {
        None
    }
}

/// The detailed timing descriptors stored from offset `off` on, up to the
/// first descriptor with a zero pixel clock or the end of the DTD area.
pub open spec fn spec_cta_dtds(s: Seq<u8>, off: int) -> Seq<DecodedDtd>
    decreases 127 - off,
{
    if off < 0 || off + 18 > 127 || (s[off] == 0 && s[off + 1] == 0) {
        Seq::empty()
    } else {
        (match spec_decode_dtd(s.subrange(off, off + 18)) {
            Some(d) => seq![d],
            None => Seq::empty(),
        }) + spec_cta_dtds(s, off + 18)
    }
}

/// The DTDs of a CTA block, or why they cannot be read.
pub open spec fn spec_cta_dtds_of(s: Seq<u8>) -> Result<Seq<DecodedDtd>, ExtensionError> {
    if s[0] != 0x02 {
        Err(ExtensionError::NotCta861)
    } else if s[2] == 0 {
        Ok(Seq::empty())
    } else if !(4 <= s[2] <= 127) {
        Err(ExtensionError::InvalidDtdOffset { offset: s[2] as usize })
    } else {
        Ok(spec_cta_dtds(s, s[2] as int))
    }
}

/// The timings of the progressive (non-interlaced) descriptors.
pub open spec fn spec_progressive(d: Seq<DecodedDtd>) -> Seq<DetailedTiming>
    decreases d.len(),
{
    if d.len() == 0 {
        Seq::empty()
    } else {
        spec_progressive(d.drop_last()) + if d.last().flags.raw < 0x80 {
            seq![d.last().timing]
        } else {
            Seq::empty()
        }
    }
}

impl EdidBlock {
    /// Identify this block as CTA-861, DisplayID or unknown.
    pub fn extension_kind(&self) -> (k: ExtensionKind)
        ensures
            k == (if self.raw[0] == 0x02 {
                ExtensionKind::Cta861 { revision: self.raw[1] }
            } else if self.raw[0] == 0x70 {
                ExtensionKind::DisplayId { version: self.raw[1] }
            } else {
                ExtensionKind::Unknown { tag: self.raw[0] }
            }),
    {
        if self.raw[0] == 0x02 {
            ExtensionKind::Cta861 { revision: self.raw[1] }
        } else if self.raw[0] == 0x70 {
            ExtensionKind::DisplayId { version: self.raw[1] }
        } else {
            ExtensionKind::Unknown { tag: self.raw[0] }
        }
    }

    /// Read the CTA-861 data-block collection without modifying the block.
    pub fn cta_data_blocks(&self) -> (res: Result<Vec<CtaDataBlock>, ExtensionError>)
        ensures
            res matches Ok(v) ==> spec_cta_blocks(self.raw@) == Ok::<Seq<(u8, Seq<u8>)>, ExtensionError>(spec_cta_views(v@)),
            res matches Err(e) ==> spec_cta_blocks(self.raw@) == Err::<Seq<(u8, Seq<u8>)>, ExtensionError>(e),
    {
        if self.raw[0] != 0x02 {
            return Err(ExtensionError::NotCta861);
        }
        let dtd_offset = self.raw[2] as usize;
        let end: usize = if dtd_offset == 0 { 127 } else { dtd_offset };
        if !(4 <= end && end <= 127) {
            return Err(ExtensionError::InvalidDtdOffset { offset: end });
        }
        parse_cta_data_blocks(self.raw.as_slice(), 4, end, dtd_offset == 0)
    }

    /// Read and validate the CTA-861 extension header and capability flags.
    pub fn cta_header(&self) -> (res: Result<CtaHeader, ExtensionError>)
        ensures
            spec_cta_header_error(self.raw@) is Some ==> res == Err::<CtaHeader, ExtensionError>(
                spec_cta_header_error(self.raw@)->0,
            ),
            spec_cta_header_error(self.raw@) is None ==> res == Ok::<CtaHeader, ExtensionError>(
                spec_cta_header(self.raw@),
            ),
    {
        if self.raw[0] != 0x02 {
            return Err(ExtensionError::NotCta861);
        }
        let dtd_offset = self.raw[2];
        if dtd_offset != 0 && !(4 <= dtd_offset && dtd_offset <= 127) {
            return Err(ExtensionError::InvalidDtdOffset { offset: dtd_offset as usize });
        }
        let flags = self.raw[3];
        Ok(
            CtaHeader {
                revision: self.raw[1],
                dtd_offset,
                native_dtd_count: flags % 16,
                underscan: flags >= 128,
                basic_audio: (flags / 64) % 2 == 1,
                ycbcr_444: (flags / 32) % 2 == 1,
                ycbcr_422: (flags / 16) % 2 == 1,
            },
        )
    }

    /// Read Detailed Timing Descriptors with flags from this CTA-861
    /// extension block, in order, up to the first zero pixel clock.
    pub fn cta_detailed_timings_flagged(&self) -> (res: Result<Vec<DecodedDtd>, ExtensionError>)
        ensures
            res matches Ok(v) ==> spec_cta_dtds_of(self.raw@) == Ok::<Seq<DecodedDtd>, ExtensionError>(v@),
            res matches Err(e) ==> spec_cta_dtds_of(self.raw@) == Err::<Seq<DecodedDtd>, ExtensionError>(e),
    {
        if self.raw[0] != 0x02 {
            return Err(ExtensionError::NotCta861);
        }
        let dtd_offset = self.raw[2] as usize;
        if dtd_offset == 0 {
            return Ok(Vec::new());
        }
        if !(4 <= dtd_offset && dtd_offset <= 127) {
            return Err(ExtensionError::InvalidDtdOffset { offset: dtd_offset });
        }
        let mut dtds: Vec<DecodedDtd> = Vec::new();
        let mut offset = dtd_offset;
        while offset + 18 <= 127
            invariant
                4 <= offset <= 127 + 18,
                dtd_offset == self.raw@[2],
                self.raw@[0] == 0x02,
                4 <= dtd_offset <= 127,
                spec_cta_dtds(self.raw@, dtd_offset as int) == dtds@ + spec_cta_dtds(self.raw@, offset as int),
            decreases 127 - offset,
        {
            if self.raw[offset] == 0 && self.raw[offset + 1] == 0 {
                assert(dtds@ + Seq::<DecodedDtd>::empty() =~= dtds@);
                return Ok(dtds);
            }
            let ghost before = dtds@;
            if let Some(decoded) = decode_dtd_bytes(&self.raw, offset) {
                dtds.push(decoded);
                assert(before + (seq![decoded] + spec_cta_dtds(self.raw@, offset + 18)) =~= dtds@ + spec_cta_dtds(
                    self.raw@,
                    offset + 18,
                ));
            } else {
                assert(before + (Seq::<DecodedDtd>::empty() + spec_cta_dtds(self.raw@, offset + 18)) =~= dtds@
                    + spec_cta_dtds(self.raw@, offset + 18));
            }
            offset = offset + 18;
        }
        assert(dtds@ + Seq::<DecodedDtd>::empty() =~= dtds@);
        Ok(dtds)
    }

    /// Read progressive Detailed Timing Descriptors from this CTA-861
    /// extension block.
    pub fn cta_detailed_timings(&self) -> (res: Result<Vec<DetailedTiming>, ExtensionError>)
        ensures
            res matches Ok(v) ==> (spec_cta_dtds_of(self.raw@) matches Ok(d) && v@ == spec_progressive(d)),
            res matches Err(e) ==> spec_cta_dtds_of(self.raw@) == Err::<Seq<DecodedDtd>, ExtensionError>(e),
    {
        let flagged = self.cta_detailed_timings_flagged()?;
        let mut out: Vec<DetailedTiming> = Vec::new();
        let mut i: usize = 0;
        while i < flagged.len()
            invariant
                i <= flagged@.len(),
                out@ == spec_progressive(flagged@.take(i as int)),
            decreases flagged@.len() - i,
        {
            let d = flagged[i];
            assert(flagged@.take(i + 1).drop_last() =~= flagged@.take(i as int));
            if !d.flags.interlaced() {
                out.push(d.timing);
            } else {
                assert(out@ + Seq::<DetailedTiming>::empty() =~= out@);
            }
            i = i + 1;
        }
        assert(flagged@.take(i as int) =~= flagged@);
        Ok(out)
    }
}

// ---------------------------------------------------------------------------
// CTA block construction
// ---------------------------------------------------------------------------

/// The first data block among the first `n` that cannot be written.
pub open spec fn spec_first_cta_block_error(bv: Seq<(u8, Seq<u8>)>, n: int) -> Option<ExtensionWriteError>
    decreases n,
{
    if n <= 0 {
        None
    } else {
        match spec_first_cta_block_error(bv, n - 1) {
            Some(e) => Some(e),
            None => spec_cta_block_error(bv[n - 1].0, bv[n - 1].1),
        }
    }
}

/// The collection length of the first `n` blocks, saturating at
/// `usize::MAX`.
pub open spec fn spec_collection_len(bv: Seq<(u8, Seq<u8>)>, n: int) -> int
    decreases n,
{
    if n <= 0 {
        0
    } else {
        let t = spec_collection_len(bv, n - 1) + 1 + bv[n - 1].1.len();
        if t > usize::MAX {
            usize::MAX as int
        } else {
            t
        }
    }
}

/// The encoded data-block collection.
pub open spec fn spec_collection_bytes(bv: Seq<(u8, Seq<u8>)>) -> Seq<u8>
    decreases bv.len(),
{
    if bv.len() == 0 {
        Seq::empty()
    } else {
        spec_collection_bytes(bv.drop_last()) + spec_cta_block_bytes(bv.last().0, bv.last().1)
    }
}

/// The first timing among the first `n` with no DTD encoding, and why.
pub open spec fn spec_first_timing_error(t: Seq<DetailedTiming>, n: int) -> Option<(int, DtdError)>
    decreases n,
{
    if n <= 0 {
        None
    } else {
        match spec_first_timing_error(t, n - 1) {
            Some(e) => Some(e),
            None => match spec_dtd_error(t[n - 1]) {
                Some(e) => Some((n - 1, e)),
                None => None,
            },
        }
    }
}

/// The concatenated DTD encodings of the timings.
pub open spec fn spec_dtd_bytes(t: Seq<DetailedTiming>) -> Seq<u8>
    decreases t.len(),
{
    if t.len() == 0 {
        Seq::empty()
    } else {
        spec_dtd_bytes(t.drop_last()) + spec_encode_dtd(t.last())
    }
}

/// The CTA extension block built from data blocks and timings, with its
/// checksum, or the first reason it cannot be built.
pub open spec fn spec_cta_build(revision: u8, bv: Seq<(u8, Seq<u8>)>, t: Seq<DetailedTiming>) -> Result<
    Seq<u8>,
    ExtensionWriteError,
> {
    let total = spec_collection_len(bv, bv.len() as int);
    let dtd_offset = 4 + total;
    let maximum = (127 - dtd_offset) / 18;
    if spec_first_cta_block_error(bv, bv.len() as int) is Some {
        Err(spec_first_cta_block_error(bv, bv.len() as int)->0)
    } else if total > 123 {
        Err(ExtensionWriteError::CtaDataBlocksTooLong { length: total as usize, maximum: 123 })
    } else if t.len() > maximum {
        Err(ExtensionWriteError::CtaDtdsTooLong { count: t.len() as usize, maximum: maximum as usize })
    } else if spec_first_timing_error(t, t.len() as int) is Some {
        let (index, source) = spec_first_timing_error(t, t.len() as int)->0;
        Err(ExtensionWriteError::CtaDtdInvalid { index: index as usize, source })
    } else {
        Ok(
            spec_with_checksum(
                seq![0x02u8, revision, dtd_offset as u8, t.len() as u8] + spec_collection_bytes(bv) + spec_dtd_bytes(t)
                    + Seq::new((124 - total - 18 * t.len()) as nat, |i: int| 0u8),
            ),
        )
    }
}

proof fn lemma_first_cta_block_error_keeps(bv: Seq<(u8, Seq<u8>)>, n: int, m: int)
    requires
        0 <= n <= m,
        spec_first_cta_block_error(bv, n) is Some,
    ensures
        spec_first_cta_block_error(bv, m) == spec_first_cta_block_error(bv, n),
    decreases m - n,
{
    if m > n {
        lemma_first_cta_block_error_keeps(bv, n, m - 1);
    }
}

proof fn lemma_first_timing_error_keeps(t: Seq<DetailedTiming>, n: int, m: int)
    requires
        0 <= n <= m,
        spec_first_timing_error(t, n) is Some,
    ensures
        spec_first_timing_error(t, m) == spec_first_timing_error(t, n),
    decreases m - n,
{
    if m > n {
        lemma_first_timing_error_keeps(t, n, m - 1);
    }
}

proof fn lemma_collection_len_bound(bv: Seq<(u8, Seq<u8>)>, n: int)
    requires
        0 <= n <= bv.len(),
        spec_first_cta_block_error(bv, n) is None,
        spec_collection_len(bv, n) <= 123,
    ensures
        spec_collection_bytes(bv.take(n)).len() == spec_collection_len(bv, n),
        forall|k: int| 0 <= k <= n ==> #[trigger] spec_collection_len(bv, k) <= spec_collection_len(bv, n),
    decreases n,
{
    if n > 0 {
        assert(bv.take(n).drop_last() =~= bv.take(n - 1));
        lemma_collection_len_bound(bv, n - 1);
    }
}

impl EdidBlock {
    /// Construct a CTA-861 extension containing data blocks and DTDs, with
    /// zero padding and a valid checksum.
    #[verifier::rlimit(40)]
    pub fn from_cta_data_blocks_and_timings(
        revision: u8,
        blocks: &[CtaDataBlock],
        timings: &[DetailedTiming],
    ) -> (res: Result<Self, ExtensionWriteError>)
        ensures
            res matches Ok(b) ==> spec_cta_build(revision, spec_cta_views(blocks@), timings@) == Ok::<
                Seq<u8>,
                ExtensionWriteError,
            >(b.raw@),
            res matches Err(e) ==> spec_cta_build(revision, spec_cta_views(blocks@), timings@) == Err::<
                Seq<u8>,
                ExtensionWriteError,
            >(e),
    {
        let ghost bv = spec_cta_views(blocks@);
        let mut total: usize = 0;
        let mut i: usize = 0;
        while i < blocks.len()
            invariant
                i <= blocks@.len(),
                bv == spec_cta_views(blocks@),
                spec_first_cta_block_error(bv, i as int) is None,
                total == spec_collection_len(bv, i as int),
            decreases blocks@.len() - i,
        {
            let block = &blocks[i];
            if block.tag > 7 {
                proof {
                    lemma_first_cta_block_error_keeps(bv, i + 1, bv.len() as int);
                }
                return Err(ExtensionWriteError::InvalidCtaTag { tag: block.tag });
            }
            if block.payload.len() > 31 {
                proof {
                    lemma_first_cta_block_error_keeps(bv, i + 1, bv.len() as int);
                }
                return Err(ExtensionWriteError::CtaPayloadTooLong { length: block.payload.len(), maximum: 31 });
            }
            total = total.saturating_add(1 + block.payload.len());
            i = i + 1;
        }
        if total > 123 {
            return Err(ExtensionWriteError::CtaDataBlocksTooLong { length: total, maximum: 123 });
        }
        let dtd_offset = 4 + total;
        let maximum = (127 - dtd_offset) / 18;
        if timings.len() > maximum {
            return Err(ExtensionWriteError::CtaDtdsTooLong { count: timings.len(), maximum });
        }
        proof {
            lemma_collection_len_bound(bv, bv.len() as int);
        }
        let mut out: Vec<u8> = Vec::new();
        out.push(0x02);
        out.push(revision);
        out.push(dtd_offset as u8);
        out.push(timings.len() as u8);
        let ghost header = seq![0x02u8, revision, dtd_offset as u8, timings@.len() as u8];
        assert(out@ =~= header);
        let mut k: usize = 0;
        while k < blocks.len()
            invariant
                k <= blocks@.len(),
                bv == spec_cta_views(blocks@),
                spec_first_cta_block_error(bv, bv.len() as int) is None,
                out@ == header + spec_collection_bytes(bv.take(k as int)),
                out@.len() <= 4 + spec_collection_len(bv, k as int),
                spec_collection_len(bv, bv.len() as int) <= 123,
                forall|j: int| 0 <= j <= bv.len() ==> #[trigger] spec_collection_len(bv, j) <= spec_collection_len(bv, bv.len() as int),
            decreases blocks@.len() - k,
        {
            proof {
                lemma_first_cta_block_error_prefix(bv, bv.len() as int, k + 1);
                assert(spec_collection_len(bv, k + 1) <= spec_collection_len(bv, bv.len() as int));
                lemma_collection_len_bound(bv, k + 1);
            }
            let ghost before = out@;
            let encoded = match blocks[k].encode() {
                Ok(v) => v,
                Err(e) => {
                    proof {
                        assert(spec_cta_block_error(bv[k as int].0, bv[k as int].1) is None) by {
                            lemma_no_block_error_at(bv, bv.len() as int, k as int);
                        }
                    }
                    return Err(e);
                },
            };
            let mut j: usize = 0;
            while j < encoded.len()
                invariant
                    j <= encoded@.len(),
                    out@ == before + encoded@.take(j as int),
                    before.len() + encoded@.len() <= 128,
                decreases encoded@.len() - j,
            {
                out.push(encoded[j]);
                assert(encoded@.take(j + 1) =~= encoded@.take(j as int).push(encoded@[j as int]));
                j = j + 1;
            }
            assert(encoded@.take(j as int) =~= encoded@);
            assert(bv.take(k + 1).drop_last() =~= bv.take(k as int));
            k = k + 1;
        }
        assert(bv.take(k as int) =~= bv);
        let ghost coll = out@;
        let mut ti: usize = 0;
        while ti < timings.len()
            invariant
                ti <= timings@.len() <= maximum,
                bv == spec_cta_views(blocks@),
                spec_first_cta_block_error(bv, bv.len() as int) is None,
                total == spec_collection_len(bv, bv.len() as int),
                total <= 123,
                dtd_offset == 4 + total,
                maximum == (127 - dtd_offset) / 18,
                dtd_offset <= 127,
                coll.len() == dtd_offset,
                spec_first_timing_error(timings@, ti as int) is None,
                out@ == coll + spec_dtd_bytes(timings@.take(ti as int)),
                out@.len() == dtd_offset + 18 * ti,
            decreases timings@.len() - ti,
        {
            match validate_dtd(&timings[ti]) {
                Ok(()) => {},
                Err(source) => {
                    proof {
                        lemma_first_timing_error_keeps(timings@, ti + 1, timings@.len() as int);
                    }
                    return Err(ExtensionWriteError::CtaDtdInvalid { index: ti, source });
                },
            }
            let d = encode_dtd(&timings[ti]);
            let ghost before = out@;
            let mut j: usize = 0;
            while j < 18
                invariant
                    j <= 18,
                    d@.len() == 18,
                    out@ == before + d@.take(j as int),
                decreases 18 - j,
            {
                out.push(d[j]);
                assert(d@.take(j + 1) =~= d@.take(j as int).push(d@[j as int]));
                j = j + 1;
            }
            assert(d@.take(18) =~= d@);
            assert(timings@.take(ti + 1).drop_last() =~= timings@.take(ti as int));
            ti = ti + 1;
        }
        assert(timings@.take(ti as int) =~= timings@);
        let ghost filled = out@;
        while out.len() < 128
            invariant
                out@.len() <= 128,
                filled.len() <= out@.len(),
                out@ == filled + Seq::new((out@.len() - filled.len()) as nat, |i: int| 0u8),
            decreases 128 - out@.len(),
        {
            let ghost before = out@;
            out.push(0);
            assert(out@ =~= filled + Seq::new((out@.len() - filled.len()) as nat, |i: int| 0u8));
        }
        let mut block = Self { raw: [0u8; 128] };
        let mut m: usize = 0;
        while m < 128
            invariant
                m <= 128,
                out@.len() == 128,
                forall|q: int| 0 <= q < m ==> block.raw@[q] == out@[q],
            decreases 128 - m,
        {
            block.raw[m] = out[m];
            m = m + 1;
        }
        assert(block.raw@ =~= out@);
        block.update_checksum();
        Ok(block)
    }
}

proof fn lemma_first_cta_block_error_prefix(bv: Seq<(u8, Seq<u8>)>, n: int, m: int)
    requires
        0 <= m <= n,
        spec_first_cta_block_error(bv, n) is None,
    ensures
        spec_first_cta_block_error(bv, m) is None,
    decreases n - m,
{
    if m < n {
        lemma_first_cta_block_error_prefix(bv, n - 1, m);
    }
}

proof fn lemma_no_block_error_at(bv: Seq<(u8, Seq<u8>)>, n: int, k: int)
    requires
        0 <= k < n,
        spec_first_cta_block_error(bv, n) is None,
    ensures
        spec_cta_block_error(bv[k].0, bv[k].1) is None,
    decreases n,
{
    if k < n - 1 {
        lemma_no_block_error_at(bv, n - 1, k);
    }
}

/// The capability byte written for a CTA header.
pub open spec fn spec_cta_flags_byte(h: CtaHeader) -> u8 {
    ((if h.underscan { 128int } else { 0int }) + (if h.basic_audio { 64int } else { 0int }) + (if h.ycbcr_444 {
        32int
    } else {
        0int
    }) + (if h.ycbcr_422 { 16int } else { 0int }) + h.native_dtd_count) as u8
}

/// Why a CTA header cannot replace the current one, checked in order.
pub open spec fn spec_set_cta_header_error(s: Seq<u8>, h: CtaHeader) -> Option<ExtensionWriteError> {
    if spec_cta_header_error(s) is Some {
        Some(spec_map_cta_error(spec_cta_header_error(s)->0))
    } else if h.dtd_offset != s[2] {
        Some(ExtensionWriteError::InvalidDtdOffset { offset: h.dtd_offset as usize })
    } else if spec_cta_blocks(s) is Err {
        Some(spec_map_cta_error(spec_cta_blocks(s)->Err_0))
    } else if spec_cta_dtds_of(s) is Err {
        Some(spec_map_cta_error(spec_cta_dtds_of(s)->Err_0))
    } else if h.native_dtd_count > spec_min(spec_cta_dtds_of(s)->Ok_0.len() as int, 15) {
        Some(ExtensionWriteError::CtaDtdsTooLong {
            count: h.native_dtd_count as usize,
            maximum: spec_min(spec_cta_dtds_of(s)->Ok_0.len() as int, 15) as usize,
        })
    } else {
        None
    }
}

/// The smaller of two integers.
pub open spec fn spec_min(a: int, b: int) -> int {
    if a < b {
        a
    } else {
        b
    }
}

/// Header bytes of a built CTA block.
pub proof fn lemma_cta_build_header(revision: u8, bv: Seq<(u8, Seq<u8>)>, t: Seq<DetailedTiming>)
    requires
        spec_cta_build(revision, bv, t) is Ok,
    ensures
        ({
            let out = spec_cta_build(revision, bv, t)->Ok_0;
            &&& out.len() == 128
            &&& out[0] == 0x02
            &&& out[1] == revision
            &&& out[2] == 4 + spec_collection_len(bv, bv.len() as int)
            &&& out[3] == t.len()
            &&& t.len() <= 6
            &&& spec_collection_len(bv, bv.len() as int) <= 123
        }),
{
    let total = spec_collection_len(bv, bv.len() as int);
    lemma_collection_len_bound(bv, bv.len() as int);
    assert(bv.take(bv.len() as int) =~= bv);
    lemma_dtd_bytes_len(t);
}

proof fn lemma_dtd_bytes_len(t: Seq<DetailedTiming>)
    ensures
        spec_dtd_bytes(t).len() == 18 * t.len(),
    decreases t.len(),
{
    if t.len() > 0 {
        lemma_dtd_bytes_len(t.drop_last());

    }
}

impl EdidBlock {
    /// Construct a CTA-861 extension containing only a data-block
    /// collection.
    pub fn from_cta_data_blocks(revision: u8, blocks: &[CtaDataBlock]) -> (res: Result<Self, ExtensionWriteError>)
        ensures
            res matches Ok(b) ==> spec_cta_build(revision, spec_cta_views(blocks@), Seq::empty()) == Ok::<
                Seq<u8>,
                ExtensionWriteError,
            >(b.raw@),
            res matches Err(e) ==> spec_cta_build(revision, spec_cta_views(blocks@), Seq::empty()) == Err::<
                Seq<u8>,
                ExtensionWriteError,
            >(e),
    {
        let none: Vec<DetailedTiming> = Vec::new();
        assert(none@ =~= Seq::<DetailedTiming>::empty());
        Self::from_cta_data_blocks_and_timings(revision, blocks, none.as_slice())
    }

    /// Replace the CTA data-block collection and clear existing CTA DTDs.
    ///
    /// The revision and the four capability flags are kept; all derived
    /// offsets, padding, native count and the checksum are regenerated. On
    /// failure the block is left unchanged.
    pub fn replace_cta_data_blocks(&mut self, blocks: &[CtaDataBlock]) -> (res: Result<(), ExtensionWriteError>)
        ensures
            old(self).raw@[0] != 0x02 ==> res == Err::<(), ExtensionWriteError>(ExtensionWriteError::NotCta861),
            old(self).raw@[0] == 0x02 && spec_cta_build(old(self).raw@[1], spec_cta_views(blocks@), Seq::empty())
                is Err ==> res == Err::<(), ExtensionWriteError>(
                spec_cta_build(old(self).raw@[1], spec_cta_views(blocks@), Seq::empty())->Err_0,
            ),
            old(self).raw@[0] == 0x02 && spec_cta_build(old(self).raw@[1], spec_cta_views(blocks@), Seq::empty())
                is Ok ==> res is Ok && final(self).raw@ == spec_with_checksum(
                spec_cta_build(old(self).raw@[1], spec_cta_views(blocks@), Seq::empty())->Ok_0.update(
                    3,
                    (old(self).raw@[3] / 16 * 16) as u8,
                ),
            ),
            res is Err ==> final(self).raw@ == old(self).raw@,
    {
        if self.raw[0] != 0x02 {
            return Err(ExtensionWriteError::NotCta861);
        }
        let old_flags = self.raw[3] / 16 * 16;
        let mut rebuilt = Self::from_cta_data_blocks(self.raw[1], blocks)?;
        rebuilt.raw[3] = old_flags;
        rebuilt.update_checksum();
        *self = rebuilt;
        Ok(())
    }

    /// Replace the CTA DTD collection, rebuilding its offset, native count,
    /// layout and checksum. The data blocks, revision and capability flags
    /// are kept; on failure the block is left unchanged.
    #[verifier::rlimit(40)]
    pub fn replace_cta_detailed_timings(&mut self, timings: &[DetailedTiming]) -> (res: Result<
        (),
        ExtensionWriteError,
    >)
        ensures
            old(self).raw@[0] != 0x02 ==> res == Err::<(), ExtensionWriteError>(ExtensionWriteError::NotCta861),
            old(self).raw@[0] == 0x02 && spec_cta_blocks(old(self).raw@) is Err ==> res == Err::<(), ExtensionWriteError>(
                spec_map_cta_error(spec_cta_blocks(old(self).raw@)->Err_0),
            ),
            old(self).raw@[0] == 0x02 && spec_cta_blocks(old(self).raw@) is Ok && spec_cta_build(
                old(self).raw@[1],
                spec_cta_blocks(old(self).raw@)->Ok_0,
                timings@,
            ) is Err ==> res == Err::<(), ExtensionWriteError>(
                spec_cta_build(old(self).raw@[1], spec_cta_blocks(old(self).raw@)->Ok_0, timings@)->Err_0,
            ),
            old(self).raw@[0] == 0x02 && spec_cta_blocks(old(self).raw@) is Ok && spec_cta_build(
                old(self).raw@[1],
                spec_cta_blocks(old(self).raw@)->Ok_0,
                timings@,
            ) is Ok ==> res is Ok && final(self).raw@ == spec_with_checksum(
                spec_cta_build(old(self).raw@[1], spec_cta_blocks(old(self).raw@)->Ok_0, timings@)->Ok_0.update(
                    3,
                    (old(self).raw@[3] / 16 * 16 + timings@.len()) as u8,
                ),
            ),
            res is Err ==> final(self).raw@ == old(self).raw@,
    {
        if self.raw[0] != 0x02 {
            return Err(ExtensionWriteError::NotCta861);
        }
        let blocks = match self.cta_data_blocks() {
            Ok(b) => b,
            Err(e) => {
                return Err(map_cta_extension_write_error(e));
            },
        };
        let old_flags = self.raw[3] / 16 * 16;
        let mut rebuilt = Self::from_cta_data_blocks_and_timings(self.raw[1], blocks.as_slice(), timings)?;
        proof {
            lemma_cta_build_header(self.raw@[1], spec_cta_views(blocks@), timings@);
        }
        rebuilt.raw[3] = old_flags + rebuilt.raw[3] % 16;
        rebuilt.update_checksum();
        *self = rebuilt;
        Ok(())
    }

    /// Replace CTA capability flags and native DTD count without changing
    /// layout. The DTD offset must stay the same, the existing layout must
    /// be readable, and the native count cannot exceed the populated DTDs
    /// (nor 15). On failure the block is left unchanged.
    pub fn set_cta_header(&mut self, header: CtaHeader) -> (res: Result<(), ExtensionWriteError>)
        ensures
            spec_set_cta_header_error(old(self).raw@, header) is Some ==> res == Err::<(), ExtensionWriteError>(
                spec_set_cta_header_error(old(self).raw@, header)->0,
            ),
            spec_set_cta_header_error(old(self).raw@, header) is None ==> res is Ok && final(self).raw@
                == spec_with_checksum(
                old(self).raw@.update(1, header.revision).update(3, spec_cta_flags_byte(header)),
            ),
            res is Err ==> final(self).raw@ == old(self).raw@,
    {
        let current = match self.cta_header() {
            Ok(h) => h,
            Err(e) => {
                return Err(map_cta_extension_write_error(e));
            },
        };
        if header.dtd_offset != current.dtd_offset {
            return Err(ExtensionWriteError::InvalidDtdOffset { offset: header.dtd_offset as usize });
        }
        match self.cta_data_blocks() {
            Ok(_) => {},
            Err(e) => {
                return Err(map_cta_extension_write_error(e));
            },
        }
        let populated = match self.cta_detailed_timings_flagged() {
            Ok(d) => d.len(),
            Err(e) => {
                return Err(map_cta_extension_write_error(e));
            },
        };
        let maximum_native: usize = if populated < 15 { populated } else { 15 };
        if header.native_dtd_count as usize > maximum_native {
            return Err(
                ExtensionWriteError::CtaDtdsTooLong { count: header.native_dtd_count as usize, maximum: maximum_native },
            );
        }
        let flags: u8 = (if header.underscan { 128u8 } else { 0u8 }) + (if header.basic_audio { 64u8 } else { 0u8 }) + (
        if header.ycbcr_444 { 32u8 } else { 0u8 }) + (if header.ycbcr_422 { 16u8 } else { 0u8 })
            + header.native_dtd_count;
        self.raw[1] = header.revision;
        self.raw[3] = flags;
        self.update_checksum();
        Ok(())
    }

    /// Set CTA capability flags while keeping the current revision, layout
    /// and native count.
    pub fn set_cta_capabilities(&mut self, underscan: bool, basic_audio: bool, ycbcr_444: bool, ycbcr_422: bool) -> (res:
        Result<(), ExtensionWriteError>)
        ensures
            spec_cta_header_error(old(self).raw@) is Some ==> res == Err::<(), ExtensionWriteError>(
                spec_map_cta_error(spec_cta_header_error(old(self).raw@)->0),
            ),
            spec_cta_header_error(old(self).raw@) is None ==> ({
                let h = spec_cta_header(old(self).raw@);
                let n = CtaHeader { underscan, basic_audio, ycbcr_444, ycbcr_422, ..h };
                &&& spec_set_cta_header_error(old(self).raw@, n) is Some ==> res == Err::<(), ExtensionWriteError>(
                    spec_set_cta_header_error(old(self).raw@, n)->0,
                )
                &&& spec_set_cta_header_error(old(self).raw@, n) is None ==> res is Ok && final(self).raw@
                    == spec_with_checksum(old(self).raw@.update(1, n.revision).update(3, spec_cta_flags_byte(n)))
            }),
            res is Err ==> final(self).raw@ == old(self).raw@,
    {
        let header = match self.cta_header() {
            Ok(h) => h,
            Err(e) => {
                return Err(map_cta_extension_write_error(e));
            },
        };
        self.set_cta_header(
            CtaHeader {
                revision: header.revision,
                dtd_offset: header.dtd_offset,
                native_dtd_count: header.native_dtd_count,
                underscan,
                basic_audio,
                ycbcr_444,
                ycbcr_422,
            },
        )
    }
}

proof fn lemma_collection_front(bv: Seq<(u8, Seq<u8>)>)
    requires
        bv.len() > 0,
    ensures
        spec_collection_bytes(bv) == spec_cta_block_bytes(bv[0].0, bv[0].1) + spec_collection_bytes(bv.drop_first()),
    decreases bv.len(),
{
    if bv.len() == 1 {
        assert(bv.drop_first() =~= Seq::<(u8, Seq<u8>)>::empty());
        assert(bv.drop_last() =~= Seq::<(u8, Seq<u8>)>::empty());
        assert(spec_collection_bytes(bv) =~= spec_cta_block_bytes(bv[0].0, bv[0].1) + spec_collection_bytes(bv.drop_first()));
    } else {
        lemma_collection_front(bv.drop_last());
        assert(bv.drop_last().drop_first() =~= bv.drop_first().drop_last());
        assert(bv.drop_first().last() == bv.last());
        assert(bv.drop_last()[0] == bv[0]);
    }
}

proof fn lemma_parse_collection(bv: Seq<(u8, Seq<u8>)>, pre: Seq<u8>, base: int)
    requires
        spec_first_cta_block_error(bv, bv.len() as int) is None,
    ensures
        spec_parse_cta(pre + spec_collection_bytes(bv), pre.len() as int, base, false) == Ok::<
            Seq<(u8, Seq<u8>)>,
            ExtensionError,
        >(bv),
    decreases bv.len(),
{
    let data = pre + spec_collection_bytes(bv);
    if bv.len() == 0 {
        assert(data =~= pre);
        assert(bv =~= Seq::<(u8, Seq<u8>)>::empty());
    } else {
        lemma_collection_front(bv);
        lemma_no_block_error_at(bv, bv.len() as int, 0);
        let tag = bv[0].0;
        let p = bv[0].1;
        let b0 = spec_cta_block_bytes(tag, p);
        let rest = bv.drop_first();
        assert forall|k: int| 0 <= k < rest.len() implies spec_cta_block_error(rest[k].0, rest[k].1) is None by {
            lemma_no_block_error_at(bv, bv.len() as int, k + 1);
        }
        lemma_no_error_from_each(rest, rest.len() as int);
        let pre2 = pre + b0;
        lemma_parse_collection(rest, pre2, base);
        assert(pre2 + spec_collection_bytes(rest) =~= data);
        let off = pre.len() as int;
        assert(data[off] == (tag * 32 + p.len()) as u8);
        assert(data[off] / 32 == tag);
        assert(data[off] % 32 == p.len());
        assert(data.subrange(off + 1, off + 1 + p.len()) =~= p);
        assert(pre2.len() == off + 1 + p.len());
        assert(off + 1 + p.len() <= data.len());
        assert(!(data[off] == 0 && false));
        assert(spec_parse_cta(data, off + 1 + p.len(), base, false) == Ok::<Seq<(u8, Seq<u8>)>, ExtensionError>(rest));
        assert(seq![(tag, p)] + rest =~= bv);
        assert(spec_parse_cta(data, off, base, false) == Ok::<Seq<(u8, Seq<u8>)>, ExtensionError>(
            seq![(tag, data.subrange(off + 1, off + 1 + p.len()))] + rest,
        ));
    }
}

proof fn lemma_no_error_from_each(bv: Seq<(u8, Seq<u8>)>, n: int)
    requires
        0 <= n <= bv.len(),
        forall|k: int| 0 <= k < bv.len() ==> spec_cta_block_error(bv[k].0, bv[k].1) is None,
    ensures
        spec_first_cta_block_error(bv, n) is None,
    decreases n,
{
    if n > 0 {
        lemma_no_error_from_each(bv, n - 1);
    }
}

/// Reading back the data blocks of a CTA extension built from data blocks
/// and timings gives exactly those data blocks; the built block carries a
/// valid checksum.
pub proof fn lemma_cta_build_then_read(revision: u8, bv: Seq<(u8, Seq<u8>)>, t: Seq<DetailedTiming>)
    requires
        spec_cta_build(revision, bv, t) is Ok,
    ensures
        spec_cta_blocks(spec_cta_build(revision, bv, t)->Ok_0) == Ok::<Seq<(u8, Seq<u8>)>, ExtensionError>(bv),
        byte_sum(spec_cta_build(revision, bv, t)->Ok_0) % 256 == 0,
        spec_cta_header_error(spec_cta_build(revision, bv, t)->Ok_0) is None,
{
    let out = spec_cta_build(revision, bv, t)->Ok_0;
    let total = spec_collection_len(bv, bv.len() as int);
    lemma_cta_build_header(revision, bv, t);
    lemma_collection_len_bound(bv, bv.len() as int);
    assert(bv.take(bv.len() as int) =~= bv);
    lemma_dtd_bytes_len(t);
    let header = seq![0x02u8, revision, (4 + total) as u8, t.len() as u8];
    let body = header + spec_collection_bytes(bv) + spec_dtd_bytes(t) + Seq::new(
        (124 - total - 18 * t.len()) as nat,
        |i: int| 0u8,
    );
    assert(out == spec_with_checksum(body));
    assert(out.subrange(4, 4 + total) =~= spec_collection_bytes(bv));
    lemma_parse_collection(bv, Seq::empty(), 4);
    assert(Seq::<u8>::empty() + spec_collection_bytes(bv) =~= spec_collection_bytes(bv));
    lemma_with_checksum_sum(body);
}

/// The progressive DTDs of the CTA-861 blocks among `blocks`, block by block;
/// blocks that are not readable CTA-861 contribute none.
pub open spec fn spec_extension_timings(blocks: Seq<Seq<u8>>) -> Seq<DetailedTiming>
    decreases blocks.len(),
{
    if blocks.len() == 0 {
        Seq::empty()
    } else {
        spec_extension_timings(blocks.drop_last()) + match spec_cta_dtds_of(blocks.last()) {
            Ok(d) => spec_progressive(d),
            Err(_) => Seq::empty(),
        }
    }
}

/// The DTDs, with flags, of the CTA-861 blocks among `blocks`.
pub open spec fn spec_extension_dtds(blocks: Seq<Seq<u8>>) -> Seq<DecodedDtd>
    decreases blocks.len(),
{
    if blocks.len() == 0 {
        Seq::empty()
    } else {
        spec_extension_dtds(blocks.drop_last()) + match spec_cta_dtds_of(blocks.last()) {
            Ok(d) => d,
            Err(_) => Seq::empty(),
        }
    }
}

/// Every progressive detailed timing of an EDID: base-block slots, then the
/// CTA-861 DTDs of each extension.
pub open spec fn spec_all_timings(base: Seq<u8>, extensions: Seq<Seq<u8>>) -> Seq<DetailedTiming> {
    spec_collect_progressive(base, 4) + spec_extension_timings(extensions)
}

/// The preferred timing: the progressive DTD of base slot 0, else the first
/// progressive detailed timing anywhere.
pub open spec fn spec_preferred(base: Seq<u8>, extensions: Seq<Seq<u8>>) -> Option<DetailedTiming> {
    match spec_read_progressive(base, 0) {
        Some(t) => Some(t),
        None => if spec_all_timings(base, extensions).len() > 0 {
            Some(spec_all_timings(base, extensions)[0])
        } else {
            None
        },
    }
}

impl Edid {
    /// Return all progressive detailed timings in this EDID (Base block DTDs + CTA-861 DTDs).
    pub fn all_detailed_timings(&self) -> (res: Vec<DetailedTiming>)
        ensures
            res@ == spec_all_timings(self.base.raw@, spec_block_views(self.extensions@)),
    {
        let mut timings = self.base.detailed_timings();
        let ghost views = spec_block_views(self.extensions@);
        let mut i: usize = 0;
        while i < self.extensions.len()
            invariant
                i <= self.extensions@.len(),
                views == spec_block_views(self.extensions@),
                timings@ == spec_collect_progressive(self.base.raw@, 4) + spec_extension_timings(
                    views.take(i as int),
                ),
            decreases self.extensions@.len() - i,
        {
            let ghost before = timings@;
            if let Ok(cta) = self.extensions[i].cta_detailed_timings() {
                let mut k: usize = 0;
                while k < cta.len()
                    invariant
                        k <= cta@.len(),
                        timings@ == before + cta@.take(k as int),
                    decreases cta@.len() - k,
                {
                    timings.push(cta[k]);
                    k = k + 1;
                    assert(timings@ =~= before + cta@.take(k as int));
                }
                assert(cta@.take(k as int) =~= cta@);
            }
            proof {
                assert(views.take(i + 1).drop_last() =~= views.take(i as int));
                assert(views.take(i + 1).last() == self.extensions@[i as int].raw@);
            }
            i = i + 1;
            assert(timings@ =~= spec_collect_progressive(self.base.raw@, 4) + spec_extension_timings(
                views.take(i as int),
            ));
        }
        assert(views.take(i as int) =~= views);
        timings
    }

    /// Return all detailed timings with flags in this EDID (Base block DTDs + CTA-861 DTDs).
    pub fn all_detailed_timings_flagged(&self) -> (res: Vec<DecodedDtd>)
        ensures
            res@ == spec_collect_flagged(self.base.raw@, 4) + spec_extension_dtds(
                spec_block_views(self.extensions@),
            ),
    {
        let mut dtds = self.base.detailed_timings_flagged();
        let ghost views = spec_block_views(self.extensions@);
        let mut i: usize = 0;
        while i < self.extensions.len()
            invariant
                i <= self.extensions@.len(),
                views == spec_block_views(self.extensions@),
                dtds@ == spec_collect_flagged(self.base.raw@, 4) + spec_extension_dtds(
                    views.take(i as int),
                ),
            decreases self.extensions@.len() - i,
        {
            let ghost before = dtds@;
            if let Ok(cta) = self.extensions[i].cta_detailed_timings_flagged() {
                let mut k: usize = 0;
                while k < cta.len()
                    invariant
                        k <= cta@.len(),
                        dtds@ == before + cta@.take(k as int),
                    decreases cta@.len() - k,
                {
                    dtds.push(cta[k]);
                    k = k + 1;
                    assert(dtds@ =~= before + cta@.take(k as int));
                }
                assert(cta@.take(k as int) =~= cta@);
            }
            proof {
                assert(views.take(i + 1).drop_last() =~= views.take(i as int));
                assert(views.take(i + 1).last() == self.extensions@[i as int].raw@);
            }
            i = i + 1;
            assert(dtds@ =~= spec_collect_flagged(self.base.raw@, 4) + spec_extension_dtds(
                views.take(i as int),
            ));
        }
        assert(views.take(i as int) =~= views);
        dtds
    }

    /// Return the preferred (first valid) detailed timing for this display, if defined.
    pub fn preferred_timing(&self) -> (res: Option<DetailedTiming>)
        ensures
            res == spec_preferred(self.base.raw@, spec_block_views(self.extensions@)),
    {
        match self.base.read_detailed(0) {
            Some(t) => Some(t),
            None => {
                let all = self.all_detailed_timings();
                if all.len() > 0 {
                    Some(all[0])
                } else {
                    None
                }
            },
        }
    }
}

/// The data blocks read from a CTA extension depend only on its tag, its
/// DTD offset byte and the bytes 4-126.
proof fn lemma_cta_blocks_frame(s1: Seq<u8>, s2: Seq<u8>)
    requires
        s1.len() == 128,
        s2.len() == 128,
        s1[0] == s2[0],
        s1[2] == s2[2],
        forall|i: int| 4 <= i < 127 ==> s1[i] == s2[i],
    ensures
        spec_cta_blocks(s1) == spec_cta_blocks(s2),
{
    let end: int = if s1[2] == 0 { 127 } else { s1[2] as int };
    if 4 <= end <= 127 {
        assert(s1.subrange(4, end) =~= s2.subrange(4, end));
    }
}

/// Replacing the DTDs of a CTA extension keeps its data blocks: reading
/// them back after the replacement gives the blocks read before, whatever
/// the new native-count byte.
pub proof fn lemma_replace_timings_keeps_blocks(s: Seq<u8>, timings: Seq<DetailedTiming>, flags: u8)
    requires
        s.len() == 128,
        spec_cta_blocks(s) is Ok,
        spec_cta_build(s[1], spec_cta_blocks(s)->Ok_0, timings) is Ok,
    ensures
        spec_cta_blocks(
            spec_with_checksum(spec_cta_build(s[1], spec_cta_blocks(s)->Ok_0, timings)->Ok_0.update(3, flags)),
        ) == spec_cta_blocks(s),
{
    let b = spec_cta_build(s[1], spec_cta_blocks(s)->Ok_0, timings)->Ok_0;
    lemma_cta_build_then_read(s[1], spec_cta_blocks(s)->Ok_0, timings);
    lemma_cta_build_header(s[1], spec_cta_blocks(s)->Ok_0, timings);
    let after = spec_with_checksum(b.update(3, flags));
    lemma_cta_blocks_frame(after, b);
}

/// Replacing the data blocks of a CTA extension and reading them back gives
/// exactly the new blocks, whatever the kept capability flags.
pub proof fn lemma_replace_blocks_then_read(revision: u8, bv: Seq<(u8, Seq<u8>)>, flags: u8)
    requires
        spec_cta_build(revision, bv, Seq::empty()) is Ok,
    ensures
        spec_cta_blocks(
            spec_with_checksum(spec_cta_build(revision, bv, Seq::empty())->Ok_0.update(3, flags)),
        ) == Ok::<Seq<(u8, Seq<u8>)>, ExtensionError>(bv),
{
    let b = spec_cta_build(revision, bv, Seq::empty())->Ok_0;
    lemma_cta_build_then_read(revision, bv, Seq::empty());
    lemma_cta_build_header(revision, bv, Seq::empty());
    lemma_cta_blocks_frame(spec_with_checksum(b.update(3, flags)), b);
}

/// Changing the CTA header (revision and capability byte) keeps the data
/// blocks.
pub proof fn lemma_set_header_keeps_blocks(s: Seq<u8>, revision: u8, flags: u8)
    requires
        s.len() == 128,
    ensures
        spec_cta_blocks(spec_with_checksum(s.update(1, revision).update(3, flags))) == spec_cta_blocks(s),
{
    lemma_cta_blocks_frame(spec_with_checksum(s.update(1, revision).update(3, flags)), s);
}

} // verus!
