//! Structured errors for strict EDID parsing, validation and encoding.
use vstd::prelude::*;

verus! {

/// Errors returned when an EDID block cannot be accepted by the strict parser.
#[derive(Clone, Debug, PartialEq, Eq)]
pub enum EdidError {
    /// The input is not exactly one complete EDID block.
    InvalidLength {
        /// Required EDID block length.
        expected: usize,
        /// Actual input length.
        actual: usize,
    },
    /// A base block does not begin with the required EDID header.
    InvalidHeader,
    /// The block bytes do not sum to zero modulo 256.
    InvalidChecksum {
        /// Sum of all block bytes modulo 256.
        sum: u8,
    },
    /// The input is not a whole sequence of EDID blocks.
    InvalidBlockSequenceLength {
        /// Actual input length in bytes.
        actual: usize,
    },
    /// The base block's extension count disagrees with the supplied blocks.
    ExtensionCountMismatch {
        /// Count declared by the base block.
        declared: usize,
        /// Number of extension blocks supplied.
        actual: usize,
    },
    /// The base block uses an unsupported EDID version.
    UnsupportedVersion {
        /// EDID major version.
        major: u8,
        /// EDID minor version.
        minor: u8,
    },
}

/// Errors returned while decoding or encoding base-block metadata.
#[derive(Clone, Debug, PartialEq, Eq)]
pub enum MetadataError {
    /// The block does not contain the EDID base-block header.
    NotBaseBlock,
    /// Manufacturer ID contains a value outside A-Z.
    InvalidManufacturerId,
    /// Manufacturer ID contains a non-uppercase ASCII character.
    InvalidManufacturerCharacter {
        /// Character position in the three-letter ID.
        index: usize,
        /// Invalid character value.
        character: char,
    },
    /// Manufacture year cannot be represented by the EDID year offset.
    InvalidManufactureYear {
        /// Supplied absolute year.
        year: u16,
    },
    /// Manufacture week uses a reserved EDID encoding.
    InvalidManufactureWeek {
        /// Supplied EDID manufacture-week byte.
        week: u8,
    },
    /// Gamma is outside the EDID representable range, in hundredths.
    InvalidGamma {
        /// Supplied gamma multiplied by 100.
        value: u16,
    },
}

/// Errors returned while encoding chromaticity and standard-timing views.
#[derive(Clone, Debug, PartialEq, Eq)]
pub enum MetadataWriteError {
    /// The block does not contain the EDID base-block header.
    NotBaseBlock,
    /// A chromaticity coordinate exceeds its 10-bit EDID representation.
    InvalidChromaticityValue {
        /// Supplied encoded coordinate value.
        value: u16,
    },
    /// A standard timing cannot be represented by its two-byte encoding.
    InvalidStandardTiming {
        /// Supplied horizontal active size.
        horizontal_pixels: u16,
        /// Supplied refresh rate.
        refresh_rate_hz: u8,
    },
    /// A standard timing collides with the EDID unused-slot encoding.
    ReservedStandardTimingEncoding,
    /// A reserved standard-timing entry contains a valid mode encoding.
    InvalidReservedStandardTimingEncoding {
        /// Original two-byte encoding.
        raw: [u8; 2],
    },
}

/// Errors returned while decoding or encoding monitor descriptors.
#[derive(Clone, Debug, PartialEq, Eq)]
pub enum DescriptorError {
    /// The requested descriptor slot does not exist.
    SlotOutOfRange {
        /// Requested slot index.
        slot: usize,
        /// Number of descriptor slots.
        slots: usize,
    },
    /// The block does not contain the EDID base-block header.
    NotBaseBlock,
    /// Text is longer than the 13-byte descriptor payload allows.
    TextTooLong {
        /// Maximum text length in bytes.
        max: usize,
        /// Supplied text length in bytes.
        actual: usize,
    },
    /// Text contains a character that cannot be encoded in an EDID descriptor.
    NonAsciiText,
    /// A range-limit field is outside its one-byte EDID representation.
    RangeOutOfBounds,
    /// Chromaticity coordinate exceeds the 10-bit range (0..=1023).
    InvalidChromaticityCoordinate {
        /// Coordinate value.
        value: u16,
    },
    /// Gamma is outside the EDID representable range, in hundredths.
    InvalidGamma {
        /// Supplied gamma multiplied by 100.
        value: u16,
    },
    /// Standard timing error in an additional standard timings descriptor.
    StandardTimingError(MetadataWriteError),
    /// Invalid descriptor revision number.
    InvalidRevision {
        /// Descriptor tag byte.
        tag: u8,
        /// Found revision byte.
        revision: u8,
    },
    /// Invalid Range Limits extension definition code or parameters.
    InvalidRangeExtension,
    /// Invalid CVT 3-byte timing code entry.
    InvalidCvtTiming {
        /// CVT slot index (0..4).
        slot: usize,
        /// Detailed reason.
        reason: &'static str,
    },
}

/// DTD field that failed a representability check.
#[derive(Clone, Copy, Debug, PartialEq, Eq)]
pub enum DtdField {
    /// Horizontal active pixels.
    HorizontalActive,
    /// Vertical active lines.
    VerticalActive,
    /// Horizontal blanking pixels.
    HorizontalBlanking,
    /// Vertical blanking lines.
    VerticalBlanking,
    /// Horizontal front porch pixels.
    HorizontalFrontPorch,
    /// Horizontal sync width in pixels.
    HorizontalSync,
    /// Vertical front porch lines.
    VerticalFrontPorch,
    /// Vertical sync width in lines.
    VerticalSync,
    /// Horizontal border pixels.
    HorizontalBorder,
    /// Vertical border lines.
    VerticalBorder,
    /// Pixel clock in kHz.
    PixelClockKHz,
}

/// Errors returned when a timing cannot be represented by an EDID DTD.
#[derive(Clone, Debug, PartialEq, Eq)]
pub enum DtdError {
    /// The requested DTD slot does not exist.
    SlotOutOfRange {
        /// Requested slot index.
        slot: usize,
        /// Number of available DTD slots.
        slots: usize,
    },
    /// A field has an invalid value even though it fits its bit width.
    InvalidField {
        /// Field with the invalid value.
        field: DtdField,
        /// Supplied field value.
        value: u32,
    },
    /// A field exceeds its EDID bit-field limit.
    FieldOutOfRange {
        /// Field that exceeded its limit.
        field: DtdField,
        /// Supplied field value.
        value: u32,
        /// Largest representable field value.
        max: u32,
    },
    /// An intermediate timing calculation overflowed.
    ArithmeticOverflow,
    /// The block has fewer reusable DTD slots than requested timings.
    NoAvailableSlot {
        /// Number of requested timings.
        requested: usize,
        /// Number of reusable slots.
        available: usize,
    },
}

/// Errors returned by the strict timing-to-EDID serializer.
#[allow(inconsistent_fields)]
#[derive(Clone, Debug, PartialEq, Eq)]
pub enum SerializeError {
    /// Existing input is not an integral sequence of EDID blocks.
    InvalidExistingLength {
        /// Actual input length in bytes.
        actual: usize,
    },
    /// An existing block failed strict validation.
    InvalidExistingBlock {
        /// Zero-based block index.
        index: usize,
        /// Validation failure from that block.
        source: EdidError,
    },
    /// The base block's extension count disagrees with the supplied blocks.
    ExtensionCountMismatch {
        /// Count declared by the base block.
        declared: usize,
        /// Number of extension blocks supplied.
        actual: usize,
    },
    /// A requested resolution could not produce a timing.
    TimingUnavailable {
        /// Zero-based resolution index.
        index: usize,
    },
    /// A computed timing exceeds DTD field limits.
    TimingDoesNotFit {
        /// Zero-based resolution index.
        index: usize,
    },
    /// No reusable DTD slot remains for a requested timing.
    NoDtdSlot {
        /// Zero-based resolution index that could not be written.
        index: usize,
    },
    /// A manually supplied timing failed DTD validation.
    InvalidTiming {
        /// Zero-based timing index.
        index: usize,
        /// DTD validation failure.
        source: DtdError,
    },
    /// The extension count cannot be represented by the base block byte.
    TooManyExtensions {
        /// Number of extension blocks supplied.
        count: usize,
    },
}

/// Errors returned while parsing an X11 / xrandr Modeline string.
#[derive(Clone, Debug, PartialEq, Eq)]
pub enum ModelineError {
    /// Modeline string is empty or contains insufficient tokens.
    InsufficientTokens,
    /// A numeric parameter failed to parse.
    InvalidNumber {
        /// The invalid token.
        token: String,
    },
    /// Invalid geometry (e.g. sync start < active, sync end < sync start, total < sync end).
    InvalidGeometry(&'static str),
    /// Pixel clock is zero or mathematically invalid.
    InvalidPixelClock,
}

/// Errors returned while parsing hexadecimal EDID strings.
#[derive(Clone, Debug, PartialEq, Eq)]
pub enum HexError {
    /// String contains a non-hexadecimal character.
    InvalidHexCharacter {
        /// Character byte offset.
        offset: usize,
        /// Invalid character.
        character: char,
    },
    /// Hex string has an odd number of hexadecimal digits.
    OddLength {
        /// Total number of hex digits found.
        length: usize,
    },
    /// Decoded byte count does not match the expected EDID block size.
    InvalidLength {
        /// Number of decoded bytes.
        bytes: usize,
    },
    /// EDID block or sequence validation failed.
    EdidError(EdidError),
}

} // verus!
