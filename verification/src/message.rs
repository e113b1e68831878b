//! Human-readable messages of the library's error types.
use vstd::prelude::*;
use crate::error::{
    DescriptorError, DtdError, DtdField, EdidError, HexError, MetadataError, MetadataWriteError,
    ModelineError, SerializeError,
};
use crate::extensions::{ExtensionError, ExtensionWriteError};
use crate::hex::spec_hex_digit;
use crate::text::{string_push, string_push_str};

verus! {

/// Decimal digits of a natural number, most significant first.
pub open spec fn spec_decimal(n: nat) -> Seq<char>
    decreases n,
{
    if n < 10 {
        seq![(n + 48) as char]
    } else {
        spec_decimal(n / 10).push(((n % 10) + 48) as char)
    }
}

/// Append the decimal digits of `n`.
fn push_decimal(s: &mut String, n: u64)
    ensures
        final(s)@ == old(s)@ + spec_decimal(n as nat),
    decreases n,
{
    if n >= 10 {
        push_decimal(s, n / 10);
    }
    let d = (n % 10) as u8;
    string_push(s, (d + 48) as char);
    assert(final(s)@ =~= old(s)@ + spec_decimal(n as nat));
}

/// Two uppercase hex digits of a byte.
pub open spec fn spec_hex_byte(b: u8) -> Seq<char> {
    seq![spec_hex_digit((b / 16) as int, true), spec_hex_digit((b % 16) as int, true)]
}

fn hex_digit_upper(n: u8) -> (c: char)
    requires
        n < 16,
    ensures
        c == spec_hex_digit(n as int, true),
{
    if n < 10 {
        (n + 48) as char
    } else {
        (n + 55) as char
    }
}

/// Append two uppercase hex digits of `b`.
fn push_hex_byte(s: &mut String, b: u8)
    ensures
        final(s)@ == old(s)@ + spec_hex_byte(b),
{
    string_push(s, hex_digit_upper(b / 16));
    string_push(s, hex_digit_upper(b % 16));
    assert(final(s)@ =~= old(s)@ + spec_hex_byte(b));
}

/// Hex bytes separated by `", "`.
pub open spec fn spec_hex_items(b: Seq<u8>) -> Seq<char>
    decreases b.len(),
{
    if b.len() == 0 {
        Seq::empty()
    } else if b.len() == 1 {
        spec_hex_byte(b[0])
    } else {
        spec_hex_items(b.drop_last()) + ", "@ + spec_hex_byte(b.last())
    }
}

/// A byte list in bracketed uppercase hex, as `[D1, C0]`.
pub open spec fn spec_hex_list(b: Seq<u8>) -> Seq<char> {
    "["@ + spec_hex_items(b) + "]"@
}

/// Append a byte list in bracketed uppercase hex.
fn push_hex_list(s: &mut String, b: &[u8])
    ensures
        final(s)@ == old(s)@ + spec_hex_list(b@),
{
    let ghost start = s@;
    string_push_str(s, "[");
    let mut i: usize = 0;
    while i < b.len()
        invariant
            i <= b@.len(),
            s@ == start + "["@ + spec_hex_items(b@.take(i as int)),
        decreases b@.len() - i,
    {
        let ghost before = s@;
        if i > 0 {
            string_push_str(s, ", ");
        }
        push_hex_byte(s, b[i]);
        proof {
            let t = b@.take(i + 1);
            assert(t.drop_last() =~= b@.take(i as int));
            if i == 0 {
                assert(spec_hex_items(b@.take(i as int)) =~= Seq::<char>::empty());
                assert(s@ =~= start + "["@ + spec_hex_items(t));
            } else {
                assert(s@ =~= start + "["@ + spec_hex_items(t));
            }
        }
        i = i + 1;
    }
    assert(b@.take(i as int) =~= b@);
    string_push_str(s, "]");
    assert(final(s)@ =~= old(s)@ + spec_hex_list(b@));
}

/// Debug form of an optional byte: `None` or `Some(n)`.
pub open spec fn spec_option_u8_debug(o: Option<u8>) -> Seq<char> {
    match o {
        None => "None"@,
        Some(v) => "Some("@ + spec_decimal(v as nat) + ")"@,
    }
}

fn push_option_u8_debug(s: &mut String, o: Option<u8>)
    ensures
        final(s)@ == old(s)@ + spec_option_u8_debug(o),
{
    match o {
        None => {
            string_push_str(s, "None");
        },
        Some(v) => {
            string_push_str(s, "Some(");
            push_decimal(s, v as u64);
            string_push_str(s, ")");
        },
    }
    assert(final(s)@ =~= old(s)@ + spec_option_u8_debug(o));
}

/// Name of a DTD field, as its variant is written.
pub open spec fn spec_dtd_field_name(f: DtdField) -> Seq<char> {
    match f {
        DtdField::HorizontalActive => "HorizontalActive"@,
        DtdField::VerticalActive => "VerticalActive"@,
        DtdField::HorizontalBlanking => "HorizontalBlanking"@,
        DtdField::VerticalBlanking => "VerticalBlanking"@,
        DtdField::HorizontalFrontPorch => "HorizontalFrontPorch"@,
        DtdField::HorizontalSync => "HorizontalSync"@,
        DtdField::VerticalFrontPorch => "VerticalFrontPorch"@,
        DtdField::VerticalSync => "VerticalSync"@,
        DtdField::HorizontalBorder => "HorizontalBorder"@,
        DtdField::VerticalBorder => "VerticalBorder"@,
        DtdField::PixelClockKHz => "PixelClockKHz"@,
    }
}

fn push_dtd_field_name(s: &mut String, f: DtdField)
    ensures
        final(s)@ == old(s)@ + spec_dtd_field_name(f),
{
    match f {
        DtdField::HorizontalActive => string_push_str(s, "HorizontalActive"),
        DtdField::VerticalActive => string_push_str(s, "VerticalActive"),
        DtdField::HorizontalBlanking => string_push_str(s, "HorizontalBlanking"),
        DtdField::VerticalBlanking => string_push_str(s, "VerticalBlanking"),
        DtdField::HorizontalFrontPorch => string_push_str(s, "HorizontalFrontPorch"),
        DtdField::HorizontalSync => string_push_str(s, "HorizontalSync"),
        DtdField::VerticalFrontPorch => string_push_str(s, "VerticalFrontPorch"),
        DtdField::VerticalSync => string_push_str(s, "VerticalSync"),
        DtdField::HorizontalBorder => string_push_str(s, "HorizontalBorder"),
        DtdField::VerticalBorder => string_push_str(s, "VerticalBorder"),
        DtdField::PixelClockKHz => string_push_str(s, "PixelClockKHz"),
    }
}

/// The quoted, escaped form that std's `Debug` gives a character.
pub uninterp spec fn char_debug_text(c: char) -> Seq<char>;

/// The quoted, escaped form that std's `Debug` gives a string.
pub uninterp spec fn str_debug_text(t: Seq<char>) -> Seq<char>;

/// Debug form of a character.
///
/// Trusted wrapper of `char`'s `Debug` formatting, which quotes the
/// character and escapes it as `char::escape_debug` does; the result is
/// named, not spelled out, and depends on the character alone.
#[verifier::external_body]
fn char_debug(c: char) -> (d: String)
    ensures
        d@ == char_debug_text(c),
{
    format!("{c:?}")
}

/// Debug form of a string.
///
/// Trusted wrapper of `str`'s `Debug` formatting, which quotes the text and
/// escapes each character as `char::escape_debug` does; the result is
/// named, not spelled out, and depends on the text alone.
#[verifier::external_body]
fn str_debug(t: &str) -> (d: String)
    ensures
        d@ == str_debug_text(t@),
{
    format!("{t:?}")
}

fn push_char_debug(s: &mut String, c: char)
    ensures
        final(s)@ == old(s)@ + char_debug_text(c),
{
    let d = char_debug(c);
    string_push_str(s, d.as_str());
}

fn push_str_debug(s: &mut String, t: &str)
    ensures
        final(s)@ == old(s)@ + str_debug_text(t@),
{
    let d = str_debug(t);
    string_push_str(s, d.as_str());
}

/// The human-readable message of a [`EdidError`].
pub open spec fn spec_edid_error_message(e: EdidError) -> Seq<char> {
    match e {
        EdidError::InvalidLength { expected, actual } => "invalid EDID block length: expected "@ + spec_decimal(expected as nat) + ", got "@ + spec_decimal(actual as nat),
        EdidError::InvalidHeader => "invalid EDID base-block header"@,
        EdidError::InvalidChecksum { sum } => "invalid EDID checksum: byte sum modulo 256 is "@ + spec_decimal(sum as nat),
        EdidError::InvalidBlockSequenceLength { actual } => "invalid EDID block sequence length: got "@ + spec_decimal(actual as nat) + " bytes"@,
        EdidError::ExtensionCountMismatch { declared, actual } => "EDID declares "@ + spec_decimal(declared as nat) + " extension blocks but supplied "@ + spec_decimal(actual as nat),
        EdidError::UnsupportedVersion { major, minor } => "unsupported EDID version "@ + spec_decimal(major as nat) + "."@ + spec_decimal(minor as nat),
    }
}

impl EdidError {
    /// Human-readable description of the error.
    pub fn message(&self) -> (s: String)
        ensures
            s@ == spec_edid_error_message(*self),
    {
        let mut s = String::new();
        match self {
            EdidError::InvalidLength { expected, actual } => {
                string_push_str(&mut s, "invalid EDID block length: expected ");
                push_decimal(&mut s, *expected as u64);
                string_push_str(&mut s, ", got ");
                push_decimal(&mut s, *actual as u64);
            },
            EdidError::InvalidHeader => {
                string_push_str(&mut s, "invalid EDID base-block header");
            },
            EdidError::InvalidChecksum { sum } => {
                string_push_str(&mut s, "invalid EDID checksum: byte sum modulo 256 is ");
                push_decimal(&mut s, *sum as u64);
            },
            EdidError::InvalidBlockSequenceLength { actual } => {
                string_push_str(&mut s, "invalid EDID block sequence length: got ");
                push_decimal(&mut s, *actual as u64);
                string_push_str(&mut s, " bytes");
            },
            EdidError::ExtensionCountMismatch { declared, actual } => {
                string_push_str(&mut s, "EDID declares ");
                push_decimal(&mut s, *declared as u64);
                string_push_str(&mut s, " extension blocks but supplied ");
                push_decimal(&mut s, *actual as u64);
            },
            EdidError::UnsupportedVersion { major, minor } => {
                string_push_str(&mut s, "unsupported EDID version ");
                push_decimal(&mut s, *major as u64);
                string_push_str(&mut s, ".");
                push_decimal(&mut s, *minor as u64);
            },
        }
        assert(s@ =~= spec_edid_error_message(*self));
        s
    }
}

/// The human-readable message of a [`MetadataError`].
pub open spec fn spec_metadata_error_message(e: MetadataError) -> Seq<char> {
    match e {
        MetadataError::NotBaseBlock => "block is not an EDID base block"@,
        MetadataError::InvalidManufacturerId => "invalid EDID manufacturer ID"@,
        MetadataError::InvalidManufacturerCharacter { index, character } => "invalid manufacturer character "@ + char_debug_text(character) + " at index "@ + spec_decimal(index as nat),
        MetadataError::InvalidManufactureYear { year } => "manufacture year "@ + spec_decimal(year as nat) + " is outside the EDID range"@,
        MetadataError::InvalidManufactureWeek { week } => "manufacture week "@ + spec_decimal(week as nat) + " uses a reserved EDID encoding"@,
        MetadataError::InvalidGamma { value } => "gamma value "@ + spec_decimal(value as nat) + " is outside the EDID range"@,
    }
}

impl MetadataError {
    /// Human-readable description of the error.
    pub fn message(&self) -> (s: String)
        ensures
            s@ == spec_metadata_error_message(*self),
    {
        let mut s = String::new();
        match self {
            MetadataError::NotBaseBlock => {
                string_push_str(&mut s, "block is not an EDID base block");
            },
            MetadataError::InvalidManufacturerId => {
                string_push_str(&mut s, "invalid EDID manufacturer ID");
            },
            MetadataError::InvalidManufacturerCharacter { index, character } => {
                string_push_str(&mut s, "invalid manufacturer character ");
                push_char_debug(&mut s, *character);
                string_push_str(&mut s, " at index ");
                push_decimal(&mut s, *index as u64);
            },
            MetadataError::InvalidManufactureYear { year } => {
                string_push_str(&mut s, "manufacture year ");
                push_decimal(&mut s, *year as u64);
                string_push_str(&mut s, " is outside the EDID range");
            },
            MetadataError::InvalidManufactureWeek { week } => {
                string_push_str(&mut s, "manufacture week ");
                push_decimal(&mut s, *week as u64);
                string_push_str(&mut s, " uses a reserved EDID encoding");
            },
            MetadataError::InvalidGamma { value } => {
                string_push_str(&mut s, "gamma value ");
                push_decimal(&mut s, *value as u64);
                string_push_str(&mut s, " is outside the EDID range");
            },
        }
        assert(s@ =~= spec_metadata_error_message(*self));
        s
    }
}

/// The human-readable message of a [`MetadataWriteError`].
pub open spec fn spec_metadata_write_error_message(e: MetadataWriteError) -> Seq<char> {
    match e {
        MetadataWriteError::NotBaseBlock => "block is not an EDID base block"@,
        MetadataWriteError::InvalidChromaticityValue { value } => "chromaticity value "@ + spec_decimal(value as nat) + " exceeds the 10-bit EDID range"@,
        MetadataWriteError::InvalidStandardTiming { horizontal_pixels, refresh_rate_hz } => "standard timing "@ + spec_decimal(horizontal_pixels as nat) + " pixels at "@ + spec_decimal(refresh_rate_hz as nat) + " Hz is not representable"@,
        MetadataWriteError::ReservedStandardTimingEncoding => "standard timing collides with the EDID unused-slot encoding"@,
        MetadataWriteError::InvalidReservedStandardTimingEncoding { raw } => "reserved standard timing encoding "@ + spec_hex_list(raw@) + " is a valid mode encoding"@,
    }
}

impl MetadataWriteError {
    /// Human-readable description of the error.
    pub fn message(&self) -> (s: String)
        ensures
            s@ == spec_metadata_write_error_message(*self),
    {
        let mut s = String::new();
        match self {
            MetadataWriteError::NotBaseBlock => {
                string_push_str(&mut s, "block is not an EDID base block");
            },
            MetadataWriteError::InvalidChromaticityValue { value } => {
                string_push_str(&mut s, "chromaticity value ");
                push_decimal(&mut s, *value as u64);
                string_push_str(&mut s, " exceeds the 10-bit EDID range");
            },
            MetadataWriteError::InvalidStandardTiming { horizontal_pixels, refresh_rate_hz } => {
                string_push_str(&mut s, "standard timing ");
                push_decimal(&mut s, *horizontal_pixels as u64);
                string_push_str(&mut s, " pixels at ");
                push_decimal(&mut s, *refresh_rate_hz as u64);
                string_push_str(&mut s, " Hz is not representable");
            },
            MetadataWriteError::ReservedStandardTimingEncoding => {
                string_push_str(&mut s, "standard timing collides with the EDID unused-slot encoding");
            },
            MetadataWriteError::InvalidReservedStandardTimingEncoding { raw } => {
                string_push_str(&mut s, "reserved standard timing encoding ");
                push_hex_list(&mut s, raw.as_slice());
                string_push_str(&mut s, " is a valid mode encoding");
            },
        }
        assert(s@ =~= spec_metadata_write_error_message(*self));
        s
    }
}

/// The human-readable message of a [`DtdError`].
pub open spec fn spec_dtd_error_message(e: DtdError) -> Seq<char> {
    match e {
        DtdError::SlotOutOfRange { slot, slots } => "DTD slot "@ + spec_decimal(slot as nat) + " is out of range ("@ + spec_decimal(slots as nat) + " slots)"@,
        DtdError::InvalidField { field, value } => "DTD field "@ + spec_dtd_field_name(field) + " has invalid value "@ + spec_decimal(value as nat),
        DtdError::FieldOutOfRange { field, value, max } => "DTD field "@ + spec_dtd_field_name(field) + " value "@ + spec_decimal(value as nat) + " exceeds "@ + spec_decimal(max as nat),
        DtdError::ArithmeticOverflow => "DTD timing arithmetic overflowed"@,
        DtdError::NoAvailableSlot { requested, available } => "requested "@ + spec_decimal(requested as nat) + " timings but only "@ + spec_decimal(available as nat) + " DTD slots are available"@,
    }
}

impl DtdError {
    /// Human-readable description of the error.
    pub fn message(&self) -> (s: String)
        ensures
            s@ == spec_dtd_error_message(*self),
    {
        let mut s = String::new();
        match self {
            DtdError::SlotOutOfRange { slot, slots } => {
                string_push_str(&mut s, "DTD slot ");
                push_decimal(&mut s, *slot as u64);
                string_push_str(&mut s, " is out of range (");
                push_decimal(&mut s, *slots as u64);
                string_push_str(&mut s, " slots)");
            },
            DtdError::InvalidField { field, value } => {
                string_push_str(&mut s, "DTD field ");
                push_dtd_field_name(&mut s, *field);
                string_push_str(&mut s, " has invalid value ");
                push_decimal(&mut s, *value as u64);
            },
            DtdError::FieldOutOfRange { field, value, max } => {
                string_push_str(&mut s, "DTD field ");
                push_dtd_field_name(&mut s, *field);
                string_push_str(&mut s, " value ");
                push_decimal(&mut s, *value as u64);
                string_push_str(&mut s, " exceeds ");
                push_decimal(&mut s, *max as u64);
            },
            DtdError::ArithmeticOverflow => {
                string_push_str(&mut s, "DTD timing arithmetic overflowed");
            },
            DtdError::NoAvailableSlot { requested, available } => {
                string_push_str(&mut s, "requested ");
                push_decimal(&mut s, *requested as u64);
                string_push_str(&mut s, " timings but only ");
                push_decimal(&mut s, *available as u64);
                string_push_str(&mut s, " DTD slots are available");
            },
        }
        assert(s@ =~= spec_dtd_error_message(*self));
        s
    }
}

/// The human-readable message of a [`DescriptorError`].
pub open spec fn spec_descriptor_error_message(e: DescriptorError) -> Seq<char> {
    match e {
        DescriptorError::SlotOutOfRange { slot, slots } => "descriptor slot "@ + spec_decimal(slot as nat) + " is out of range ("@ + spec_decimal(slots as nat) + " slots)"@,
        DescriptorError::NotBaseBlock => "block is not an EDID base block"@,
        DescriptorError::TextTooLong { max, actual } => "descriptor text is "@ + spec_decimal(actual as nat) + " bytes, maximum is "@ + spec_decimal(max as nat),
        DescriptorError::NonAsciiText => "descriptor text must be ASCII"@,
        DescriptorError::RangeOutOfBounds => "descriptor range field is out of bounds"@,
        DescriptorError::InvalidChromaticityCoordinate { value } => "descriptor chromaticity coordinate "@ + spec_decimal(value as nat) + " exceeds 10 bits"@,
        DescriptorError::InvalidGamma { value } => "descriptor gamma value "@ + spec_decimal(value as nat) + " is outside the EDID range"@,
        DescriptorError::StandardTimingError(x0) => "descriptor standard timing error: "@ + spec_metadata_write_error_message(x0),
        DescriptorError::InvalidRevision { tag, revision } => "invalid revision "@ + "0x"@ + spec_hex_byte(revision) + " for descriptor tag "@ + "0x"@ + spec_hex_byte(tag),
        DescriptorError::InvalidRangeExtension => "invalid range limits extension parameters"@,
        DescriptorError::InvalidCvtTiming { slot, reason } => "invalid CVT 3-byte timing at slot "@ + spec_decimal(slot as nat) + ": "@ + reason@,
    }
}

impl DescriptorError {
    /// Human-readable description of the error.
    pub fn message(&self) -> (s: String)
        ensures
            s@ == spec_descriptor_error_message(*self),
    {
        let mut s = String::new();
        match self {
            DescriptorError::SlotOutOfRange { slot, slots } => {
                string_push_str(&mut s, "descriptor slot ");
                push_decimal(&mut s, *slot as u64);
                string_push_str(&mut s, " is out of range (");
                push_decimal(&mut s, *slots as u64);
                string_push_str(&mut s, " slots)");
            },
            DescriptorError::NotBaseBlock => {
                string_push_str(&mut s, "block is not an EDID base block");
            },
            DescriptorError::TextTooLong { max, actual } => {
                string_push_str(&mut s, "descriptor text is ");
                push_decimal(&mut s, *actual as u64);
                string_push_str(&mut s, " bytes, maximum is ");
                push_decimal(&mut s, *max as u64);
            },
            DescriptorError::NonAsciiText => {
                string_push_str(&mut s, "descriptor text must be ASCII");
            },
            DescriptorError::RangeOutOfBounds => {
                string_push_str(&mut s, "descriptor range field is out of bounds");
            },
            DescriptorError::InvalidChromaticityCoordinate { value } => {
                string_push_str(&mut s, "descriptor chromaticity coordinate ");
                push_decimal(&mut s, *value as u64);
                string_push_str(&mut s, " exceeds 10 bits");
            },
            DescriptorError::InvalidGamma { value } => {
                string_push_str(&mut s, "descriptor gamma value ");
                push_decimal(&mut s, *value as u64);
                string_push_str(&mut s, " is outside the EDID range");
            },
            DescriptorError::StandardTimingError(x0) => {
                string_push_str(&mut s, "descriptor standard timing error: ");
                let inner = x0.message();
                string_push_str(&mut s, inner.as_str());
            },
            DescriptorError::InvalidRevision { tag, revision } => {
                string_push_str(&mut s, "invalid revision ");
                string_push_str(&mut s, "0x");
                push_hex_byte(&mut s, *revision);
                string_push_str(&mut s, " for descriptor tag ");
                string_push_str(&mut s, "0x");
                push_hex_byte(&mut s, *tag);
            },
            DescriptorError::InvalidRangeExtension => {
                string_push_str(&mut s, "invalid range limits extension parameters");
            },
            DescriptorError::InvalidCvtTiming { slot, reason } => {
                string_push_str(&mut s, "invalid CVT 3-byte timing at slot ");
                push_decimal(&mut s, *slot as u64);
                string_push_str(&mut s, ": ");
                string_push_str(&mut s, *reason);
            },
        }
        assert(s@ =~= spec_descriptor_error_message(*self));
        s
    }
}

/// The human-readable message of a [`SerializeError`].
pub open spec fn spec_serialize_error_message(e: SerializeError) -> Seq<char> {
    match e {
        SerializeError::InvalidExistingLength { actual } => "existing EDID length "@ + spec_decimal(actual as nat) + " is not a whole block sequence"@,
        SerializeError::InvalidExistingBlock { index, source } => "existing EDID block "@ + spec_decimal(index as nat) + " is invalid: "@ + spec_edid_error_message(source),
        SerializeError::ExtensionCountMismatch { declared, actual } => "EDID declares "@ + spec_decimal(declared as nat) + " extension blocks but supplied "@ + spec_decimal(actual as nat),
        SerializeError::TimingUnavailable { index } => "resolution "@ + spec_decimal(index as nat) + " could not produce a timing"@,
        SerializeError::TimingDoesNotFit { index } => "resolution "@ + spec_decimal(index as nat) + " does not fit an EDID DTD"@,
        SerializeError::NoDtdSlot { index } => "no DTD slot is available for resolution "@ + spec_decimal(index as nat),
        SerializeError::InvalidTiming { index, source } => "timing "@ + spec_decimal(index as nat) + " is invalid: "@ + spec_dtd_error_message(source),
        SerializeError::TooManyExtensions { count } => "EDID contains too many extension blocks: "@ + spec_decimal(count as nat),
    }
}

impl SerializeError {
    /// Human-readable description of the error.
    pub fn message(&self) -> (s: String)
        ensures
            s@ == spec_serialize_error_message(*self),
    {
        let mut s = String::new();
        match self {
            SerializeError::InvalidExistingLength { actual } => {
                string_push_str(&mut s, "existing EDID length ");
                push_decimal(&mut s, *actual as u64);
                string_push_str(&mut s, " is not a whole block sequence");
            },
            SerializeError::InvalidExistingBlock { index, source } => {
                string_push_str(&mut s, "existing EDID block ");
                push_decimal(&mut s, *index as u64);
                string_push_str(&mut s, " is invalid: ");
                let inner = source.message();
                string_push_str(&mut s, inner.as_str());
            },
            SerializeError::ExtensionCountMismatch { declared, actual } => {
                string_push_str(&mut s, "EDID declares ");
                push_decimal(&mut s, *declared as u64);
                string_push_str(&mut s, " extension blocks but supplied ");
                push_decimal(&mut s, *actual as u64);
            },
            SerializeError::TimingUnavailable { index } => {
                string_push_str(&mut s, "resolution ");
                push_decimal(&mut s, *index as u64);
                string_push_str(&mut s, " could not produce a timing");
            },
            SerializeError::TimingDoesNotFit { index } => {
                string_push_str(&mut s, "resolution ");
                push_decimal(&mut s, *index as u64);
                string_push_str(&mut s, " does not fit an EDID DTD");
            },
            SerializeError::NoDtdSlot { index } => {
                string_push_str(&mut s, "no DTD slot is available for resolution ");
                push_decimal(&mut s, *index as u64);
            },
            SerializeError::InvalidTiming { index, source } => {
                string_push_str(&mut s, "timing ");
                push_decimal(&mut s, *index as u64);
                string_push_str(&mut s, " is invalid: ");
                let inner = source.message();
                string_push_str(&mut s, inner.as_str());
            },
            SerializeError::TooManyExtensions { count } => {
                string_push_str(&mut s, "EDID contains too many extension blocks: ");
                push_decimal(&mut s, *count as u64);
            },
        }
        assert(s@ =~= spec_serialize_error_message(*self));
        s
    }
}

/// The human-readable message of a [`ModelineError`].
pub open spec fn spec_modeline_error_message(e: ModelineError) -> Seq<char> {
    match e {
        ModelineError::InsufficientTokens => "Modeline string has insufficient tokens"@,
        ModelineError::InvalidNumber { token } => "invalid numeric token in Modeline: "@ + str_debug_text(token@),
        ModelineError::InvalidGeometry(x0) => "invalid Modeline geometry: "@ + x0@,
        ModelineError::InvalidPixelClock => "Modeline pixel clock must be positive and non-zero"@,
    }
}

impl ModelineError {
    /// Human-readable description of the error.
    pub fn message(&self) -> (s: String)
        ensures
            s@ == spec_modeline_error_message(*self),
    {
        let mut s = String::new();
        match self {
            ModelineError::InsufficientTokens => {
                string_push_str(&mut s, "Modeline string has insufficient tokens");
            },
            ModelineError::InvalidNumber { token } => {
                string_push_str(&mut s, "invalid numeric token in Modeline: ");
                push_str_debug(&mut s, token.as_str());
            },
            ModelineError::InvalidGeometry(x0) => {
                string_push_str(&mut s, "invalid Modeline geometry: ");
                string_push_str(&mut s, *x0);
            },
            ModelineError::InvalidPixelClock => {
                string_push_str(&mut s, "Modeline pixel clock must be positive and non-zero");
            },
        }
        assert(s@ =~= spec_modeline_error_message(*self));
        s
    }
}

/// The human-readable message of a [`HexError`].
pub open spec fn spec_hex_error_message(e: HexError) -> Seq<char> {
    match e {
        HexError::InvalidHexCharacter { offset, character } => "invalid hex character "@ + char_debug_text(character) + " at index "@ + spec_decimal(offset as nat),
        HexError::OddLength { length } => "hex string has odd length ("@ + spec_decimal(length as nat) + " nibbles)"@,
        HexError::InvalidLength { bytes } => "decoded "@ + spec_decimal(bytes as nat) + " bytes, expected a multiple of 128 (EDID block size)"@,
        HexError::EdidError(x0) => "EDID validation error: "@ + spec_edid_error_message(x0),
    }
}

impl HexError {
    /// Human-readable description of the error.
    pub fn message(&self) -> (s: String)
        ensures
            s@ == spec_hex_error_message(*self),
    {
        let mut s = String::new();
        match self {
            HexError::InvalidHexCharacter { offset, character } => {
                string_push_str(&mut s, "invalid hex character ");
                push_char_debug(&mut s, *character);
                string_push_str(&mut s, " at index ");
                push_decimal(&mut s, *offset as u64);
            },
            HexError::OddLength { length } => {
                string_push_str(&mut s, "hex string has odd length (");
                push_decimal(&mut s, *length as u64);
                string_push_str(&mut s, " nibbles)");
            },
            HexError::InvalidLength { bytes } => {
                string_push_str(&mut s, "decoded ");
                push_decimal(&mut s, *bytes as u64);
                string_push_str(&mut s, " bytes, expected a multiple of 128 (EDID block size)");
            },
            HexError::EdidError(x0) => {
                string_push_str(&mut s, "EDID validation error: ");
                let inner = x0.message();
                string_push_str(&mut s, inner.as_str());
            },
        }
        assert(s@ =~= spec_hex_error_message(*self));
        s
    }
}

/// The human-readable message of a [`ExtensionError`].
pub open spec fn spec_extension_error_message(e: ExtensionError) -> Seq<char> {
    match e {
        ExtensionError::NotCta861 => "EDID block is not a CTA-861 extension"@,
        ExtensionError::NotDisplayId => "EDID block is not a DisplayID extension"@,
        ExtensionError::InvalidDisplayIdLength { length, maximum } => "DisplayID data-block length "@ + spec_decimal(length as nat) + " exceeds maximum "@ + spec_decimal(maximum as nat),
        ExtensionError::InvalidDisplayIdChecksum { sum } => "invalid DisplayID section checksum: byte sum is "@ + spec_decimal(sum as nat),
        ExtensionError::TruncatedDisplayIdDataBlock { offset, tag, length, available } => "DisplayID data block tag 0x"@ + spec_hex_byte(tag) + " at offset "@ + spec_decimal(offset as nat) + " declares "@ + spec_decimal(length as nat) + " bytes, only "@ + spec_decimal(available as nat) + " available"@,
        ExtensionError::InvalidDisplayIdDataBlockLength { tag, length, minimum, multiple } => "DisplayID data block tag 0x"@ + spec_hex_byte(tag) + " has length "@ + spec_decimal(length as nat) + ", minimum "@ + spec_decimal(minimum as nat) + ", multiple "@ + spec_decimal(multiple as nat),
        ExtensionError::TruncatedDisplayIdDataBlockHeader { offset, available } => "DisplayID data-block header at offset "@ + spec_decimal(offset as nat) + " has only "@ + spec_decimal(available as nat) + " bytes"@,
        ExtensionError::TruncatedDataBlock { offset, length } => "CTA data block at offset "@ + spec_decimal(offset as nat) + " declares "@ + spec_decimal(length as nat) + " bytes beyond the collection"@,
        ExtensionError::InvalidDtdOffset { offset } => "CTA DTD offset "@ + spec_decimal(offset as nat) + " is outside the extension"@,
        ExtensionError::InvalidAudioDataBlockLength { length } => "CTA audio data block has invalid payload length "@ + spec_decimal(length as nat),
        ExtensionError::InvalidVideoDataBlockLength { length } => "CTA video data block has invalid payload length "@ + spec_decimal(length as nat),
        ExtensionError::InvalidVideoCode { index } => "CTA video data block has zero VIC at payload index "@ + spec_decimal(index as nat),
        ExtensionError::TruncatedExtendedDataBlock { extended_tag, length, minimum } => "CTA extended data block tag 0x"@ + spec_hex_byte(extended_tag) + " has length "@ + spec_decimal(length as nat) + ", minimum is "@ + spec_decimal(minimum as nat),
        ExtensionError::TruncatedVendorSpecificDataBlock { length } => "CTA vendor-specific data block has payload length "@ + spec_decimal(length as nat) + ", minimum is 3 (OUI)"@,
        ExtensionError::InvalidSpeakerAllocationDataBlockLength { length } => "CTA speaker allocation data block has invalid payload length "@ + spec_decimal(length as nat),
        ExtensionError::Y420CapabilityMapIndexOutOfRange { index, available_svds } => "CTA Y420 capability map references SVD index "@ + spec_decimal(index as nat) + " but only "@ + spec_decimal(available_svds as nat) + " are available"@,
        ExtensionError::Y420CapabilityMapMissingVideoDataBlock => "CTA Y420 capability map is present without any Video Data Block"@,
        ExtensionError::InvalidRefreshRateRange { min_refresh_hz, max_refresh_hz } => "invalid refresh rate range: "@ + spec_decimal(min_refresh_hz as nat) + " Hz .. "@ + spec_decimal(max_refresh_hz as nat) + " Hz"@,
        ExtensionError::InvalidDisplayIdDynamicRange { tag, reason } => "DisplayID dynamic range data block 0x"@ + spec_hex_byte(tag) + " has invalid range: "@ + reason@,
        ExtensionError::InvalidDisplayIdFeatureField { field, value, maximum } => "DisplayID interface feature field "@ + field@ + " value "@ + spec_decimal(value as nat) + " exceeds maximum "@ + spec_decimal(maximum as nat),
        ExtensionError::InvalidDisplayIdProductField { field, value, maximum } => "DisplayID product-identification field "@ + field@ + " value "@ + spec_decimal(value as nat) + " exceeds maximum "@ + spec_decimal(maximum as nat),
        ExtensionError::InvalidDynamicHdrMetadataLength { index, length } => "CTA HDR dynamic metadata entry "@ + spec_decimal(index as nat) + " has invalid length "@ + spec_decimal(length as nat),
        ExtensionError::TruncatedDynamicHdrMetadataEntry { index, length, minimum } => "CTA HDR dynamic metadata entry "@ + spec_decimal(index as nat) + " needs "@ + spec_decimal(minimum as nat) + " bytes but only "@ + spec_decimal(length as nat) + " available"@,
    }
}

impl ExtensionError {
    /// Human-readable description of the error.
    pub fn message(&self) -> (s: String)
        ensures
            s@ == spec_extension_error_message(*self),
    {
        let mut s = String::new();
        match self {
            ExtensionError::NotCta861 => {
                string_push_str(&mut s, "EDID block is not a CTA-861 extension");
            },
            ExtensionError::NotDisplayId => {
                string_push_str(&mut s, "EDID block is not a DisplayID extension");
            },
            ExtensionError::InvalidDisplayIdLength { length, maximum } => {
                string_push_str(&mut s, "DisplayID data-block length ");
                push_decimal(&mut s, *length as u64);
                string_push_str(&mut s, " exceeds maximum ");
                push_decimal(&mut s, *maximum as u64);
            },
            ExtensionError::InvalidDisplayIdChecksum { sum } => {
                string_push_str(&mut s, "invalid DisplayID section checksum: byte sum is ");
                push_decimal(&mut s, *sum as u64);
            },
            ExtensionError::TruncatedDisplayIdDataBlock { offset, tag, length, available } => {
                string_push_str(&mut s, "DisplayID data block tag 0x");
                push_hex_byte(&mut s, *tag);
                string_push_str(&mut s, " at offset ");
                push_decimal(&mut s, *offset as u64);
                string_push_str(&mut s, " declares ");
                push_decimal(&mut s, *length as u64);
                string_push_str(&mut s, " bytes, only ");
                push_decimal(&mut s, *available as u64);
                string_push_str(&mut s, " available");
            },
            ExtensionError::InvalidDisplayIdDataBlockLength { tag, length, minimum, multiple } => {
                string_push_str(&mut s, "DisplayID data block tag 0x");
                push_hex_byte(&mut s, *tag);
                string_push_str(&mut s, " has length ");
                push_decimal(&mut s, *length as u64);
                string_push_str(&mut s, ", minimum ");
                push_decimal(&mut s, *minimum as u64);
                string_push_str(&mut s, ", multiple ");
                push_decimal(&mut s, *multiple as u64);
            },
            ExtensionError::TruncatedDisplayIdDataBlockHeader { offset, available } => {
                string_push_str(&mut s, "DisplayID data-block header at offset ");
                push_decimal(&mut s, *offset as u64);
                string_push_str(&mut s, " has only ");
                push_decimal(&mut s, *available as u64);
                string_push_str(&mut s, " bytes");
            },
            ExtensionError::TruncatedDataBlock { offset, length } => {
                string_push_str(&mut s, "CTA data block at offset ");
                push_decimal(&mut s, *offset as u64);
                string_push_str(&mut s, " declares ");
                push_decimal(&mut s, *length as u64);
                string_push_str(&mut s, " bytes beyond the collection");
            },
            ExtensionError::InvalidDtdOffset { offset } => {
                string_push_str(&mut s, "CTA DTD offset ");
                push_decimal(&mut s, *offset as u64);
                string_push_str(&mut s, " is outside the extension");
            },
            ExtensionError::InvalidAudioDataBlockLength { length } => {
                string_push_str(&mut s, "CTA audio data block has invalid payload length ");
                push_decimal(&mut s, *length as u64);
            },
            ExtensionError::InvalidVideoDataBlockLength { length } => {
                string_push_str(&mut s, "CTA video data block has invalid payload length ");
                push_decimal(&mut s, *length as u64);
            },
            ExtensionError::InvalidVideoCode { index } => {
                string_push_str(&mut s, "CTA video data block has zero VIC at payload index ");
                push_decimal(&mut s, *index as u64);
            },
            ExtensionError::TruncatedExtendedDataBlock { extended_tag, length, minimum } => {
                string_push_str(&mut s, "CTA extended data block tag 0x");
                push_hex_byte(&mut s, *extended_tag);
                string_push_str(&mut s, " has length ");
                push_decimal(&mut s, *length as u64);
                string_push_str(&mut s, ", minimum is ");
                push_decimal(&mut s, *minimum as u64);
            },
            ExtensionError::TruncatedVendorSpecificDataBlock { length } => {
                string_push_str(&mut s, "CTA vendor-specific data block has payload length ");
                push_decimal(&mut s, *length as u64);
                string_push_str(&mut s, ", minimum is 3 (OUI)");
            },
            ExtensionError::InvalidSpeakerAllocationDataBlockLength { length } => {
                string_push_str(&mut s, "CTA speaker allocation data block has invalid payload length ");
                push_decimal(&mut s, *length as u64);
            },
            ExtensionError::Y420CapabilityMapIndexOutOfRange { index, available_svds } => {
                string_push_str(&mut s, "CTA Y420 capability map references SVD index ");
                push_decimal(&mut s, *index as u64);
                string_push_str(&mut s, " but only ");
                push_decimal(&mut s, *available_svds as u64);
                string_push_str(&mut s, " are available");
            },
            ExtensionError::Y420CapabilityMapMissingVideoDataBlock => {
                string_push_str(&mut s, "CTA Y420 capability map is present without any Video Data Block");
            },
            ExtensionError::InvalidRefreshRateRange { min_refresh_hz, max_refresh_hz } => {
                string_push_str(&mut s, "invalid refresh rate range: ");
                push_decimal(&mut s, *min_refresh_hz as u64);
                string_push_str(&mut s, " Hz .. ");
                push_decimal(&mut s, *max_refresh_hz as u64);
                string_push_str(&mut s, " Hz");
            },
            ExtensionError::InvalidDisplayIdDynamicRange { tag, reason } => {
                string_push_str(&mut s, "DisplayID dynamic range data block 0x");
                push_hex_byte(&mut s, *tag);
                string_push_str(&mut s, " has invalid range: ");
                string_push_str(&mut s, *reason);
            },
            ExtensionError::InvalidDisplayIdFeatureField { field, value, maximum } => {
                string_push_str(&mut s, "DisplayID interface feature field ");
                string_push_str(&mut s, *field);
                string_push_str(&mut s, " value ");
                push_decimal(&mut s, *value as u64);
                string_push_str(&mut s, " exceeds maximum ");
                push_decimal(&mut s, *maximum as u64);
            },
            ExtensionError::InvalidDisplayIdProductField { field, value, maximum } => {
                string_push_str(&mut s, "DisplayID product-identification field ");
                string_push_str(&mut s, *field);
                string_push_str(&mut s, " value ");
                push_decimal(&mut s, *value as u64);
                string_push_str(&mut s, " exceeds maximum ");
                push_decimal(&mut s, *maximum as u64);
            },
            ExtensionError::InvalidDynamicHdrMetadataLength { index, length } => {
                string_push_str(&mut s, "CTA HDR dynamic metadata entry ");
                push_decimal(&mut s, *index as u64);
                string_push_str(&mut s, " has invalid length ");
                push_decimal(&mut s, *length as u64);
            },
            ExtensionError::TruncatedDynamicHdrMetadataEntry { index, length, minimum } => {
                string_push_str(&mut s, "CTA HDR dynamic metadata entry ");
                push_decimal(&mut s, *index as u64);
                string_push_str(&mut s, " needs ");
                push_decimal(&mut s, *minimum as u64);
                string_push_str(&mut s, " bytes but only ");
                push_decimal(&mut s, *length as u64);
                string_push_str(&mut s, " available");
            },
        }
        assert(s@ =~= spec_extension_error_message(*self));
        s
    }
}

/// The human-readable message of a [`ExtensionWriteError`].
pub open spec fn spec_extension_write_error_message(e: ExtensionWriteError) -> Seq<char> {
    match e {
        ExtensionWriteError::InvalidCtaTag { tag } => "CTA data-block tag "@ + spec_decimal(tag as nat) + " exceeds the three-bit field"@,
        ExtensionWriteError::CtaPayloadTooLong { length, maximum } => "CTA data-block payload length "@ + spec_decimal(length as nat) + " exceeds the "@ + spec_decimal(maximum as nat) + "-byte maximum"@,
        ExtensionWriteError::CtaPayloadTooShort { tag, length, minimum } => "CTA data-block tag "@ + spec_decimal(tag as nat) + " payload length "@ + spec_decimal(length as nat) + " is below minimum "@ + spec_decimal(minimum as nat),
        ExtensionWriteError::InvalidCtaExtendedPayload { expected_tag, actual_tag, length } => "CTA extended payload length "@ + spec_decimal(length as nat) + " has tag "@ + spec_option_u8_debug(actual_tag) + ", expected "@ + spec_decimal(expected_tag as nat),
        ExtensionWriteError::InvalidCtaHdrLuminanceOrder => "CTA HDR luminance fields must be a contiguous prefix"@,
        ExtensionWriteError::InvalidCtaHdrRawTail => "CTA HDR raw tail cannot be preserved after shortening the luminance prefix"@,
        ExtensionWriteError::InvalidCtaVideoCode { index, vic } => "CTA video code "@ + spec_decimal(vic as nat) + " at index "@ + spec_decimal(index as nat) + " is outside 1..=127"@,
        ExtensionWriteError::InvalidCtaAudioFormat { index, format } => "CTA audio format "@ + spec_decimal(format as nat) + " at index "@ + spec_decimal(index as nat) + " is outside 1..=15"@,
        ExtensionWriteError::InvalidCtaAudioChannels { index, channels } => "CTA audio channel count "@ + spec_decimal(channels as nat) + " at index "@ + spec_decimal(index as nat) + " is outside 1..=8"@,
        ExtensionWriteError::InvalidCtaAudioSampleRates { index, sample_rates } => "CTA audio sample-rate mask 0x"@ + spec_hex_byte(sample_rates) + " at index "@ + spec_decimal(index as nat) + " uses a reserved bit"@,
        ExtensionWriteError::InvalidCtaField { field, value, maximum } => "CTA field "@ + field@ + " value "@ + spec_decimal(value as nat) + " exceeds maximum "@ + spec_decimal(maximum as nat),
        ExtensionWriteError::InvalidCtaVendorOui { expected, actual } => "CTA vendor OUI "@ + spec_hex_list(actual@) + " does not match expected "@ + spec_hex_list(expected@),
        ExtensionWriteError::InvalidCtaVendorRate { field, value } => "CTA vendor field "@ + field@ + " rate "@ + spec_decimal(value as nat) + " MHz is not representable in 5-MHz units"@,
        ExtensionWriteError::InvalidCtaVendorField { field } => "CTA vendor field "@ + field@ + " is not representable by the raw payload"@,
        ExtensionWriteError::InvalidRefreshRateRange { min_refresh_hz, max_refresh_hz } => "invalid refresh rate range: "@ + spec_decimal(min_refresh_hz as nat) + " Hz .. "@ + spec_decimal(max_refresh_hz as nat) + " Hz"@,
        ExtensionWriteError::CtaDataBlocksTooLong { length, maximum } => "CTA data-block collection length "@ + spec_decimal(length as nat) + " exceeds the "@ + spec_decimal(maximum as nat) + "-byte maximum"@,
        ExtensionWriteError::CtaDtdsTooLong { count, maximum } => "CTA DTD count "@ + spec_decimal(count as nat) + " exceeds the "@ + spec_decimal(maximum as nat) + "-slot maximum"@,
        ExtensionWriteError::CtaDtdInvalid { index, source } => "CTA DTD "@ + spec_decimal(index as nat) + " is invalid: "@ + spec_dtd_error_message(source),
        ExtensionWriteError::InvalidDtdOffset { offset } => "CTA DTD offset "@ + spec_decimal(offset as nat) + " is outside the extension"@,
        ExtensionWriteError::DisplayIdPayloadTooLong { length, maximum } => "DisplayID payload length "@ + spec_decimal(length as nat) + " exceeds the "@ + spec_decimal(maximum as nat) + "-byte maximum"@,
        ExtensionWriteError::DisplayIdPayloadTooShort { tag, length, minimum } => "DisplayID tag 0x"@ + spec_hex_byte(tag) + " payload length "@ + spec_decimal(length as nat) + " is below minimum "@ + spec_decimal(minimum as nat),
        ExtensionWriteError::InvalidDisplayIdTimingField { tag, index, field, value, maximum } => "DisplayID tag 0x"@ + spec_hex_byte(tag) + " timing "@ + spec_decimal(index as nat) + " field "@ + field@ + " value "@ + spec_decimal(value as nat) + " exceeds maximum "@ + spec_decimal(maximum as nat),
        ExtensionWriteError::InvalidDisplayIdPixelClock { index, value } => "DisplayID Type I timing "@ + spec_decimal(index as nat) + " pixel clock "@ + spec_decimal(value as nat) + " kHz is not a multiple of 10"@,
        ExtensionWriteError::InvalidDisplayIdTag { tag } => "DisplayID tag 0x"@ + spec_hex_byte(tag) + " is not supported by this typed encoder"@,
        ExtensionWriteError::InvalidDisplayIdEmbeddedCta { source } => "embedded CTA data block is invalid: "@ + spec_extension_error_message(source),
        ExtensionWriteError::InvalidDisplayIdDynamicRange { tag, reason } => "DisplayID dynamic range data block 0x"@ + spec_hex_byte(tag) + " has invalid range: "@ + reason@,
        ExtensionWriteError::InvalidDisplayIdFeatureField { field, value, maximum } => "DisplayID interface feature field "@ + field@ + " value "@ + spec_decimal(value as nat) + " exceeds maximum "@ + spec_decimal(maximum as nat),
        ExtensionWriteError::InvalidDisplayIdProductField { field, value, maximum } => "DisplayID product-identification field "@ + field@ + " value "@ + spec_decimal(value as nat) + " exceeds maximum "@ + spec_decimal(maximum as nat),
        ExtensionWriteError::InvalidDisplayIdLayout { source } => "DisplayID data-block layout is invalid: "@ + spec_extension_error_message(source),
        ExtensionWriteError::InvalidHdrDynamicMetadataEntry { index, reason } => "CTA HDR dynamic metadata entry "@ + spec_decimal(index as nat) + " is invalid: "@ + reason@,
        ExtensionWriteError::InvalidCtaLayout { source } => "CTA extension layout is invalid: "@ + spec_extension_error_message(source),
        ExtensionWriteError::NotCta861 => "block is not a CTA-861 extension"@,
        ExtensionWriteError::NotDisplayId => "block is not a DisplayID extension"@,
    }
}

impl ExtensionWriteError {
    /// Human-readable description of the error.
    pub fn message(&self) -> (s: String)
        ensures
            s@ == spec_extension_write_error_message(*self),
    {
        let mut s = String::new();
        match self {
            ExtensionWriteError::InvalidCtaTag { tag } => {
                string_push_str(&mut s, "CTA data-block tag ");
                push_decimal(&mut s, *tag as u64);
                string_push_str(&mut s, " exceeds the three-bit field");
            },
            ExtensionWriteError::CtaPayloadTooLong { length, maximum } => {
                string_push_str(&mut s, "CTA data-block payload length ");
                push_decimal(&mut s, *length as u64);
                string_push_str(&mut s, " exceeds the ");
                push_decimal(&mut s, *maximum as u64);
                string_push_str(&mut s, "-byte maximum");
            },
            ExtensionWriteError::CtaPayloadTooShort { tag, length, minimum } => {
                string_push_str(&mut s, "CTA data-block tag ");
                push_decimal(&mut s, *tag as u64);
                string_push_str(&mut s, " payload length ");
                push_decimal(&mut s, *length as u64);
                string_push_str(&mut s, " is below minimum ");
                push_decimal(&mut s, *minimum as u64);
            },
            ExtensionWriteError::InvalidCtaExtendedPayload { expected_tag, actual_tag, length } => {
                string_push_str(&mut s, "CTA extended payload length ");
                push_decimal(&mut s, *length as u64);
                string_push_str(&mut s, " has tag ");
                push_option_u8_debug(&mut s, *actual_tag);
                string_push_str(&mut s, ", expected ");
                push_decimal(&mut s, *expected_tag as u64);
            },
            ExtensionWriteError::InvalidCtaHdrLuminanceOrder => {
                string_push_str(&mut s, "CTA HDR luminance fields must be a contiguous prefix");
            },
            ExtensionWriteError::InvalidCtaHdrRawTail => {
                string_push_str(&mut s, "CTA HDR raw tail cannot be preserved after shortening the luminance prefix");
            },
            ExtensionWriteError::InvalidCtaVideoCode { index, vic } => {
                string_push_str(&mut s, "CTA video code ");
                push_decimal(&mut s, *vic as u64);
                string_push_str(&mut s, " at index ");
                push_decimal(&mut s, *index as u64);
                string_push_str(&mut s, " is outside 1..=127");
            },
            ExtensionWriteError::InvalidCtaAudioFormat { index, format } => {
                string_push_str(&mut s, "CTA audio format ");
                push_decimal(&mut s, *format as u64);
                string_push_str(&mut s, " at index ");
                push_decimal(&mut s, *index as u64);
                string_push_str(&mut s, " is outside 1..=15");
            },
            ExtensionWriteError::InvalidCtaAudioChannels { index, channels } => {
                string_push_str(&mut s, "CTA audio channel count ");
                push_decimal(&mut s, *channels as u64);
                string_push_str(&mut s, " at index ");
                push_decimal(&mut s, *index as u64);
                string_push_str(&mut s, " is outside 1..=8");
            },
            ExtensionWriteError::InvalidCtaAudioSampleRates { index, sample_rates } => {
                string_push_str(&mut s, "CTA audio sample-rate mask 0x");
                push_hex_byte(&mut s, *sample_rates);
                string_push_str(&mut s, " at index ");
                push_decimal(&mut s, *index as u64);
                string_push_str(&mut s, " uses a reserved bit");
            },
            ExtensionWriteError::InvalidCtaField { field, value, maximum } => {
                string_push_str(&mut s, "CTA field ");
                string_push_str(&mut s, *field);
                string_push_str(&mut s, " value ");
                push_decimal(&mut s, *value as u64);
                string_push_str(&mut s, " exceeds maximum ");
                push_decimal(&mut s, *maximum as u64);
            },
            ExtensionWriteError::InvalidCtaVendorOui { expected, actual } => {
                string_push_str(&mut s, "CTA vendor OUI ");
                push_hex_list(&mut s, actual.as_slice());
                string_push_str(&mut s, " does not match expected ");
                push_hex_list(&mut s, expected.as_slice());
            },
            ExtensionWriteError::InvalidCtaVendorRate { field, value } => {
                string_push_str(&mut s, "CTA vendor field ");
                string_push_str(&mut s, *field);
                string_push_str(&mut s, " rate ");
                push_decimal(&mut s, *value as u64);
                string_push_str(&mut s, " MHz is not representable in 5-MHz units");
            },
            ExtensionWriteError::InvalidCtaVendorField { field } => {
                string_push_str(&mut s, "CTA vendor field ");
                string_push_str(&mut s, *field);
                string_push_str(&mut s, " is not representable by the raw payload");
            },
            ExtensionWriteError::InvalidRefreshRateRange { min_refresh_hz, max_refresh_hz } => {
                string_push_str(&mut s, "invalid refresh rate range: ");
                push_decimal(&mut s, *min_refresh_hz as u64);
                string_push_str(&mut s, " Hz .. ");
                push_decimal(&mut s, *max_refresh_hz as u64);
                string_push_str(&mut s, " Hz");
            },
            ExtensionWriteError::CtaDataBlocksTooLong { length, maximum } => {
                string_push_str(&mut s, "CTA data-block collection length ");
                push_decimal(&mut s, *length as u64);
                string_push_str(&mut s, " exceeds the ");
                push_decimal(&mut s, *maximum as u64);
                string_push_str(&mut s, "-byte maximum");
            },
            ExtensionWriteError::CtaDtdsTooLong { count, maximum } => {
                string_push_str(&mut s, "CTA DTD count ");
                push_decimal(&mut s, *count as u64);
                string_push_str(&mut s, " exceeds the ");
                push_decimal(&mut s, *maximum as u64);
                string_push_str(&mut s, "-slot maximum");
            },
            ExtensionWriteError::CtaDtdInvalid { index, source } => {
                string_push_str(&mut s, "CTA DTD ");
                push_decimal(&mut s, *index as u64);
                string_push_str(&mut s, " is invalid: ");
                let inner = source.message();
                string_push_str(&mut s, inner.as_str());
            },
            ExtensionWriteError::InvalidDtdOffset { offset } => {
                string_push_str(&mut s, "CTA DTD offset ");
                push_decimal(&mut s, *offset as u64);
                string_push_str(&mut s, " is outside the extension");
            },
            ExtensionWriteError::DisplayIdPayloadTooLong { length, maximum } => {
                string_push_str(&mut s, "DisplayID payload length ");
                push_decimal(&mut s, *length as u64);
                string_push_str(&mut s, " exceeds the ");
                push_decimal(&mut s, *maximum as u64);
                string_push_str(&mut s, "-byte maximum");
            },
            ExtensionWriteError::DisplayIdPayloadTooShort { tag, length, minimum } => {
                string_push_str(&mut s, "DisplayID tag 0x");
                push_hex_byte(&mut s, *tag);
                string_push_str(&mut s, " payload length ");
                push_decimal(&mut s, *length as u64);
                string_push_str(&mut s, " is below minimum ");
                push_decimal(&mut s, *minimum as u64);
            },
            ExtensionWriteError::InvalidDisplayIdTimingField { tag, index, field, value, maximum } => {
                string_push_str(&mut s, "DisplayID tag 0x");
                push_hex_byte(&mut s, *tag);
                string_push_str(&mut s, " timing ");
                push_decimal(&mut s, *index as u64);
                string_push_str(&mut s, " field ");
                string_push_str(&mut s, *field);
                string_push_str(&mut s, " value ");
                push_decimal(&mut s, *value as u64);
                string_push_str(&mut s, " exceeds maximum ");
                push_decimal(&mut s, *maximum as u64);
            },
            ExtensionWriteError::InvalidDisplayIdPixelClock { index, value } => {
                string_push_str(&mut s, "DisplayID Type I timing ");
                push_decimal(&mut s, *index as u64);
                string_push_str(&mut s, " pixel clock ");
                push_decimal(&mut s, *value as u64);
                string_push_str(&mut s, " kHz is not a multiple of 10");
            },
            ExtensionWriteError::InvalidDisplayIdTag { tag } => {
                string_push_str(&mut s, "DisplayID tag 0x");
                push_hex_byte(&mut s, *tag);
                string_push_str(&mut s, " is not supported by this typed encoder");
            },
            ExtensionWriteError::InvalidDisplayIdEmbeddedCta { source } => {
                string_push_str(&mut s, "embedded CTA data block is invalid: ");
                let inner = source.message();
                string_push_str(&mut s, inner.as_str());
            },
            ExtensionWriteError::InvalidDisplayIdDynamicRange { tag, reason } => {
                string_push_str(&mut s, "DisplayID dynamic range data block 0x");
                push_hex_byte(&mut s, *tag);
                string_push_str(&mut s, " has invalid range: ");
                string_push_str(&mut s, *reason);
            },
            ExtensionWriteError::InvalidDisplayIdFeatureField { field, value, maximum } => {
                string_push_str(&mut s, "DisplayID interface feature field ");
                string_push_str(&mut s, *field);
                string_push_str(&mut s, " value ");
                push_decimal(&mut s, *value as u64);
                string_push_str(&mut s, " exceeds maximum ");
                push_decimal(&mut s, *maximum as u64);
            },
            ExtensionWriteError::InvalidDisplayIdProductField { field, value, maximum } => {
                string_push_str(&mut s, "DisplayID product-identification field ");
                string_push_str(&mut s, *field);
                string_push_str(&mut s, " value ");
                push_decimal(&mut s, *value as u64);
                string_push_str(&mut s, " exceeds maximum ");
                push_decimal(&mut s, *maximum as u64);
            },
            ExtensionWriteError::InvalidDisplayIdLayout { source } => {
                string_push_str(&mut s, "DisplayID data-block layout is invalid: ");
                let inner = source.message();
                string_push_str(&mut s, inner.as_str());
            },
            ExtensionWriteError::InvalidHdrDynamicMetadataEntry { index, reason } => {
                string_push_str(&mut s, "CTA HDR dynamic metadata entry ");
                push_decimal(&mut s, *index as u64);
                string_push_str(&mut s, " is invalid: ");
                string_push_str(&mut s, *reason);
            },
            ExtensionWriteError::InvalidCtaLayout { source } => {
                string_push_str(&mut s, "CTA extension layout is invalid: ");
                let inner = source.message();
                string_push_str(&mut s, inner.as_str());
            },
            ExtensionWriteError::NotCta861 => {
                string_push_str(&mut s, "block is not a CTA-861 extension");
            },
            ExtensionWriteError::NotDisplayId => {
                string_push_str(&mut s, "block is not a DisplayID extension");
            },
        }
        assert(s@ =~= spec_extension_write_error_message(*self));
        s
    }
}

} // verus!
