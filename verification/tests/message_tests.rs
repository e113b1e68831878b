use edid_seria::error::{
    DescriptorError, DtdError, DtdField, EdidError, HexError, MetadataError, MetadataWriteError,
    ModelineError, SerializeError,
};
use edid_seria::extensions::{ExtensionError, ExtensionWriteError};

#[test]
fn edid_and_hex_error_messages() {
    assert_eq!(
        EdidError::InvalidLength {
            expected: 128,
            actual: 0
        }
        .message(),
        "invalid EDID block length: expected 128, got 0"
    );
    assert_eq!(
        EdidError::UnsupportedVersion { major: 2, minor: 4 }.message(),
        "unsupported EDID version 2.4"
    );
    assert_eq!(
        HexError::InvalidHexCharacter {
            offset: 4,
            character: 'G'
        }
        .message(),
        "invalid hex character 'G' at index 4"
    );
    assert_eq!(
        HexError::InvalidHexCharacter {
            offset: 0,
            character: '\n'
        }
        .message(),
        "invalid hex character '\\n' at index 0"
    );
    assert_eq!(
        HexError::EdidError(EdidError::InvalidChecksum { sum: 255 }).message(),
        "EDID validation error: invalid EDID checksum: byte sum modulo 256 is 255"
    );
}

#[test]
fn metadata_and_descriptor_error_messages() {
    assert_eq!(
        MetadataError::InvalidManufacturerCharacter {
            index: 0,
            character: 'a'
        }
        .message(),
        "invalid manufacturer character 'a' at index 0"
    );
    assert_eq!(
        MetadataWriteError::InvalidReservedStandardTimingEncoding { raw: [0xD1, 0xC0] }.message(),
        "reserved standard timing encoding [D1, C0] is a valid mode encoding"
    );
    assert_eq!(
        DescriptorError::InvalidRevision {
            tag: 0xF7,
            revision: 0x09
        }
        .message(),
        "invalid revision 0x09 for descriptor tag 0xF7"
    );
    assert_eq!(
        DescriptorError::SlotOutOfRange { slot: 4, slots: 4 }.message(),
        "descriptor slot 4 is out of range (4 slots)"
    );
    assert_eq!(
        DescriptorError::StandardTimingError(MetadataWriteError::ReservedStandardTimingEncoding)
            .message(),
        "descriptor standard timing error: standard timing collides with the EDID unused-slot encoding"
    );
}

#[test]
fn timing_and_serialize_error_messages() {
    assert_eq!(
        SerializeError::InvalidTiming {
            index: 1,
            source: DtdError::InvalidField {
                field: DtdField::HorizontalActive,
                value: 0
            }
        }
        .message(),
        "timing 1 is invalid: DTD field HorizontalActive has invalid value 0"
    );
    assert_eq!(
        DtdError::FieldOutOfRange {
            field: DtdField::PixelClockKHz,
            value: 700000,
            max: 655350
        }
        .message(),
        "DTD field PixelClockKHz value 700000 exceeds 655350"
    );
    assert_eq!(
        ModelineError::InvalidNumber {
            token: "1x\"2".to_string()
        }
        .message(),
        "invalid numeric token in Modeline: \"1x\\\"2\""
    );
    assert_eq!(
        ModelineError::InvalidGeometry("sync end before sync start").message(),
        "invalid Modeline geometry: sync end before sync start"
    );
}

#[test]
fn extension_error_messages() {
    assert_eq!(
        ExtensionWriteError::InvalidCtaExtendedPayload {
            expected_tag: 6,
            actual_tag: None,
            length: 0
        }
        .message(),
        "CTA extended payload length 0 has tag None, expected 6"
    );
    assert_eq!(
        ExtensionWriteError::InvalidCtaExtendedPayload {
            expected_tag: 6,
            actual_tag: Some(5),
            length: 3
        }
        .message(),
        "CTA extended payload length 3 has tag Some(5), expected 6"
    );
    assert_eq!(
        ExtensionWriteError::InvalidCtaVendorOui {
            expected: [0xD8, 0x5D, 0xC4],
            actual: [0x03, 0x0C, 0x00]
        }
        .message(),
        "CTA vendor OUI [03, 0C, 00] does not match expected [D8, 5D, C4]"
    );
    assert_eq!(
        ExtensionWriteError::InvalidCtaAudioSampleRates {
            index: 2,
            sample_rates: 0x80
        }
        .message(),
        "CTA audio sample-rate mask 0x80 at index 2 uses a reserved bit"
    );
    assert_eq!(
        ExtensionWriteError::InvalidDisplayIdLayout {
            source: ExtensionError::NotDisplayId
        }
        .message(),
        "DisplayID data-block layout is invalid: EDID block is not a DisplayID extension"
    );
    assert_eq!(
        ExtensionError::TruncatedDisplayIdDataBlock {
            offset: 5,
            tag: 0x20,
            length: 10,
            available: 3
        }
        .message(),
        "DisplayID data block tag 0x20 at offset 5 declares 10 bytes, only 3 available"
    );
}
