use edid_seria::edid::{DETAILED_START, EDID_BLOCK_SIZE, EDID_DESCRIPTOR_LEN, Edid, EdidBlock, SlotKind};
use edid_seria::error::{DtdError, EdidError, HexError};
use edid_seria::hex::parse_hex_bytes;
use edid_seria::metadata::MonitorDescriptor;
use edid_seria::timing::DetailedTiming;

fn make_timing() -> DetailedTiming {
    DetailedTiming {
        h_active: 1920,
        v_active: 1080,
        h_front: 88,
        h_sync: 44,
        h_back: 148,
        v_front: 4,
        v_sync: 5,
        v_back: 36,
        h_border: 0,
        v_border: 0,
        pixel_clock_khz: 148500,
        h_pol: true,
        v_pol: true,
        v_rate_millihz: 60000,
    }
}

#[test]
fn default_block_has_valid_checksum() {
    let block = EdidBlock::new_default();
    assert_eq!(block.validate(), Ok(()));
}

#[test]
fn interlaced_dtd_is_available_through_flagged_api() {
    let mut block = EdidBlock::new_default();
    block.write_detailed_checked(0, &make_timing()).unwrap();
    let offset = DETAILED_START;
    block.raw[offset + 17] |= 0x80;

    assert!(block.read_detailed(0).is_none());
    let decoded = block.read_detailed_with_flags(0).unwrap();
    assert!(decoded.flags.interlaced());
    assert_eq!(decoded.timing.h_active, 1920);

    let mut roundtrip = EdidBlock::new_default();
    roundtrip
        .write_detailed_with_flags_checked(0, &decoded.timing, decoded.flags)
        .unwrap();
    assert_eq!(roundtrip.raw[offset + 17], block.raw[offset + 17]);
}

#[test]
fn strict_parse_rejects_invalid_length_and_checksum() {
    let block = EdidBlock::new_default();
    assert!(matches!(
        EdidBlock::from_bytes_checked(&block.as_bytes()[..127]),
        Err(EdidError::InvalidLength {
            expected: EDID_BLOCK_SIZE,
            actual: 127
        })
    ));

    let mut corrupted = block.raw;
    corrupted[10] ^= 0x01;
    assert!(matches!(
        EdidBlock::from_bytes_checked(&corrupted),
        Err(EdidError::InvalidChecksum { .. })
    ));
}

#[test]
fn strict_parse_rejects_invalid_base_header() {
    let mut block = EdidBlock::new_default();
    block.raw[1] = 0x00;
    block.update_checksum();
    assert!(matches!(
        EdidBlock::from_bytes_checked(block.as_bytes()),
        Err(EdidError::InvalidHeader)
    ));
}

#[test]
fn strict_parse_accepts_valid_extension_block() {
    let mut block = EdidBlock::new_default();
    block.raw[0] = 0x02;
    block.update_checksum();
    assert!(EdidBlock::from_bytes_checked(block.as_bytes()).is_ok());
}

#[test]
fn checked_dtd_write_rejects_invalid_timing_without_mutation() {
    let mut block = EdidBlock::new_default();
    let before = block.raw;
    let mut timing = make_timing();
    timing.h_front = 1024;
    assert!(matches!(
        block.write_detailed_checked(0, &timing),
        Err(DtdError::FieldOutOfRange { .. })
    ));
    assert_eq!(block.raw, before);
    assert!(matches!(
        block.write_detailed_checked(4, &make_timing()),
        Err(DtdError::SlotOutOfRange { slot: 4, slots: 4 })
    ));
}

#[test]
fn aggregate_parser_preserves_valid_extensions() {
    let mut base = EdidBlock::new_default();
    let mut extension = EdidBlock::new_default();
    extension.raw[0] = 0x02;
    extension.raw[1] = 0x03;
    extension.update_checksum();
    base.raw[126] = 1;
    base.update_checksum();

    let mut bytes = base.as_bytes().to_vec();
    bytes.extend_from_slice(extension.as_bytes());
    let edid = Edid::from_bytes(&bytes).unwrap();

    assert_eq!(edid.extensions.len(), 1);
    assert_eq!(edid.extensions[0].raw[0], 0x02);
    assert_eq!(edid.to_bytes(), bytes);
}

#[test]
fn checked_output_preserves_valid_edid_bytes() {
    let mut base = EdidBlock::new_default();
    let mut extension = EdidBlock::new_default();
    extension.raw[0] = 0x02;
    extension.raw[1] = 0x03;
    extension.update_checksum();
    base.raw[126] = 1;
    base.update_checksum();

    let mut bytes = base.as_bytes().to_vec();
    bytes.extend_from_slice(extension.as_bytes());
    let edid = Edid::from_bytes(&bytes).unwrap();

    assert_eq!(edid.to_bytes_checked().unwrap(), bytes);
}

#[test]
fn checked_output_rejects_invalid_aggregate_state() {
    let mut invalid_checksum = Edid {
        base: EdidBlock::new_default(),
        extensions: Vec::new(),
    };
    invalid_checksum.base.raw[10] ^= 1;
    assert!(matches!(
        invalid_checksum.to_bytes_checked(),
        Err(EdidError::InvalidChecksum { .. })
    ));

    let invalid_count = Edid {
        base: EdidBlock::new_default(),
        extensions: vec![EdidBlock::new_default()],
    };
    assert!(matches!(
        invalid_count.to_bytes_checked(),
        Err(EdidError::ExtensionCountMismatch {
            declared: 0,
            actual: 1
        })
    ));
}

#[test]
fn aggregate_parser_rejects_partial_and_count_mismatch() {
    assert!(matches!(
        Edid::from_bytes(&[0u8; 127]),
        Err(EdidError::InvalidBlockSequenceLength { actual: 127 })
    ));

    let base = EdidBlock::new_default();
    let mut bytes = base.as_bytes().to_vec();
    bytes.extend_from_slice(&[0u8; EDID_BLOCK_SIZE]);
    assert!(matches!(
        Edid::from_bytes(&bytes),
        Err(EdidError::ExtensionCountMismatch {
            declared: 0,
            actual: 1
        })
    ));
}

#[test]
fn aggregate_parser_rejects_unsupported_base_version() {
    let mut base = EdidBlock::new_default();
    base.raw[18] = 2;
    base.update_checksum();
    assert!(matches!(
        Edid::from_bytes(base.as_bytes()),
        Err(EdidError::UnsupportedVersion { major: 2, minor: 4 })
    ));
}

#[test]
fn roundtrip_detailed_timing() {
    let t = make_timing();
    let mut block = EdidBlock::new_default();
    block.write_detailed(0, &t);

    let read = block.read_detailed(0).expect("should read back");
    assert_eq!(read.h_active, 1920);
    assert_eq!(read.v_active, 1080);
    assert_eq!(read.h_front, 88);
    assert_eq!(read.h_sync, 44);
    assert_eq!(read.h_back, 148);
    assert!(read.h_pol);
    assert!(read.v_pol);
    assert!(read.v_rate_millihz.abs_diff(60000) < 1000);
}

#[test]
fn writes_known_1080p60_dtd_bytes() {
    let mut block = EdidBlock::new_default();
    block.write_detailed(0, &make_timing());

    let off = DETAILED_START;
    let d = &block.raw[off..off + EDID_DESCRIPTOR_LEN];
    assert_eq!(
        d,
        &[
            0x02, 0x3A, 0x80, 0x18, 0x71, 0x38, 0x2D, 0x40, 0x58, 0x2C, 0x45, 0x00, 0xE0, 0x0E,
            0x11, 0x00, 0x00, 0x1E,
        ]
    );
}

#[test]
fn writes_correct_physical_size_for_4k() {
    let mut block = EdidBlock::new_default();
    let t = DetailedTiming {
        h_active: 3840,
        v_active: 2160,
        h_front: 176,
        h_sync: 88,
        h_back: 296,
        v_front: 8,
        v_sync: 10,
        v_back: 72,
        h_border: 0,
        v_border: 0,
        pixel_clock_khz: 297000,
        h_pol: true,
        v_pol: true,
        v_rate_millihz: 60000,
    };
    block.write_detailed(0, &t);

    let off = DETAILED_START;
    let d = &block.raw[off..off + EDID_DESCRIPTOR_LEN];
    assert_eq!(d[12], 0xC0);
    assert_eq!(d[13], 0x1C);
    assert_eq!(d[14], 0x32);
}

#[test]
fn roundtrips_border_fields() {
    let mut t = make_timing();
    t.h_border = 8;
    t.v_border = 4;
    let mut block = EdidBlock::new_default();
    block.write_detailed(0, &t);

    let off = DETAILED_START;
    let d = &block.raw[off..off + EDID_DESCRIPTOR_LEN];
    assert_eq!(d[3], 0x28);
    assert_eq!(d[4] & 0x0F, 0x01);
    assert_eq!(d[6], 0x35);
    assert_eq!(d[15], 8);
    assert_eq!(d[16], 4);

    let read = block.read_detailed(0).unwrap();
    assert_eq!(read.h_border, 8);
    assert_eq!(read.v_border, 4);
    assert_eq!(read.h_back, 148);
    assert_eq!(read.v_back, 36);
}

#[test]
fn polarity_follows_sync_type() {
    let mut block = EdidBlock::new_default();
    block.write_detailed(0, &make_timing());
    assert_eq!(block.raw[DETAILED_START + 17], 0x1E);
    assert!(block.read_detailed(0).unwrap().h_pol);
    assert!(block.read_detailed(0).unwrap().v_pol);

    block.raw[DETAILED_START + 17] = 0x06;
    let t = block.read_detailed(0).unwrap();
    assert!(!t.h_pol);
    assert!(!t.v_pol);

    block.raw[DETAILED_START + 17] = 0x12;
    let t = block.read_detailed(0).unwrap();
    assert!(t.h_pol);
    assert!(!t.v_pol);
}

#[test]
fn sub_10mhz_clock_is_not_a_timing() {
    let mut block = EdidBlock::new_default();
    block.write_detailed(0, &make_timing());
    let off = DETAILED_START;
    block.raw[off] = 0xDF;
    block.raw[off + 1] = 0x00;
    assert!(block.read_detailed(0).is_none());
    assert_eq!(block.slot_kind(0), SlotKind::Timing);
}

#[test]
fn skips_interlaced_timing() {
    let mut block = EdidBlock::new_default();
    block.write_detailed(0, &make_timing());
    let off = DETAILED_START;
    block.raw[off + 17] |= 0x80;
    assert!(block.read_detailed(0).is_none());
    assert_eq!(block.slot_kind(0), SlotKind::Timing);
}

#[test]
fn pixel_clock_rounds_to_10khz() {
    let mut t = make_timing();
    t.pixel_clock_khz = 133_187;
    let mut block = EdidBlock::new_default();
    block.write_detailed(0, &t);
    let off = DETAILED_START;
    let stored = u16::from_le_bytes([block.raw[off], block.raw[off + 1]]);
    assert_eq!(stored, 13319);
}

#[test]
fn zero_one_padding_is_free() {
    let mut block = EdidBlock::new_default();
    let off = DETAILED_START;
    block.raw[off..off + EDID_DESCRIPTOR_LEN].fill(0x01);
    assert_eq!(block.slot_kind(0), SlotKind::Free);
    assert!(block.read_detailed(0).is_none());
    assert_eq!(block.write_resolutions(&[make_timing()]), 1);
    assert_eq!(block.slot_kind(0), SlotKind::Timing);
    assert_eq!(block.read_detailed(0).unwrap().h_active, 1920);
}

#[test]
fn write_resolutions_preserves_monitor_descriptors() {
    let mut block = EdidBlock::new_default();
    block.write_detailed(0, &make_timing());
    block.write_detailed(1, &make_timing());

    let off = DETAILED_START + 2 * EDID_DESCRIPTOR_LEN;
    block.raw[off + 3] = 0xFC;
    block.raw[off + 5..off + 13].copy_from_slice(b"TESTMON\0");
    let name_before = block.raw[off..off + EDID_DESCRIPTOR_LEN].to_vec();

    let written = block.write_resolutions(&[make_timing()]);
    assert_eq!(written, 1);
    assert_eq!(block.raw[off..off + EDID_DESCRIPTOR_LEN], name_before);
    assert_eq!(
        block.read_detailed(0).expect("slot 0 rewritten").h_active,
        1920
    );
    assert!(block.read_detailed(1).is_none());
}

#[test]
fn write_resolutions_uses_free_slots_and_caps() {
    let mut block = EdidBlock::new_default();
    block.write_detailed(0, &make_timing());
    block.write_detailed(1, &make_timing());
    let five: Vec<DetailedTiming> = (0..5).map(|_| make_timing()).collect();
    assert_eq!(block.write_resolutions(&five), 4);
}

#[test]
fn write_resolutions_fills_fresh_block() {
    let mut block = EdidBlock::new_default();
    assert_eq!(block.write_resolutions(&[make_timing()]), 1);
    assert_eq!(block.read_detailed(0).expect("slot 0").h_active, 1920);
}

#[test]
fn clear_slot_writes_cru_dummy_descriptor() {
    let mut block = EdidBlock::new_default();
    block.write_detailed(0, &make_timing());
    block.clear_slot(0);
    let off = DETAILED_START;
    assert_eq!(&block.raw[off..off + 2], &[0, 0]);
    assert_eq!(block.raw[off + 3], 0x10);
    assert!(
        block.raw[off + 4..off + EDID_DESCRIPTOR_LEN]
            .iter()
            .all(|&b| b == 0)
    );
    assert_eq!(block.slot_kind(0), SlotKind::Free);
}

#[test]
fn checksum_is_valid() {
    let mut block = EdidBlock::new_default();
    block.update_checksum();
    let sum: u16 = block.as_bytes()[..128].iter().map(|&b| b as u16).sum();
    assert_eq!(sum % 256, 0);
}

#[test]
fn default_block_is_digital() {
    let block = EdidBlock::new_default();
    assert_ne!(block.raw[20] & 0x80, 0);
}

#[test]
fn hex_roundtrip_formatting_and_parsing() {
    let block = EdidBlock::new_default();
    let hex_compact = block.to_hex();
    assert_eq!(hex_compact.len(), 256);

    let parsed_compact = EdidBlock::from_hex(&hex_compact).unwrap();
    assert_eq!(parsed_compact, block);

    let hex_formatted = block.to_hex_formatted();
    let parsed_formatted = EdidBlock::from_hex(&hex_formatted).unwrap();
    assert_eq!(parsed_formatted, block);

    let c_array = "0x00, 0xFF, 0xFF, 0xFF, 0xFF, 0xFF, 0xFF, 0x00";
    let parsed_chunk = parse_hex_bytes(c_array).unwrap();
    assert_eq!(
        parsed_chunk,
        &[0x00, 0xFF, 0xFF, 0xFF, 0xFF, 0xFF, 0xFF, 0x00]
    );

    let edid = Edid {
        base: block.clone(),
        extensions: Vec::new(),
    };
    let edid_hex = edid.to_hex();
    let parsed_edid = Edid::from_hex(&edid_hex).unwrap();
    assert_eq!(parsed_edid, edid);
}

#[test]
fn hex_parsing_rejects_invalid_inputs() {
    assert!(matches!(
        EdidBlock::from_hex("00FF0"),
        Err(HexError::OddLength { length: 5 })
    ));

    assert!(matches!(
        EdidBlock::from_hex("00FFGG"),
        Err(HexError::InvalidHexCharacter { character: 'G', .. })
    ));

    assert!(matches!(
        EdidBlock::from_hex("A 0x12"),
        Err(HexError::OddLength { length: 1 })
    ));

    assert!(matches!(
        EdidBlock::from_hex("00FFFFFFFFFFFF00"),
        Err(HexError::InvalidLength { bytes: 8 })
    ));
}

#[test]
fn hex_output_has_exact_digits_and_layout() {
    let block = EdidBlock::new_default();
    let compact = block.to_hex();
    assert!(compact.starts_with("00ffffffffffff00"));
    let formatted = block.to_hex_formatted();
    assert!(formatted.starts_with("00 FF FF FF FF FF FF 00"));
    assert_eq!(formatted.lines().count(), 8);
    assert_eq!(formatted.len(), 128 * 3 - 1);
}

#[test]
fn hex_invalid_character_reports_byte_offset() {
    assert_eq!(
        parse_hex_bytes("00 é1"),
        Err(HexError::InvalidHexCharacter {
            offset: 3,
            character: 'é'
        })
    );
    assert_eq!(
        parse_hex_bytes("é x"),
        Err(HexError::InvalidHexCharacter {
            offset: 0,
            character: 'é'
        })
    );
    assert_eq!(
        parse_hex_bytes("é0z"),
        Err(HexError::InvalidHexCharacter {
            offset: 0,
            character: 'é'
        })
    );
    assert_eq!(
        parse_hex_bytes("ab é"),
        Err(HexError::InvalidHexCharacter {
            offset: 3,
            character: 'é'
        })
    );
    assert_eq!(
        parse_hex_bytes("[0X1f; 0x2E]"),
        Ok(vec![0x1f, 0x2e])
    );
}

#[test]
fn edid_hex_formatted_roundtrip_with_extension() {
    let mut base = EdidBlock::new_default();
    let mut extension = EdidBlock::new_default();
    extension.raw[0] = 0x02;
    extension.raw[1] = 0x03;
    extension.update_checksum();
    base.raw[126] = 1;
    base.update_checksum();
    let edid = Edid {
        base,
        extensions: vec![extension],
    };
    let formatted = edid.to_hex_formatted();
    assert!(formatted.contains("\n\n02 03"));
    assert_eq!(Edid::from_hex(&formatted).unwrap(), edid);
    assert_eq!(Edid::from_hex(&edid.to_hex()).unwrap(), edid);
}

#[test]
fn edid_aggregate_helpers_and_dtd_enumeration() {
    let mut base = EdidBlock::new_default();
    base.write_detailed_checked(0, &make_timing()).unwrap();
    base.set_monitor_descriptor(1, &MonitorDescriptor::ProductName("TestMonitor".to_string()))
        .unwrap();
    base.set_monitor_descriptor(2, &MonitorDescriptor::SerialNumber("SN123456".to_string()))
        .unwrap();
    base.raw[126] = 1;
    base.update_checksum();

    let mut cta = EdidBlock::new_default();
    cta.raw[0] = 0x02;
    cta.raw[1] = 3;
    cta.raw[2] = 4;
    let dtd_bytes = base.raw[DETAILED_START..DETAILED_START + 18].to_vec();
    cta.raw[4..22].copy_from_slice(&dtd_bytes);
    cta.update_checksum();
    let mut full_bytes = base.as_bytes().to_vec();
    full_bytes.extend_from_slice(cta.as_bytes());
    let edid = Edid::from_bytes(&full_bytes).unwrap();
    assert_eq!(edid.monitor_name().as_deref(), Some("TestMonitor"));
    assert_eq!(edid.serial_number().as_deref(), Some("SN123456"));
    assert!(edid.preferred_timing().is_some());
    assert_eq!(edid.preferred_timing().unwrap().h_active, 1920);

    let all_timings = edid.all_detailed_timings();
    assert_eq!(all_timings.len(), 2);
    assert_eq!(all_timings[0].h_active, 1920);
    assert_eq!(all_timings[1].h_active, 1920);
    assert_eq!(edid.all_detailed_timings_flagged().len(), 2);
}

#[test]
fn monitor_name_absent_and_preferred_falls_back() {
    let base = EdidBlock::new_default();
    let edid = Edid {
        base,
        extensions: Vec::new(),
    };
    assert_eq!(edid.monitor_name(), None);
    assert_eq!(edid.serial_number(), None);
    assert_eq!(edid.preferred_timing(), None);

    let mut base = EdidBlock::new_default();
    base.write_detailed(2, &make_timing());
    let edid = Edid {
        base,
        extensions: Vec::new(),
    };
    assert_eq!(edid.preferred_timing().unwrap().h_active, 1920);
}

#[test]
fn default_block_uses_edid_unused_slot_encodings() {
    let block = EdidBlock::new_default();
    assert_eq!(&block.raw[38..54], &[0x01u8, 0x01].repeat(8));
    for slot in 0..4 {
        let offset = DETAILED_START + slot * EDID_DESCRIPTOR_LEN;
        assert_eq!(block.raw[offset..offset + 4], [0, 0, 0, 0x10]);
    }
}

#[test]
fn write_resolutions_clears_only_leftover_timing_slots() {
    let mut block = EdidBlock::new_default();
    block.write_detailed(0, &make_timing());
    block.write_detailed(1, &make_timing());
    let name_off = DETAILED_START + 2 * EDID_DESCRIPTOR_LEN;
    block.raw[name_off + 3] = 0xFC;
    block.raw[name_off + 5..name_off + 13].copy_from_slice(b"TESTMON\0");
    let name_before = block.raw[name_off..name_off + EDID_DESCRIPTOR_LEN].to_vec();
    let free_before = block.raw
        [DETAILED_START + 3 * EDID_DESCRIPTOR_LEN..DETAILED_START + 4 * EDID_DESCRIPTOR_LEN]
        .to_vec();

    let written = block.write_resolutions(&[make_timing()]);
    assert_eq!(written, 1);
    assert_eq!(block.slot_kind(0), SlotKind::Timing);
    assert_eq!(block.slot_kind(1), SlotKind::Free);
    assert_eq!(
        block.raw[name_off..name_off + EDID_DESCRIPTOR_LEN],
        name_before
    );
    assert_eq!(
        block.raw[DETAILED_START + 3 * EDID_DESCRIPTOR_LEN..DETAILED_START + 4 * EDID_DESCRIPTOR_LEN],
        free_before
    );
}
