use edid_seria::builder::{BaseBlockBuilder, BaseBlockError};
use edid_seria::capabilities::{CapabilitySource, DisplayCapabilities, VrrRange};
use edid_seria::edid::{EDID_BLOCK_SIZE, MAX_EDID_BYTES, Edid, EdidBlock};
use edid_seria::error::{
    DescriptorError, DtdError, DtdField, EdidError, MetadataError, MetadataWriteError,
    SerializeError,
};
use edid_seria::extensions::{DisplayIdDataBlock, DisplayIdOrdering, ExtensionWriteError};
use edid_seria::metadata::{
    BaseMetadata, ChromaticityCoordinates, ChromaticityPoint, MonitorDescriptor,
};
use edid_seria::serialize::{
    ExtensionPolicy, SerializeOptions, serialize_timings, serialize_timings_lenient,
};
use edid_seria::timing::{DetailedTiming, validate_dtd};

fn preset_1080p60() -> DetailedTiming {
    DetailedTiming {
        h_active: 1920,
        v_active: 1080,
        h_front: 88,
        h_sync: 44,
        h_back: 148,
        v_front: 4,
        v_sync: 5,
        v_back: 36,
        h_border: 0,
        v_border: 0,
        pixel_clock_khz: 148500,
        h_pol: true,
        v_pol: true,
        v_rate_millihz: 60000,
    }
}

fn checksum_ok(edid: &[u8]) {
    for block in edid.chunks(EDID_BLOCK_SIZE) {
        assert_eq!(block.len(), EDID_BLOCK_SIZE);
        let sum: u16 = block.iter().map(|&b| b as u16).sum();
        assert_eq!(sum % 256, 0, "block checksum invalid");
    }
}

#[test]
fn default_builder_returns_valid_minimal_base() {
    let block = BaseBlockBuilder::new().build().unwrap();
    assert_eq!(block.validate(), Ok(()));
    assert_eq!(block.raw[126], 0);
    assert_eq!(
        block
            .raw
            .iter()
            .fold(0u8, |sum, byte| sum.wrapping_add(*byte)),
        0
    );
}

#[test]
fn invalid_metadata_is_reported_without_partial_result() {
    let metadata = BaseMetadata {
        manufacturer_id: "abC".into(),
        product_code: 0,
        serial_number: 0,
        manufacture_week: 0,
        manufacture_year: 2024,
        input: 0x80,
        horizontal_size_cm: 0,
        vertical_size_cm: 0,
        gamma: None,
        feature_flags: 0,
    };
    assert_eq!(
        BaseBlockBuilder::new().metadata(metadata).build(),
        Err(BaseBlockError::Metadata(
            MetadataError::InvalidManufacturerCharacter {
                index: 0,
                character: 'a'
            }
        ))
    );
}

#[test]
fn descriptors_are_preserved_when_timings_are_added() {
    let block = BaseBlockBuilder::new()
        .monitor_descriptor(0, MonitorDescriptor::ProductName("panel".into()))
        .detailed_timings(vec![preset_1080p60()])
        .build()
        .unwrap();
    assert_eq!(
        block.monitor_descriptor(0).unwrap(),
        Some(MonitorDescriptor::ProductName("panel".into()))
    );
}

#[test]
fn too_many_timings_returns_structured_slot_error() {
    let timings = (0..5).map(|_| preset_1080p60()).collect();
    assert!(matches!(
        BaseBlockBuilder::new().detailed_timings(timings).build(),
        Err(BaseBlockError::Dtd(DtdError::NoAvailableSlot {
            requested: 5,
            available: 4
        }))
    ));
}

#[test]
fn descriptor_slot_four_is_structured_error() {
    assert!(matches!(
        BaseBlockBuilder::new()
            .monitor_descriptor(4, MonitorDescriptor::Dummy)
            .build(),
        Err(BaseBlockError::Descriptor(
            DescriptorError::SlotOutOfRange { slot: 4, slots: 4 }
        ))
    ));
}

#[test]
fn invalid_chromaticity_is_rejected() {
    let point = ChromaticityPoint { x: 1024, y: 0 };
    let c = ChromaticityCoordinates {
        red: point,
        green: point,
        blue: point,
        white: point,
    };
    assert!(matches!(
        BaseBlockBuilder::new().chromaticity(c).build(),
        Err(BaseBlockError::MetadataWrite(
            MetadataWriteError::InvalidChromaticityValue { value: 1024 }
        ))
    ));
}

#[test]
fn invalid_timing_returns_error() {
    let mut timing = preset_1080p60();
    timing.h_active = 0;
    assert!(matches!(
        BaseBlockBuilder::new()
            .detailed_timings(vec![timing])
            .build(),
        Err(BaseBlockError::Dtd(_))
    ));
}

#[test]
fn builder_places_timing_and_fixes_checksum() {
    let block = BaseBlockBuilder::default()
        .detailed_timings(vec![preset_1080p60()])
        .build()
        .unwrap();
    assert_eq!(block.read_detailed(0).unwrap().h_active, 1920);
    assert_eq!(block.validate(), Ok(()));
}

#[test]
fn manual_timing_serializer_writes_detailed_timing() {
    let timing = preset_1080p60();
    let out = serialize_timings(None, std::slice::from_ref(&timing)).unwrap();
    let read = EdidBlock::from_bytes(&out.bytes)
        .unwrap()
        .read_detailed(0)
        .unwrap();
    assert_eq!(read.h_active, timing.h_active);
    assert_eq!(read.v_active, timing.v_active);
    assert_eq!(out.written, 1);
    checksum_ok(&out.bytes);
}

#[test]
fn manual_timing_serializer_reports_invalid_timing_index() {
    let mut timing = preset_1080p60();
    timing.h_front = 1024;
    assert!(matches!(
        serialize_timings(None, &[preset_1080p60(), timing]),
        Err(SerializeError::InvalidTiming { index: 1, .. })
    ));
}

#[test]
fn manual_timing_serializer_rejects_low_pixel_clock() {
    let mut timing = preset_1080p60();
    timing.pixel_clock_khz = 9;
    assert!(matches!(
        serialize_timings(None, std::slice::from_ref(&timing)),
        Err(SerializeError::InvalidTiming { index: 0, .. })
    ));
}

#[test]
fn strict_timing_serializer_reports_existing_and_slot_errors() {
    assert!(matches!(
        serialize_timings(Some(&[0u8; 127]), &[]),
        Err(SerializeError::InvalidExistingLength { actual: 127 })
    ));
    let oversized = vec![0u8; MAX_EDID_BYTES + EDID_BLOCK_SIZE];
    assert!(matches!(
        serialize_timings(Some(&oversized), &[]),
        Err(SerializeError::InvalidExistingLength { actual }) if actual == MAX_EDID_BYTES + EDID_BLOCK_SIZE
    ));
    let mut block = EdidBlock::new_default();
    block.raw[10] ^= 0x01;
    assert!(matches!(
        serialize_timings(Some(block.as_bytes()), &[]),
        Err(SerializeError::InvalidExistingBlock {
            index: 0,
            source: EdidError::InvalidChecksum { .. }
        })
    ));
    let five = vec![preset_1080p60(); 5];
    assert!(matches!(
        serialize_timings(None, &five),
        Err(SerializeError::NoDtdSlot { index: 4 })
    ));
    let mut mismatched = EdidBlock::new_default();
    mismatched.raw[126] = 1;
    mismatched.update_checksum();
    assert!(matches!(
        serialize_timings(Some(mismatched.as_bytes()), &[]),
        Err(SerializeError::ExtensionCountMismatch {
            declared: 1,
            actual: 0
        })
    ));
}

#[test]
fn extension_validation_distinguishes_standalone_blocks_from_extension_slots() {
    let extension_like_base = EdidBlock::new_default();
    assert_eq!(
        EdidBlock::from_bytes_checked(extension_like_base.as_bytes()),
        Ok(extension_like_base.clone())
    );
    assert_eq!(
        extension_like_base.validate_extension(),
        Err(EdidError::InvalidHeader)
    );

    let mut base = EdidBlock::new_default();
    base.raw[126] = 1;
    base.update_checksum();
    let mut complete = Vec::with_capacity(256);
    complete.extend_from_slice(base.as_bytes());
    complete.extend_from_slice(extension_like_base.as_bytes());

    assert_eq!(Edid::from_bytes(&complete), Err(EdidError::InvalidHeader));
    assert!(matches!(
        serialize_timings(Some(&complete), &[]),
        Err(SerializeError::InvalidExistingBlock {
            index: 1,
            source: EdidError::InvalidHeader,
        })
    ));
}

#[test]
fn strict_timing_serializer_preserves_extensions_and_fixes_checksums() {
    let mut base = EdidBlock::new_default();
    base.raw[126] = 1;
    base.update_checksum();
    let mut extension = EdidBlock::new_default();
    extension.raw[0] = 0x02;
    extension.raw[1] = 0x03;
    extension.update_checksum();
    let mut existing = base.as_bytes().to_vec();
    existing.extend_from_slice(extension.as_bytes());
    let out = serialize_timings(Some(&existing), &[preset_1080p60()]).unwrap();
    assert_eq!(out.bytes.len(), 256);
    assert_eq!(&out.bytes[128..], extension.as_bytes());
    assert_eq!(out.written, 1);
    assert_eq!(out.skipped, 0);
    checksum_ok(&out.bytes);
    let edid = Edid::from_bytes(&out.bytes).unwrap();
    assert_eq!(edid.base.read_detailed(0).unwrap().h_active, 1920);
}

#[test]
fn lenient_serializer_writes_fresh_block() {
    let out = serialize_timings_lenient(None, &[preset_1080p60()], 0);
    assert_eq!(out.bytes.len(), EDID_BLOCK_SIZE);
    assert_eq!(out.written, 1);
    assert_eq!(out.skipped, 0);
    assert_eq!(out.bytes[126], 0);
    checksum_ok(&out.bytes);
}

#[test]
fn lenient_serializer_caps_slots_and_counts_skips() {
    let five = vec![preset_1080p60(); 5];
    let out = serialize_timings_lenient(None, &five, 2);
    assert_eq!(out.written, 4);
    assert_eq!(out.skipped, 3);
    checksum_ok(&out.bytes);
}

#[test]
fn lenient_serializer_normalizes_count_and_drops_partial_block() {
    let base = EdidBlock::new_default();
    let mut extension = EdidBlock::new_default();
    extension.raw[0] = 0x02;
    let mut existing = base.as_bytes().to_vec();
    existing.extend_from_slice(extension.as_bytes());
    existing.extend_from_slice(&[0u8; 40]);
    let out = serialize_timings_lenient(Some(&existing), &[], 0);
    assert_eq!(out.bytes.len(), 256);
    assert_eq!(out.bytes[126], 1);
    checksum_ok(&out.bytes);

    let short = serialize_timings_lenient(Some(&[0u8; 20]), &[], 0);
    assert_eq!(short.bytes.len(), EDID_BLOCK_SIZE);
    assert_eq!(&short.bytes[..], EdidBlock::new_default().as_bytes());
}

#[test]
fn lenient_serializer_keeps_at_most_256_blocks() {
    let mut existing = EdidBlock::new_default().as_bytes().to_vec();
    for _ in 0..300 {
        let mut extension = EdidBlock::new_default();
        extension.raw[0] = 0x02;
        existing.extend_from_slice(extension.as_bytes());
    }
    let out = serialize_timings_lenient(Some(&existing), &[], 0);
    assert_eq!(out.bytes.len(), 256 * EDID_BLOCK_SIZE);
    assert_eq!(out.bytes[126], u8::MAX);
    checksum_ok(&out.bytes);
}

#[test]
fn serialize_options_default_values() {
    let options = SerializeOptions::default();
    assert_eq!(options.extension_policy, ExtensionPolicy::Auto);
    assert_eq!(options.max_blocks, 256);
    assert!(options.preserve_existing_extensions);
    assert_eq!(ExtensionPolicy::default(), ExtensionPolicy::Auto);
}

#[test]
fn dtd_validation_reports_field_limits_without_overflow() {
    let mut timing = DetailedTiming {
        h_active: 1,
        v_active: 1,
        h_front: u32::MAX,
        h_sync: 0,
        h_back: 0,
        v_front: 0,
        v_sync: 0,
        v_back: 0,
        h_border: 0,
        v_border: 0,
        pixel_clock_khz: 1,
        h_pol: false,
        v_pol: false,
        v_rate_millihz: 1000,
    };
    assert!(matches!(
        validate_dtd(&timing),
        Err(DtdError::FieldOutOfRange {
            field: DtdField::HorizontalFrontPorch,
            ..
        })
    ));
    timing.pixel_clock_khz = 10_000;

    timing.h_front = 1023;
    timing.h_sync = 1023;
    timing.h_back = u32::MAX;
    assert!(matches!(
        validate_dtd(&timing),
        Err(DtdError::FieldOutOfRange {
            field: DtdField::HorizontalBlanking,
            ..
        }) | Err(DtdError::ArithmeticOverflow)
    ));
}

#[test]
fn dtd_validation_accepts_canonical_timing() {
    assert_eq!(validate_dtd(&preset_1080p60()), Ok(()));
}

#[test]
fn dtd_validation_rejects_zero_active_or_clock() {
    let mut timing = preset_1080p60();
    timing.h_active = 0;
    assert!(matches!(
        validate_dtd(&timing),
        Err(DtdError::InvalidField {
            field: DtdField::HorizontalActive,
            value: 0
        })
    ));

    timing.h_active = 1920;
    timing.pixel_clock_khz = 0;
    assert!(matches!(
        validate_dtd(&timing),
        Err(DtdError::InvalidField {
            field: DtdField::PixelClockKHz,
            value: 0
        })
    ));
}

#[test]
fn dtd_validation_rejects_unreadable_low_pixel_clock() {
    let mut timing = preset_1080p60();
    timing.pixel_clock_khz = 9;
    assert!(matches!(
        validate_dtd(&timing),
        Err(DtdError::InvalidField {
            field: DtdField::PixelClockKHz,
            value: 9
        })
    ));
}

fn display_id_block(blocks: &[DisplayIdDataBlock]) -> EdidBlock {
    EdidBlock::from_display_id_data_blocks(0x20, 2, 0, blocks).unwrap()
}

#[test]
fn canonical_reorder_sorts_and_is_idempotent() {
    let blocks = vec![
        DisplayIdDataBlock {
            tag: 0x81,
            revision: 0,
            payload: vec![3, 1],
        },
        DisplayIdDataBlock {
            tag: 0x20,
            revision: 1,
            payload: vec![9],
        },
        DisplayIdDataBlock {
            tag: 0x81,
            revision: 0,
            payload: vec![3],
        },
        DisplayIdDataBlock {
            tag: 0x20,
            revision: 0,
            payload: vec![0xFF, 0xFF],
        },
    ];
    let mut block = display_id_block(&blocks);
    let mut preserved = block;
    preserved
        .reorder_display_id_data_blocks(DisplayIdOrdering::PreserveSourceOrder)
        .unwrap();
    assert_eq!(preserved, block);

    block
        .reorder_display_id_data_blocks(DisplayIdOrdering::Canonical)
        .unwrap();
    let sorted = block.display_id_data_blocks().unwrap();
    let keys: Vec<(u8, u8, Vec<u8>)> = sorted
        .iter()
        .map(|b| (b.tag, b.revision, b.payload.clone()))
        .collect();
    assert_eq!(
        keys,
        vec![
            (0x20, 0, vec![0xFF, 0xFF]),
            (0x20, 1, vec![9]),
            (0x81, 0, vec![3]),
            (0x81, 0, vec![3, 1]),
        ]
    );
    let header = block.display_id_header().unwrap();
    assert_eq!(header.revision, 0x20);
    assert_eq!(header.product_type_or_primary_use, 2);
    assert_eq!(block.validate(), Ok(()));

    let once = block;
    block
        .reorder_display_id_data_blocks(DisplayIdOrdering::Canonical)
        .unwrap();
    assert_eq!(block, once);
}

#[test]
fn canonical_reorder_rejects_non_display_id_without_mutation() {
    let mut block = EdidBlock::new_default();
    block.raw[0] = 0x02;
    block.update_checksum();
    let before = block;
    assert!(matches!(
        block.reorder_display_id_data_blocks(DisplayIdOrdering::Canonical),
        Err(ExtensionWriteError::InvalidDisplayIdLayout { .. })
    ));
    assert_eq!(block, before);
}

fn capabilities(ranges: Vec<(u16, u16)>) -> DisplayCapabilities {
    DisplayCapabilities {
        manufacturer_id: None,
        product_name: None,
        timings: Vec::new(),
        audio: Vec::new(),
        vrr_ranges: ranges
            .into_iter()
            .enumerate()
            .map(|(index, (min_hz, max_hz))| VrrRange {
                source: CapabilitySource::CtaExtension { index },
                min_hz,
                max_hz,
            })
            .collect(),
        interfaces: Vec::new(),
    }
}

#[test]
fn vrr_intersection_and_conflicts() {
    assert_eq!(capabilities(vec![]).vrr_safe_intersection(), None);
    assert!(!capabilities(vec![]).has_vrr_conflict());
    assert_eq!(
        capabilities(vec![(48, 144)]).vrr_safe_intersection(),
        Some((48, 144))
    );
    assert!(!capabilities(vec![(48, 144)]).has_vrr_conflict());
    assert_eq!(
        capabilities(vec![(48, 144), (40, 120), (50, 165)]).vrr_safe_intersection(),
        Some((50, 120))
    );
    assert!(!capabilities(vec![(48, 144), (40, 120)]).has_vrr_conflict());
    assert_eq!(
        capabilities(vec![(48, 60), (75, 144)]).vrr_safe_intersection(),
        None
    );
    assert!(capabilities(vec![(48, 60), (75, 144)]).has_vrr_conflict());
}

fn product(name: &[u8]) -> edid_seria::extensions::DisplayIdProductIdentification {
    edid_seria::extensions::DisplayIdProductIdentification {
        vendor_id: [0x03, 0x0C, 0x00],
        vendor_id_is_oui: true,
        product_code: 1,
        serial_number: 0,
        week_of_manufacture: 0,
        year: 2024,
        product_name: name.to_vec(),
        raw: Vec::new(),
    }
}

#[test]
fn product_name_text_conversions() {
    let valid = product(b"Panel 27");
    assert_eq!(valid.product_name_str(), Some("Panel 27"));
    assert_eq!(valid.product_name_lossy(), "Panel 27");
    let accented = product("Écran".as_bytes());
    assert_eq!(accented.product_name_str(), Some("Écran"));
    let invalid = product(&[b'A', 0xFF, b'B']);
    assert_eq!(invalid.product_name_str(), None);
    assert_eq!(invalid.product_name_lossy(), "A\u{FFFD}B");
}
