use edid_seria::edid::EdidBlock;
use edid_seria::extensions::{
    CtaAudioDescriptor, CtaColorimetry, CtaDataBlock, CtaDataBlockView, CtaExtendedDataBlockView,
    CtaSpeakerAllocation, CtaVendorSpecificBlock, CtaVideoCapability, CtaVideoMode,
    DisplayIdAspectRatio, DisplayIdDataBlock, DisplayIdDataBlockView, DisplayIdDetailedTiming,
    DisplayIdDisplayParameters, DisplayIdDynamicVideoTimingRange, DisplayIdFormulaTiming,
    DisplayIdHeader, DisplayIdInterfaceFeatures, DisplayIdProductIdentification,
    DisplayIdStereo3d, DisplayIdTiledDisplayTopology, ExtensionError, ExtensionKind,
    ExtensionWriteError,
};
use edid_seria::timing::DetailedTiming;


fn preset_1080p60() -> DetailedTiming {
    DetailedTiming {
        h_active: 1920,
        v_active: 1080,
        h_front: 88,
        h_sync: 44,
        h_back: 148,
        v_front: 4,
        v_sync: 5,
        v_back: 36,
        h_border: 0,
        v_border: 0,
        pixel_clock_khz: 148500,
        h_pol: true,
        v_pol: true,
        v_rate_millihz: 60000,
    }
}

#[test]
fn identifies_cta_and_reads_data_blocks() {
    let mut block = EdidBlock::new_default();
    block.raw[0] = 0x02;
    block.raw[1] = 3;
    block.raw[2] = 9;
    block.raw[4] = (2 << 5) | 3;
    block.raw[5..8].copy_from_slice(&[0x01, 0x02, 0x03]);
    block.update_checksum();

    assert_eq!(
        block.extension_kind(),
        ExtensionKind::Cta861 { revision: 3 }
    );
    assert_eq!(
        block.cta_data_blocks().unwrap()[0].payload,
        vec![0x01, 0x02, 0x03]
    );
}

#[test]
fn rejects_truncated_cta_data_block() {
    let mut block = EdidBlock::new_default();
    block.raw[0] = 0x02;
    block.raw[2] = 6;
    block.raw[4] = (1 << 5) | 3;
    block.update_checksum();
    assert!(matches!(
        block.cta_data_blocks(),
        Err(ExtensionError::TruncatedDataBlock {
            offset: 4,
            length: 3
        })
    ));
}

#[test]
fn identifies_displayid_and_unknown_extensions() {
    let mut display_id = EdidBlock::new_default();
    display_id.raw[0] = 0x70;
    display_id.raw[1] = 0x20;
    assert_eq!(
        display_id.extension_kind(),
        ExtensionKind::DisplayId { version: 0x20 }
    );

    let mut unknown = EdidBlock::new_default();
    unknown.raw[0] = 0x99;
    assert_eq!(
        unknown.extension_kind(),
        ExtensionKind::Unknown { tag: 0x99 }
    );
}

#[test]
fn display_id_dynamic_video_timing_range_roundtrip_query_and_rejection() {
    // 1. Decode valid Tag 0x25 block (451,310 kHz, 48-165 Hz, seamless = true)
    // 451,310 kHz -> minus 1 is 451,309 = 0x06E2ED -> bytes [0xED, 0xE2, 0x06]
    // 48 Hz min -> 0x30
    // 165 Hz max -> 165 = 0x00A5 -> lower 0xA5, upper 0x00
    // seamless flag -> bit 7 = 0x80
    let payload = vec![
        0xED, 0xE2, 0x06, // min pixel clock (451,310 kHz)
        0xED, 0xE2, 0x06, // max pixel clock (451,310 kHz)
        48,   // min vfreq
        165,  // max vfreq lower
        0x80, // seamless flag
    ];
    let block = DisplayIdDataBlock {
        tag: 0x25,
        revision: 0,
        payload: payload.clone(),
    };
    let view = block.view().unwrap();
    let DisplayIdDataBlockView::DynamicVideoTimingRange { range } = &view else {
        panic!("expected DynamicVideoTimingRange view");
    };
    assert_eq!(range.min_pixel_clock_khz, 451_310);
    assert_eq!(range.max_pixel_clock_khz, 451_310);
    assert_eq!(range.min_vfreq_hz, 48);
    assert_eq!(range.max_vfreq_hz, 165);
    assert!(range.seamless_dynamic_video_timing);
    assert_eq!(range.raw, payload);

    // Lossless round-trip
    let encoded = view.to_data_block().unwrap();
    assert_eq!(encoded, block);

    // Query from EdidBlock
    let edid_block =
        EdidBlock::from_display_id_data_blocks(0x20, 2, 0, std::slice::from_ref(&block))
            .unwrap();
    let ranges = edid_block.display_id_dynamic_video_timing_ranges().unwrap();
    assert_eq!(ranges.len(), 1);
    assert_eq!(ranges[0].min_vfreq_hz, 48);
    assert_eq!(ranges[0].max_vfreq_hz, 165);
    // Mutation test
    let mut modified_range: DisplayIdDynamicVideoTimingRange = range.clone();
    modified_range.max_vfreq_hz = 240;
    modified_range.seamless_dynamic_video_timing = false;
    let modified_view = DisplayIdDataBlockView::DynamicVideoTimingRange {
        range: modified_range,
    };
    let modified_block = modified_view.to_data_block().unwrap();
    assert_eq!(modified_block.payload[7], 240);
    assert_eq!(modified_block.payload[8], 0x00);

    // Rejection tests: min clock > max clock
    let invalid_clock = DisplayIdDataBlock {
        tag: 0x25,
        revision: 0,
        payload: vec![0xFF, 0xE2, 0x06, 0x00, 0xE2, 0x06, 48, 165, 0x80],
    };
    assert!(matches!(
        invalid_clock.view(),
        Err(ExtensionError::InvalidDisplayIdDynamicRange { .. })
    ));

    // Rejection tests: min vfreq > max vfreq
    let invalid_vfreq = DisplayIdDataBlock {
        tag: 0x25,
        revision: 0,
        payload: vec![0xED, 0xE2, 0x06, 0xED, 0xE2, 0x06, 165, 48, 0x80],
    };
    assert!(matches!(
        invalid_vfreq.view(),
        Err(ExtensionError::InvalidDisplayIdDynamicRange { .. })
    ));
}

#[test]
fn display_id_video_timing_range_limits_1x_roundtrip() {
    // Tag 0x09 (1.x) fixed 15-byte payload:
    // 148,500 kHz min/max (10 kHz units -> 14849 => 0x3A01), hfreq 30..100 kHz,
    // min h-blank 160, vfreq 48..165 Hz, min v-blank 3, flags 0xF0.
    let payload = vec![
        0x01, 0x3A, 0x00, // min pixel clock (10 kHz units)
        0x01, 0x3A, 0x00, // max pixel clock (10 kHz units)
        30,   // min hfreq
        100,  // max hfreq
        0xA0, 0x00, // min h blanking
        48,   // min vfreq
        165,  // max vfreq
        0x03, 0x00, // min v blanking
        0xF0, // flags: interlaced | CVT | CVT-RB | discrete
    ];
    let block = DisplayIdDataBlock {
        tag: 0x09,
        revision: 0,
        payload: payload.clone(),
    };
    let view = block.view().unwrap();
    let DisplayIdDataBlockView::VideoTimingRange1x { range } = &view else {
        panic!("expected VideoTimingRange1x view");
    };
    assert_eq!(range.min_pixel_clock_khz, 148_500);
    assert_eq!(range.max_pixel_clock_khz, 148_500);
    assert_eq!(range.min_hfreq_khz, 30);
    assert_eq!(range.max_hfreq_khz, 100);
    assert_eq!(range.min_h_blanking, 160);
    assert_eq!(range.min_vfreq_hz, 48);
    assert_eq!(range.max_vfreq_hz, 165);
    assert_eq!(range.min_v_blanking, 3);
    assert!(range.supports_interlaced);
    assert!(range.supports_cvt);
    assert!(range.supports_cvt_reduced_blanking);
    assert!(range.discrete_frequency);
    assert_eq!(range.raw, payload);

    // Lossless round-trip.
    let encoded = view.to_data_block().unwrap();
    assert_eq!(encoded.tag, 0x09);
    assert_eq!(encoded, block);

    // Reject non-multiple-of-10 kHz clock on encode.
    let mut invalid = range.clone();
    invalid.min_pixel_clock_khz = 148_505;
    let bad_view = DisplayIdDataBlockView::VideoTimingRange1x { range: invalid };
    assert!(matches!(
        bad_view.to_data_block_with_tag(0x09),
        Err(ExtensionWriteError::InvalidDisplayIdDynamicRange { .. })
    ));

    // Reject a payload that is not exactly 15 bytes.
    let short = DisplayIdDataBlock {
        tag: 0x09,
        revision: 0,
        payload: vec![0; 14],
    };
    assert!(matches!(
        short.view(),
        Err(ExtensionError::InvalidDisplayIdDataBlockLength { tag: 0x09, .. })
    ));
}

#[test]
fn display_id_type_iv_enumerated_timing_roundtrip() {
    // Tag 0x06 (1.x Type IV) shares the DMT/VIC/HDMI-VIC structure of 0x23.
    // revision 0x40 = code_type 1 (CTA VIC), 1-byte codes.
    let block = DisplayIdDataBlock {
        tag: 0x06,
        revision: 0x40,
        payload: vec![16], // VIC 16 (1920x1080p60)
    };
    let view = block.view().unwrap();
    assert_eq!(
        view,
        DisplayIdDataBlockView::EnumeratedTiming {
            code_type: 1,
            code_size: 1,
            codes: vec![16],
        }
    );
    let encoded = view.to_data_block_with_tag(0x06).unwrap();
    assert_eq!(encoded.tag, 0x06);
    assert_eq!(encoded.revision, 0x40);
    assert_eq!(encoded.payload, vec![16]);
}

#[test]
fn display_id_tiled_topology_roundtrip_geometry_and_rejection() {
    // Tag 0x28, 22-byte payload. 2x2 grid, tile at (1,0) (0-based), 1920x1080 tile,
    // vendor OUI, product 0x1234, serial 0xDEADBEEF.
    let payload = vec![
        0x00, // caps (multiple enclosures, no bevel)
        0x11, // num_h stored low nibble 1(->2), num_v stored low nibble 1(->2)
        0x10, // tile_h location high nibble 1, tile_v location low nibble 0
        0x00, // high bits all zero
        0x7F, 0x07, // width stored 1919 (0x077F) => 1920
        0x37, 0x04, // height stored 1079 => 1080
        0x00, // pixel multiplier
        0, 0, 0, 0, // bevels (not present, caps&0x40=0)
        0x03, 0x0C, 0x00, // vendor OUI
        0x34, 0x12, // product 0x1234
        0xEF, 0xBE, 0xAD, 0xDE, // serial 0xDEADBEEF
    ];
    assert_eq!(payload.len(), 22);
    let block = DisplayIdDataBlock {
        tag: 0x28,
        revision: 0,
        payload: payload.clone(),
    };
    let view = block.view().unwrap();
    let DisplayIdDataBlockView::TiledDisplayTopology { topology } = &view else {
        panic!("expected TiledDisplayTopology view");
    };
    let topology: &DisplayIdTiledDisplayTopology = topology;
    assert_eq!(topology.tiles_h, 2);
    assert_eq!(topology.tiles_v, 2);
    assert_eq!(topology.tile_location_h, 1);
    assert_eq!(topology.tile_location_v, 0);
    assert_eq!(topology.tile_width, 1920);
    assert_eq!(topology.tile_height, 1080);
    assert!(topology.vendor_id_is_oui);
    assert_eq!(topology.vendor_id, [0x03, 0x0C, 0x00]);
    assert_eq!(topology.product_code, 0x1234);
    assert_eq!(topology.serial_number, 0xDEADBEEF);
    assert!(!topology.has_bevel_info());
    assert!(!topology.single_enclosure());

    // Lossless round-trip.
    assert_eq!(view.to_data_block().unwrap(), block);

    // Query from EdidBlock.
    let edid_block =
        EdidBlock::from_display_id_data_blocks(0x20, 2, 0, std::slice::from_ref(&block))
            .unwrap();
    let topologies = edid_block.display_id_tiled_topologies().unwrap();
    assert_eq!(topologies.len(), 1);
    assert_eq!(topologies[0].tile_location_h, 1);

    // Rejection: tile location >= tile count.
    let bad_location = DisplayIdDataBlock {
        tag: 0x28,
        revision: 0,
        payload: {
            let mut p2 = payload.clone();
            p2[2] = 0x20; // tile_h location 2 (but 2 tiles)
            p2
        },
    };
    assert!(matches!(
        bad_location.view(),
        Err(ExtensionError::InvalidDisplayIdDynamicRange { .. })
    ));

    // Rejection: bevel multiplier set without bevel info.
    let bad_bevel = DisplayIdDataBlock {
        tag: 0x28,
        revision: 0,
        payload: {
            let mut p2 = payload.clone();
            p2[8] = 1; // pixel multiplier set, but caps&0x40=0
            p2
        },
    };
    assert!(matches!(
        bad_bevel.view(),
        Err(ExtensionError::InvalidDisplayIdDynamicRange { .. })
    ));
}

#[test]
fn display_id_formula_and_enumerated_timing_roundtrip() {
    // Type IX formula timing (tag 0x24): 2 descriptors.
    let formula_payload = vec![
        0x02 | 0x10,
        0x7F,
        0x07,
        0x37,
        0x04,
        59, // CVT-RB, NTSC, 1920x1080 @60
        0x01 << 5,
        0xFF,
        0x0F,
        0x82,
        0x08,
        119, // CVT, 3D stereo, 3840x2160 @120
    ];
    let block = DisplayIdDataBlock {
        tag: 0x24,
        revision: 0,
        payload: formula_payload.clone(),
    };
    let view = block.view().unwrap();
    let DisplayIdDataBlockView::FormulaTiming { timings } = &view else {
        panic!("expected FormulaTiming view");
    };
    assert_eq!(timings.len(), 2);
    assert_eq!(timings[0].h_active, 1920);
    assert_eq!(timings[0].v_active, 1080);
    assert_eq!(timings[0].v_refresh_hz, 60);
    assert_eq!(timings[0].formula, 2);
    assert!(timings[0].ntsc_refresh);
    assert_eq!(timings[0].stereo_3d, 0);
    assert_eq!(timings[1].stereo_3d, 1);
    assert_eq!(timings[1].v_refresh_hz, 120);
    assert_eq!(view.to_data_block().unwrap(), block);

    // Type VIII enumerated timing (tag 0x23): 1-byte codes, CTA VIC (type 1).
    let enum_payload = vec![16, 97, 107];
    let enum_block = DisplayIdDataBlock {
        tag: 0x23,
        revision: 1 << 6,
        payload: enum_payload.clone(),
    };
    let enum_view = enum_block.view().unwrap();
    let DisplayIdDataBlockView::EnumeratedTiming {
        code_type,
        code_size,
        codes,
    } = &enum_view
    else {
        panic!("expected EnumeratedTiming view");
    };
    assert_eq!(*code_type, 1);
    assert_eq!(*code_size, 1);
    assert_eq!(*codes, vec![16, 97, 107]);
    assert_eq!(enum_view.to_data_block().unwrap(), enum_block);

    // Query from EdidBlock.
    let edid_block =
        EdidBlock::from_display_id_data_blocks(0x20, 2, 0, std::slice::from_ref(&block))
            .unwrap();
    let formulas = edid_block.display_id_formula_timings().unwrap();
    assert_eq!(formulas.len(), 2);
    assert_eq!(formulas[0].h_active, 1920);
    let enum_edid =
        EdidBlock::from_display_id_data_blocks(0x20, 2, 0, std::slice::from_ref(&enum_block))
            .unwrap();
    let enum_timings = enum_edid.display_id_enumerated_timings().unwrap();
    assert_eq!(enum_timings.len(), 3);
    assert_eq!(enum_timings[0].code_type, 1);
    assert_eq!(enum_timings[0].code, 16);

    // Rejection: formula timing with zero active region.
    let bad_formula = DisplayIdDataBlockView::FormulaTiming {
        timings: vec![DisplayIdFormulaTiming {
            h_active: 0,
            v_active: 1080,
            v_refresh_hz: 60,
            formula: 0,
            ntsc_refresh: false,
            stereo_3d: 0,
        }],
    };
    assert!(matches!(
        bad_formula.to_data_block_with_tag(0x24),
        Err(ExtensionWriteError::InvalidDisplayIdTimingField { .. })
    ));
}

#[test]
fn display_id_product_identification_roundtrip_fields_and_rejection() {
    // 2.x layout (tag 0x20): IEEE OUI vendor.
    let payload_2x = vec![
        0x03, 0x0C, 0x00, // OUI (little-endian 0x000C03)
        0xAA, 0xBB, // product code 0xBBAA
        0x78, 0x56, 0x34, 0x12, // serial 0x12345678
        42,   // week
        24,   // year stored = 2024 - 2000
        5,    // name len
        b'O', b'U', b'I', b'4', b'2',
    ];
    let block_2x = DisplayIdDataBlock {
        tag: 0x20,
        revision: 0,
        payload: payload_2x.clone(),
    };
    let view_2x = block_2x.view().unwrap();
    let DisplayIdDataBlockView::ProductIdentification { product } = &view_2x else {
        panic!("expected ProductIdentification view");
    };
    assert!(product.vendor_id_is_oui);
    assert_eq!(product.vendor_id, [0x03, 0x0C, 0x00]);
    assert_eq!(product.product_code, 0xBBAA);
    assert_eq!(product.serial_number, 0x12345678);
    assert_eq!(product.week_of_manufacture, 42);
    assert_eq!(product.year, 2024);
    assert_eq!(product.product_name, b"OUI42");
    assert!(!product.is_model_year());
    // Lossless round-trip
    assert_eq!(view_2x.to_data_block_with_tag(0x20).unwrap(), block_2x);

    // 1.x layout (tag 0x00): character vendor ID, no serial, empty name.
    let payload_1x = vec![
        b'A', b'U', b'P', // vendor chars
        0x05, 0x00, // product code 5
        0, 0, 0, 0,  // no serial
        0,  // no week
        20, // year stored = 2020
        0,  // empty name
    ];
    let block_1x = DisplayIdDataBlock {
        tag: 0x00,
        revision: 0,
        payload: payload_1x.clone(),
    };
    let view_1x = block_1x.view().unwrap();
    let DisplayIdDataBlockView::ProductIdentification { product } = &view_1x else {
        panic!("expected ProductIdentification view");
    };
    assert!(!product.vendor_id_is_oui);
    assert_eq!(product.vendor_id, [b'A', b'U', b'P']);
    assert_eq!(product.product_code, 5);
    assert_eq!(product.serial_number, 0);
    assert_eq!(product.year, 2020);
    assert!(product.product_name.is_empty());
    assert_eq!(view_1x.to_data_block_with_tag(0x00).unwrap(), block_1x);

    // Non-UTF-8 product name is preserved exactly.
    let non_utf8 = DisplayIdDataBlockView::ProductIdentification {
        product: DisplayIdProductIdentification {
            vendor_id: [0x01, 0x02, 0x03],
            vendor_id_is_oui: true,
            product_code: 7,
            serial_number: 0,
            week_of_manufacture: 0xFF,
            year: 2020,
            product_name: vec![0xFF, 0xFE, 0x00, 0x41],
            raw: vec![],
        },
    };
    let encoded = non_utf8.to_data_block().unwrap();
    let decoded = encoded.view().unwrap();
    let DisplayIdDataBlockView::ProductIdentification { product } = decoded else {
        panic!("expected ProductIdentification view");
    };
    assert_eq!(product.product_name, vec![0xFF, 0xFE, 0x00, 0x41]);
    assert!(product.product_name_str().is_none());
    assert!(product.is_model_year());

    // Query from EdidBlock.
    let edid_block =
        EdidBlock::from_display_id_data_blocks(0x20, 2, 0, std::slice::from_ref(&block_2x))
            .unwrap();
    let products = edid_block.display_id_product_identifications().unwrap();
    assert_eq!(products.len(), 1);
    assert_eq!(products[0].product_code, 0xBBAA);

    // Rejection: year outside 2000..=2255.
    let invalid_year = DisplayIdDataBlockView::ProductIdentification {
        product: DisplayIdProductIdentification {
            vendor_id: [0; 3],
            vendor_id_is_oui: false,
            product_code: 0,
            serial_number: 0,
            week_of_manufacture: 0,
            year: 1999,
            product_name: vec![],
            raw: vec![],
        },
    };
    assert!(matches!(
        invalid_year.to_data_block_with_tag(0x00),
        Err(ExtensionWriteError::InvalidDisplayIdProductField {
            field: "year",
            value: 1999,
            maximum: 2255
        })
    ));
}

#[test]
fn display_id_interface_features_roundtrip_query_and_rejection() {
    // Tag 0x26 payload (9 bytes):
    // rgb: 8bpc + 10bpc (0b0011 -> bits 1,2)
    // ycbcr444: 8bpc (0b0001 -> bit 0)
    // ycbcr422: 10bpc (0b0010 -> bit 1)
    // ycbcr420: 12bpc (0b0100 -> bit 2)
    // min_ycbcr420_pixel_rate: 4 (74.25*4 = 297 MP/s)
    // audio_flags: 0xE0 (32/44.1/48 kHz)
    // colorspace_eotf_1: BT.2020 + ST2084 (bit 6) | BT.709 (bit 2) = 0x44
    // colorspace_eotf_2: reserved 0
    // additional_colorspace_count: 2
    let payload = vec![
        0b0000_0110,
        0b0000_0001,
        0b0000_0010,
        0b0000_0100,
        4,
        0xE0,
        0x44,
        0,
        2,
    ];
    let block = DisplayIdDataBlock {
        tag: 0x26,
        revision: 0,
        payload: payload.clone(),
    };
    let view = block.view().unwrap();
    let DisplayIdDataBlockView::InterfaceFeatures { features } = &view else {
        panic!("expected InterfaceFeatures view");
    };
    assert!(features.supports_rgb_bpc(8));
    assert!(features.supports_rgb_bpc(10));
    assert!(!features.supports_rgb_bpc(12));
    assert!(features.supports_ycbcr444_bpc(8));
    assert!(features.supports_ycbcr422_bpc(10));
    assert!(features.supports_ycbcr420_bpc(12));
    assert!(features.supports_bt2020_st2084());
    assert!(features.supports_bt709());
    assert_eq!(features.min_ycbcr420_pixel_rate, 4);
    assert_eq!(features.additional_colorspace_count, 2);
    assert_eq!(features.raw, payload);

    // Lossless round-trip
    let encoded = view.to_data_block().unwrap();
    assert_eq!(encoded, block);

    // Query from EdidBlock
    let edid_block =
        EdidBlock::from_display_id_data_blocks(0x20, 2, 0, std::slice::from_ref(&block))
            .unwrap();
    let features_list = edid_block.display_id_interface_features().unwrap();
    assert_eq!(features_list.len(), 1);
    assert!(features_list[0].supports_bt2020_st2084());

    // Mutation
    let mut features: DisplayIdInterfaceFeatures = features.clone();
    features.color_depth_rgb = 0b0111_1111; // all BPC
    let modified_view = DisplayIdDataBlockView::InterfaceFeatures { features };
    let modified_block = modified_view.to_data_block().unwrap();
    assert_eq!(modified_block.payload[0], 0b0111_1111);

    // Rejection: additional_colorspace_count > 7
    let invalid = DisplayIdDataBlock {
        tag: 0x26,
        revision: 0,
        payload: vec![0, 0, 0, 0, 0, 0, 0, 0, 8],
    };
    assert!(matches!(
        invalid.view(),
        Err(ExtensionError::InvalidDisplayIdFeatureField {
            field: "additional_colorspace_count",
            value: 8,
            maximum: 7
        })
    ));
}

#[test]
fn typed_cta_views_reject_invalid_payload_shapes() {
    let invalid_audio = CtaDataBlock {
        tag: 1,
        payload: vec![0x09, 0x07],
    };
    assert!(matches!(
        invalid_audio.view(),
        Err(ExtensionError::InvalidAudioDataBlockLength { length: 2 })
    ));

    let invalid_video = CtaDataBlock {
        tag: 2,
        payload: vec![0x00],
    };
    assert!(matches!(
        invalid_video.view(),
        Err(ExtensionError::InvalidVideoCode { index: 0 })
    ));

    let invalid_hdr = CtaDataBlock {
        tag: 7,
        payload: vec![0x06, 0x07],
    };
    assert!(matches!(
        invalid_hdr.view(),
        Err(ExtensionError::TruncatedExtendedDataBlock {
            extended_tag: 0x06,
            length: 2,
            minimum: 3,
        })
    ));

    let empty_audio = CtaDataBlock {
        tag: 1,
        payload: Vec::new(),
    };
    assert!(matches!(
        empty_audio.view(),
        Err(ExtensionError::InvalidAudioDataBlockLength { length: 0 })
    ));

    let empty_video = CtaDataBlock {
        tag: 2,
        payload: Vec::new(),
    };
    assert!(matches!(
        empty_video.view(),
        Err(ExtensionError::InvalidVideoDataBlockLength { length: 0 })
    ));
}

#[test]
fn rejects_empty_extended_data_block_payload() {
    let block = CtaDataBlock {
        tag: 7,
        payload: Vec::new(),
    };
    assert!(matches!(
        block.view(),
        Err(ExtensionError::TruncatedExtendedDataBlock {
            extended_tag: 0,
            length: 0,
            minimum: 1,
        })
    ));
}

#[test]
fn reads_displayid_header_and_typed_detailed_timing() {
    let mut block = EdidBlock::new_default();
    block.raw[0] = 0x70;
    block.raw[1] = 0x20;
    block.raw[2] = 23;
    block.raw[3] = 2;
    block.raw[4] = 0;
    block.raw[5..8].copy_from_slice(&[0x22, 1, 20]);
    let timing = &mut block.raw[8..28];
    timing[0..3].copy_from_slice(&59_999u32.to_le_bytes()[..3]);
    timing[3] = 0x80;
    timing[4..6].copy_from_slice(&1919u16.to_le_bytes());
    timing[6..8].copy_from_slice(&279u16.to_le_bytes());
    timing[8..10].copy_from_slice(&(87u16 | 0x8000).to_le_bytes());
    timing[10..12].copy_from_slice(&43u16.to_le_bytes());
    timing[12..14].copy_from_slice(&1079u16.to_le_bytes());
    timing[14..16].copy_from_slice(&44u16.to_le_bytes());
    timing[16..18].copy_from_slice(&(4u16 | 0x8000).to_le_bytes());
    timing[18..20].copy_from_slice(&5u16.to_le_bytes());
    block.raw[28] = block.raw[1..28]
        .iter()
        .fold(0u8, |sum, &byte| sum.wrapping_sub(byte));
    block.update_checksum();

    assert_eq!(
        block.display_id_header().unwrap(),
        DisplayIdHeader {
            revision: 0x20,
            payload_length: 23,
            product_type_or_primary_use: 2,
            extension_count: 0,
        }
    );
    let blocks = block.display_id_data_blocks().unwrap();
    assert_eq!(blocks.len(), 1);
    assert_eq!(
        blocks[0].view().unwrap(),
        DisplayIdDataBlockView::DetailedTiming {
            timings: vec![DisplayIdDetailedTiming {
                pixel_clock_khz: 60_000,
                h_active: 1920,
                h_blank: 280,
                h_sync_offset: 88,
                h_sync_width: 44,
                v_active: 1080,
                v_blank: 45,
                v_sync_offset: 5,
                v_sync_width: 6,
                h_sync_positive: true,
                v_sync_positive: true,
                aspect_ratio: DisplayIdAspectRatio::OneToOne,
                interlaced: false,
                stereo_3d: DisplayIdStereo3d::Mono,
                preferred: true,
                ycbcr420: false,
            }]
        }
    );
}

#[test]
fn reads_displayid_parameters_and_preserves_unknown_blocks() {
    let mut block = EdidBlock::new_default();
    block.raw[0] = 0x70;
    block.raw[1] = 1;
    block.raw[2] = 3 + 29 + 3 + 2;
    block.raw[3] = 3;
    block.raw[5..8].copy_from_slice(&[0x21, 2, 29]);
    block.raw[8..10].copy_from_slice(&600u16.to_le_bytes());
    block.raw[10..12].copy_from_slice(&340u16.to_le_bytes());
    block.raw[12..14].copy_from_slice(&1920u16.to_le_bytes());
    block.raw[14..16].copy_from_slice(&1080u16.to_le_bytes());
    block.raw[16] = 0x80;
    block.raw[17..29].copy_from_slice(&[1, 2, 3, 4, 5, 6, 7, 8, 9, 10, 11, 12]);
    block.raw[29..31].copy_from_slice(&1000u16.to_le_bytes());
    block.raw[31..33].copy_from_slice(&800u16.to_le_bytes());
    block.raw[33..35].copy_from_slice(&2u16.to_le_bytes());
    block.raw[35] = 0x15;
    block.raw[36] = 0x20;
    block.raw[37..40].copy_from_slice(&[0x55, 7, 2]);
    block.raw[40..42].copy_from_slice(&[0xAA, 0xBB]);
    block.raw[42] = block.raw[1..42]
        .iter()
        .fold(0u8, |sum, &byte| sum.wrapping_sub(byte));
    block.update_checksum();

    assert_eq!(
        block.display_id_data_blocks().unwrap()[0].view().unwrap(),
        DisplayIdDataBlockView::DisplayParameters {
            parameters: DisplayIdDisplayParameters {
                horizontal_image_size_mm: 600,
                vertical_image_size_mm: 340,
                horizontal_pixel_count: 1920,
                vertical_pixel_count: 1080,
                features: 0x80,
                primary_color_1: [1, 2, 3],
                primary_color_2: [4, 5, 6],
                primary_color_3: [7, 8, 9],
                white_point: [10, 11, 12],
                max_luminance_full: 1000,
                max_luminance_10_percent: 800,
                min_luminance: 2,
                color_depth_and_technology: 0x15,
                gamma_eotf: 0x20,
                raw: block.raw[8..37].to_vec(),
            }
        }
    );
    assert_eq!(
        block.display_id_data_blocks().unwrap()[1].view().unwrap(),
        DisplayIdDataBlockView::Unknown {
            tag: 0x55,
            payload: vec![0xAA, 0xBB],
        }
    );
}

#[test]
fn decodes_displayid_type_one_timing_clock_units() {
    let block = DisplayIdDataBlock {
        tag: 0x03,
        revision: 1,
        payload: vec![0; 20],
    };
    assert_eq!(
        block.view().unwrap(),
        DisplayIdDataBlockView::DetailedTiming {
            timings: vec![DisplayIdDetailedTiming {
                pixel_clock_khz: 10,
                h_active: 1,
                h_blank: 1,
                h_sync_offset: 1,
                h_sync_width: 1,
                v_active: 1,
                v_blank: 1,
                v_sync_offset: 1,
                v_sync_width: 1,
                h_sync_positive: false,
                v_sync_positive: false,
                aspect_ratio: DisplayIdAspectRatio::OneToOne,
                interlaced: false,
                stereo_3d: DisplayIdStereo3d::Mono,
                preferred: false,
                ycbcr420: false,
            }]
        }
    );
}

#[test]
fn type_1_7_timing_preserves_byte3_field_semantics() {
    // Tag 0x22, revision 1: byte 3 bit 7 means "preferred".
    // byte3 = 0xB6 = aspect 6 (64:27) | interlaced (0x10) | 3D stereo (0x20) | preferred (0x80).
    let block = DisplayIdDataBlock {
        tag: 0x22,
        revision: 1,
        payload: {
            let mut p = vec![0u8; 20];
            p[3] = 0xB6;
            p
        },
    };
    let view = block.view().unwrap();
    let DisplayIdDataBlockView::DetailedTiming { timings } = &view else {
        panic!("expected detailed timing view");
    };
    assert_eq!(timings.len(), 1);
    assert_eq!(
        timings[0].aspect_ratio,
        DisplayIdAspectRatio::SixtyFourToTwentySeven
    );
    assert!(timings[0].interlaced);
    assert_eq!(timings[0].stereo_3d, DisplayIdStereo3d::Stereo3d);
    assert!(timings[0].preferred);
    assert!(!timings[0].ycbcr420);

    // Re-encoding a revision<2 block reproduces byte 3 exactly.
    let encoded = view.to_data_block_with_tag(0x22).unwrap();
    assert_eq!(encoded.payload[3], 0xB6);

    // Same payload in a revision>=2 block: bit 7 means YCbCr 4:2:0, not preferred.
    let block_r2 = DisplayIdDataBlock {
        tag: 0x22,
        revision: 2,
        payload: {
            let mut p = vec![0u8; 20];
            p[3] = 0xB6;
            p
        },
    };
    let view_r2 = block_r2.view().unwrap();
    let DisplayIdDataBlockView::DetailedTiming { timings } = &view_r2 else {
        panic!("expected detailed timing view");
    };
    assert!(!timings[0].preferred);
    assert!(timings[0].ycbcr420);
    let encoded_r2 = view_r2.to_data_block_with_tag(0x22).unwrap();
    assert_eq!(encoded_r2.payload[3], 0xB6);
}

#[test]
fn type_1_7_timing_preserves_reserved_aspect_and_stereo_values() {
    // Reserved aspect (0xA = 10) and reserved stereo (0x3) round-trip verbatim.
    let block = DisplayIdDataBlock {
        tag: 0x03,
        revision: 0,
        payload: {
            let mut p = vec![0u8; 20];
            // aspect=0xA, stereo=0x3 (bit 6:5 => 0x60)
            p[3] = 0x60 | 0x0A;
            p
        },
    };
    let view = block.view().unwrap();
    let DisplayIdDataBlockView::DetailedTiming { timings } = &view else {
        panic!("expected detailed timing view");
    };
    assert_eq!(timings[0].aspect_ratio, DisplayIdAspectRatio::Reserved(10));
    assert_eq!(timings[0].stereo_3d, DisplayIdStereo3d::Reserved);
    let encoded = view.to_data_block_with_tag(0x03).unwrap();
    assert_eq!(encoded.payload[3], 0x6A);
}

#[test]
fn decodes_displayid_v1_display_parameters_tag() {
    let block = DisplayIdDataBlock {
        tag: 0x01,
        revision: 1,
        payload: vec![0; 29],
    };
    assert!(matches!(
        block.view().unwrap(),
        DisplayIdDataBlockView::DisplayParameters { .. }
    ));
}

#[test]
fn rejects_incomplete_displayid_data_block_header() {
    let mut block = EdidBlock::new_default();
    block.raw[0] = 0x70;
    block.raw[1] = 0x20;
    block.raw[2] = 1;
    block.raw[5] = 0x55;
    block.raw[6] = block.raw[1..6]
        .iter()
        .fold(0u8, |sum, &byte| sum.wrapping_sub(byte));
    block.update_checksum();
    assert!(matches!(
        block.display_id_data_blocks(),
        Err(ExtensionError::TruncatedDisplayIdDataBlockHeader {
            offset: 5,
            available: 1
        })
    ));
}

#[test]
fn rejects_invalid_displayid_lengths_and_checksum() {
    let mut block = EdidBlock::new_default();
    block.raw[0] = 0x70;
    block.raw[1] = 0x20;
    block.raw[2] = 4;
    block.raw[5..8].copy_from_slice(&[0x22, 1, 20]);
    block.raw[8] = 0xAA;
    block.raw[9] = block.raw[1..9]
        .iter()
        .fold(0u8, |sum, &byte| sum.wrapping_sub(byte));
    block.update_checksum();
    assert!(matches!(
        block.display_id_data_blocks(),
        Err(ExtensionError::TruncatedDisplayIdDataBlock {
            offset: 5,
            tag: 0x22,
            length: 20,
            available: 1
        })
    ));

    block.raw[2] = 0;
    block.raw[5] = 1;
    block.update_checksum();
    assert!(matches!(
        block.display_id_header(),
        Err(ExtensionError::InvalidDisplayIdChecksum { .. })
    ));
}

#[test]
fn cta_vendor_specific_data_blocks_decode_correctly() {
    // HDMI 1.4b VSDB
    let hdmi14b_payload = vec![0x03, 0x0C, 0x00, 0x10, 0x00, 0x38, 0x3C, 0x20];
    let block = CtaDataBlock {
        tag: 3,
        payload: hdmi14b_payload.clone(),
    };
    match block.view().unwrap() {
        CtaDataBlockView::VendorSpecific(CtaVendorSpecificBlock::Hdmi14b {
            physical_address,
            max_tmds_clock_mhz,
            deep_color_flags,
            feature_flags,
            raw,
        }) => {
            assert_eq!(physical_address, [0x10, 0x00]);
            assert_eq!(max_tmds_clock_mhz, Some(300)); // 0x3C * 5 = 60 * 5 = 300
            assert_eq!(deep_color_flags, 0x38);
            assert_eq!(feature_flags, 0x20);
            assert_eq!(raw, hdmi14b_payload);
        }
        other => panic!("expected Hdmi14b, got {other:?}"),
    }

    // HDMI Forum VSDB
    let hf_payload = vec![0xD8, 0x5D, 0xC4, 0x01, 0x78, 0xDC, 0x00, 0x01];
    let block = CtaDataBlock {
        tag: 3,
        payload: hf_payload.clone(),
    };
    match block.view().unwrap() {
        CtaDataBlockView::VendorSpecific(CtaVendorSpecificBlock::HdmiForum {
            version,
            max_tmds_character_rate_mhz,
            scdc_flags,
            deep_color_420_flags,
            raw,
            ..
        }) => {
            assert_eq!(version, 1);
            assert_eq!(max_tmds_character_rate_mhz, Some(600)); // 0x78 * 5 = 120 * 5 = 600
            assert_eq!(scdc_flags, 0xDC);
            assert_eq!(deep_color_420_flags, 0x01);
            assert_eq!(raw, hf_payload);
        }
        other => panic!("expected HdmiForum, got {other:?}"),
    }

    // Other VSDB (e.g. unknown vendor OUI [0xAA, 0xBB, 0xCC])
    let unknown_payload = vec![0xAA, 0xBB, 0xCC, 0x11, 0x22, 0x33];
    let block = CtaDataBlock {
        tag: 3,
        payload: unknown_payload.clone(),
    };
    match block.view().unwrap() {
        CtaDataBlockView::VendorSpecific(CtaVendorSpecificBlock::Other { oui, payload }) => {
            assert_eq!(oui, [0xAA, 0xBB, 0xCC]);
            assert_eq!(payload, vec![0x11, 0x22, 0x33]);
        }
        other => panic!("expected Other, got {other:?}"),
    }

    // Truncated VSDB (< 3 bytes)
    let truncated = CtaDataBlock {
        tag: 3,
        payload: vec![0x03, 0x0C],
    };
    assert!(matches!(
        truncated.view(),
        Err(ExtensionError::TruncatedVendorSpecificDataBlock { length: 2 })
    ));
}

#[test]
fn cta_header_and_dtds_decode_correctly() {
    let mut raw = [0u8; 128];
    raw[0] = 0x02; // CTA tag
    raw[1] = 0x03; // Revision 3
    raw[2] = 0x06; // DTD offset at byte 6
    raw[3] = 0xF2; // underscan=1, basic_audio=1, ycbcr_444=1, ycbcr_422=1, native_dtd_count=2

    // Data block collection at 4..6: e.g. 1-byte Video block (tag 2, length 1 -> header 0x41)
    raw[4] = 0x41;
    raw[5] = 0x10; // VIC 16 (1080p60)

    // DTD at byte 6..24: 1080p60 (1920x1080 @ 60Hz)
    // 148.5 MHz pixel clock -> 14850 = 0x3A02
    raw[6] = 0x02;
    raw[7] = 0x3A;
    raw[8] = 0x80; // HActive[7:0] = 1920 & 0xFF = 0x80
    raw[9] = 0x18; // HBlank[7:0] = 280 & 0xFF = 0x18
    raw[10] = 0x71; // HActive[11:8]=0x7, HBlank[11:8]=0x1
    raw[11] = 0x38; // VActive[7:0] = 1080 & 0xFF = 0x38
    raw[12] = 0x2D; // VBlank[7:0] = 45 & 0xFF = 0x2D
    raw[13] = 0x40; // VActive[11:8]=0x4, VBlank[11:8]=0x0
    raw[14] = 0x58; // HFront=88
    raw[15] = 0x2C; // HSync=44
    raw[16] = 0x45; // VFront=4, VSync=5
    raw[17] = 0x00; // high bits for porches
    raw[18] = 0x00;
    raw[19] = 0x00;
    raw[20] = 0x00;
    raw[21] = 0x00;
    raw[22] = 0x00;
    raw[23] = 0x1E; // separate sync +H +V

    let block = EdidBlock { raw };
    let header = block.cta_header().unwrap();
    assert_eq!(header.revision, 3);
    assert_eq!(header.dtd_offset, 6);
    assert_eq!(header.native_dtd_count, 2);
    assert!(header.underscan);
    assert!(header.basic_audio);
    assert!(header.ycbcr_444);
    assert!(header.ycbcr_422);

    let timings = block.cta_detailed_timings().unwrap();
    assert_eq!(timings.len(), 1);
    assert_eq!(timings[0].h_active, 1920);
    assert_eq!(timings[0].v_active, 1080);
    assert_eq!(timings[0].pixel_clock_khz, 148500);
}

#[test]
fn cta_header_rejects_non_cta_block() {
    let raw = [0u8; 128];
    let block = EdidBlock { raw };
    assert!(matches!(block.cta_header(), Err(ExtensionError::NotCta861)));
    assert!(matches!(
        block.cta_detailed_timings(),
        Err(ExtensionError::NotCta861)
    ));
}

#[test]
fn cta_speaker_allocation_view_decodes_and_rejects_empty() {
    let block = CtaDataBlock {
        tag: 4,
        payload: vec![0x07, 0x05, 0x00], // FL/FR (bit 0), LFE (bit 1), FC (bit 2), FLW/FRW (byte 1 bit 0), TC (byte 1 bit 2)
    };
    match block.view().unwrap() {
        CtaDataBlockView::SpeakerAllocation(spk) => {
            assert!(spk.front_left_right());
            assert!(spk.lfe());
            assert!(spk.front_center());
            assert!(!spk.rear_left_right());
            assert!(spk.front_left_right_wide());
            assert!(spk.top_center());
            assert!(!spk.front_left_right_high());
        }
        other => panic!("expected SpeakerAllocation, got {other:?}"),
    }

    let empty = CtaDataBlock {
        tag: 4,
        payload: vec![],
    };
    assert!(matches!(
        empty.view(),
        Err(ExtensionError::InvalidSpeakerAllocationDataBlockLength { length: 0 })
    ));
}

#[test]
fn cta_colorimetry_and_video_capability_views() {
    // Colorimetry (ext tag 0x05)
    let color_block = CtaDataBlock {
        tag: 7,
        payload: vec![0x05, 0x85, 0x01], // xvYCC601 (bit 0), sYCC601 (bit 2), BT2020RGB (bit 7), md_flags = 1
    };
    match color_block.view().unwrap() {
        CtaDataBlockView::Extended(CtaExtendedDataBlockView::Colorimetry(c)) => {
            assert!(c.xvycc601);
            assert!(!c.xvycc709);
            assert!(c.sycc601);
            assert!(!c.adobe_rgb);
            assert!(c.bt2020_rgb);
            assert_eq!(c.md_flags, 1);
        }
        other => panic!("expected Colorimetry, got {other:?}"),
    }

    // Video Capability (ext tag 0x00)
    let vcap_block = CtaDataBlock {
        tag: 7,
        payload: vec![0x00, 0xE4], // Q=1 (bit 7), QS=1 (bit 6), PT=2 (bits 5..4 = 10), IT=1 (bits 3..2 = 01), CE=0 (bits 1..0 = 00)
    };
    match vcap_block.view().unwrap() {
        CtaDataBlockView::Extended(CtaExtendedDataBlockView::VideoCapability(v)) => {
            assert!(v.selectable_quantization_range_rgb);
            assert!(v.selectable_quantization_range_ycc);
            assert_eq!(v.pt_behavior, 2);
            assert_eq!(v.it_behavior, 1);
            assert_eq!(v.ce_behavior, 0);
        }
        other => panic!("expected VideoCapability, got {other:?}"),
    }

    // Truncated extended blocks
    let short_color = CtaDataBlock {
        tag: 7,
        payload: vec![0x05, 0x01], // len 2 < 3
    };
    assert!(matches!(
        short_color.view(),
        Err(ExtensionError::TruncatedExtendedDataBlock {
            extended_tag: 0x05,
            length: 2,
            minimum: 3
        })
    ));
}

#[test]
fn cta_freesync_and_dolby_vision_vsdb_views() {
    // FreeSync OUI: 0x00001A -> [0x1A, 0x00, 0x00]
    let fs_payload = vec![0x1A, 0x00, 0x00, 0x01, 48, 144, 0x01];
    let fs_block = CtaDataBlock {
        tag: 3,
        payload: fs_payload,
    };
    match fs_block.view().unwrap() {
        CtaDataBlockView::VendorSpecific(CtaVendorSpecificBlock::AmdFreeSync {
            version,
            min_refresh_hz,
            max_refresh_hz,
            flags,
            ..
        }) => {
            assert_eq!(version, 1);
            assert_eq!(min_refresh_hz, Some(48));
            assert_eq!(max_refresh_hz, Some(144));
            assert_eq!(flags, 1);
        }
        other => panic!("expected AmdFreeSync, got {other:?}"),
    }

    // Dolby Vision OUI: 0x00D046 -> [0x46, 0xD0, 0x00]
    let dv_payload = vec![0x46, 0xD0, 0x00, 0x02, 0x11, 0x22];
    let dv_block = CtaDataBlock {
        tag: 3,
        payload: dv_payload,
    };
    match dv_block.view().unwrap() {
        CtaDataBlockView::VendorSpecific(CtaVendorSpecificBlock::DolbyVision {
            version,
            ..
        }) => {
            assert_eq!(version, 2);
        }
        other => panic!("expected DolbyVision, got {other:?}"),
    }
}

#[test]
fn constructs_cta_block_from_data_blocks() {
    let blocks = [CtaDataBlock {
        tag: 2,
        payload: vec![16, 31],
    }];
    let block = EdidBlock::from_cta_data_blocks(3, &blocks).unwrap();
    assert_eq!(block.raw[0], 0x02);
    assert_eq!(block.raw[1], 3);
    assert_eq!(block.raw[2], 7);
    assert_eq!(block.cta_data_blocks().unwrap(), blocks);
    assert_eq!(block.validate(), Ok(()));
}

#[test]
fn cta_constructor_zeroes_padding_and_dtd_area() {
    let block = EdidBlock::from_cta_data_blocks(3, &[]).unwrap();
    assert_eq!(&block.raw[4..127], &[0; 123]);
    assert!(block.cta_detailed_timings_flagged().unwrap().is_empty());
}

#[test]
fn constructs_cta_block_with_detailed_timings_and_native_count() {
    let timing = preset_1080p60();
    let block = EdidBlock::from_cta_data_blocks_and_timings(3, &[], &[timing]).unwrap();
    assert_eq!(block.raw[2], 4);
    assert_eq!(block.raw[3] & 0x0F, 1);
    assert_eq!(block.cta_detailed_timings().unwrap().len(), 1);
    assert_eq!(block.validate(), Ok(()));
}

#[test]
fn rejects_cta_dtds_without_space() {
    let timings = (0..7)
        .map(|_| preset_1080p60())
        .collect::<Vec<_>>();
    assert!(matches!(
        EdidBlock::from_cta_data_blocks_and_timings(3, &[], &timings),
        Err(ExtensionWriteError::CtaDtdsTooLong {
            count: 7,
            maximum: 6
        })
    ));
}

#[test]
fn rejects_cta_data_collection_that_cannot_fit() {
    let blocks = vec![
        CtaDataBlock {
            tag: 2,
            payload: vec![0; 31],
        };
        4
    ];
    assert!(matches!(
        EdidBlock::from_cta_data_blocks(3, &blocks),
        Err(ExtensionWriteError::CtaDataBlocksTooLong {
            length: 128,
            maximum: 123
        })
    ));
}

#[test]
fn replaces_cta_data_blocks_and_recomputes_layout() {
    let mut block = EdidBlock::from_cta_data_blocks(
        3,
        &[CtaDataBlock {
            tag: 2,
            payload: vec![16],
        }],
    )
    .unwrap();
    block
        .replace_cta_data_blocks(&[CtaDataBlock {
            tag: 1,
            payload: vec![0x09, 0x07, 0x07],
        }])
        .unwrap();
    assert_eq!(block.raw[2], 8);
    assert_eq!(block.cta_data_blocks().unwrap()[0].tag, 1);
    assert_eq!(block.validate(), Ok(()));
}
#[test]
fn encodes_raw_cta_data_block_header_and_payload() {
    let block = CtaDataBlock {
        tag: 2,
        payload: vec![16, 31],
    };
    assert_eq!(block.encode().unwrap(), vec![0x42, 16, 31]);
}
#[test]
fn encodes_lossless_cta_typed_views() {
    let video = CtaDataBlockView::Video {
        modes: vec![
            CtaVideoMode {
                vic: 16,
                native: true,
            },
            CtaVideoMode {
                vic: 31,
                native: false,
            },
        ],
    };
    assert_eq!(
        video.to_data_block().unwrap(),
        CtaDataBlock {
            tag: 2,
            payload: vec![0x90, 31]
        }
    );

    let audio = CtaDataBlockView::Audio {
        descriptors: vec![CtaAudioDescriptor {
            format: 1,
            channels: 2,
            sample_rates: 0x07,
            format_specific: 0x10,
        }],
    };
    assert_eq!(
        audio.to_data_block().unwrap(),
        CtaDataBlock {
            tag: 1,
            payload: vec![0x09, 0x07, 0x10]
        }
    );

    let unknown = CtaDataBlockView::Unknown {
        tag: 5,
        payload: vec![1, 2, 3],
    };
    assert_eq!(
        unknown.to_data_block().unwrap(),
        CtaDataBlock {
            tag: 5,
            payload: vec![1, 2, 3]
        }
    );

    let vendor = CtaDataBlockView::VendorSpecific(CtaVendorSpecificBlock::Other {
        oui: [0xAA, 0xBB, 0xCC],
        payload: vec![0x11, 0x22],
    });
    assert_eq!(
        vendor.to_data_block().unwrap(),
        CtaDataBlock {
            tag: 3,
            payload: vec![0xAA, 0xBB, 0xCC, 0x11, 0x22],
        }
    );

    let extended = CtaDataBlockView::Extended(CtaExtendedDataBlockView::Unknown {
        extended_tag: 0x1A,
        payload: vec![0x01, 0x02],
    });
    assert_eq!(
        extended.to_data_block().unwrap(),
        CtaDataBlock {
            tag: 7,
            payload: vec![0x1A, 0x01, 0x02]
        }
    );
}
#[test]
fn encodes_cta_speaker_colorimetry_and_video_capability_views() {
    let speaker = CtaDataBlockView::SpeakerAllocation(CtaSpeakerAllocation {
        raw_mask: [0x07, 0x05, 0x01],
    });
    assert_eq!(
        speaker.to_data_block().unwrap(),
        CtaDataBlock {
            tag: 4,
            payload: vec![0x07, 0x05, 0x01],
        }
    );

    let colorimetry =
        CtaDataBlockView::Extended(CtaExtendedDataBlockView::Colorimetry(CtaColorimetry {
            xvycc601: true,
            xvycc709: false,
            sycc601: true,
            adobe_ycc601: false,
            adobe_rgb: true,
            bt2020_cycc: false,
            bt2020_ycc: true,
            bt2020_rgb: true,
            md_flags: 2,
        }));
    assert_eq!(
        colorimetry.to_data_block().unwrap(),
        CtaDataBlock {
            tag: 7,
            payload: vec![0x05, 0xD5, 0x02],
        }
    );

    let capability = CtaDataBlockView::Extended(CtaExtendedDataBlockView::VideoCapability(
        CtaVideoCapability {
            selectable_quantization_range_rgb: true,
            selectable_quantization_range_ycc: false,
            pt_behavior: 2,
            it_behavior: 1,
            ce_behavior: 3,
        },
    ));
    assert_eq!(
        capability.to_data_block().unwrap(),
        CtaDataBlock {
            tag: 7,
            payload: vec![0x00, 0xA7],
        }
    );
}
#[test]
fn encodes_hdr_static_metadata_and_preserves_extra_raw_bytes() {
    let hdr = CtaDataBlockView::Extended(CtaExtendedDataBlockView::HdrStaticMetadata {
        eotf_flags: 0x07,
        metadata_descriptor_flags: 0x01,
        max_luminance: Some(0x40),
        max_frame_average_luminance: Some(0x20),
        min_luminance: Some(0x01),
        raw: vec![0x06, 0x07, 0x01, 0x40, 0x20, 0x01, 0xAA],
    });
    assert_eq!(
        hdr.to_data_block().unwrap(),
        CtaDataBlock {
            tag: 7,
            payload: vec![0x06, 0x07, 0x01, 0x40, 0x20, 0x01, 0xAA],
        }
    );
}

#[test]
fn typed_cta_encoders_roundtrip_through_views() {
    let views = [
        CtaDataBlockView::Video {
            modes: vec![CtaVideoMode {
                vic: 16,
                native: true,
            }],
        },
        CtaDataBlockView::Audio {
            descriptors: vec![CtaAudioDescriptor {
                format: 1,
                channels: 2,
                sample_rates: 0x07,
                format_specific: 0x10,
            }],
        },
        CtaDataBlockView::SpeakerAllocation(CtaSpeakerAllocation {
            raw_mask: [0x07, 0x05, 0x01],
        }),
        CtaDataBlockView::Extended(CtaExtendedDataBlockView::Colorimetry(CtaColorimetry {
            xvycc601: true,
            xvycc709: false,
            sycc601: true,
            adobe_ycc601: false,
            adobe_rgb: true,
            bt2020_cycc: false,
            bt2020_ycc: true,
            bt2020_rgb: true,
            md_flags: 2,
        })),
    ];
    for view in views {
        let encoded = view.to_data_block().unwrap();
        assert_eq!(encoded.view().unwrap(), view);
    }
}
#[test]
fn encodes_known_vendor_views_losslessly_and_writes_typed_fields() {
    let source_blocks = [
        CtaDataBlock {
            tag: 3,
            payload: vec![0x03, 0x0C, 0x00, 0x10, 0x00, 0x38, 0x3C, 0x20, 0xAA],
        },
        CtaDataBlock {
            tag: 3,
            payload: vec![0xD8, 0x5D, 0xC4, 1, 0x78, 0xDC, 0x00, 0x01, 0xBB],
        },
        CtaDataBlock {
            tag: 3,
            payload: vec![0x1A, 0x00, 0x00, 1, 48, 144, 1, 0xCC],
        },
        CtaDataBlock {
            tag: 3,
            payload: vec![0x46, 0xD0, 0x00, 2, 0x11, 0x22, 0xDD],
        },
    ];
    for source in &source_blocks {
        let view = source.view().unwrap();
        assert_eq!(view.to_data_block().unwrap(), source.clone());
    }

    let mut hdmi14b = match source_blocks[0].view().unwrap() {
        CtaDataBlockView::VendorSpecific(block) => block,
        other => panic!("unexpected view: {other:?}"),
    };
    if let CtaVendorSpecificBlock::Hdmi14b {
        physical_address,
        max_tmds_clock_mhz,
        deep_color_flags,
        feature_flags,
        ..
    } = &mut hdmi14b
    {
        *physical_address = [0x20, 0x01];
        *max_tmds_clock_mhz = Some(400);
        *deep_color_flags = 0x70;
        *feature_flags = 0x40;
    }
    let encoded = CtaDataBlockView::VendorSpecific(hdmi14b)
        .to_data_block()
        .unwrap();
    assert_eq!(&encoded.payload[3..8], &[0x20, 0x01, 0x70, 0x50, 0x40]);

    let mut forum = match source_blocks[1].view().unwrap() {
        CtaDataBlockView::VendorSpecific(block) => block,
        other => panic!("unexpected view: {other:?}"),
    };
    if let CtaVendorSpecificBlock::HdmiForum {
        version,
        max_tmds_character_rate_mhz,
        scdc_flags,
        deep_color_420_flags,
        ..
    } = &mut forum
    {
        *version = 2;
        *max_tmds_character_rate_mhz = Some(700);
        *scdc_flags = 0xAA;
        *deep_color_420_flags = 0x02;
    }
    let encoded = CtaDataBlockView::VendorSpecific(forum)
        .to_data_block()
        .unwrap();
    assert_eq!(&encoded.payload[3..8], &[2, 0x8C, 0xAA, 0x00, 0x02]);

    let mut freesync = match source_blocks[2].view().unwrap() {
        CtaDataBlockView::VendorSpecific(block) => block,
        other => panic!("unexpected view: {other:?}"),
    };
    if let CtaVendorSpecificBlock::AmdFreeSync {
        version,
        min_refresh_hz,
        max_refresh_hz,
        flags,
        ..
    } = &mut freesync
    {
        *version = 2;
        *min_refresh_hz = Some(50);
        *max_refresh_hz = Some(165);
        *flags = 2;
    }
    let encoded = CtaDataBlockView::VendorSpecific(freesync)
        .to_data_block()
        .unwrap();
    assert_eq!(&encoded.payload[3..7], &[2, 50, 165, 2]);

    let mut dolby = match source_blocks[3].view().unwrap() {
        CtaDataBlockView::VendorSpecific(block) => block,
        other => panic!("unexpected view: {other:?}"),
    };
    if let CtaVendorSpecificBlock::DolbyVision { version, .. } = &mut dolby {
        *version = 3;
    }
    let encoded = CtaDataBlockView::VendorSpecific(dolby)
        .to_data_block()
        .unwrap();
    assert_eq!(encoded.payload, vec![0x46, 0xD0, 0x00, 3, 0x11, 0x22, 0xDD]);
}
#[test]
fn validates_hdr_raw_prefix_and_drops_removed_luminance_bytes() {
    let malformed = CtaDataBlockView::Extended(CtaExtendedDataBlockView::HdrStaticMetadata {
        eotf_flags: 0,
        metadata_descriptor_flags: 0,
        max_luminance: None,
        max_frame_average_luminance: None,
        min_luminance: None,
        raw: vec![0x05, 0x01, 0x02],
    });
    assert!(matches!(
        malformed.to_data_block(),
        Err(ExtensionWriteError::InvalidCtaExtendedPayload {
            expected_tag: 0x06,
            actual_tag: Some(0x05),
            length: 3
        })
    ));

    let removed = CtaDataBlockView::Extended(CtaExtendedDataBlockView::HdrStaticMetadata {
        eotf_flags: 0x07,
        metadata_descriptor_flags: 0x01,
        max_luminance: None,
        max_frame_average_luminance: Some(0x20),
        min_luminance: Some(0x01),
        raw: vec![0x06, 0x07, 0x01, 0x40, 0x20, 0x01, 0xAA],
    });
    assert!(matches!(
        removed.to_data_block(),
        Err(ExtensionWriteError::InvalidCtaHdrLuminanceOrder)
    ));

    let retained = CtaDataBlockView::Extended(CtaExtendedDataBlockView::HdrStaticMetadata {
        eotf_flags: 0x07,
        metadata_descriptor_flags: 0x01,
        max_luminance: None,
        max_frame_average_luminance: None,
        min_luminance: None,
        raw: vec![0x06, 0x07, 0x01, 0x40, 0x20, 0x01, 0xAA],
    });
    assert!(matches!(
        retained.to_data_block(),
        Err(ExtensionWriteError::InvalidCtaHdrRawTail)
    ));
}

#[test]
fn rejects_malformed_known_vendor_encoder_inputs() {
    let short = CtaDataBlockView::VendorSpecific(CtaVendorSpecificBlock::Hdmi14b {
        physical_address: [1, 0],
        max_tmds_clock_mhz: None,
        deep_color_flags: 0,
        feature_flags: 0,
        raw: vec![0x03, 0x0C, 0x00],
    });
    assert!(matches!(
        short.to_data_block(),
        Err(ExtensionWriteError::CtaPayloadTooShort {
            tag: 3,
            length: 3,
            minimum: 5
        })
    ));
    let default_valued_tail =
        CtaDataBlockView::VendorSpecific(CtaVendorSpecificBlock::Hdmi14b {
            physical_address: [0x10, 0],
            max_tmds_clock_mhz: None,
            deep_color_flags: 0,
            feature_flags: 0,
            raw: vec![0x03, 0x0C, 0x00, 0x10],
        });
    assert!(matches!(
        default_valued_tail.to_data_block(),
        Err(ExtensionWriteError::CtaPayloadTooShort {
            tag: 3,
            length: 4,
            minimum: 5
        })
    ));

    let wrong_oui = CtaDataBlockView::VendorSpecific(CtaVendorSpecificBlock::DolbyVision {
        version: 2,
        raw: vec![0x03, 0x0C, 0x00, 2],
    });
    assert!(matches!(
        wrong_oui.to_data_block(),
        Err(ExtensionWriteError::InvalidCtaVendorOui { .. })
    ));

    let invalid_rate = CtaDataBlockView::VendorSpecific(CtaVendorSpecificBlock::HdmiForum {
        version: 1,
        max_tmds_character_rate_mhz: Some(701),
        scdc_flags: 0,
        deep_color_420_flags: 0,
        raw: vec![0xD8, 0x5D, 0xC4, 1, 0, 0, 0, 0],
    });
    assert!(matches!(
        invalid_rate.to_data_block(),
        Err(ExtensionWriteError::InvalidCtaVendorRate {
            field: "max_tmds_character_rate_mhz",
            value: 701
        })
    ));
}

#[test]
fn rejects_unrepresentable_raw_cta_data_block() {
    let invalid_tag = CtaDataBlock {
        tag: 8,
        payload: Vec::new(),
    };
    assert!(matches!(
        invalid_tag.encode(),
        Err(ExtensionWriteError::InvalidCtaTag { tag: 8 })
    ));

    let oversized = CtaDataBlock {
        tag: 2,
        payload: vec![0; 32],
    };
    assert!(matches!(
        oversized.encode(),
        Err(ExtensionWriteError::CtaPayloadTooLong {
            length: 32,
            maximum: 31
        })
    ));
}

#[test]
fn rejects_displayid_detailed_timing_payload_over_121_bytes() {
    let timing = DisplayIdDetailedTiming {
        pixel_clock_khz: 60_000,
        h_active: 1920,
        h_blank: 280,
        h_sync_offset: 88,
        h_sync_width: 44,
        v_active: 1080,
        v_blank: 45,
        v_sync_offset: 5,
        v_sync_width: 6,
        h_sync_positive: true,
        v_sync_positive: true,
        aspect_ratio: DisplayIdAspectRatio::OneToOne,
        interlaced: false,
        stereo_3d: DisplayIdStereo3d::Mono,
        preferred: false,
        ycbcr420: false,
    };
    let view = DisplayIdDataBlockView::DetailedTiming {
        timings: vec![timing; 7],
    };

    assert!(matches!(
        view.to_data_block_with_tag(0x03),
        Err(ExtensionWriteError::DisplayIdPayloadTooLong {
            length: 140,
            maximum: 121
        })
    ));
}

#[test]
fn constructs_display_id_from_data_blocks() {
    let blocks = [DisplayIdDataBlock {
        tag: 0x55,
        revision: 1,
        payload: vec![0xAA, 0xBB],
    }];
    let block = EdidBlock::from_display_id_data_blocks(0x20, 2, 0, &blocks).unwrap();
    assert_eq!(block.raw[0], 0x70);
    assert_eq!(block.raw[1], 0x20);
    assert_eq!(block.display_id_data_blocks().unwrap(), blocks);
    assert_eq!(block.validate(), Ok(()));
}

#[test]
fn rejects_display_id_payload_over_121_bytes() {
    let blocks = [DisplayIdDataBlock {
        tag: 1,
        revision: 0,
        payload: vec![0; 119],
    }];
    assert!(matches!(
        EdidBlock::from_display_id_data_blocks(0x20, 2, 0, &blocks),
        Err(ExtensionWriteError::DisplayIdPayloadTooLong {
            length: 122,
            maximum: 121
        })
    ));
}

#[test]
fn replaces_display_id_data_blocks_and_preserves_header_fields() {
    let mut block = EdidBlock::from_display_id_data_blocks(
        0x20,
        2,
        3,
        &[DisplayIdDataBlock {
            tag: 0x55,
            revision: 1,
            payload: vec![0xAA],
        }],
    )
    .unwrap();
    block
        .replace_display_id_data_blocks(&[DisplayIdDataBlock {
            tag: 0x56,
            revision: 2,
            payload: vec![0xBB, 0xCC],
        }])
        .unwrap();
    assert_eq!(block.raw[1], 0x20);
    assert_eq!(block.raw[3], 2);
    assert_eq!(block.raw[4], 3);
    assert_eq!(block.display_id_data_blocks().unwrap()[0].tag, 0x56);
    assert_eq!(block.validate(), Ok(()));
}

#[test]
fn cta_typed_views_written_then_read_keep_their_fields() {
    let edited = CtaVendorSpecificBlock::Hdmi14b {
        physical_address: [0x20, 0x00],
        max_tmds_clock_mhz: Some(300),
        deep_color_flags: 0x78,
        feature_flags: 0x20,
        raw: vec![0x03, 0x0C, 0x00, 0x10, 0x00, 0x00, 0x2D, 0x00],
    };
    let views = vec![
        CtaDataBlockView::Video {
            modes: vec![CtaVideoMode { vic: 16, native: true }, CtaVideoMode { vic: 4, native: false }],
        },
        CtaDataBlockView::Audio {
            descriptors: vec![CtaAudioDescriptor { format: 1, channels: 2, sample_rates: 0x07, format_specific: 0x07 }],
        },
        CtaDataBlockView::VendorSpecific(edited),
        CtaDataBlockView::Extended(CtaExtendedDataBlockView::VideoCapability(CtaVideoCapability {
            selectable_quantization_range_rgb: true,
            selectable_quantization_range_ycc: false,
            pt_behavior: 2,
            it_behavior: 3,
            ce_behavior: 1,
        })),
        CtaDataBlockView::Extended(CtaExtendedDataBlockView::HdrStaticMetadata {
            eotf_flags: 0x05,
            metadata_descriptor_flags: 0x01,
            max_luminance: Some(0x70),
            max_frame_average_luminance: None,
            min_luminance: None,
            raw: vec![0x06, 0x05, 0x01],
        }),
    ];
    for view in views {
        let block = view.to_data_block().unwrap();
        let read = block.view().unwrap();
        match (&view, &read) {
            (
                CtaDataBlockView::VendorSpecific(CtaVendorSpecificBlock::Hdmi14b {
                    physical_address: a,
                    max_tmds_clock_mhz: t,
                    deep_color_flags: d,
                    feature_flags: f,
                    ..
                }),
                CtaDataBlockView::VendorSpecific(CtaVendorSpecificBlock::Hdmi14b {
                    physical_address: a2,
                    max_tmds_clock_mhz: t2,
                    deep_color_flags: d2,
                    feature_flags: f2,
                    raw,
                }),
            ) => {
                assert_eq!((a, t, d, f), (a2, t2, d2, f2));
                assert_eq!(raw, &vec![0x03, 0x0C, 0x00, 0x20, 0x00, 0x78, 0x3C, 0x20]);
            }
            (
                CtaDataBlockView::Extended(CtaExtendedDataBlockView::HdrStaticMetadata { max_luminance, .. }),
                CtaDataBlockView::Extended(CtaExtendedDataBlockView::HdrStaticMetadata { max_luminance: m2, raw, .. }),
            ) => {
                assert_eq!(max_luminance, m2);
                assert_eq!(raw, &vec![0x06, 0x05, 0x01, 0x70]);
            }
            _ => assert_eq!(view, read),
        }
    }
}

#[test]
fn cta_canonical_blocks_read_then_write_unchanged() {
    let blocks = vec![
        CtaDataBlock { tag: 1, payload: vec![0x09, 0x07, 0x07, 0x3D, 0x07, 0xC0] },
        CtaDataBlock { tag: 2, payload: vec![0x90, 0x04, 0x03] },
        CtaDataBlock { tag: 3, payload: vec![0x03, 0x0C, 0x00, 0x10, 0x00, 0xB8, 0x2D, 0x20] },
        CtaDataBlock { tag: 3, payload: vec![0x1A, 0x00, 0x00, 0x01, 0x30, 0x90, 0x01] },
        CtaDataBlock { tag: 4, payload: vec![0x4F, 0x00, 0x00] },
        CtaDataBlock { tag: 7, payload: vec![0x00, 0xCA] },
        CtaDataBlock { tag: 7, payload: vec![0x05, 0xC1, 0x03] },
        CtaDataBlock { tag: 7, payload: vec![0x06, 0x05, 0x01, 0x70, 0x50, 0x10, 0xAA] },
        CtaDataBlock { tag: 7, payload: vec![0x1A, 0x01, 0x02] },
        CtaDataBlock { tag: 6, payload: vec![0xDE, 0xAD] },
    ];
    for block in blocks {
        let view = block.view().unwrap();
        assert_eq!(view.to_data_block().unwrap(), block);
    }
    // A reserved audio format code has a view but is not written back.
    let reserved = CtaDataBlock { tag: 1, payload: vec![0x01, 0x07, 0x07] };
    let view = reserved.view().unwrap();
    assert_eq!(
        view.to_data_block(),
        Err(ExtensionWriteError::InvalidCtaAudioFormat { index: 0, format: 0 })
    );
}

#[test]
fn display_id_canonical_blocks_read_then_write_unchanged() {
    let params: Vec<u8> = (0u8..29).collect();
    let blocks = vec![
        DisplayIdDataBlock {
            tag: 0x20,
            revision: 0,
            payload: vec![0x03, 0x0C, 0x00, 0x34, 0x12, 0x78, 0x56, 0x34, 0x12, 10, 24, 3, b'A', b'B', b'C'],
        },
        DisplayIdDataBlock { tag: 0x21, revision: 0, payload: params },
        DisplayIdDataBlock {
            tag: 0x22,
            revision: 0,
            payload: vec![
                0x3F, 0x42, 0x0F, 0x84, 0x7F, 0x07, 0x17, 0x01, 0x57, 0x80, 0x2B, 0x00, 0x37, 0x04, 0x2C, 0x00,
                0x03, 0x80, 0x04, 0x00,
            ],
        },
        DisplayIdDataBlock { tag: 0x26, revision: 0, payload: vec![0x07, 0x03, 0x01, 0x00, 0x10, 0x07, 0x21, 0x00, 0x00] },
        DisplayIdDataBlock {
            tag: 0x09,
            revision: 0,
            payload: vec![0x10, 0x00, 0x00, 0x20, 0x4E, 0x00, 30, 90, 0x20, 0x00, 48, 75, 0x10, 0x00, 0xC0],
        },
        DisplayIdDataBlock { tag: 0x25, revision: 0, payload: vec![0x10, 0x27, 0x00, 0x40, 0x9C, 0x00, 48, 0x2C, 0x81] },
        DisplayIdDataBlock { tag: 0x23, revision: 0x48, payload: vec![0x10, 0x00, 0x20, 0x01] },
        DisplayIdDataBlock { tag: 0x24, revision: 0, payload: vec![0x21, 0x7F, 0x07, 0x37, 0x04, 59] },
        DisplayIdDataBlock {
            tag: 0x28,
            revision: 0,
            payload: vec![
                0x00, 0x11, 0x10, 0x00, 0x7F, 0x07, 0x37, 0x04, 0x00, 0x00, 0x00, 0x00, 0x00, 0x03, 0x0C, 0x00,
                0x34, 0x12, 0xEF, 0xBE, 0xAD, 0xDE,
            ],
        },
        DisplayIdDataBlock { tag: 0x7E, revision: 0, payload: vec![0xAA, 0xBB] },
    ];
    for block in blocks {
        let view = block.view().unwrap();
        assert_eq!(view.to_data_block_with_tag(block.tag).unwrap(), block);
    }
}

#[test]
fn display_id_typed_views_written_then_read_keep_their_fields() {
    let timing = DisplayIdDetailedTiming {
        pixel_clock_khz: 594_000,
        h_active: 3840,
        h_blank: 560,
        h_sync_offset: 176,
        h_sync_width: 88,
        v_active: 2160,
        v_blank: 90,
        v_sync_offset: 8,
        v_sync_width: 10,
        h_sync_positive: true,
        v_sync_positive: false,
        aspect_ratio: DisplayIdAspectRatio::SixteenToNine,
        interlaced: false,
        stereo_3d: DisplayIdStereo3d::Stereo3d,
        preferred: false,
        ycbcr420: true,
    };
    let views = vec![
        DisplayIdDataBlockView::DetailedTiming { timings: vec![timing.clone(), DisplayIdDetailedTiming { ycbcr420: false, ..timing.clone() }] },
        DisplayIdDataBlockView::EnumeratedTiming { code_type: 2, code_size: 1, codes: vec![1, 4, 200] },
        DisplayIdDataBlockView::Unknown { tag: 0x7E, payload: vec![1, 2, 3] },
    ];
    for view in views {
        let block = view.to_data_block().unwrap();
        let read = block.view().unwrap();
        assert_eq!(read, view);
    }
    let written = DisplayIdDataBlockView::DetailedTiming { timings: vec![timing.clone()] }.to_data_block().unwrap();
    assert_eq!(written.tag, 0x03);
    assert_eq!(written.revision, 2);
    assert_eq!(written.payload[3], 0x80 | 0x20 | 0x04);
}

#[test]
fn typed_writers_are_stable_after_one_pass() {
    let cta_blocks = vec![
        CtaDataBlock { tag: 4, payload: vec![0x01] },
        CtaDataBlock { tag: 7, payload: vec![0x00, 0x3F, 0xEE] },
        CtaDataBlock { tag: 7, payload: vec![0x05, 0x81, 0xFF, 0x12] },
    ];
    for raw in cta_blocks {
        let encoded = raw.view().unwrap().to_data_block().unwrap();
        assert_ne!(encoded, raw);
        let reencoded = encoded.view().unwrap().to_data_block().unwrap();
        assert_eq!(reencoded, encoded);
    }
    let did_blocks = vec![
        DisplayIdDataBlock {
            tag: 0x20,
            revision: 0,
            payload: vec![0x03, 0x0C, 0x00, 0x34, 0x12, 0x78, 0x56, 0x34, 0x12, 10, 24, 1, b'A', 0xEE, 0xEE],
        },
        DisplayIdDataBlock { tag: 0x24, revision: 0, payload: vec![0xA9, 0x7F, 0x07, 0x37, 0x04, 59] },
        DisplayIdDataBlock { tag: 0x23, revision: 0x77, payload: vec![0x10, 0x20] },
    ];
    for raw in did_blocks {
        let encoded = raw.view().unwrap().to_data_block().unwrap();
        assert_ne!(encoded, raw);
        let reencoded = encoded.view().unwrap().to_data_block().unwrap();
        assert_eq!(reencoded, encoded);
    }
}

#[test]
fn tiled_topology_counts_use_six_bits() {
    let b = DisplayIdDataBlock {
        tag: 0x28,
        revision: 0,
        payload: vec![
            0x00, 0x00, 0x00, 0x40, 0x7F, 0x07, 0x37, 0x04, 0x00, 0, 0, 0, 0, 0x03, 0x0C, 0x00, 0x34, 0x12, 0xEF, 0xBE,
            0xAD, 0xDE,
        ],
    };
    let view = b.view().unwrap();
    match &view {
        DisplayIdDataBlockView::TiledDisplayTopology { topology } => {
            assert_eq!(topology.tiles_h, 17);
            assert_eq!(topology.tiles_v, 1);
            assert_eq!(topology.tile_location_h, 0);
            assert_eq!(topology.tile_location_v, 0);
            assert_eq!(topology.tile_width, 1920);
            assert_eq!(topology.tile_height, 1080);
        }
        other => panic!("expected tiled topology, got {other:?}"),
    }
    assert_eq!(view.to_data_block_with_tag(0x28).unwrap(), b);
}

#[test]
fn sixteen_bit_sizes_that_overflow_are_rejected() {
    let mut tiled = vec![0u8; 22];
    tiled[1] = 0x11;
    tiled[4] = 0xFF;
    tiled[5] = 0xFF;
    let b = DisplayIdDataBlock { tag: 0x28, revision: 0, payload: tiled };
    assert_eq!(
        b.view(),
        Err(ExtensionError::InvalidDisplayIdDynamicRange { tag: 0x28, reason: "stored size exceeds 16-bit range" })
    );
    let formula = DisplayIdDataBlock { tag: 0x24, revision: 0, payload: vec![0x00, 0xFF, 0xFF, 0x37, 0x04, 59] };
    assert_eq!(
        formula.view(),
        Err(ExtensionError::InvalidDisplayIdDynamicRange { tag: 0x24, reason: "stored size exceeds 16-bit range" })
    );
}

#[test]
fn cta_build_lays_out_blocks_then_timings() {
    let blocks = [
        CtaDataBlock { tag: 2, payload: vec![16, 31] },
        CtaDataBlock { tag: 1, payload: vec![9, 7, 7] },
    ];
    let timings = [preset_1080p60(), preset_1080p60()];
    let block = EdidBlock::from_cta_data_blocks_and_timings(3, &blocks, &timings).unwrap();
    assert_eq!(&block.raw[0..4], &[0x02, 3, 11, 2]);
    assert_eq!(block.cta_data_blocks().unwrap(), blocks);
    assert_eq!(block.cta_detailed_timings_flagged().unwrap().len(), 2);
    assert_eq!(block.validate_extension(), Ok(()));

    // 116 bytes of data blocks leave room for no DTD at all.
    let long = vec![CtaDataBlock { tag: 2, payload: vec![0; 28] }; 4];
    assert!(matches!(
        EdidBlock::from_cta_data_blocks_and_timings(3, &long, &timings[..1]),
        Err(ExtensionWriteError::CtaDtdsTooLong { count: 1, maximum: 0 })
    ));
}
