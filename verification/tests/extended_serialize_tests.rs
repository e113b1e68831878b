use edid_seria::edid::EdidBlock;
use edid_seria::error::SerializeError;
use edid_seria::extensions::DisplayIdDataBlockView;
use edid_seria::serialize::{ExtensionPolicy, SerializeOptions};
use edid_seria::serialize_extended::serialize_timings_extended;
use edid_seria::timing::DetailedTiming;

const EDID_BLOCK_SIZE: usize = 128;

fn timing(width: u32, height: u32) -> DetailedTiming {
    let h_total = width + 160;
    let v_total = height + 13;
    DetailedTiming {
        h_active: width,
        v_active: height,
        h_front: 48,
        h_sync: 32,
        h_back: 80,
        v_front: 3,
        v_sync: 4,
        v_back: 6,
        h_border: 0,
        v_border: 0,
        pixel_clock_khz: h_total * v_total * 60 / 1000,
        h_pol: true,
        v_pol: false,
        v_rate_millihz: 60_000,
    }
}

/// 2560x1440 at 144 Hz with a vertical front porch of 89 lines, which no DTD holds.
fn high_refresh() -> DetailedTiming {
    DetailedTiming {
        h_active: 2560,
        v_active: 1440,
        h_front: 8,
        h_sync: 32,
        h_back: 40,
        v_front: 89,
        v_sync: 8,
        v_back: 6,
        h_border: 0,
        v_border: 0,
        pixel_clock_khz: 586_550,
        h_pol: true,
        v_pol: false,
        v_rate_millihz: 144_000,
    }
}

fn checksum_ok(bytes: &[u8]) {
    for block in bytes.chunks(EDID_BLOCK_SIZE) {
        let sum = block.iter().fold(0u8, |a, b| a.wrapping_add(*b));
        assert_eq!(sum, 0);
    }
}

#[test]
fn serialize_extended_base_only_rejects_overflow() {
    let timings = vec![timing(1920, 1080), timing(1280, 720), timing(800, 600), timing(640, 480), timing(1024, 768)];
    let opts = SerializeOptions { extension_policy: ExtensionPolicy::BaseOnly, ..Default::default() };
    let res = serialize_timings_extended(None, &timings, &opts);
    assert!(matches!(res, Err(SerializeError::NoDtdSlot { index: 4 })));
}

#[test]
fn serialize_extended_auto_overflows_to_cta_extension() {
    let timings = vec![
        timing(1920, 1080),
        timing(1280, 720),
        timing(800, 600),
        timing(640, 480),
        timing(1024, 768),
        timing(1600, 900),
    ];
    let opts = SerializeOptions::default();
    let out = serialize_timings_extended(None, &timings, &opts).unwrap();
    assert_eq!(out.written, 6);
    assert_eq!(out.bytes.len(), 2 * EDID_BLOCK_SIZE);
    checksum_ok(&out.bytes);
    assert_eq!(out.bytes[126], 1);
    assert_eq!(out.bytes[128], 0x02);
    let cta_block = EdidBlock::from_bytes(&out.bytes[128..256]).unwrap();
    let dtds = cta_block.cta_detailed_timings().unwrap();
    assert_eq!(dtds.len(), 2);
    assert_eq!(dtds[0].h_active, 1024);
    assert_eq!(dtds[0].v_active, 768);
    assert_eq!(dtds[1].h_active, 1600);
    assert_eq!(dtds[1].v_active, 900);
}

#[test]
fn serialize_extended_auto_routes_high_refresh_cvtrb2_to_displayid() {
    let timings = vec![timing(1920, 1080), high_refresh()];
    let opts = SerializeOptions::default();
    let out = serialize_timings_extended(None, &timings, &opts).unwrap();
    assert_eq!(out.written, 2);
    assert_eq!(out.bytes.len(), 2 * EDID_BLOCK_SIZE);
    checksum_ok(&out.bytes);
    let base_block = EdidBlock::from_bytes(&out.bytes[0..128]).unwrap();
    assert_eq!(base_block.raw[126], 1);
    let base_dtd = base_block.read_detailed(0).unwrap();
    assert_eq!(base_dtd.h_active, 1920);
    assert_eq!(base_dtd.v_active, 1080);
    assert_eq!(out.bytes[128], 0x70);
    let did_block = EdidBlock::from_bytes(&out.bytes[128..256]).unwrap();
    let did_blocks = did_block.display_id_data_blocks().unwrap();
    assert_eq!(did_blocks.len(), 1);
    match did_blocks[0].view().unwrap() {
        DisplayIdDataBlockView::DetailedTiming { timings } => {
            assert_eq!(timings.len(), 1);
            assert_eq!(timings[0].h_active, 2560);
            assert_eq!(timings[0].v_active, 1440);
            assert_eq!(timings[0].v_sync_offset, 89);
        }
        other => panic!("expected DetailedTiming block, got {:?}", other),
    }
}

#[test]
fn serialize_extended_splits_multiple_cta_blocks() {
    let timings: Vec<DetailedTiming> = (0..16).map(|i| timing(640 + i * 32, 480)).collect();
    let opts = SerializeOptions { extension_policy: ExtensionPolicy::PreferCta, ..Default::default() };
    let out = serialize_timings_extended(None, &timings, &opts).unwrap();
    assert_eq!(out.written, 16);
    assert_eq!(out.bytes.len(), 3 * EDID_BLOCK_SIZE);
    checksum_ok(&out.bytes);
    assert_eq!(out.bytes[126], 2);
    assert_eq!(out.bytes[128], 0x02);
    assert_eq!(out.bytes[256], 0x02);
    let cta1 = EdidBlock::from_bytes(&out.bytes[128..256]).unwrap();
    let cta2 = EdidBlock::from_bytes(&out.bytes[256..384]).unwrap();
    assert_eq!(cta1.cta_detailed_timings().unwrap().len(), 6);
    assert_eq!(cta2.cta_detailed_timings().unwrap().len(), 6);
}

#[test]
fn serialize_extended_splits_multiple_displayid_blocks() {
    let timings: Vec<DetailedTiming> = (0..12).map(|i| timing(640 + i * 32, 480)).collect();
    let opts = SerializeOptions { extension_policy: ExtensionPolicy::PreferDisplayId, ..Default::default() };
    let out = serialize_timings_extended(None, &timings, &opts).unwrap();
    assert_eq!(out.written, 12);
    assert_eq!(out.bytes.len(), 3 * EDID_BLOCK_SIZE);
    checksum_ok(&out.bytes);
    assert_eq!(out.bytes[126], 2);
    assert_eq!(out.bytes[128], 0x70);
    assert_eq!(out.bytes[256], 0x70);
}

#[test]
fn serialize_extended_prefer_cta_rejects_incompatible_timings() {
    let timings = vec![high_refresh()];
    let opts = SerializeOptions { extension_policy: ExtensionPolicy::PreferCta, ..Default::default() };
    let res = serialize_timings_extended(None, &timings, &opts);
    assert!(matches!(res, Err(SerializeError::TimingDoesNotFit { index: 0 })));
}

#[test]
fn serialize_extended_respects_max_blocks_limit() {
    let timings: Vec<DetailedTiming> = (0..16).map(|i| timing(640 + i * 32, 480)).collect();
    let opts = SerializeOptions { extension_policy: ExtensionPolicy::Auto, max_blocks: 2, ..Default::default() };
    let res = serialize_timings_extended(None, &timings, &opts);
    assert!(matches!(res, Err(SerializeError::TooManyExtensions { count: 2 })));
}

#[test]
fn serialize_extended_rejects_zero_sized_timings() {
    let mut bad = timing(640, 480);
    bad.v_active = 0;
    let res = serialize_timings_extended(None, &[timing(800, 600), bad], &SerializeOptions::default());
    assert!(matches!(res, Err(SerializeError::InvalidTiming { index: 1, .. })));
}
