use edid_seria::capabilities::{CapabilitySource, DisplayTiming};
use edid_seria::edid::{Edid, EdidBlock};
use edid_seria::extensions::{CtaDataBlock, DisplayIdDataBlock};
use edid_seria::timing::DetailedTiming;

fn timing_720p() -> DetailedTiming {
    DetailedTiming {
        h_active: 1280,
        v_active: 720,
        h_front: 110,
        h_sync: 40,
        h_back: 220,
        v_front: 5,
        v_sync: 5,
        v_back: 20,
        h_border: 0,
        v_border: 0,
        pixel_clock_khz: 74_250,
        h_pol: true,
        v_pol: true,
        v_rate_millihz: 60_000,
    }
}

#[test]
fn display_capabilities_aggregates_sources() {
    let audio = CtaDataBlock { tag: 1, payload: vec![0x09, 0x07, 0x07] };
    let freesync = CtaDataBlock { tag: 3, payload: vec![0x1A, 0x00, 0x00, 0x01, 48, 144, 0x00] };
    let cta = EdidBlock::from_cta_data_blocks_and_timings(3, &[audio, freesync], &[timing_720p()]).unwrap();
    let dynamic = DisplayIdDataBlock {
        tag: 0x25,
        revision: 0,
        payload: vec![0x10, 0x27, 0x00, 0x40, 0x9C, 0x00, 48, 0x2C, 0x81],
    };
    let did = EdidBlock::from_display_id_data_blocks(0x20, 0, 0, &[dynamic]).unwrap();
    let mut base = EdidBlock::new_default();
    base.raw[126] = 2;
    base.update_checksum();
    let edid = Edid { base, extensions: vec![cta, did] };
    let caps = edid.display_capabilities();
    assert!(caps.timings.iter().any(|t| t.source == CapabilitySource::CtaExtension { index: 0 }
        && matches!(&t.timing, DisplayTiming::Detailed(d) if d.h_active == 1280 && d.v_active == 720)));
    assert_eq!(caps.audio.len(), 1);
    assert_eq!(caps.audio[0].source, CapabilitySource::CtaExtension { index: 0 });
    assert_eq!(caps.audio[0].descriptor.channels, 2);
    assert_eq!(caps.vrr_ranges.len(), 2);
    assert_eq!(caps.vrr_ranges[0].source, CapabilitySource::CtaExtension { index: 0 });
    assert_eq!((caps.vrr_ranges[0].min_hz, caps.vrr_ranges[0].max_hz), (48, 144));
    assert_eq!(caps.vrr_ranges[1].source, CapabilitySource::DisplayIdExtension { index: 1 });
    assert_eq!((caps.vrr_ranges[1].min_hz, caps.vrr_ranges[1].max_hz), (48, 300));
    assert_eq!(caps.vrr_safe_intersection(), Some((48, 144)));
    assert!(!caps.has_vrr_conflict());
    assert!(caps.interfaces.is_empty());
}
