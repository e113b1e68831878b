use edid_seria::presets::{all_presets, hdtv_presets, pc_presets};
use edid_seria::{EdidBlock, dtd_fits};

#[test]
fn pc_presets_are_valid() {
    for p in pc_presets() {
        assert!(p.h_active > 0);
        assert!(p.v_active > 0);
        assert!(p.v_rate_millihz > 0);
    }
}

#[test]
fn hdtv_presets_are_valid() {
    for p in hdtv_presets() {
        assert!(p.h_active > 0);
        assert!(p.v_active > 0);
        assert!(p.v_rate_millihz > 0);
    }
}

#[test]
fn preset_clocks_match_rates() {
    for p in all_presets() {
        let h_total = p.h_active + p.h_front + p.h_sync + p.h_back;
        let v_total = p.v_active + p.v_front + p.v_sync + p.v_back;
        let actual = p.pixel_clock_khz as f64 * 1000.0 / (h_total as f64 * v_total as f64);
        let rate = p.v_rate_millihz as f64 / 1000.0;
        assert!(
            (actual - rate).abs() < 0.5,
            "{}x{}@{}: clock gives {:.2} Hz",
            p.h_active,
            p.v_active,
            rate,
            actual
        );
        assert!(p.h_active <= 4095 && p.v_active <= 4095);
        assert!(p.pixel_clock_khz <= 655_350);
    }
}

#[test]
fn common_wide_and_high_resolution_presets_are_available() {
    for &(width, height, refresh) in &[(1280u32, 800u32, 60u64), (1920, 1200, 60), (2560, 1440, 60), (3440, 1440, 60)] {
        assert!(
            all_presets()
                .iter()
                .any(|p| p.h_active == width && p.v_active == height && p.v_rate_millihz == refresh * 1000),
            "missing preset {width}x{height}@{refresh}"
        );
    }
}

#[test]
fn preset_dtds_roundtrip_through_strict_writer() {
    for timing in all_presets() {
        let mut block = EdidBlock::new_default();
        match block.write_detailed_checked(0, &timing) {
            Ok(()) => {
                block.update_checksum();
                let decoded = block.read_detailed_with_flags(0).unwrap();
                assert_eq!(decoded.timing.h_active, timing.h_active);
                assert_eq!(decoded.timing.v_active, timing.v_active);
                assert_eq!(block.validate(), Ok(()));
            }
            Err(_) => assert!(!dtd_fits(&timing)),
        }
    }
}
