use edid_seria::edid::EdidBlock;
use edid_seria::error::{DescriptorError, MetadataError, MetadataWriteError};
use edid_seria::metadata::{
    AdditionalColorPoint, BaseMetadata, ChromaticityCoordinates, ChromaticityPoint,
    ColorManagementDescriptor, Cvt3ByteTimingEntry, CvtAspectRatio, CvtPreferredRate,
    CvtRangeSupport, CvtSupportedRates, EstablishedTiming, EstablishedTiming3, EstablishedTimings,
    EstablishedTimings3, MonitorDescriptor, RangeLimitsExtension, SecondaryGtfParameters,
    StandardTiming, StandardTimingAspectRatio, StandardTimingEntry,
};

#[test]
fn metadata_roundtrips_identity_fields() {
    let mut block = EdidBlock::new_default();
    let metadata = BaseMetadata {
        manufacturer_id: "ABC".to_owned(),
        product_code: 0x1234,
        serial_number: 0x89AB_CDEF,
        manufacture_week: 12,
        manufacture_year: 2024,
        input: 0x80,
        horizontal_size_cm: 60,
        vertical_size_cm: 34,
        gamma: Some(220),
        feature_flags: 0x0A,
    };
    block.set_metadata(&metadata).unwrap();
    assert_eq!(block.metadata().unwrap(), metadata);
}

#[test]
fn constructs_base_block_from_metadata() {
    let metadata = BaseMetadata {
        manufacturer_id: "ABC".to_owned(),
        product_code: 0x1234,
        serial_number: 0x5678_9ABC,
        manufacture_week: 25,
        manufacture_year: 2024,
        input: 0x80,
        horizontal_size_cm: 60,
        vertical_size_cm: 34,
        gamma: Some(220),
        feature_flags: 0x0A,
    };

    let block = EdidBlock::from_metadata(&metadata).unwrap();
    assert_eq!(block.metadata().unwrap(), metadata);
    assert_eq!(block.validate(), Ok(()));
}

#[test]
fn rejects_reserved_manufacture_week() {
    let metadata = BaseMetadata {
        manufacturer_id: "ABC".to_owned(),
        product_code: 1,
        serial_number: 1,
        manufacture_week: 55,
        manufacture_year: 2024,
        input: 0x80,
        horizontal_size_cm: 1,
        vertical_size_cm: 1,
        gamma: None,
        feature_flags: 0,
    };

    assert!(matches!(
        EdidBlock::from_metadata(&metadata),
        Err(MetadataError::InvalidManufactureWeek { week: 55 })
    ));
}

#[test]
fn constructed_base_block_uses_edid_unused_markers() {
    let metadata = BaseMetadata {
        manufacturer_id: "ABC".to_owned(),
        product_code: 1,
        serial_number: 1,
        manufacture_week: 0,
        manufacture_year: 2024,
        input: 0x80,
        horizontal_size_cm: 1,
        vertical_size_cm: 1,
        gamma: None,
        feature_flags: 0,
    };

    let block = EdidBlock::from_metadata(&metadata).unwrap();
    let unused_timings = [0x01u8, 0x01].repeat(8);
    assert_eq!(&block.raw[38..54], unused_timings.as_slice());
    for slot in 0..4 {
        let offset = 54 + slot * 18;
        assert_eq!(block.raw[offset..offset + 4], [0, 0, 0, 0x10]);
    }
    assert_eq!(block.validate(), Ok(()));
}

#[test]
fn monitor_descriptors_roundtrip_text_and_range() {
    let mut block = EdidBlock::new_default();
    block
        .set_monitor_descriptor(2, &MonitorDescriptor::ProductName("TEST PANEL".to_owned()))
        .unwrap();
    assert_eq!(
        block.monitor_descriptor(2).unwrap(),
        Some(MonitorDescriptor::ProductName("TEST PANEL".to_owned()))
    );

    let range = MonitorDescriptor::RangeLimits {
        min_vertical_hz: 48,
        max_vertical_hz: 144,
        min_horizontal_khz: 30,
        max_horizontal_khz: 240,
        max_pixel_clock_mhz: 600,
        extension: RangeLimitsExtension::Standard,
    };
    block.set_monitor_descriptor(3, &range).unwrap();
    assert_eq!(block.monitor_descriptor(3).unwrap(), Some(range));
}

#[test]
fn descriptor_rejects_long_text_without_mutation() {
    let mut block = EdidBlock::new_default();
    let before = block.raw;
    let result = block.set_monitor_descriptor(
        0,
        &MonitorDescriptor::ProductName("0123456789ABC".to_owned()),
    );
    assert!(result.is_err());
    assert_eq!(block.raw, before);
}
#[test]
fn metadata_setters_reject_extension_blocks_without_mutation() {
    let metadata = BaseMetadata {
        manufacturer_id: "ABC".to_owned(),
        product_code: 1,
        serial_number: 2,
        manufacture_week: 1,
        manufacture_year: 2024,
        input: 0x80,
        horizontal_size_cm: 1,
        vertical_size_cm: 1,
        gamma: None,
        feature_flags: 0,
    };
    let mut block = EdidBlock::new_default();
    block.raw[0] = 0x02;
    block.update_checksum();
    let before = block.raw;
    assert_eq!(
        block.set_metadata(&metadata),
        Err(MetadataError::NotBaseBlock)
    );
    assert_eq!(
        block.set_monitor_descriptor(0, &MonitorDescriptor::ProductName("X".to_owned())),
        Err(DescriptorError::NotBaseBlock)
    );
    assert_eq!(block.raw, before);
}

#[test]
fn chromaticity_roundtrips_edid_fixed_point_fields() {
    let mut block = EdidBlock::new_default();
    let expected = ChromaticityCoordinates {
        red: ChromaticityPoint { x: 0x155, y: 0x2AA },
        green: ChromaticityPoint { x: 0x3FF, y: 0x001 },
        blue: ChromaticityPoint { x: 0x100, y: 0x200 },
        white: ChromaticityPoint { x: 0x300, y: 0x3AA },
    };

    block.set_chromaticity(&expected).unwrap();

    assert_eq!(block.chromaticity().unwrap(), expected);
    assert_eq!(block.raw[25], 0x70);
    assert_eq!(block.raw[26], 0x92);
    assert_eq!(
        &block.raw[27..35],
        &[0x55, 0xAA, 0xFF, 0x00, 0x40, 0x80, 0xC0, 0xEA]
    );
    assert_eq!(block.validate(), Ok(()));
}

#[test]
fn established_timings_decode_known_bits_and_preserve_reserved_bits() {
    let mut block = EdidBlock::new_default();
    block.raw[35] = 0xA0;
    block.raw[36] = 0x01;
    block.raw[37] = 0x95;
    block.update_checksum();

    let timings = block.established_timings().unwrap();
    assert!(timings.contains(EstablishedTiming::Mode720x400At70));
    assert!(timings.contains(EstablishedTiming::Mode640x480At60));
    assert!(timings.contains(EstablishedTiming::Mode1280x1024At75));
    assert!(timings.contains(EstablishedTiming::Mode1152x870At75));
    assert_eq!(timings.manufacturer_reserved(), 0x15);

    let replacement = EstablishedTimings::from_raw([0x01, 0x80, 0x7F]);
    block.set_established_timings(&replacement).unwrap();
    assert_eq!(block.established_timings().unwrap(), replacement);
    assert_eq!(block.validate(), Ok(()));
}

#[test]
fn standard_timings_decode_unused_and_reserved_entries() {
    let mut block = EdidBlock::new_default();
    block.raw[38..40].copy_from_slice(&[0xDF, 0x01]);
    block.raw[40..42].copy_from_slice(&[0x01, 0x01]);
    block.raw[42..44].copy_from_slice(&[0x00, 0x00]);
    block.update_checksum();

    let timings = block.standard_timings().unwrap();
    assert_eq!(
        timings[0],
        StandardTimingEntry::Timing(
            StandardTiming::new(2032, StandardTimingAspectRatio::SixteenByTen, 61,).unwrap()
        )
    );
    assert_eq!(timings[1], StandardTimingEntry::Unused);
    assert_eq!(timings[2], StandardTimingEntry::Reserved { raw: [0, 0] });
}

#[test]
fn standard_timings_write_is_checksum_safe_and_rejects_unrepresentable_modes() {
    let mut block = EdidBlock::new_default();
    let entries = [
        StandardTimingEntry::Timing(
            StandardTiming::new(1920, StandardTimingAspectRatio::SixteenByNine, 60).unwrap(),
        ),
        StandardTimingEntry::Unused,
        StandardTimingEntry::Reserved { raw: [0, 0] },
        StandardTimingEntry::Unused,
        StandardTimingEntry::Unused,
        StandardTimingEntry::Unused,
        StandardTimingEntry::Unused,
        StandardTimingEntry::Unused,
    ];

    block.set_standard_timings(&entries).unwrap();
    assert_eq!(&block.raw[38..42], &[0xD1, 0xC0, 0x01, 0x01]);
    assert_eq!(&block.raw[42..44], &[0, 0]);
    assert_eq!(block.standard_timings().unwrap(), entries);
    assert_eq!(block.validate(), Ok(()));

    let invalid = StandardTiming {
        horizontal_pixels: 1921,
        aspect_ratio: StandardTimingAspectRatio::SixteenByNine,
        refresh_rate_hz: 60,
    };
    let before = block.raw;
    let mut invalid_entries = entries;
    invalid_entries[0] = StandardTimingEntry::Timing(invalid);
    assert!(block.set_standard_timings(&invalid_entries).is_err());
    assert_eq!(block.raw, before);

    assert_eq!(
        StandardTiming::new(256, StandardTimingAspectRatio::SixteenByTen, 61),
        Err(MetadataWriteError::ReservedStandardTimingEncoding)
    );

    let reserved_before = block.raw;
    let mut invalid_reserved = entries;
    invalid_reserved[0] = StandardTimingEntry::Reserved { raw: [0xD1, 0xC0] };
    assert_eq!(
        block.set_standard_timings(&invalid_reserved),
        Err(MetadataWriteError::InvalidReservedStandardTimingEncoding { raw: [0xD1, 0xC0] })
    );
    assert_eq!(block.raw, reserved_before);
}

#[test]
fn alphanumeric_string_descriptor_roundtrips() {
    let mut block = EdidBlock::new_default();
    let descriptor = MonitorDescriptor::AlphanumericString("DISPLAY-01".to_owned());
    block.set_monitor_descriptor(1, &descriptor).unwrap();
    assert_eq!(block.monitor_descriptor(1).unwrap(), Some(descriptor));
    assert_eq!(block.validate(), Ok(()));
}

#[test]
fn additional_color_point_descriptor_roundtrips() {
    let mut block = EdidBlock::new_default();
    let descriptor = MonitorDescriptor::AdditionalColorPoint {
        point1: AdditionalColorPoint {
            index: 1,
            point: ChromaticityPoint { x: 313, y: 329 },
            gamma: Some(220),
        },
        point2: Some(AdditionalColorPoint {
            index: 2,
            point: ChromaticityPoint { x: 283, y: 298 },
            gamma: None,
        }),
    };
    block.set_monitor_descriptor(2, &descriptor).unwrap();
    assert_eq!(block.monitor_descriptor(2).unwrap(), Some(descriptor));
    assert_eq!(block.validate(), Ok(()));

    // Rejection of invalid coordinates or gamma
    let invalid_coord = MonitorDescriptor::AdditionalColorPoint {
        point1: AdditionalColorPoint {
            index: 1,
            point: ChromaticityPoint { x: 1024, y: 300 },
            gamma: None,
        },
        point2: None,
    };
    assert!(matches!(
        block.set_monitor_descriptor(2, &invalid_coord),
        Err(DescriptorError::InvalidChromaticityCoordinate { value: 1024 })
    ));

    let invalid_index = MonitorDescriptor::AdditionalColorPoint {
        point1: AdditionalColorPoint {
            index: 0,
            point: ChromaticityPoint { x: 300, y: 300 },
            gamma: None,
        },
        point2: None,
    };
    assert!(matches!(
        block.set_monitor_descriptor(2, &invalid_index),
        Err(DescriptorError::RangeOutOfBounds)
    ));
}

#[test]
fn additional_standard_timings_descriptor_roundtrips() {
    let mut block = EdidBlock::new_default();
    let descriptor = MonitorDescriptor::AdditionalStandardTimings([
        StandardTimingEntry::Timing(
            StandardTiming::new(1920, StandardTimingAspectRatio::SixteenByNine, 60).unwrap(),
        ),
        StandardTimingEntry::Timing(
            StandardTiming::new(1280, StandardTimingAspectRatio::FourByThree, 75).unwrap(),
        ),
        StandardTimingEntry::Unused,
        StandardTimingEntry::Unused,
        StandardTimingEntry::Unused,
        StandardTimingEntry::Unused,
    ]);
    block.set_monitor_descriptor(3, &descriptor).unwrap();
    assert_eq!(block.monitor_descriptor(3).unwrap(), Some(descriptor));
    assert_eq!(block.validate(), Ok(()));
}

#[test]
fn dummy_descriptor_roundtrips_and_preserves_checksum() {
    let mut block = EdidBlock::new_default();
    block
        .set_monitor_descriptor(0, &MonitorDescriptor::Dummy)
        .unwrap();
    assert_eq!(
        block.monitor_descriptor(0).unwrap(),
        Some(MonitorDescriptor::Dummy)
    );
    assert_eq!(block.validate(), Ok(()));
}

#[test]
fn established_timings_3_roundtrips_and_queries() {
    let mut block = EdidBlock::new_default();
    let mut et3 = EstablishedTimings3::default();
    assert!(!et3.has_timing(EstablishedTiming3::Res1920x1200_60Hz));
    assert!(!et3.has_timing(EstablishedTiming3::Res1440x900_60HzRb));

    et3.set_timing(EstablishedTiming3::Res1920x1200_60Hz, true);
    et3.set_timing(EstablishedTiming3::Res1440x900_60HzRb, true);
    et3.set_timing(EstablishedTiming3::Res848x480_60Hz, true);

    assert!(et3.has_timing(EstablishedTiming3::Res1920x1200_60Hz));
    assert!(et3.has_timing(EstablishedTiming3::Res1440x900_60HzRb));
    assert!(et3.has_timing(EstablishedTiming3::Res848x480_60Hz));
    assert!(!et3.has_timing(EstablishedTiming3::Res1920x1440_60Hz));
    let descriptor = MonitorDescriptor::EstablishedTimings3(et3);
    block.set_monitor_descriptor(1, &descriptor).unwrap();
    assert_eq!(block.monitor_descriptor(1).unwrap(), Some(descriptor));
    assert_eq!(block.validate(), Ok(()));
}

#[test]
fn cvt_3byte_timing_codes_roundtrips() {
    let mut block = EdidBlock::new_default();
    let cvt1 = Cvt3ByteTimingEntry::Active {
        addressable_lines: 1080,
        aspect_ratio: CvtAspectRatio::Ratio16x9,
        preferred_rate: CvtPreferredRate::Hz60Standard,
        supported_rates: CvtSupportedRates { raw: 0x09 }, // 60Hz standard (bit 3) & 60Hz RB (bit 0)
    };
    let cvt2 = Cvt3ByteTimingEntry::Active {
        addressable_lines: 900,
        aspect_ratio: CvtAspectRatio::Ratio16x10,
        preferred_rate: CvtPreferredRate::Hz75Standard,
        supported_rates: CvtSupportedRates { raw: 0x04 }, // 75Hz standard (bit 2)
    };
    let descriptor = MonitorDescriptor::Cvt3ByteTimings([
        cvt1,
        cvt2,
        Cvt3ByteTimingEntry::Unused,
        Cvt3ByteTimingEntry::Unused,
    ]);
    block.set_monitor_descriptor(0, &descriptor).unwrap();
    assert_eq!(block.monitor_descriptor(0).unwrap(), Some(descriptor));
    assert_eq!(block.validate(), Ok(()));

    if let Some(MonitorDescriptor::Cvt3ByteTimings(slots)) =
        block.monitor_descriptor(0).unwrap()
    {
        if let Cvt3ByteTimingEntry::Active {
            addressable_lines,
            aspect_ratio,
            preferred_rate,
            supported_rates,
        } = slots[0]
        {
            assert_eq!(addressable_lines, 1080);
            assert_eq!(aspect_ratio, CvtAspectRatio::Ratio16x9);
            assert_eq!(preferred_rate, CvtPreferredRate::Hz60Standard);
            assert!(supported_rates.supports_60hz_standard());
            assert!(supported_rates.supports_60hz_reduced_blanking());
            assert!(!supported_rates.supports_50hz_standard());
        } else {
            panic!("expected active CVT slot 0");
        }
    }
}

#[test]
fn cvt_3byte_timing_edid_decode_vector() {
    // Verified against edid-decode: 1080 lines (1080/2 - 1 = 539 = 0x21B), 16:9 (code 01b = 0x04),
    // preferred 60Hz standard (code 001b = 0x20), supported 60Hz std & 60Hz RB (0x08 | 0x01 = 0x09).
    // Byte 0 = 0x1B, Byte 1 = (0x02 << 4) | (0x01 << 2) = 0x24, Byte 2 = 0x20 | 0x09 = 0x29
    let bytes = [0x1B, 0x24, 0x29];
    let entry = Cvt3ByteTimingEntry::decode(bytes);
    if let Cvt3ByteTimingEntry::Active {
        addressable_lines,
        aspect_ratio,
        preferred_rate,
        supported_rates,
    } = entry
    {
        assert_eq!(addressable_lines, 1080);
        assert_eq!(aspect_ratio, CvtAspectRatio::Ratio16x9);
        assert_eq!(preferred_rate, CvtPreferredRate::Hz60Standard);
        assert!(supported_rates.supports_60hz_standard());
        assert!(supported_rates.supports_60hz_reduced_blanking());
        assert!(!supported_rates.supports_50hz_standard());
        assert!(!supported_rates.supports_75hz_standard());
    } else {
        panic!("expected active CVT timing");
    }
    assert_eq!(entry.encode().unwrap(), bytes);
}

#[test]
fn color_management_descriptor_roundtrips() {
    let mut block = EdidBlock::new_default();
    let dcm = ColorManagementDescriptor {
        revision: 3,
        red_a3: 0x1234,
        red_a2: 0x5678,
        green_a3: 0x9ABC,
        green_a2: 0xDEF0,
        blue_a3: 0x1357,
        blue_a2: 0x2468,
    };
    let descriptor = MonitorDescriptor::ColorManagement(dcm);
    block.set_monitor_descriptor(2, &descriptor).unwrap();
    assert_eq!(block.monitor_descriptor(2).unwrap(), Some(descriptor));
    assert_eq!(block.validate(), Ok(()));
}

#[test]
fn range_limits_extensions_secondary_gtf_and_cvt_roundtrip() {
    let mut block = EdidBlock::new_default();

    // 1. Secondary GTF curve with start_horizontal_frequency_khz, parameter_c, slope_m, offset_k, scaling_j
    let gtf_range = MonitorDescriptor::RangeLimits {
        min_vertical_hz: 50,
        max_vertical_hz: 120,
        min_horizontal_khz: 31,
        max_horizontal_khz: 135,
        max_pixel_clock_mhz: 300,
        extension: RangeLimitsExtension::SecondaryGtf(SecondaryGtfParameters {
            start_horizontal_frequency_khz: 80,
            parameter_c: 80, // C = 40%
            slope_m: 600,
            offset_k: 40,
            scaling_j: 20, // J = 10%
        }),
    };
    block.set_monitor_descriptor(1, &gtf_range).unwrap();
    assert_eq!(block.monitor_descriptor(1).unwrap(), Some(gtf_range));
    assert_eq!(block.validate(), Ok(()));

    // 2. CVT range support
    let cvt_range = MonitorDescriptor::RangeLimits {
        min_vertical_hz: 48,
        max_vertical_hz: 165,
        min_horizontal_khz: 30,
        max_horizontal_khz: 250,
        max_pixel_clock_mhz: 650,
        extension: RangeLimitsExtension::Cvt(CvtRangeSupport {
            revision: 0x11,
            max_pixel_clock_precision: 0x10,
            max_active_pixels: 2560,
            supported_aspect_ratios: 0xC0,
            preferred_aspect_ratio_and_flags: 0x28,
            scaling_support: 0x00,
            preferred_vertical_rate_hz: 144,
        }),
    };
    block.set_monitor_descriptor(2, &cvt_range).unwrap();
    assert_eq!(block.monitor_descriptor(2).unwrap(), Some(cvt_range));
    assert_eq!(block.validate(), Ok(()));
}

#[test]
fn descriptor_validation_and_revisions() {
    let mut block = EdidBlock::new_default();

    // Invalid revision for Established Timings III (must be 0x0A)
    let invalid_et3 = MonitorDescriptor::EstablishedTimings3(EstablishedTimings3 {
        revision: 0x09,
        raw: [0; 6],
    });
    assert!(matches!(
        block.set_monitor_descriptor(0, &invalid_et3),
        Err(DescriptorError::InvalidRevision {
            tag: 0xF7,
            revision: 0x09
        })
    ));

    // Invalid revision for DCM (must be 0x03)
    let invalid_dcm = MonitorDescriptor::ColorManagement(ColorManagementDescriptor {
        revision: 0x01,
        red_a3: 0,
        red_a2: 0,
        green_a3: 0,
        green_a2: 0,
        blue_a3: 0,
        blue_a2: 0,
    });
    assert!(matches!(
        block.set_monitor_descriptor(0, &invalid_dcm),
        Err(DescriptorError::InvalidRevision {
            tag: 0xF9,
            revision: 0x01
        })
    ));

    // CVT Range Limits unrepresentable max_active_pixels (not multiple of 8 or > 8184)
    let invalid_cvt_pixels = MonitorDescriptor::RangeLimits {
        min_vertical_hz: 48,
        max_vertical_hz: 144,
        min_horizontal_khz: 30,
        max_horizontal_khz: 200,
        max_pixel_clock_mhz: 500,
        extension: RangeLimitsExtension::Cvt(CvtRangeSupport {
            revision: 0x11,
            max_pixel_clock_precision: 0,
            max_active_pixels: 8193,
            supported_aspect_ratios: 0,
            preferred_aspect_ratio_and_flags: 0,
            scaling_support: 0,
            preferred_vertical_rate_hz: 60,
        }),
    };
    assert_eq!(
        block.set_monitor_descriptor(0, &invalid_cvt_pixels),
        Err(DescriptorError::InvalidRangeExtension)
    );

    // Secondary GTF unrepresentable start frequency (must be even <= 510)
    let invalid_gtf = MonitorDescriptor::RangeLimits {
        min_vertical_hz: 48,
        max_vertical_hz: 144,
        min_horizontal_khz: 30,
        max_horizontal_khz: 200,
        max_pixel_clock_mhz: 500,
        extension: RangeLimitsExtension::SecondaryGtf(SecondaryGtfParameters {
            start_horizontal_frequency_khz: 511, // Odd
            parameter_c: 80,
            slope_m: 600,
            offset_k: 40,
            scaling_j: 20,
        }),
    };
    assert_eq!(
        block.set_monitor_descriptor(0, &invalid_gtf),
        Err(DescriptorError::InvalidRangeExtension)
    );
}

#[test]
fn vertical_pixels_per_aspect_ratio() {
    assert_eq!(StandardTimingAspectRatio::SixteenByTen.vertical_pixels(1920), 1200);
    assert_eq!(StandardTimingAspectRatio::FourByThree.vertical_pixels(1024), 768);
    assert_eq!(StandardTimingAspectRatio::FiveByFour.vertical_pixels(1280), 1024);
    assert_eq!(StandardTimingAspectRatio::SixteenByNine.vertical_pixels(1920), 1080);
    assert_eq!(StandardTimingAspectRatio::FourByThree.vertical_pixels(8000), 6000);
    assert_eq!(StandardTimingAspectRatio::FiveByFour.vertical_pixels(16000), 12800);
    assert_eq!(StandardTimingAspectRatio::SixteenByNine.vertical_pixels(7200), 4050);
}
