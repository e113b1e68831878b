//! What the CTA typed writer promises: a written view reads back with the
//! fields it carries.
use vstd::prelude::*;
use super::ExtensionWriteError;
use super::cta::{
    CtaDataBlockView, CtaExtendedDataBlockView, CtaVendorSpecificBlock, spec_get, spec_get_or, spec_rate,
    spec_vendor_byte, spec_vendor_opt, spec_vendor_rate, spec_hdmi14b_payload, spec_hdmi_forum_payload,
    spec_freesync_payload, spec_vendor_payload, spec_vendor_matches, spec_vendor_template, CtaAudioDescriptor,
    CtaVideoMode, spec_audio_error, spec_first_audio_error, spec_first_bad_vic, spec_audio_payload,
    spec_audio_descriptors, spec_video_payload, spec_first_zero_vic, spec_video_modes, CtaVideoCapability,
    CtaColorimetry, spec_video_capability, spec_video_capability_byte, spec_colorimetry, spec_colorimetry_byte,
    spec_flag, spec_to_data_block, spec_cta_block_error, spec_audio_bytes, spec_video_bytes, spec_cta_view_matches, spec_hdr_payload, spec_opt_bytes, spec_extended_block, spec_cta_view_error, spec_extended_matches,
};

verus! {

/// Whether `oui` names one of the vendor blocks with a typed view.
pub open spec fn spec_known_vendor_oui(oui: Seq<u8>) -> bool {
    ||| oui == seq![0x03u8, 0x0Cu8, 0x00u8]
    ||| oui == seq![0xD8u8, 0x5Du8, 0xC4u8]
    ||| oui == seq![0x1Au8, 0x00u8, 0x00u8]
    ||| oui == seq![0x46u8, 0xD0u8, 0x00u8]
}

/// Whether a view's raw variants stand for blocks that read back as raw:
/// an unknown tag is not one of the modeled tags, an unknown extended tag is
/// not a modeled extended tag, and an unknown vendor OUI is not a modeled one.
pub open spec fn spec_raw_parts_unmodeled(v: CtaDataBlockView) -> bool {
    match v {
        CtaDataBlockView::Unknown { tag, .. } => tag == 0 || tag == 5 || tag == 6,
        CtaDataBlockView::Extended(CtaExtendedDataBlockView::Unknown { extended_tag, .. }) => extended_tag != 0x00
            && extended_tag != 0x05 && extended_tag != 0x06 && extended_tag != 0x1A,
        CtaDataBlockView::VendorSpecific(CtaVendorSpecificBlock::Other { oui, .. }) => !spec_known_vendor_oui(oui@),
        _ => true,
    }
}

/// `w` is the same kind of vendor view as `v` with the same typed fields
/// (the retained raw copies aside).
pub open spec fn spec_vendor_fields_agree(v: CtaVendorSpecificBlock, w: CtaVendorSpecificBlock) -> bool {
    match v {
        CtaVendorSpecificBlock::Hdmi14b { physical_address, max_tmds_clock_mhz, deep_color_flags, feature_flags, .. } =>
            w matches CtaVendorSpecificBlock::Hdmi14b {
            physical_address: a,
            max_tmds_clock_mhz: t,
            deep_color_flags: d,
            feature_flags: f,
            ..
        } && a@ == physical_address@ && t == max_tmds_clock_mhz && d == deep_color_flags && f == feature_flags,
        CtaVendorSpecificBlock::HdmiForum {
            version,
            max_tmds_character_rate_mhz,
            scdc_flags,
            deep_color_420_flags,
            ..
        } => w matches CtaVendorSpecificBlock::HdmiForum {
            version: ver,
            max_tmds_character_rate_mhz: t,
            scdc_flags: s,
            deep_color_420_flags: d,
            ..
        } && ver == version && t == max_tmds_character_rate_mhz && s == scdc_flags && d == deep_color_420_flags,
        CtaVendorSpecificBlock::AmdFreeSync { version, min_refresh_hz, max_refresh_hz, flags, .. } =>
            w matches CtaVendorSpecificBlock::AmdFreeSync {
            version: ver,
            min_refresh_hz: lo,
            max_refresh_hz: hi,
            flags: f,
            ..
        } && ver == version && lo == min_refresh_hz && hi == max_refresh_hz && f == flags,
        CtaVendorSpecificBlock::DolbyVision { version, .. } => w matches CtaVendorSpecificBlock::DolbyVision {
            version: ver,
            ..
        } && ver == version,
        CtaVendorSpecificBlock::Other { oui, payload } => w matches CtaVendorSpecificBlock::Other {
            oui: o,
            payload: rest,
        } && o@ == oui@ && rest@ == payload@,
    }
}

/// `w` is the same kind of extended view as `v` with the same typed fields.
pub open spec fn spec_extended_fields_agree(v: CtaExtendedDataBlockView, w: CtaExtendedDataBlockView) -> bool {
    match v {
        CtaExtendedDataBlockView::VideoCapability(c) => w == CtaExtendedDataBlockView::VideoCapability(c),
        CtaExtendedDataBlockView::Colorimetry(c) => w == CtaExtendedDataBlockView::Colorimetry(c),
        CtaExtendedDataBlockView::HdrStaticMetadata {
            eotf_flags,
            metadata_descriptor_flags,
            max_luminance,
            max_frame_average_luminance,
            min_luminance,
            ..
        } => w matches CtaExtendedDataBlockView::HdrStaticMetadata {
            eotf_flags: e,
            metadata_descriptor_flags: m,
            max_luminance: hi,
            max_frame_average_luminance: avg,
            min_luminance: lo,
            ..
        } && e == eotf_flags && m == metadata_descriptor_flags && hi == max_luminance && avg
            == max_frame_average_luminance && lo == min_luminance,
        CtaExtendedDataBlockView::AdaptiveSync { .. } => w is AdaptiveSync,
        CtaExtendedDataBlockView::Unknown { extended_tag, payload } => w matches CtaExtendedDataBlockView::Unknown {
            extended_tag: t,
            payload: rest,
        } && t == extended_tag && rest@ == payload@,
    }
}

/// `w` is the same kind of view as `v` with the same typed fields (the raw
/// copies that vendor, HDR and Adaptive-Sync views retain aside).
pub open spec fn spec_view_fields_agree(v: CtaDataBlockView, w: CtaDataBlockView) -> bool {
    match v {
        CtaDataBlockView::Video { modes } => w matches CtaDataBlockView::Video { modes: m } && m@ == modes@,
        CtaDataBlockView::Audio { descriptors } => w matches CtaDataBlockView::Audio { descriptors: d } && d@
            == descriptors@,
        CtaDataBlockView::SpeakerAllocation(sp) => w matches CtaDataBlockView::SpeakerAllocation(s) && s.raw_mask@
            == sp.raw_mask@,
        CtaDataBlockView::VendorSpecific(vs) => w matches CtaDataBlockView::VendorSpecific(ws)
            && spec_vendor_fields_agree(vs, ws),
        CtaDataBlockView::Extended(e) => w matches CtaDataBlockView::Extended(we) && spec_extended_fields_agree(
            e,
            we,
        ),
        CtaDataBlockView::Unknown { tag, payload } => w matches CtaDataBlockView::Unknown { tag: t, payload: rest }
            && t == tag && rest@ == payload@,
    }
}

// ---------------------------------------------------------------------------
// Vendor payload edits
// ---------------------------------------------------------------------------

/// A vendor byte edit leaves the other bytes alone and reads back `value`.
proof fn lemma_vendor_byte(p: Seq<u8>, raw: Seq<u8>, off: int, value: u8, default: u8, q: Seq<u8>)
    requires
        spec_vendor_byte(p, raw, off, value, default) == Ok::<Seq<u8>, ExtensionWriteError>(q),
        p.len() == raw.len(),
        0 <= off,
        off < p.len() ==> p[off] == raw[off],
    ensures
        q.len() == p.len(),
        spec_get_or(q, off, default) == value,
        forall|j: int| 0 <= j < q.len() && j != off ==> q[j] == p[j],
{
}

/// An optional vendor byte edit leaves the other bytes alone and reads back
/// `value`.
proof fn lemma_vendor_opt(p: Seq<u8>, raw: Seq<u8>, off: int, value: Option<u8>, field: &'static str, q: Seq<u8>)
    requires
        spec_vendor_opt(p, raw, off, value, field) == Ok::<Seq<u8>, ExtensionWriteError>(q),
        p.len() == raw.len(),
        0 <= off,
        off < p.len() ==> p[off] == raw[off],
    ensures
        q.len() == p.len(),
        spec_get(q, off) == value,
        forall|j: int| 0 <= j < q.len() && j != off ==> q[j] == p[j],
{
}

/// A vendor rate edit leaves the other bytes alone and reads back `value`.
proof fn lemma_vendor_rate(p: Seq<u8>, raw: Seq<u8>, off: int, value: Option<u16>, field: &'static str, q: Seq<u8>)
    requires
        spec_vendor_rate(p, raw, off, value, field) == Ok::<Seq<u8>, ExtensionWriteError>(q),
        p.len() == raw.len(),
        0 <= off,
        off < p.len() ==> p[off] == raw[off],
    ensures
        q.len() == p.len(),
        spec_rate(q, off) == value,
        forall|j: int| 0 <= j < q.len() && j != off ==> q[j] == p[j],
{
    if value != spec_rate(raw, off) {
        if let Some(r) = value {
            assert(((r / 5) as u8) * 5 == r);
        }
    }
}

/// The payload written for an HDMI 1.4b view carries its fields.
proof fn lemma_hdmi14b_payload(
    physical_address: [u8; 2],
    max_tmds_clock_mhz: Option<u16>,
    deep_color_flags: u8,
    feature_flags: u8,
    raw: Seq<u8>,
    p: Seq<u8>,
)
    requires
        spec_hdmi14b_payload(physical_address, max_tmds_clock_mhz, deep_color_flags, feature_flags, raw) == Ok::<
            Seq<u8>,
            ExtensionWriteError,
        >(p),
    ensures
        p.len() == raw.len() >= 5,
        p[0] == 0x03 && p[1] == 0x0C && p[2] == 0x00,
        p[3] == physical_address[0] && p[4] == physical_address[1],
        spec_rate(p, 6) == max_tmds_clock_mhz,
        spec_get_or(p, 5, 0) == deep_color_flags,
        spec_get_or(p, 7, 0) == feature_flags,
{
    let p1 = spec_vendor_byte(raw, raw, 3, physical_address[0], 0)->Ok_0;
    lemma_vendor_byte(raw, raw, 3, physical_address[0], 0, p1);
    let p2 = spec_vendor_byte(p1, raw, 4, physical_address[1], 0)->Ok_0;
    lemma_vendor_byte(p1, raw, 4, physical_address[1], 0, p2);
    let p3 = spec_vendor_rate(p2, raw, 6, max_tmds_clock_mhz, "max_tmds_clock_mhz")->Ok_0;
    lemma_vendor_rate(p2, raw, 6, max_tmds_clock_mhz, "max_tmds_clock_mhz", p3);
    let p4 = spec_vendor_byte(p3, raw, 5, deep_color_flags, 0)->Ok_0;
    lemma_vendor_byte(p3, raw, 5, deep_color_flags, 0, p4);
    lemma_vendor_byte(p4, raw, 7, feature_flags, 0, p);
}

/// The payload written for an HDMI Forum view carries its fields.
proof fn lemma_hdmi_forum_payload(
    version: u8,
    max_tmds_character_rate_mhz: Option<u16>,
    scdc_flags: u8,
    deep_color_420_flags: u8,
    raw: Seq<u8>,
    p: Seq<u8>,
)
    requires
        spec_hdmi_forum_payload(version, max_tmds_character_rate_mhz, scdc_flags, deep_color_420_flags, raw) == Ok::<
            Seq<u8>,
            ExtensionWriteError,
        >(p),
    ensures
        p.len() == raw.len() >= 3,
        p[0] == 0xD8 && p[1] == 0x5D && p[2] == 0xC4,
        spec_get_or(p, 3, 1) == version,
        spec_rate(p, 4) == max_tmds_character_rate_mhz,
        spec_get_or(p, 5, 0) == scdc_flags,
        spec_get_or(p, 7, 0) == deep_color_420_flags,
{
    let p1 = spec_vendor_byte(raw, raw, 3, version, 1)->Ok_0;
    lemma_vendor_byte(raw, raw, 3, version, 1, p1);
    let p2 = spec_vendor_rate(p1, raw, 4, max_tmds_character_rate_mhz, "max_tmds_character_rate_mhz")->Ok_0;
    lemma_vendor_rate(p1, raw, 4, max_tmds_character_rate_mhz, "max_tmds_character_rate_mhz", p2);
    let p3 = spec_vendor_byte(p2, raw, 5, scdc_flags, 0)->Ok_0;
    lemma_vendor_byte(p2, raw, 5, scdc_flags, 0, p3);
    lemma_vendor_byte(p3, raw, 7, deep_color_420_flags, 0, p);
}

/// The payload written for an AMD FreeSync view carries its fields.
proof fn lemma_freesync_payload(
    version: u8,
    min_refresh_hz: Option<u8>,
    max_refresh_hz: Option<u8>,
    flags: u8,
    raw: Seq<u8>,
    p: Seq<u8>,
)
    requires
        spec_freesync_payload(version, min_refresh_hz, max_refresh_hz, flags, raw) == Ok::<
            Seq<u8>,
            ExtensionWriteError,
        >(p),
    ensures
        p.len() == raw.len() >= 3,
        p[0] == 0x1A && p[1] == 0x00 && p[2] == 0x00,
        spec_get_or(p, 3, 1) == version,
        spec_get(p, 4) == min_refresh_hz,
        spec_get(p, 5) == max_refresh_hz,
        spec_get_or(p, 6, 0) == flags,
{
    let p1 = spec_vendor_byte(raw, raw, 3, version, 1)->Ok_0;
    lemma_vendor_byte(raw, raw, 3, version, 1, p1);
    let p2 = spec_vendor_opt(p1, raw, 4, min_refresh_hz, "min_refresh_hz")->Ok_0;
    lemma_vendor_opt(p1, raw, 4, min_refresh_hz, "min_refresh_hz", p2);
    let p3 = spec_vendor_opt(p2, raw, 5, max_refresh_hz, "max_refresh_hz")->Ok_0;
    lemma_vendor_opt(p2, raw, 5, max_refresh_hz, "max_refresh_hz", p3);
    lemma_vendor_byte(p3, raw, 6, flags, 0, p);
}

/// The payload written for a vendor view reads back with the view's fields.
proof fn lemma_vendor_reads_back(vs: CtaVendorSpecificBlock, p: Seq<u8>, ws: CtaVendorSpecificBlock)
    requires
        spec_vendor_payload(vs) == Ok::<Seq<u8>, ExtensionWriteError>(p),
        spec_raw_parts_unmodeled(CtaDataBlockView::VendorSpecific(vs)),
    ensures
        p.len() >= 3,
        spec_vendor_matches(p, ws) ==> spec_vendor_fields_agree(vs, ws),
{
    if vs is Hdmi14b {
        lemma_hdmi14b_payload(
            vs->Hdmi14b_physical_address,
            vs->Hdmi14b_max_tmds_clock_mhz,
            vs->Hdmi14b_deep_color_flags,
            vs->Hdmi14b_feature_flags,
            vs->Hdmi14b_raw@,
            p,
        );
        assert(vs->Hdmi14b_physical_address@ =~= seq![p[3], p[4]]);
    } else if vs is HdmiForum {
        lemma_hdmi_forum_payload(
            vs->HdmiForum_version,
            vs->HdmiForum_max_tmds_character_rate_mhz,
            vs->HdmiForum_scdc_flags,
            vs->HdmiForum_deep_color_420_flags,
            vs->HdmiForum_raw@,
            p,
        );
    } else if vs is AmdFreeSync {
        lemma_freesync_payload(
            vs->AmdFreeSync_version,
            vs->min_refresh_hz,
            vs->max_refresh_hz,
            vs->flags,
            vs->AmdFreeSync_raw@,
            p,
        );
    } else if vs is DolbyVision {
        let p0 = spec_vendor_template(vs->DolbyVision_raw@, 0x46, 0xD0, 0x00)->Ok_0;
        lemma_vendor_byte(p0, vs->DolbyVision_raw@, 3, vs->DolbyVision_version, 0, p);
    } else {
        assert(p.take(3) =~= vs->oui@);
        assert(p.skip(3) =~= vs->Other_payload@);
        assert(vs->oui@ =~= seq![p[0], p[1], p[2]]);
    }
}

// ---------------------------------------------------------------------------
// Audio and video payloads
// ---------------------------------------------------------------------------

/// No descriptor among the first `n` has an error when the first error is absent.
proof fn lemma_no_audio_error(ds: Seq<CtaAudioDescriptor>, n: int)
    requires
        0 <= n <= ds.len(),
        spec_first_audio_error(ds, n) is None,
    ensures
        forall|i: int| 0 <= i < n ==> (#[trigger] spec_audio_error(i, ds[i])) is None,
    decreases n,
{
    if n > 0 {
        lemma_no_audio_error(ds, n - 1);
    }
}

/// No mode among the first `n` has a bad VIC when the first bad one is absent.
proof fn lemma_no_bad_vic(modes: Seq<CtaVideoMode>, n: int)
    requires
        0 <= n <= modes.len(),
        spec_first_bad_vic(modes, n) is None,
    ensures
        forall|i: int| 0 <= i < n ==> 1 <= (#[trigger] modes[i]).vic <= 127,
    decreases n,
{
    if n > 0 {
        lemma_no_bad_vic(modes, n - 1);
    }
}

/// An audio payload written from descriptors reads back as those descriptors.
proof fn lemma_audio_reads_back(ds: Seq<CtaAudioDescriptor>, p: Seq<u8>)
    requires
        spec_audio_payload(ds) == Ok::<Seq<u8>, ExtensionWriteError>(p),
    ensures
        p.len() == 3 * ds.len(),
        ds.len() > 0,
        spec_audio_descriptors(p) == ds,
{
    lemma_no_audio_error(ds, ds.len() as int);
    assert(p.len() / 3 == ds.len()) by (nonlinear_arith)
        requires
            p.len() == 3 * ds.len(),
    ;
    assert forall|k: int| 0 <= k < ds.len() implies #[trigger] spec_audio_descriptors(p)[k] == ds[k] by {
        assert(spec_audio_error(k, ds[k]) is None);
        let d = ds[k];
        assert((3 * k) % 3 == 0 && (3 * k) / 3 == k && (3 * k + 1) % 3 == 1 && (3 * k + 1) / 3 == k && (3 * k + 2)
            % 3 == 2 && (3 * k + 2) / 3 == k) by (nonlinear_arith);
        let b0 = (d.format * 8 + d.channels - 1) as u8;
        assert(b0 / 8 == d.format && b0 % 8 + 1 == d.channels) by (nonlinear_arith)
            requires
                1 <= d.format <= 15,
                1 <= d.channels <= 8,
                b0 == d.format * 8 + d.channels - 1,
        ;
    }
    assert(spec_audio_descriptors(p) =~= ds);
}

/// A video payload written from modes reads back as those modes.
proof fn lemma_video_reads_back(modes: Seq<CtaVideoMode>, p: Seq<u8>)
    requires
        spec_video_payload(modes) == Ok::<Seq<u8>, ExtensionWriteError>(p),
    ensures
        p.len() == modes.len() > 0,
        spec_first_zero_vic(p, p.len() as int) is None,
        spec_video_modes(p) == modes,
{
    lemma_no_bad_vic(modes, modes.len() as int);
    assert(spec_video_modes(p) =~= modes);
    lemma_no_zero_vic(p, p.len() as int);
}

/// A payload without zero VICs has no first zero VIC.
proof fn lemma_no_zero_vic(p: Seq<u8>, n: int)
    requires
        0 <= n <= p.len(),
        forall|i: int| 0 <= i < n ==> #[trigger] (p[i] % 128) != 0,
    ensures
        spec_first_zero_vic(p, n) is None,
    decreases n,
{
    if n > 0 {
        lemma_no_zero_vic(p, n - 1);
    }
}

// ---------------------------------------------------------------------------
// Extended payloads
// ---------------------------------------------------------------------------

/// A video capability byte reads back as the flags it was written from.
proof fn lemma_video_capability_reads_back(c: CtaVideoCapability)
    requires
        c.pt_behavior <= 3,
        c.it_behavior <= 3,
        c.ce_behavior <= 3,
    ensures
        spec_video_capability(spec_video_capability_byte(c)) == c,
{
    let b = spec_video_capability_byte(c);
    let q = spec_flag(c.selectable_quantization_range_rgb);
    let s = spec_flag(c.selectable_quantization_range_ycc);
    assert(b == q * 128 + s * 64 + c.pt_behavior * 16 + c.it_behavior * 4 + c.ce_behavior);
    assert((b >= 128) == (q == 1) && (b / 64) % 2 == s && (b / 16) % 4 == c.pt_behavior && (b / 4) % 4
        == c.it_behavior && b % 4 == c.ce_behavior) by (nonlinear_arith)
        requires
            0 <= q <= 1,
            0 <= s <= 1,
            c.pt_behavior <= 3,
            c.it_behavior <= 3,
            c.ce_behavior <= 3,
            b == q * 128 + s * 64 + c.pt_behavior * 16 + c.it_behavior * 4 + c.ce_behavior,
    ;
}

/// A colorimetry byte pair reads back as the flags it was written from.
proof fn lemma_colorimetry_reads_back(c: CtaColorimetry)
    requires
        c.md_flags <= 3,
    ensures
        spec_colorimetry(spec_colorimetry_byte(c), c.md_flags) == c,
{
    let b = spec_colorimetry_byte(c);
    let f0 = spec_flag(c.xvycc601);
    let f1 = spec_flag(c.xvycc709);
    let f2 = spec_flag(c.sycc601);
    let f3 = spec_flag(c.adobe_ycc601);
    let f4 = spec_flag(c.adobe_rgb);
    let f5 = spec_flag(c.bt2020_cycc);
    let f6 = spec_flag(c.bt2020_ycc);
    let f7 = spec_flag(c.bt2020_rgb);
    assert(b == f0 + f1 * 2 + f2 * 4 + f3 * 8 + f4 * 16 + f5 * 32 + f6 * 64 + f7 * 128);
    assert(b % 2 == f0 && (b / 2) % 2 == f1 && (b / 4) % 2 == f2 && (b / 8) % 2 == f3 && (b / 16) % 2 == f4 && (b
        / 32) % 2 == f5 && (b / 64) % 2 == f6 && (b >= 128) == (f7 == 1)) by (nonlinear_arith)
        requires
            0 <= f0 <= 1,
            0 <= f1 <= 1,
            0 <= f2 <= 1,
            0 <= f3 <= 1,
            0 <= f4 <= 1,
            0 <= f5 <= 1,
            0 <= f6 <= 1,
            0 <= f7 <= 1,
            b == f0 + f1 * 2 + f2 * 4 + f3 * 8 + f4 * 16 + f5 * 32 + f6 * 64 + f7 * 128,
    ;
}

/// An HDR static metadata payload reads back with the fields it was written
/// from.
proof fn lemma_hdr_reads_back(
    eotf: u8,
    md: u8,
    max: Option<u8>,
    avg: Option<u8>,
    min: Option<u8>,
    raw: Seq<u8>,
    p: Seq<u8>,
)
    requires
        spec_hdr_payload(eotf, md, max, avg, min, raw) == Ok::<Seq<u8>, ExtensionWriteError>(p),
    ensures
        p.len() >= 3,
        p[0] == 0x06 && p[1] == eotf && p[2] == md,
        spec_get(p, 3) == max,
        spec_get(p, 4) == avg,
        spec_get(p, 5) == min,
{
    let head = seq![0x06u8, eotf, md] + spec_opt_bytes(max) + spec_opt_bytes(avg) + spec_opt_bytes(min);
    let tail = if raw.len() > 6 { raw.skip(6) } else { Seq::<u8>::empty() };
    assert(p =~= head + tail);
    if max is Some && avg is Some && min is Some {
        assert(head =~= seq![0x06u8, eotf, md, max->0, avg->0, min->0]);
    } else if max is Some && avg is Some {
        assert(head =~= seq![0x06u8, eotf, md, max->0, avg->0]);
        assert(tail.len() == 0);
    } else if max is Some {
        assert(head =~= seq![0x06u8, eotf, md, max->0]);
        assert(tail.len() == 0);
    } else {
        assert(head =~= seq![0x06u8, eotf, md]);
        assert(tail.len() == 0);
    }
}

/// An extended view written as a block reads back with its fields.
proof fn lemma_extended_reads_back(e: CtaExtendedDataBlockView, tag: u8, p: Seq<u8>, we: CtaExtendedDataBlockView)
    requires
        spec_extended_block(e) == Ok::<(u8, Seq<u8>), ExtensionWriteError>((tag, p)),
        spec_raw_parts_unmodeled(CtaDataBlockView::Extended(e)),
    ensures
        tag == 7,
        spec_cta_view_error(tag, p) is None,
        spec_extended_matches(p, we) ==> spec_extended_fields_agree(e, we),
{
    match e {
        CtaExtendedDataBlockView::VideoCapability(c) => {
            lemma_video_capability_reads_back(c);
        },
        CtaExtendedDataBlockView::Colorimetry(c) => {
            lemma_colorimetry_reads_back(c);
            assert(c.md_flags % 4 == c.md_flags);
        },
        CtaExtendedDataBlockView::HdrStaticMetadata {
            eotf_flags,
            metadata_descriptor_flags,
            max_luminance,
            max_frame_average_luminance,
            min_luminance,
            raw,
        } => {
            lemma_hdr_reads_back(
                eotf_flags,
                metadata_descriptor_flags,
                max_luminance,
                max_frame_average_luminance,
                min_luminance,
                raw@,
                p,
            );
        },
        CtaExtendedDataBlockView::AdaptiveSync { raw } => {},
        CtaExtendedDataBlockView::Unknown { extended_tag, payload } => {
            assert(p.skip(1) =~= payload@);
        },
    }
}

// ---------------------------------------------------------------------------
// The law
// ---------------------------------------------------------------------------

/// Writing a typed CTA view and reading the block back gives a view with the
/// same typed fields: the written block always has a typed view, and that
/// view is of the same kind and carries the same values (the raw payload
/// copies that vendor, HDR and Adaptive-Sync views keep hold the written
/// bytes). Raw variants are covered where they name a tag, extended tag or
/// vendor OUI that has no typed view of its own; one that names a modeled one
/// reads back as that typed view instead.
pub proof fn lemma_cta_view_write_then_read(v: CtaDataBlockView, tag: u8, payload: Seq<u8>, w: CtaDataBlockView)
    requires
        spec_to_data_block(v) == Ok::<(u8, Seq<u8>), ExtensionWriteError>((tag, payload)),
        spec_raw_parts_unmodeled(v),
    ensures
        spec_cta_view_error(tag, payload) is None,
        spec_cta_view_matches(tag, payload, w) ==> spec_view_fields_agree(v, w),
{
    match v {
        CtaDataBlockView::Video { modes } => {
            lemma_video_reads_back(modes@, payload);
        },
        CtaDataBlockView::Audio { descriptors } => {
            lemma_audio_reads_back(descriptors@, payload);
        },
        CtaDataBlockView::SpeakerAllocation(sp) => {
            assert(sp.raw_mask@ =~= seq![
                spec_get_or(payload, 0, 0),
                spec_get_or(payload, 1, 0),
                spec_get_or(payload, 2, 0),
            ]);
        },
        CtaDataBlockView::VendorSpecific(vs) => {
            if w is VendorSpecific {
                lemma_vendor_reads_back(vs, payload, w->VendorSpecific_0);
            } else {
                lemma_vendor_reads_back(vs, payload, vs);
            }
        },
        CtaDataBlockView::Extended(e) => {
            if w is Extended {
                lemma_extended_reads_back(e, tag, payload, w->Extended_0);
            } else {
                lemma_extended_reads_back(e, tag, payload, e);
            }
        },
        CtaDataBlockView::Unknown { .. } => {},
    }
}

// ---------------------------------------------------------------------------
// Reading then writing
// ---------------------------------------------------------------------------

/// Whether a data block is written back byte for byte from its typed view:
/// its audio formats are in 1..=15 with sample-rate bit 7 clear, an HDMI 1.4b
/// vendor payload holds the physical address, a speaker allocation is three
/// bytes, a video capability block is one byte after its extended tag, and a
/// colorimetry block is two bytes after it with metadata flags in 0..=3.
pub open spec fn spec_cta_block_canonical(tag: u8, p: Seq<u8>) -> bool {
    &&& tag == 1 ==> forall|k: int|
        0 <= k < p.len() / 3 ==> 8 <= #[trigger] p[3 * k] < 128 && p[3 * k + 1] < 128
    &&& (tag == 3 && p.len() >= 3 && p[0] == 0x03 && p[1] == 0x0C && p[2] == 0x00) ==> p.len() >= 5
    &&& tag == 4 ==> p.len() == 3
    &&& (tag == 7 && p.len() >= 1 && p[0] == 0x00) ==> p.len() == 2
    &&& (tag == 7 && p.len() >= 1 && p[0] == 0x05) ==> p.len() == 3 && p[2] <= 3
}

/// Rewriting every vendor byte with the value read from it changes nothing.
proof fn lemma_vendor_byte_same(p: Seq<u8>, off: int, default: u8)
    requires
        0 <= off,
    ensures
        spec_vendor_byte(p, p, off, spec_get_or(p, off, default), default) == Ok::<Seq<u8>, ExtensionWriteError>(p),
{
}

/// Rewriting a vendor rate with the value read from it changes nothing.
proof fn lemma_vendor_rate_same(p: Seq<u8>, off: int, field: &'static str)
    requires
        0 <= off,
    ensures
        spec_vendor_rate(p, p, off, spec_rate(p, off), field) == Ok::<Seq<u8>, ExtensionWriteError>(p),
{
    if 0 <= off < p.len() && p[off] != 0 {
        let r = (p[off] * 5) as u16;
        assert(r != 0 && r % 5 == 0 && r / 5 <= 255);
    }
}

/// Rewriting an optional vendor byte with the value read from it changes
/// nothing.
proof fn lemma_vendor_opt_same(p: Seq<u8>, off: int, field: &'static str)
    requires
        0 <= off,
    ensures
        spec_vendor_opt(p, p, off, spec_get(p, off), field) == Ok::<Seq<u8>, ExtensionWriteError>(p),
{
}

/// A vendor payload is written back from its view unchanged.
proof fn lemma_vendor_rewrite(p: Seq<u8>, vs: CtaVendorSpecificBlock)
    requires
        p.len() >= 3,
        spec_vendor_matches(p, vs),
        (p[0] == 0x03 && p[1] == 0x0C && p[2] == 0x00) ==> p.len() >= 5,
    ensures
        spec_vendor_payload(vs) == Ok::<Seq<u8>, ExtensionWriteError>(p),
{
    if p[0] == 0x03 && p[1] == 0x0C && p[2] == 0x00 {
        assert(vs->Hdmi14b_physical_address[0] == p[3] && vs->Hdmi14b_physical_address[1] == p[4]) by {
            assert(vs->Hdmi14b_physical_address@[0] == p[3]);
            assert(vs->Hdmi14b_physical_address@[1] == p[4]);
        }
        lemma_vendor_byte_same(p, 3, 0);
        lemma_vendor_byte_same(p, 4, 0);
        lemma_vendor_rate_same(p, 6, "max_tmds_clock_mhz");
        lemma_vendor_byte_same(p, 5, 0);
        lemma_vendor_byte_same(p, 7, 0);
    } else if p[0] == 0xD8 && p[1] == 0x5D && p[2] == 0xC4 {
        lemma_vendor_byte_same(p, 3, 1);
        lemma_vendor_rate_same(p, 4, "max_tmds_character_rate_mhz");
        lemma_vendor_byte_same(p, 5, 0);
        lemma_vendor_byte_same(p, 7, 0);
    } else if p[0] == 0x1A && p[1] == 0x00 && p[2] == 0x00 {
        lemma_vendor_byte_same(p, 3, 1);
        lemma_vendor_opt_same(p, 4, "min_refresh_hz");
        lemma_vendor_opt_same(p, 5, "max_refresh_hz");
        lemma_vendor_byte_same(p, 6, 0);
    } else if p[0] == 0x46 && p[1] == 0xD0 && p[2] == 0x00 {
        lemma_vendor_byte_same(p, 3, 0);
    } else {
        assert(vs->oui@ + vs->Other_payload@ =~= p);
    }
}

/// The first audio error is absent when no descriptor has one.
proof fn lemma_audio_no_first_error(ds: Seq<CtaAudioDescriptor>, n: int)
    requires
        0 <= n <= ds.len(),
        forall|i: int| 0 <= i < n ==> (#[trigger] spec_audio_error(i, ds[i])) is None,
    ensures
        spec_first_audio_error(ds, n) is None,
    decreases n,
{
    if n > 0 {
        lemma_audio_no_first_error(ds, n - 1);
    }
}

/// The first bad VIC is absent when every VIC is in range.
proof fn lemma_video_no_bad_vic(modes: Seq<CtaVideoMode>, n: int)
    requires
        0 <= n <= modes.len(),
        forall|i: int| 0 <= i < n ==> 1 <= (#[trigger] modes[i]).vic <= 127,
    ensures
        spec_first_bad_vic(modes, n) is None,
    decreases n,
{
    if n > 0 {
        lemma_video_no_bad_vic(modes, n - 1);
    }
}

/// Every VIC before a first zero VIC that is absent is nonzero.
proof fn lemma_zero_vic_absent(p: Seq<u8>, n: int)
    requires
        0 <= n <= p.len(),
        spec_first_zero_vic(p, n) is None,
    ensures
        forall|i: int| 0 <= i < n ==> #[trigger] (p[i] % 128) != 0,
    decreases n,
{
    if n > 0 {
        lemma_zero_vic_absent(p, n - 1);
    }
}

/// A canonical audio payload is written back from its descriptors unchanged.
proof fn lemma_audio_rewrite(p: Seq<u8>)
    requires
        p.len() > 0,
        p.len() % 3 == 0,
        spec_cta_block_canonical(1, p),
    ensures
        spec_audio_payload(spec_audio_descriptors(p)) == Ok::<Seq<u8>, ExtensionWriteError>(p),
{
    let ds = spec_audio_descriptors(p);
    let n: int = p.len() as int / 3;
    assert(p.len() == 3 * n) by (nonlinear_arith)
        requires
            p.len() % 3 == 0,
            n == p.len() / 3,
    ;
    assert forall|i: int| 0 <= i < n implies (#[trigger] spec_audio_error(i, ds[i])) is None by {
        let b = p[3 * i];
        assert(8 <= b < 128 && p[3 * i + 1] < 128);
        assert(1 <= b / 8 <= 15 && 1 <= b % 8 + 1 <= 8) by (nonlinear_arith)
            requires
                8 <= b < 128,
        ;
    }
    lemma_audio_no_first_error(ds, n);
    let bytes = spec_audio_bytes(ds);
    assert forall|j: int| 0 <= j < p.len() implies #[trigger] bytes[j] == p[j] by {
        let k = j / 3;
        assert(0 <= k < n && j == 3 * k + j % 3) by (nonlinear_arith)
            requires
                0 <= j < p.len(),
                p.len() == 3 * n,
                k == j / 3,
        ;
        if j % 3 == 0 {
            let b = p[3 * k];
            assert(8 <= b < 128);
            assert((b / 8) * 8 + (b % 8 + 1) - 1 == b) by (nonlinear_arith);
        }
    }
    assert(bytes =~= p);
}

/// A video payload without zero VICs is written back from its modes
/// unchanged.
proof fn lemma_video_rewrite(p: Seq<u8>)
    requires
        p.len() > 0,
        spec_first_zero_vic(p, p.len() as int) is None,
    ensures
        spec_video_payload(spec_video_modes(p)) == Ok::<Seq<u8>, ExtensionWriteError>(p),
{
    let modes = spec_video_modes(p);
    lemma_zero_vic_absent(p, p.len() as int);
    assert forall|i: int| 0 <= i < modes.len() implies 1 <= (#[trigger] modes[i]).vic <= 127 by {
        assert(p[i] % 128 != 0);
    }
    lemma_video_no_bad_vic(modes, modes.len() as int);
    assert(spec_video_bytes(modes) =~= p);
}

/// A canonical extended payload is written back from its view unchanged.
proof fn lemma_extended_rewrite(p: Seq<u8>, we: CtaExtendedDataBlockView)
    requires
        p.len() >= 1,
        spec_cta_view_error(7, p) is None,
        spec_cta_block_canonical(7, p),
        spec_extended_matches(p, we),
    ensures
        spec_extended_block(we) == Ok::<(u8, Seq<u8>), ExtensionWriteError>((7u8, p)),
{
    if p[0] == 0x00 {
        let b = p[1];
        let c = spec_video_capability(b);
        assert(c.pt_behavior <= 3 && c.it_behavior <= 3 && c.ce_behavior <= 3);
        let q = spec_flag(c.selectable_quantization_range_rgb);
        let y = spec_flag(c.selectable_quantization_range_ycc);
        assert(q == (if b >= 128 { 1int } else { 0int }) && y == (b / 64) % 2);
        assert(q * 128 + y * 64 + ((b / 16) % 4) * 16 + ((b / 4) % 4) * 4 + b % 4 == b) by (nonlinear_arith)
            requires
                q == (if b >= 128 { 1int } else { 0int }),
                y == (b / 64) % 2,
        ;
        assert(seq![0x00u8, spec_video_capability_byte(c)] =~= p);
    } else if p[0] == 0x05 {
        let b = p[1];
        let c = spec_colorimetry(b, p[2]);
        assert(spec_flag(c.xvycc601) == b % 2);
        assert(spec_flag(c.xvycc709) == (b / 2) % 2);
        assert(spec_flag(c.sycc601) == (b / 4) % 2);
        assert(spec_flag(c.adobe_ycc601) == (b / 8) % 2);
        assert(spec_flag(c.adobe_rgb) == (b / 16) % 2);
        assert(spec_flag(c.bt2020_cycc) == (b / 32) % 2);
        assert(spec_flag(c.bt2020_ycc) == (b / 64) % 2);
        let f7 = spec_flag(c.bt2020_rgb);
        assert(f7 == (if b >= 128 { 1int } else { 0int }));
        assert(b % 2 + ((b / 2) % 2) * 2 + ((b / 4) % 2) * 4 + ((b / 8) % 2) * 8 + ((b / 16) % 2) * 16 + ((b / 32)
            % 2) * 32 + ((b / 64) % 2) * 64 + f7 * 128 == b) by (nonlinear_arith)
            requires
                f7 == (if b >= 128 { 1int } else { 0int }),
        ;
        assert(c.md_flags == p[2]);
        assert(seq![0x05u8, spec_colorimetry_byte(c), c.md_flags] =~= p);
    } else if p[0] == 0x06 {
        let max = spec_get(p, 3);
        let avg = spec_get(p, 4);
        let min = spec_get(p, 5);
        let tail = if p.len() > 6 { p.skip(6) } else { Seq::<u8>::empty() };
        let out = seq![0x06u8, p[1], p[2]] + spec_opt_bytes(max) + spec_opt_bytes(avg) + spec_opt_bytes(min) + tail;
        assert(out =~= p);
    } else if p[0] == 0x1A {
    } else {
        assert(seq![p[0]] + p.skip(1) =~= p);
    }
}

/// Reading a data block's typed view and writing it back gives the same
/// block, for every block that has a typed view and is canonical in the
/// sense of `spec_cta_block_canonical`: a block with bytes that its view
/// does not represent (reserved audio codes, extra bytes after a fixed-size
/// extended block) is written back normalized instead.
pub proof fn lemma_cta_block_read_then_write(tag: u8, p: Seq<u8>, v: CtaDataBlockView)
    requires
        spec_cta_block_error(tag, p) is None,
        spec_cta_view_error(tag, p) is None,
        spec_cta_block_canonical(tag, p),
        spec_cta_view_matches(tag, p, v),
    ensures
        spec_to_data_block(v) == Ok::<(u8, Seq<u8>), ExtensionWriteError>((tag, p)),
{
    if tag == 1 {
        lemma_audio_rewrite(p);
    } else if tag == 2 {
        lemma_video_rewrite(p);
    } else if tag == 3 {
        lemma_vendor_rewrite(p, v->VendorSpecific_0);
    } else if tag == 4 {
        assert(v->SpeakerAllocation_0.raw_mask@ =~= p);
    } else if tag == 7 {
        lemma_extended_rewrite(p, v->Extended_0);
    }
}

// ---------------------------------------------------------------------------
// Writing is stable
// ---------------------------------------------------------------------------

/// A typed view read from a data block names no modeled tag, extended tag
/// or vendor OUI in its raw variants, except an out-of-range tag.
proof fn lemma_view_raw_parts(tag: u8, p: Seq<u8>, v: CtaDataBlockView)
    requires
        spec_cta_view_error(tag, p) is None,
        spec_cta_view_matches(tag, p, v),
        tag <= 7,
    ensures
        spec_raw_parts_unmodeled(v),
{
    if tag == 3 && v->VendorSpecific_0 is Other {
        let oui = v->VendorSpecific_0->oui;
        assert(oui@ =~= seq![p[0], p[1], p[2]]) by {
            assert(oui@ == p.take(3));
        }
        if spec_known_vendor_oui(oui@) {
            assert(oui@[0] == p[0] && oui@[1] == p[1] && oui@[2] == p[2]);
        }
    }
}

/// The data block written for a typed view (with raw parts naming nothing
/// modeled) is canonical.
proof fn lemma_written_block_canonical(v: CtaDataBlockView, tag: u8, p: Seq<u8>)
    requires
        spec_to_data_block(v) == Ok::<(u8, Seq<u8>), ExtensionWriteError>((tag, p)),
        spec_raw_parts_unmodeled(v),
    ensures
        spec_cta_block_canonical(tag, p),
{
    match v {
        CtaDataBlockView::Audio { descriptors } => {
            let ds = descriptors@;
            lemma_no_audio_error(ds, ds.len() as int);
            assert forall|k: int| 0 <= k < p.len() / 3 implies 8 <= #[trigger] p[3 * k] < 128 && p[3 * k + 1]
                < 128 by {
                assert(p.len() / 3 == ds.len()) by (nonlinear_arith)
                    requires
                        p.len() == 3 * ds.len(),
                ;
                assert((3 * k) % 3 == 0 && (3 * k) / 3 == k && (3 * k + 1) % 3 == 1 && (3 * k + 1) / 3 == k)
                    by (nonlinear_arith);
                assert(spec_audio_error(k, ds[k]) is None);
                let d = ds[k];
                assert(8 <= d.format * 8 + d.channels - 1 < 128) by (nonlinear_arith)
                    requires
                        1 <= d.format <= 15,
                        1 <= d.channels <= 8,
                ;
            }
        },
        CtaDataBlockView::VendorSpecific(vs) => {
            if vs is Hdmi14b {
                lemma_hdmi14b_payload(
                    vs->Hdmi14b_physical_address,
                    vs->Hdmi14b_max_tmds_clock_mhz,
                    vs->Hdmi14b_deep_color_flags,
                    vs->Hdmi14b_feature_flags,
                    vs->Hdmi14b_raw@,
                    p,
                );
            } else if vs is HdmiForum {
                lemma_hdmi_forum_payload(
                    vs->HdmiForum_version,
                    vs->HdmiForum_max_tmds_character_rate_mhz,
                    vs->HdmiForum_scdc_flags,
                    vs->HdmiForum_deep_color_420_flags,
                    vs->HdmiForum_raw@,
                    p,
                );
            } else if vs is AmdFreeSync {
                lemma_freesync_payload(
                    vs->AmdFreeSync_version,
                    vs->min_refresh_hz,
                    vs->max_refresh_hz,
                    vs->flags,
                    vs->AmdFreeSync_raw@,
                    p,
                );
            } else if vs is DolbyVision {
                let p0 = spec_vendor_template(vs->DolbyVision_raw@, 0x46, 0xD0, 0x00)->Ok_0;
                lemma_vendor_byte(p0, vs->DolbyVision_raw@, 3, vs->DolbyVision_version, 0, p);
            } else {
                assert(vs->oui@ =~= seq![p[0], p[1], p[2]]) by {
                    assert(p.take(3) =~= vs->oui@);
                }
            }
        },
        CtaDataBlockView::Extended(e) => {
            if e is HdrStaticMetadata {
                lemma_hdr_reads_back(
                    e->eotf_flags,
                    e->metadata_descriptor_flags,
                    e->max_luminance,
                    e->max_frame_average_luminance,
                    e->min_luminance,
                    e->HdrStaticMetadata_raw@,
                    p,
                );
            }
        },
        _ => {},
    }
}

/// Writing a typed view read from a data block is stable: whenever the view
/// is written, the written block has a typed view again, and writing that
/// view gives the same block.
pub proof fn lemma_cta_write_is_stable(
    source_tag: u8,
    source: Seq<u8>,
    v: CtaDataBlockView,
    tag: u8,
    p: Seq<u8>,
    w: CtaDataBlockView,
)
    requires
        spec_cta_view_error(source_tag, source) is None,
        spec_cta_view_matches(source_tag, source, v),
        spec_to_data_block(v) == Ok::<(u8, Seq<u8>), ExtensionWriteError>((tag, p)),
    ensures
        spec_cta_view_error(tag, p) is None,
        spec_cta_view_matches(tag, p, w) ==> spec_to_data_block(w) == Ok::<(u8, Seq<u8>), ExtensionWriteError>(
            (tag, p),
        ),
{
    if source_tag > 7 {
        assert(v is Unknown);
    }
    lemma_view_raw_parts(source_tag, source, v);
    lemma_cta_view_write_then_read(v, tag, p, w);
    lemma_written_block_canonical(v, tag, p);
    if spec_cta_view_matches(tag, p, w) {
        lemma_cta_block_read_then_write(tag, p, w);
    }
}

/// A CTA data block's tag decides the kind of its typed view by the CTA-861
/// table: tag 1 is an audio block, 2 a video block, 3 a vendor-specific
/// block, 4 a speaker allocation block and 7 an extended block, whose first
/// payload byte is its extended tag (0x00 video capability, 0x05
/// colorimetry, 0x06 HDR static metadata, 0x1A Adaptive-Sync); any other
/// tag reads as unknown. Writing a typed view uses the same table.
pub proof fn lemma_cta_tag_table(tag: u8, p: Seq<u8>, v: CtaDataBlockView)
    requires
        spec_cta_view_matches(tag, p, v),
    ensures
        (tag == 1) == (v is Audio),
        (tag == 2) == (v is Video),
        (tag == 3) == (v is VendorSpecific),
        (tag == 4) == (v is SpeakerAllocation),
        (tag == 7) == (v is Extended),
        tag == 7 && p.len() > 0 ==> (p[0] == 0x00) == (v->Extended_0 is VideoCapability) && (p[0] == 0x05) == (
        v->Extended_0 is Colorimetry) && (p[0] == 0x06) == (v->Extended_0 is HdrStaticMetadata) && (p[0] == 0x1A)
            == (v->Extended_0 is AdaptiveSync),
        spec_to_data_block(v) matches Ok(b) ==> (v is Audio ==> b.0 == 1) && (v is Video ==> b.0 == 2) && (
        v is VendorSpecific ==> b.0 == 3) && (v is SpeakerAllocation ==> b.0 == 4) && (v is Extended ==> b.0 == 7
            && b.1.len() > 0 && (v->Extended_0 is VideoCapability ==> b.1[0] == 0x00) && (v->Extended_0 is Colorimetry
            ==> b.1[0] == 0x05) && (v->Extended_0 is AdaptiveSync ==> b.1[0] == 0x1A)),
{
}

} // verus!
