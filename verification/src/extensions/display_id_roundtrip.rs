//! What the DisplayID typed writer promises: a data block read as a typed
//! view is written back byte for byte where the view holds all its bytes, and
//! a written view reads back with the fields it carries.
use vstd::prelude::*;
use super::ExtensionWriteError;
use super::display_id::{
    DisplayIdDataBlockView, DisplayIdProductIdentification, spec_product_of, DisplayIdDisplayParameters,
    spec_params_of, DisplayIdInterfaceFeatures, spec_features_of, DisplayIdDynamicVideoTimingRange, spec_dynamic_of,
    DisplayIdVideoTimingRangeLimits, spec_range1x_of, spec_zeros, DisplayIdTiledDisplayTopology, spec_tiled_of,
    spec_tile_fields, spec_canonical_tag, spec_le16_at, spec_le24_at, spec_le32_at, spec_le16_bytes, spec_le24_bytes,
    spec_le32_bytes, spec_did_view_error, spec_did_view_matches, spec_did_encode, spec_encode_product,
    spec_encode_params, spec_params_prefix, spec_encode_features, spec_encode_range1x, spec_encode_dynamic,
    spec_codes_bytes, spec_enumerated_codes, spec_first_wide_code, spec_encode_enumerated,
    DisplayIdFormulaTiming, spec_formula_timings, spec_formula_entry_ok, spec_formulas_bytes, spec_formula_bytes,
    spec_first_formula_error, spec_encode_formula, spec_formula_error, spec_did_view_defined, DisplayIdDetailedTiming,
    spec_did_timing, spec_did_timings, spec_did_timing_error, spec_did_timing_bytes, spec_did_timings_bytes,
    spec_first_did_timing_error, spec_encode_timings, spec_timing_field_error, spec_timing_byte3, spec_aspect_nibble, spec_aspect_of,
    spec_stereo_bits, spec_stereo_of, spec_encode_tiled, DisplayIdAspectRatio,
};
use super::spec_parse_cta;
use super::cta::{CtaDataBlockView, spec_cta_view_matches};
use super::embedded_cta::lemma_did_cta_write_is_stable;
use super::display_id::DisplayIdStereo3d;

verus! {

// ---------------------------------------------------------------------------
// Little-endian fields
// ---------------------------------------------------------------------------

/// A 16-bit field read from two bytes is written back as those bytes.
proof fn lemma_le16_rewrite(p: Seq<u8>, i: int)
    requires
        0 <= i,
        i + 2 <= p.len(),
    ensures
        spec_le16_bytes(spec_le16_at(p, i)) == p.subrange(i, i + 2),
{
    let a = p[i];
    let b = p[i + 1];
    let v = spec_le16_at(p, i);
    assert(v % 256 == a && (v / 256) % 256 == b) by (nonlinear_arith)
        requires
            v == a + 256 * b,
            0 <= a < 256,
            0 <= b < 256,
    ;
    assert(spec_le16_bytes(v) =~= p.subrange(i, i + 2));
}

/// A 24-bit field read from three bytes is written back as those bytes.
proof fn lemma_le24_rewrite(p: Seq<u8>, i: int)
    requires
        0 <= i,
        i + 3 <= p.len(),
    ensures
        spec_le24_bytes(spec_le24_at(p, i)) == p.subrange(i, i + 3),
{
    let a = p[i];
    let b = p[i + 1];
    let c = p[i + 2];
    let v = spec_le24_at(p, i);
    assert(v % 256 == a && (v / 256) % 256 == b && (v / 65536) % 256 == c) by (nonlinear_arith)
        requires
            v == a + 256 * b + 65536 * c,
            0 <= a < 256,
            0 <= b < 256,
            0 <= c < 256,
    ;
    assert(spec_le24_bytes(v) =~= p.subrange(i, i + 3));
}

/// A 32-bit field read from four bytes is written back as those bytes.
proof fn lemma_le32_rewrite(p: Seq<u8>, i: int)
    requires
        0 <= i,
        i + 4 <= p.len(),
    ensures
        spec_le32_bytes(spec_le32_at(p, i)) == p.subrange(i, i + 4),
{
    let a = p[i];
    let b = p[i + 1];
    let c = p[i + 2];
    let d = p[i + 3];
    let v = spec_le32_at(p, i);
    assert(v % 256 == a && (v / 256) % 256 == b && (v / 65536) % 256 == c && (v / 16777216) % 256 == d)
        by (nonlinear_arith)
        requires
            v == a + 256 * b + 65536 * c + 16777216 * d,
            0 <= a < 256,
            0 <= b < 256,
            0 <= c < 256,
            0 <= d < 256,
    ;
    assert(spec_le32_bytes(v) =~= p.subrange(i, i + 4));
}

// ---------------------------------------------------------------------------
// Fixed-layout blocks
// ---------------------------------------------------------------------------

/// A product identification payload that ends with its name is written back
/// unchanged.
proof fn lemma_product_rewrite(tag: u8, p: Seq<u8>, v: DisplayIdDataBlockView)
    requires
        tag == 0x00 || tag == 0x20,
        spec_did_view_error(tag, 0, p) is None,
        spec_did_view_matches(tag, 0, p, v),
        p.len() == 12 + p[11],
        p.len() <= 121,
    ensures
        spec_encode_product(v->product) == Ok::<Seq<u8>, ExtensionWriteError>(p),
{
    let x = v->product;
    lemma_le16_rewrite(p, 3);
    lemma_le32_rewrite(p, 5);
    assert(x.product_code as int == spec_le16_at(p, 3));
    assert(x.serial_number as int == spec_le32_at(p, 5));
    let out = x.vendor_id@ + spec_le16_bytes(x.product_code as int) + spec_le32_bytes(x.serial_number as int) + seq![
        x.week_of_manufacture,
        (x.year - 2000) as u8,
        x.product_name@.len() as u8,
    ] + x.product_name@;
    assert(out =~= p);
}

/// A display parameters payload is written back unchanged.
proof fn lemma_params_rewrite(tag: u8, p: Seq<u8>, v: DisplayIdDataBlockView)
    requires
        tag == 0x01 || tag == 0x21,
        spec_did_view_error(tag, 0, p) is None,
        spec_did_view_matches(tag, 0, p, v),
        p.len() <= 121,
    ensures
        spec_encode_params(tag, v->parameters) == Ok::<Seq<u8>, ExtensionWriteError>(p),
{
    let x = v->parameters;
    lemma_le16_rewrite(p, 0);
    lemma_le16_rewrite(p, 2);
    lemma_le16_rewrite(p, 4);
    lemma_le16_rewrite(p, 6);
    lemma_le16_rewrite(p, 21);
    lemma_le16_rewrite(p, 23);
    lemma_le16_rewrite(p, 25);
    assert(spec_params_prefix(x) =~= p.subrange(0, 29));
    assert(spec_params_prefix(x) + p.skip(29) =~= p);
}

/// An interface features payload is written back unchanged.
proof fn lemma_features_rewrite(tag: u8, p: Seq<u8>, v: DisplayIdDataBlockView)
    requires
        tag == 0x0F || tag == 0x26,
        spec_did_view_error(tag, 0, p) is None,
        spec_did_view_matches(tag, 0, p, v),
        p.len() <= 121,
    ensures
        spec_encode_features(v->features) == Ok::<Seq<u8>, ExtensionWriteError>(p),
{
    let x = v->features;
    assert(seq![
        x.color_depth_rgb,
        x.color_depth_ycbcr444,
        x.color_depth_ycbcr422,
        x.color_depth_ycbcr420,
        x.min_ycbcr420_pixel_rate,
        x.audio_flags,
        x.colorspace_eotf_1,
        x.colorspace_eotf_2,
        x.additional_colorspace_count,
    ] + p.skip(9) =~= p);
}

/// A 1.x video timing range payload with clocks that fit the written range
/// is written back unchanged.
proof fn lemma_range1x_rewrite(p: Seq<u8>, v: DisplayIdDataBlockView)
    requires
        spec_did_view_error(0x09, 0, p) is None,
        spec_did_view_matches(0x09, 0, p, v),
        spec_le24_at(p, 3) < 1677721,
    ensures
        spec_encode_range1x(0x09, v->VideoTimingRange1x_range) == Ok::<Seq<u8>, ExtensionWriteError>(p),
{
    let x = v->VideoTimingRange1x_range;
    let lo = spec_le24_at(p, 0);
    let hi = spec_le24_at(p, 3);
    assert(x.min_pixel_clock_khz % 10 == 0 && x.min_pixel_clock_khz / 10 - 1 == lo) by (nonlinear_arith)
        requires
            x.min_pixel_clock_khz == (lo + 1) * 10,
    ;
    assert(x.max_pixel_clock_khz % 10 == 0 && x.max_pixel_clock_khz / 10 - 1 == hi) by (nonlinear_arith)
        requires
            x.max_pixel_clock_khz == (hi + 1) * 10,
    ;
    lemma_le24_rewrite(p, 0);
    lemma_le24_rewrite(p, 3);
    lemma_le16_rewrite(p, 8);
    lemma_le16_rewrite(p, 12);
    let f = p[14];
    let flags = f % 16 + (if x.supports_interlaced { 128int } else { 0int }) + (if x.supports_cvt {
        64int
    } else {
        0int
    }) + (if x.supports_cvt_reduced_blanking { 32int } else { 0int }) + (if x.discrete_frequency {
        16int
    } else {
        0int
    });
    assert(flags == f) by (nonlinear_arith)
        requires
            flags == f % 16 + (if f >= 128 { 128int } else { 0int }) + (if (f / 64) % 2 == 1 { 64int } else { 0int })
                + (if (f / 32) % 2 == 1 { 32int } else { 0int }) + (if (f / 16) % 2 == 1 { 16int } else { 0int }),
            0 <= f < 256,
    ;
    let out = spec_le24_bytes(x.min_pixel_clock_khz / 10 - 1) + spec_le24_bytes(x.max_pixel_clock_khz / 10 - 1)
        + seq![x.min_hfreq_khz, x.max_hfreq_khz] + spec_le16_bytes(x.min_h_blanking as int) + seq![
        x.min_vfreq_hz,
        x.max_vfreq_hz,
    ] + spec_le16_bytes(x.min_v_blanking as int) + seq![flags as u8] + p.skip(15);
    assert(out =~= p);
}

/// A dynamic video timing range payload is written back unchanged.
proof fn lemma_dynamic_rewrite(p: Seq<u8>, v: DisplayIdDataBlockView)
    requires
        spec_did_view_error(0x25, 0, p) is None,
        spec_did_view_matches(0x25, 0, p, v),
        p.len() <= 121,
    ensures
        spec_encode_dynamic(0x25, v->DynamicVideoTimingRange_range) == Ok::<Seq<u8>, ExtensionWriteError>(p),
{
    let x = v->DynamicVideoTimingRange_range;
    lemma_le24_rewrite(p, 0);
    lemma_le24_rewrite(p, 3);
    let b8 = p[8];
    let m = x.max_vfreq_hz;
    assert(m % 256 == p[7] && (m / 256) % 4 == b8 % 4 && m <= 1023) by (nonlinear_arith)
        requires
            m == (b8 % 4) * 256 + p[7],
            0 <= p[7] < 256,
            0 <= b8 < 256,
    ;
    let top = ((b8 / 4) % 32) * 4 + (if x.seamless_dynamic_video_timing { 128int } else { 0int }) + (m / 256) % 4;
    assert(top == b8) by (nonlinear_arith)
        requires
            top == ((b8 / 4) % 32) * 4 + (if b8 >= 128 { 128int } else { 0int }) + b8 % 4,
            0 <= b8 < 256,
    ;
    let out = spec_le24_bytes(x.min_pixel_clock_khz - 1) + spec_le24_bytes(x.max_pixel_clock_khz - 1) + seq![
        x.min_vfreq_hz,
        (m % 256) as u8,
        top as u8,
    ] + p.skip(9);
    assert(out =~= p);
}

// ---------------------------------------------------------------------------
// Lists of codes and formula timings
// ---------------------------------------------------------------------------

/// The one-byte codes of a payload are written back as its first `n` bytes.
proof fn lemma_byte_codes_rewrite(p: Seq<u8>, n: int)
    requires
        0 <= n <= p.len(),
    ensures
        spec_codes_bytes(spec_enumerated_codes(p, false).take(n), false) == p.take(n),
    decreases n,
{
    let codes = spec_enumerated_codes(p, false);
    if n > 0 {
        lemma_byte_codes_rewrite(p, n - 1);
        assert(codes.take(n).drop_last() =~= codes.take(n - 1));
        assert(p.take(n - 1) + seq![codes[n - 1] as u8] =~= p.take(n));
    } else {
        assert(codes.take(0) =~= Seq::<u16>::empty());
        assert(p.take(0) =~= Seq::<u8>::empty());
    }
}

/// The two-byte codes of a payload are written back as its first `2n` bytes.
proof fn lemma_word_codes_rewrite(p: Seq<u8>, n: int)
    requires
        0 <= n,
        2 * n <= p.len(),
    ensures
        spec_codes_bytes(spec_enumerated_codes(p, true).take(n), true) == p.take(2 * n),
    decreases n,
{
    let codes = spec_enumerated_codes(p, true);
    assert(n <= p.len() / 2) by (nonlinear_arith)
        requires
            0 <= n,
            2 * n <= p.len(),
    ;
    if n > 0 {
        lemma_word_codes_rewrite(p, n - 1);
        assert(codes.take(n).drop_last() =~= codes.take(n - 1));
        lemma_le16_rewrite(p, 2 * n - 2);
        assert(codes[n - 1] as int == spec_le16_at(p, 2 * (n - 1)));
        assert(p.take(2 * n - 2) + p.subrange(2 * n - 2, 2 * n) =~= p.take(2 * n));
    } else {
        assert(codes.take(0) =~= Seq::<u16>::empty());
        assert(p.take(0) =~= Seq::<u8>::empty());
    }
}

/// One-byte codes read from bytes have no code wider than a byte.
proof fn lemma_byte_codes_narrow(p: Seq<u8>, n: int)
    requires
        0 <= n <= p.len(),
    ensures
        spec_first_wide_code(spec_enumerated_codes(p, false), n) is None,
    decreases n,
{
    if n > 0 {
        lemma_byte_codes_narrow(p, n - 1);
    }
}

/// An enumerated timing payload is written back unchanged with the revision
/// it was read with, when that revision holds only the code type and code
/// size bits.
proof fn lemma_enumerated_rewrite(tag: u8, revision: u8, p: Seq<u8>, v: DisplayIdDataBlockView)
    requires
        tag == 0x06 || tag == 0x23,
        spec_did_view_error(tag, revision, p) is None,
        spec_did_view_matches(tag, revision, p, v),
        p.len() <= 121,
        revision / 64 <= 2,
        revision % 8 == 0,
        (revision / 16) % 4 == 0,
    ensures
        spec_encode_enumerated(v->code_type, v->code_size, v->codes@) == Ok::<(u8, Seq<u8>), ExtensionWriteError>(
            (revision, p),
        ),
{
    let two = (revision / 8) % 2 == 1;
    let codes = spec_enumerated_codes(p, two);
    if two {
        let n = p.len() / 2;
        assert(2 * n == p.len()) by (nonlinear_arith)
            requires
                p.len() % 2 == 0,
                n == p.len() / 2,
        ;
        lemma_word_codes_rewrite(p, n as int);
        assert(codes.take(n as int) =~= codes);
    } else {
        lemma_byte_codes_rewrite(p, p.len() as int);
        lemma_byte_codes_narrow(p, p.len() as int);
        assert(codes.take(p.len() as int) =~= codes);
    }
    assert(p.take(p.len() as int) =~= p);
    assert(revision == (revision / 64) * 64 + (if two { 8int } else { 0int })) by (nonlinear_arith)
        requires
            revision % 8 == 0,
            (revision / 16) % 4 == 0,
            two == ((revision / 8) % 2 == 1),
            0 <= revision < 256,
    ;
}

/// Whether each six-byte formula timing has the reserved bits 3 and 7 of its
/// first byte clear.
pub open spec fn spec_formula_bytes_canonical(p: Seq<u8>) -> bool {
    forall|k: int| 0 <= k < p.len() / 6 ==> #[trigger] p[6 * k] < 128 && (p[6 * k] / 8) % 2 == 0
}

/// The first `n` formula timings of a payload are written back as its first
/// `6n` bytes.
proof fn lemma_formulas_rewrite(p: Seq<u8>, n: int)
    requires
        0 <= n,
        6 * n <= p.len(),
        spec_formula_bytes_canonical(p),
        forall|k: int| 0 <= k < p.len() / 6 ==> #[trigger] spec_formula_entry_ok(p, k),
    ensures
        spec_formulas_bytes(spec_formula_timings(p).take(n)) == p.take(6 * n),
        spec_first_formula_error(spec_formula_timings(p), n, 0x24) is None,
    decreases n,
{
    let ts = spec_formula_timings(p);
    assert(n <= p.len() / 6) by (nonlinear_arith)
        requires
            0 <= n,
            6 * n <= p.len(),
    ;
    if n > 0 {
        let k = n - 1;
        lemma_formulas_rewrite(p, k);
        assert(ts.take(n).drop_last() =~= ts.take(k));
        let t = ts[k];
        assert(spec_formula_entry_ok(p, k));
        let b = p[6 * k];
        assert(b < 128 && (b / 8) % 2 == 0);
        assert(((b / 32) % 4) * 32 + ((b / 16) % 2) * 16 + b % 8 == b) by (nonlinear_arith)
            requires
                0 <= b < 128,
                (b / 8) % 2 == 0,
        ;
        lemma_le16_rewrite(p, 6 * k + 1);
        lemma_le16_rewrite(p, 6 * k + 3);
        assert(t.h_active - 1 == spec_le16_at(p, 6 * k + 1));
        assert(t.v_active - 1 == spec_le16_at(p, 6 * k + 3));
        assert(spec_formula_bytes(t) =~= p.subrange(6 * k, 6 * k + 6));
        assert(p.take(6 * k) + p.subrange(6 * k, 6 * k + 6) =~= p.take(6 * n));
    } else {
        assert(ts.take(0) =~= Seq::<DisplayIdFormulaTiming>::empty());
        assert(p.take(0) =~= Seq::<u8>::empty());
    }
}

/// A formula timing payload with canonical first bytes is written back
/// unchanged.
proof fn lemma_formula_rewrite(p: Seq<u8>, v: DisplayIdDataBlockView)
    requires
        spec_did_view_error(0x24, 0, p) is None,
        spec_did_view_matches(0x24, 0, p, v),
        spec_formula_bytes_canonical(p),
        p.len() <= 121,
    ensures
        spec_encode_formula(0x24, v->FormulaTiming_timings@) == Ok::<Seq<u8>, ExtensionWriteError>(p),
{
    let n = p.len() / 6;
    assert(6 * n == p.len()) by (nonlinear_arith)
        requires
            p.len() % 6 == 0,
            n == p.len() / 6,
    ;
    lemma_formulas_rewrite(p, n as int);
    assert(spec_formula_timings(p).take(n as int) =~= spec_formula_timings(p));
    assert(p.take(p.len() as int) =~= p);
}

// ---------------------------------------------------------------------------
// Detailed timings
// ---------------------------------------------------------------------------

/// The stored fields of a 20-byte detailed timing, as read.
proof fn lemma_timing_fields(b: Seq<u8>, type_one: bool, rev: int)
    requires
        b.len() == 20,
    ensures
        ({
            let t = spec_did_timing(b, type_one, rev);
            &&& (if type_one { t.pixel_clock_khz / 10 } else { t.pixel_clock_khz }) - 1 == spec_le24_at(b, 0)
            &&& !type_one || (t.pixel_clock_khz != 0 && t.pixel_clock_khz % 10 == 0)
            &&& t.h_active - 1 == spec_le16_at(b, 4)
            &&& t.h_blank - 1 == spec_le16_at(b, 6)
            &&& t.h_sync_offset - 1 + (if t.h_sync_positive { 32768int } else { 0int }) == spec_le16_at(b, 8)
            &&& 1 <= t.h_sync_offset <= 32768
            &&& t.h_sync_width - 1 == spec_le16_at(b, 10)
            &&& t.v_active - 1 == spec_le16_at(b, 12)
            &&& t.v_blank - 1 == spec_le16_at(b, 14)
            &&& t.v_sync_offset - 1 + (if t.v_sync_positive { 32768int } else { 0int }) == spec_le16_at(b, 16)
            &&& 1 <= t.v_sync_offset <= 32768
            &&& t.v_sync_width - 1 == spec_le16_at(b, 18)
        }),
{
    let t = spec_did_timing(b, type_one, rev);
    let clock = spec_le24_at(b, 0);
    assert(0 <= clock <= 0xFF_FFFF);
    if type_one {
        assert(t.pixel_clock_khz == (clock + 1) * 10);
        assert(t.pixel_clock_khz % 10 == 0 && t.pixel_clock_khz / 10 == clock + 1) by (nonlinear_arith)
            requires
                t.pixel_clock_khz == (clock + 1) * 10,
        ;
    }
}

/// The aspect, interlace, stereo and top bits of byte 3 are written back as
/// that byte.
proof fn lemma_timing_byte3(b: Seq<u8>, type_one: bool, rev: u8)
    requires
        b.len() == 20,
        rev == 0 || rev == 2,
    ensures
        spec_timing_byte3(spec_did_timing(b, type_one, rev as int), rev) == b[3],
{
    let t = spec_did_timing(b, type_one, rev as int);
    let f = b[3];
    assert(spec_aspect_nibble(spec_aspect_of(f % 16)) == f % 16);
    assert(spec_stereo_bits(spec_stereo_of(f / 32)) == (f / 32) % 4);
    assert((f % 16) + ((f / 16) % 2) * 16 + ((f / 32) % 4) * 32 + (if f >= 128 { 128int } else { 0int }) == f)
        by (nonlinear_arith)
        requires
            0 <= f < 256,
    ;
}

/// A detailed timing read from 20 bytes has no encoding error.
proof fn lemma_timing_no_error(b: Seq<u8>, type_one: bool, rev: int, index: int, tag: u8)
    requires
        b.len() == 20,
        0 <= index,
    ensures
        spec_did_timing_error(spec_did_timing(b, type_one, rev), index, type_one, tag) is None,
{
    lemma_timing_fields(b, type_one, rev);
    let t = spec_did_timing(b, type_one, rev);
    assert(spec_timing_field_error(t, tag, index) is None);
}

/// A 20-byte detailed timing is written back as the same bytes, under the
/// revision it was read with.
proof fn lemma_timing_rewrite(b: Seq<u8>, type_one: bool, rev: u8)
    requires
        b.len() == 20,
        rev == 0 || rev == 2,
    ensures
        spec_did_timing_bytes(spec_did_timing(b, type_one, rev as int), type_one, rev) == b,
{
    let t = spec_did_timing(b, type_one, rev as int);
    lemma_timing_fields(b, type_one, rev as int);
    lemma_timing_byte3(b, type_one, rev);
    let unit = if type_one { t.pixel_clock_khz / 10 } else { t.pixel_clock_khz };
    lemma_le24_rewrite(b, 0);
    let s0 = spec_le24_bytes(unit - 1) + seq![spec_timing_byte3(t, rev)];
    assert(s0 =~= b.subrange(0, 4));
    lemma_le16_rewrite(b, 4);
    let s1 = s0 + spec_le16_bytes(t.h_active - 1);
    assert(s1 =~= b.subrange(0, 6));
    lemma_le16_rewrite(b, 6);
    let s2 = s1 + spec_le16_bytes(t.h_blank - 1);
    assert(s2 =~= b.subrange(0, 8));
    lemma_le16_rewrite(b, 8);
    let s3 = s2 + spec_le16_bytes(t.h_sync_offset - 1 + (if t.h_sync_positive { 32768int } else { 0int }));
    assert(s3 =~= b.subrange(0, 10));
    lemma_le16_rewrite(b, 10);
    let s4 = s3 + spec_le16_bytes(t.h_sync_width - 1);
    assert(s4 =~= b.subrange(0, 12));
    lemma_le16_rewrite(b, 12);
    let s5 = s4 + spec_le16_bytes(t.v_active - 1);
    assert(s5 =~= b.subrange(0, 14));
    lemma_le16_rewrite(b, 14);
    let s6 = s5 + spec_le16_bytes(t.v_blank - 1);
    assert(s6 =~= b.subrange(0, 16));
    lemma_le16_rewrite(b, 16);
    let s7 = s6 + spec_le16_bytes(t.v_sync_offset - 1 + (if t.v_sync_positive { 32768int } else { 0int }));
    assert(s7 =~= b.subrange(0, 18));
    lemma_le16_rewrite(b, 18);
    let s8 = s7 + spec_le16_bytes(t.v_sync_width - 1);
    assert(s8 =~= b);
}

/// Timings each written as the matching 20 bytes of a payload are written
/// together as its first `20n` bytes.
proof fn lemma_timings_concat(ts: Seq<DisplayIdDetailedTiming>, p: Seq<u8>, type_one: bool, rev: u8, n: int)
    requires
        0 <= n <= ts.len(),
        20 * n <= p.len(),
        forall|k: int|
            0 <= k < n ==> #[trigger] spec_did_timing_bytes(ts[k], type_one, rev) == p.subrange(20 * k, 20 * k + 20),
    ensures
        spec_did_timings_bytes(ts.take(n), type_one, rev) == p.take(20 * n),
    decreases n,
{
    if n > 0 {
        lemma_timings_concat(ts, p, type_one, rev, n - 1);
        assert(ts.take(n).drop_last() =~= ts.take(n - 1));
        assert(spec_did_timing_bytes(ts[n - 1], type_one, rev) == p.subrange(20 * (n - 1), 20 * (n - 1) + 20));
        assert(p.take(20 * (n - 1)) + p.subrange(20 * (n - 1), 20 * n) =~= p.take(20 * n));
    } else {
        assert(ts.take(0) =~= Seq::<DisplayIdDetailedTiming>::empty());
        assert(p.take(0) =~= Seq::<u8>::empty());
    }
}

/// The timings of a payload are written back as its first `20n` bytes.
proof fn lemma_timings_rewrite(p: Seq<u8>, type_one: bool, rev: u8, n: int)
    requires
        0 <= n,
        20 * n <= p.len(),
        rev == 0 || rev == 2,
    ensures
        spec_did_timings_bytes(spec_did_timings(p, type_one, rev as int).take(n), type_one, rev) == p.take(20 * n),
{
    let ts = spec_did_timings(p, type_one, rev as int);
    assert(n <= p.len() / 20) by (nonlinear_arith)
        requires
            0 <= n,
            20 * n <= p.len(),
    ;
    assert forall|k: int| 0 <= k < n implies #[trigger] spec_did_timing_bytes(ts[k], type_one, rev) == p.subrange(
        20 * k,
        20 * k + 20,
    ) by {
        let b = p.subrange(20 * k, 20 * k + 20);
        lemma_timing_rewrite(b, type_one, rev);
    }
    lemma_timings_concat(ts, p, type_one, rev, n);
}

/// None of the first `n` timings of a payload has an encoding error.
proof fn lemma_timings_no_error(p: Seq<u8>, type_one: bool, rev: int, tag: u8, n: int)
    requires
        0 <= n,
        20 * n <= p.len(),
    ensures
        spec_first_did_timing_error(spec_did_timings(p, type_one, rev), n, type_one, tag) is None,
    decreases n,
{
    let ts = spec_did_timings(p, type_one, rev);
    assert(n <= p.len() / 20) by (nonlinear_arith)
        requires
            0 <= n,
            20 * n <= p.len(),
    ;
    if n > 0 {
        let k = n - 1;
        lemma_timings_no_error(p, type_one, rev, tag, k);
        let b = p.subrange(20 * k, 20 * k + 20);
        lemma_timing_no_error(b, type_one, rev, k, tag);
        assert(ts[k] == spec_did_timing(b, type_one, rev));
    }
}

/// Whether a detailed timing block's revision is the one its timings are
/// written back with: zero, or two when some timing sets the YCbCr 4:2:0 bit.
pub open spec fn spec_timing_revision_canonical(revision: u8, p: Seq<u8>) -> bool {
    ||| revision == 0
    ||| revision == 2 && exists|k: int| 0 <= k < p.len() / 20 && #[trigger] p[20 * k + 3] >= 128
}

/// A detailed timing payload is written back unchanged, with the revision it
/// was read with when that revision is canonical.
proof fn lemma_detailed_rewrite(tag: u8, revision: u8, p: Seq<u8>, v: DisplayIdDataBlockView)
    requires
        tag == 0x03 || tag == 0x22,
        spec_did_view_error(tag, revision, p) is None,
        spec_did_view_matches(tag, revision, p, v),
        spec_timing_revision_canonical(revision, p),
        p.len() <= 121,
    ensures
        spec_encode_timings(tag, v->DetailedTiming_timings@) == Ok::<(u8, Seq<u8>), ExtensionWriteError>(
            (revision, p),
        ),
{
    let ts = spec_did_timings(p, tag == 0x03, revision as int);
    assert(revision % 8 == revision);
    let n = p.len() / 20;
    assert(20 * n == p.len()) by (nonlinear_arith)
        requires
            p.len() % 20 == 0,
            n == p.len() / 20,
    ;
    lemma_timings_rewrite(p, tag == 0x03, revision, n as int);
    lemma_timings_no_error(p, tag == 0x03, revision as int, tag, n as int);
    assert(ts.take(n as int) =~= ts);
    assert(p.take(p.len() as int) =~= p);
    if revision == 2 {
        let k = choose|k: int| 0 <= k < p.len() / 20 && #[trigger] p[20 * k + 3] >= 128;
        assert(p.subrange(20 * k, 20 * k + 20)[3] == p[20 * k + 3]);
        assert(ts[k].ycbcr420);
    } else {
        assert(forall|i: int| 0 <= i < ts.len() ==> !(#[trigger] ts[i]).ycbcr420);
    }
}

// ---------------------------------------------------------------------------
// Tiled topology
// ---------------------------------------------------------------------------

/// A tiled topology payload is written back unchanged.
#[verifier::rlimit(30)]
proof fn lemma_tiled_rewrite(tag: u8, p: Seq<u8>, v: DisplayIdDataBlockView)
    requires
        tag == 0x12 || tag == 0x28,
        spec_did_view_error(tag, 0, p) is None,
        spec_did_view_matches(tag, 0, p, v),
        p.len() <= 121,
    ensures
        spec_encode_tiled(tag, v->topology) == Ok::<Seq<u8>, ExtensionWriteError>(p),
{
    let x = v->topology;
    let b1 = p[1];
    let b2 = p[2];
    let b3 = p[3];
    let nh = x.tiles_h - 1;
    let nv = x.tiles_v - 1;
    assert(nh == b1 / 16 + ((b3 / 64) % 4) * 16 && nv == b1 % 16 + ((b3 / 16) % 4) * 16);
    assert(x.tile_location_v == b2 % 16 + (b3 % 4) * 16);
    assert(x.tile_location_h == b2 / 16 + ((b3 / 4) % 4) * 16);
    let lh = x.tile_location_h;
    let lv = x.tile_location_v;
    assert((nh % 16) * 16 + nv % 16 == b1 && (lh % 16) * 16 + lv % 16 == b2 && ((nh / 16) % 4) * 64 + ((nv / 16)
        % 4) * 16 + ((lh / 16) % 4) * 4 + (lv / 16) % 4 == b3 && nh < 64 && nv < 64 && lh < 64 && lv < 64)
        by (nonlinear_arith)
        requires
            nh == b1 / 16 + ((b3 / 64) % 4) * 16,
            nv == b1 % 16 + ((b3 / 16) % 4) * 16,
            lv == b2 % 16 + (b3 % 4) * 16,
            lh == b2 / 16 + ((b3 / 4) % 4) * 16,
            0 <= b1 < 256,
            0 <= b2 < 256,
            0 <= b3 < 256,
    ;
    lemma_le16_rewrite(p, 4);
    lemma_le16_rewrite(p, 6);
    lemma_le16_rewrite(p, 16);
    lemma_le32_rewrite(p, 18);
    assert(x.tile_width - 1 == spec_le16_at(p, 4));
    assert(x.tile_height - 1 == spec_le16_at(p, 6));
    let bevel = (x.caps / 64) % 2 == 1;
    let mid = if bevel {
        seq![
            match x.bevel_top { Some(v) => v, None => 0u8 },
            match x.bevel_bottom { Some(v) => v, None => 0u8 },
            match x.bevel_right { Some(v) => v, None => 0u8 },
            match x.bevel_left { Some(v) => v, None => 0u8 },
        ]
    } else {
        p.subrange(9, 13)
    };
    assert(mid =~= p.subrange(9, 13));
    let out = seq![
        x.caps,
        ((nh % 16) * 16 + nv % 16) as u8,
        ((lh % 16) * 16 + lv % 16) as u8,
        (((nh / 16) % 4) * 64 + ((nv / 16) % 4) * 16 + ((lh / 16) % 4) * 4 + (lv / 16) % 4) as u8,
    ] + spec_le16_bytes(x.tile_width - 1) + spec_le16_bytes(x.tile_height - 1) + seq![x.pixel_multiplier] + mid
        + x.vendor_id@ + spec_le16_bytes(x.product_code as int) + spec_le32_bytes(x.serial_number as int) + p.skip(22);
    assert(out =~= p);
}

// ---------------------------------------------------------------------------
// The law
// ---------------------------------------------------------------------------

/// Whether a DisplayID data block with a typed view is written back byte for
/// byte from it: the payload fits a data block, the revision holds only what
/// the view records (zero, the YCbCr 4:2:0 revision of detailed timings that
/// use it, or the code type and size bits of enumerated timings), a product
/// identification ends with its name, 1.x range clocks fit the written
/// range and formula timings have their reserved bits clear. Embedded CTA
/// blocks are not covered here.
pub open spec fn spec_did_block_canonical(tag: u8, revision: u8, p: Seq<u8>) -> bool {
    &&& p.len() <= 121
    &&& tag != 0x81
    &&& (tag == 0x03 || tag == 0x22) ==> spec_timing_revision_canonical(revision, p)
    &&& (tag == 0x06 || tag == 0x23) ==> revision / 64 <= 2 && revision % 8 == 0 && (revision / 16) % 4 == 0
    &&& !(tag == 0x03 || tag == 0x22 || tag == 0x06 || tag == 0x23) ==> revision == 0
    &&& (tag == 0x00 || tag == 0x20) ==> p.len() == 12 + p[11]
    &&& tag == 0x09 ==> spec_le24_at(p, 3) < 1677721
    &&& tag == 0x24 ==> spec_formula_bytes_canonical(p)
}

/// Reading a DisplayID data block's typed view and writing it back under the
/// block's own tag gives the same block (revision and payload), for every
/// block that has a typed view and is canonical in the sense of
/// `spec_did_block_canonical`.
pub proof fn lemma_did_block_read_then_write(tag: u8, revision: u8, p: Seq<u8>, v: DisplayIdDataBlockView)
    requires
        spec_did_view_error(tag, revision, p) is None,
        spec_did_block_canonical(tag, revision, p),
        spec_did_view_matches(tag, revision, p, v),
    ensures
        spec_did_encode(v, tag) == Ok::<(u8, Seq<u8>), ExtensionWriteError>((revision, p)),
{
    if tag == 0x00 || tag == 0x20 {
        lemma_product_rewrite(tag, p, v);
    } else if tag == 0x01 || tag == 0x21 {
        lemma_params_rewrite(tag, p, v);
    } else if tag == 0x03 || tag == 0x22 {
        lemma_detailed_rewrite(tag, revision, p, v);
    } else if tag == 0x0F || tag == 0x26 {
        lemma_features_rewrite(tag, p, v);
    } else if tag == 0x09 {
        lemma_range1x_rewrite(p, v);
    } else if tag == 0x25 {
        lemma_dynamic_rewrite(p, v);
    } else if tag == 0x06 || tag == 0x23 {
        lemma_enumerated_rewrite(tag, revision, p, v);
    } else if tag == 0x24 {
        lemma_formula_rewrite(p, v);
    } else if tag == 0x12 || tag == 0x28 {
        lemma_tiled_rewrite(tag, p, v);
    }
}

// ---------------------------------------------------------------------------
// Writing then reading
// ---------------------------------------------------------------------------

/// Two bytes written from a 16-bit value read back as that value.
proof fn lemma_le16_read(s: Seq<u8>, i: int, v: int)
    requires
        0 <= i,
        i + 2 <= s.len(),
        0 <= v < 65536,
        s.subrange(i, i + 2) == spec_le16_bytes(v),
    ensures
        spec_le16_at(s, i) == v,
{
    assert(s[i] == spec_le16_bytes(v)[0] && s[i + 1] == spec_le16_bytes(v)[1]);
    assert((v % 256) + 256 * ((v / 256) % 256) == v) by (nonlinear_arith)
        requires
            0 <= v < 65536,
    ;
}

/// Three bytes written from a 24-bit value read back as that value.
proof fn lemma_le24_read(s: Seq<u8>, i: int, v: int)
    requires
        0 <= i,
        i + 3 <= s.len(),
        0 <= v < 0x100_0000,
        s.subrange(i, i + 3) == spec_le24_bytes(v),
    ensures
        spec_le24_at(s, i) == v,
{
    assert(s[i] == spec_le24_bytes(v)[0] && s[i + 1] == spec_le24_bytes(v)[1] && s[i + 2]
        == spec_le24_bytes(v)[2]);
    assert((v % 256) + 256 * ((v / 256) % 256) + 65536 * ((v / 65536) % 256) == v) by (nonlinear_arith)
        requires
            0 <= v < 0x100_0000,
    ;
}

/// Four bytes written from a 32-bit value read back as that value.
proof fn lemma_le32_read(s: Seq<u8>, i: int, v: int)
    requires
        0 <= i,
        i + 4 <= s.len(),
        0 <= v < 0x1_0000_0000,
        s.subrange(i, i + 4) == spec_le32_bytes(v),
    ensures
        spec_le32_at(s, i) == v,
{
    assert(s[i] == spec_le32_bytes(v)[0] && s[i + 1] == spec_le32_bytes(v)[1] && s[i + 2] == spec_le32_bytes(v)[2]
        && s[i + 3] == spec_le32_bytes(v)[3]);
    assert((v % 256) + 256 * ((v / 256) % 256) + 65536 * ((v / 65536) % 256) + 16777216 * ((v / 16777216) % 256)
        == v) by (nonlinear_arith)
        requires
            0 <= v < 0x1_0000_0000,
    ;
}

/// `y` holds the same product identification fields as `x` (the retained
/// raw payload and the OUI flag, which follows the tag, aside).
pub open spec fn spec_product_agree(x: DisplayIdProductIdentification, y: DisplayIdProductIdentification) -> bool {
    &&& y.vendor_id@ == x.vendor_id@
    &&& y.product_code == x.product_code
    &&& y.serial_number == x.serial_number
    &&& y.week_of_manufacture == x.week_of_manufacture
    &&& y.year == x.year
    &&& y.product_name@ == x.product_name@
}

/// A written product identification reads back with its fields.
proof fn lemma_product_reads_back(tag: u8, x: DisplayIdProductIdentification, p: Seq<u8>, y: DisplayIdProductIdentification)
    requires
        tag == 0x00 || tag == 0x20,
        spec_encode_product(x) == Ok::<Seq<u8>, ExtensionWriteError>(p),
    ensures
        spec_did_view_error(tag, 0, p) is None,
        spec_product_of(tag, p, y) ==> spec_product_agree(x, y),
        p.len() == 12 + p[11],
        p.len() <= 121,
{
    let n = x.product_name@.len();
    assert(p.len() == 12 + n);
    assert(p[11] == n);
    assert(p.subrange(3, 5) =~= spec_le16_bytes(x.product_code as int));
    assert(p.subrange(5, 9) =~= spec_le32_bytes(x.serial_number as int));
    lemma_le16_read(p, 3, x.product_code as int);
    lemma_le32_read(p, 5, x.serial_number as int);
    assert(p.subrange(0, 3) =~= x.vendor_id@);
    assert(p.subrange(12, 12 + p[11]) =~= x.product_name@);
}

/// `y` holds the same display parameters as `x` (the raw payload aside).
pub open spec fn spec_params_agree(x: DisplayIdDisplayParameters, y: DisplayIdDisplayParameters) -> bool {
    &&& y.horizontal_image_size_mm == x.horizontal_image_size_mm
    &&& y.vertical_image_size_mm == x.vertical_image_size_mm
    &&& y.horizontal_pixel_count == x.horizontal_pixel_count
    &&& y.vertical_pixel_count == x.vertical_pixel_count
    &&& y.features == x.features
    &&& y.primary_color_1@ == x.primary_color_1@
    &&& y.primary_color_2@ == x.primary_color_2@
    &&& y.primary_color_3@ == x.primary_color_3@
    &&& y.white_point@ == x.white_point@
    &&& y.max_luminance_full == x.max_luminance_full
    &&& y.max_luminance_10_percent == x.max_luminance_10_percent
    &&& y.min_luminance == x.min_luminance
    &&& y.color_depth_and_technology == x.color_depth_and_technology
    &&& y.gamma_eotf == x.gamma_eotf
}

/// A written display parameters view reads back with its fields.
proof fn lemma_params_reads_back(tag: u8, x: DisplayIdDisplayParameters, p: Seq<u8>, y: DisplayIdDisplayParameters)
    requires
        tag == 0x01 || tag == 0x21,
        spec_encode_params(tag, x) == Ok::<Seq<u8>, ExtensionWriteError>(p),
    ensures
        spec_did_view_error(tag, 0, p) is None,
        spec_params_of(p, y) ==> spec_params_agree(x, y),
{
    let pre = spec_params_prefix(x);
    assert(p.subrange(0, 29) =~= pre);
    assert(pre.subrange(0, 2) =~= spec_le16_bytes(x.horizontal_image_size_mm as int));
    assert(pre.subrange(2, 4) =~= spec_le16_bytes(x.vertical_image_size_mm as int));
    assert(pre.subrange(4, 6) =~= spec_le16_bytes(x.horizontal_pixel_count as int));
    assert(pre.subrange(6, 8) =~= spec_le16_bytes(x.vertical_pixel_count as int));
    assert(pre.subrange(21, 23) =~= spec_le16_bytes(x.max_luminance_full as int));
    assert(pre.subrange(23, 25) =~= spec_le16_bytes(x.max_luminance_10_percent as int));
    assert(pre.subrange(25, 27) =~= spec_le16_bytes(x.min_luminance as int));
    lemma_le16_read(pre, 0, x.horizontal_image_size_mm as int);
    lemma_le16_read(pre, 2, x.vertical_image_size_mm as int);
    lemma_le16_read(pre, 4, x.horizontal_pixel_count as int);
    lemma_le16_read(pre, 6, x.vertical_pixel_count as int);
    lemma_le16_read(pre, 21, x.max_luminance_full as int);
    lemma_le16_read(pre, 23, x.max_luminance_10_percent as int);
    lemma_le16_read(pre, 25, x.min_luminance as int);
    assert(forall|i: int| 0 <= i < 29 ==> p[i] == pre[i]);
    assert(p.subrange(9, 12) =~= x.primary_color_1@);
    assert(p.subrange(12, 15) =~= x.primary_color_2@);
    assert(p.subrange(15, 18) =~= x.primary_color_3@);
    assert(p.subrange(18, 21) =~= x.white_point@);
}

/// `y` holds the same interface features as `x` (the raw payload aside).
pub open spec fn spec_features_agree(x: DisplayIdInterfaceFeatures, y: DisplayIdInterfaceFeatures) -> bool {
    &&& y.color_depth_rgb == x.color_depth_rgb
    &&& y.color_depth_ycbcr444 == x.color_depth_ycbcr444
    &&& y.color_depth_ycbcr422 == x.color_depth_ycbcr422
    &&& y.color_depth_ycbcr420 == x.color_depth_ycbcr420
    &&& y.min_ycbcr420_pixel_rate == x.min_ycbcr420_pixel_rate
    &&& y.audio_flags == x.audio_flags
    &&& y.colorspace_eotf_1 == x.colorspace_eotf_1
    &&& y.colorspace_eotf_2 == x.colorspace_eotf_2
    &&& y.additional_colorspace_count == x.additional_colorspace_count
}

/// A written interface features view reads back with its fields.
proof fn lemma_features_reads_back(tag: u8, x: DisplayIdInterfaceFeatures, p: Seq<u8>, y: DisplayIdInterfaceFeatures)
    requires
        tag == 0x0F || tag == 0x26,
        spec_encode_features(x) == Ok::<Seq<u8>, ExtensionWriteError>(p),
    ensures
        spec_did_view_error(tag, 0, p) is None,
        spec_features_of(p, y) ==> spec_features_agree(x, y),
{
}

/// `y` holds the same dynamic timing range as `x` (the raw payload aside).
pub open spec fn spec_dynamic_agree(x: DisplayIdDynamicVideoTimingRange, y: DisplayIdDynamicVideoTimingRange) -> bool {
    &&& y.min_pixel_clock_khz == x.min_pixel_clock_khz
    &&& y.max_pixel_clock_khz == x.max_pixel_clock_khz
    &&& y.min_vfreq_hz == x.min_vfreq_hz
    &&& y.max_vfreq_hz == x.max_vfreq_hz
    &&& y.seamless_dynamic_video_timing == x.seamless_dynamic_video_timing
}

/// A written dynamic video timing range reads back with its fields.
proof fn lemma_dynamic_reads_back(x: DisplayIdDynamicVideoTimingRange, p: Seq<u8>, y: DisplayIdDynamicVideoTimingRange)
    requires
        spec_encode_dynamic(0x25, x) == Ok::<Seq<u8>, ExtensionWriteError>(p),
    ensures
        spec_did_view_error(0x25, 0, p) is None,
        spec_dynamic_of(p, y) ==> spec_dynamic_agree(x, y),
{
    let lo = x.min_pixel_clock_khz - 1;
    let hi = x.max_pixel_clock_khz - 1;
    assert(p.subrange(0, 3) =~= spec_le24_bytes(lo));
    assert(p.subrange(3, 6) =~= spec_le24_bytes(hi));
    lemma_le24_read(p, 0, lo);
    lemma_le24_read(p, 3, hi);
    let base = if x.raw@.len() >= 9 { x.raw@ } else { spec_zeros(9) };
    let m = x.max_vfreq_hz;
    let b8 = (((base[8] / 4) % 32) * 4 + (if x.seamless_dynamic_video_timing { 128int } else { 0int }) + (m / 256)
        % 4) as u8;
    assert(p[7] == (m % 256) as u8 && p[8] == b8);
    let q = if x.seamless_dynamic_video_timing { 128int } else { 0int };
    let r = ((base[8] / 4) % 32) * 4 + q + (m / 256) % 4;
    assert((r % 4) * 256 + m % 256 == m && (r >= 128) == (q == 128) && 0 <= r < 256) by (nonlinear_arith)
        requires
            r == ((base[8] / 4) % 32) * 4 + q + (m / 256) % 4,
            q == 0 || q == 128,
            0 <= base[8] < 256,
            0 <= m <= 1023,
    ;
}

/// `y` holds the same 1.x timing range as `x` (the raw payload aside).
pub open spec fn spec_range1x_agree(x: DisplayIdVideoTimingRangeLimits, y: DisplayIdVideoTimingRangeLimits) -> bool {
    &&& y.min_pixel_clock_khz == x.min_pixel_clock_khz
    &&& y.max_pixel_clock_khz == x.max_pixel_clock_khz
    &&& y.min_hfreq_khz == x.min_hfreq_khz
    &&& y.max_hfreq_khz == x.max_hfreq_khz
    &&& y.min_h_blanking == x.min_h_blanking
    &&& y.min_vfreq_hz == x.min_vfreq_hz
    &&& y.max_vfreq_hz == x.max_vfreq_hz
    &&& y.min_v_blanking == x.min_v_blanking
    &&& y.supports_interlaced == x.supports_interlaced
    &&& y.supports_cvt == x.supports_cvt
    &&& y.supports_cvt_reduced_blanking == x.supports_cvt_reduced_blanking
    &&& y.discrete_frequency == x.discrete_frequency
}

/// A written 1.x video timing range whose raw payload is at most the fixed
/// 15 bytes reads back with its fields.
proof fn lemma_range1x_reads_back(x: DisplayIdVideoTimingRangeLimits, p: Seq<u8>, y: DisplayIdVideoTimingRangeLimits)
    requires
        spec_encode_range1x(0x09, x) == Ok::<Seq<u8>, ExtensionWriteError>(p),
        x.raw@.len() <= 15,
    ensures
        spec_did_view_error(0x09, 0, p) is None,
        spec_range1x_of(p, y) ==> spec_range1x_agree(x, y),
        spec_le24_at(p, 3) < 1677721,
{
    let lo = x.min_pixel_clock_khz / 10 - 1;
    let hi = x.max_pixel_clock_khz / 10 - 1;
    assert((lo + 1) * 10 == x.min_pixel_clock_khz && (hi + 1) * 10 == x.max_pixel_clock_khz && 0 <= lo <= hi
        < 0x100_0000) by (nonlinear_arith)
        requires
            lo == x.min_pixel_clock_khz / 10 - 1,
            hi == x.max_pixel_clock_khz / 10 - 1,
            x.min_pixel_clock_khz % 10 == 0,
            x.max_pixel_clock_khz % 10 == 0,
            1 <= x.min_pixel_clock_khz <= x.max_pixel_clock_khz <= 0x0100_0000,
    ;
    assert(p.len() == 15);
    assert(p.subrange(0, 3) =~= spec_le24_bytes(lo));
    assert(p.subrange(3, 6) =~= spec_le24_bytes(hi));
    assert(p.subrange(8, 10) =~= spec_le16_bytes(x.min_h_blanking as int));
    assert(p.subrange(12, 14) =~= spec_le16_bytes(x.min_v_blanking as int));
    lemma_le24_read(p, 0, lo);
    lemma_le24_read(p, 3, hi);
    lemma_le16_read(p, 8, x.min_h_blanking as int);
    lemma_le16_read(p, 12, x.min_v_blanking as int);
    let base = if x.raw@.len() >= 15 { x.raw@ } else { spec_zeros(15) };
    let f = base[14] % 16 + (if x.supports_interlaced { 128int } else { 0int }) + (if x.supports_cvt {
        64int
    } else {
        0int
    }) + (if x.supports_cvt_reduced_blanking { 32int } else { 0int }) + (if x.discrete_frequency {
        16int
    } else {
        0int
    });
    assert(p[14] == f as u8);
    let a = if x.supports_interlaced { 1int } else { 0int };
    let b = if x.supports_cvt { 1int } else { 0int };
    let c = if x.supports_cvt_reduced_blanking { 1int } else { 0int };
    let d = if x.discrete_frequency { 1int } else { 0int };
    let lowbits = base[14] % 16;
    assert(0 <= f < 256 && (f >= 128) == (a == 1) && (f / 64) % 2 == b && (f / 32) % 2 == c && (f / 16) % 2 == d)
        by (nonlinear_arith)
        requires
            f == lowbits + a * 128 + b * 64 + c * 32 + d * 16,
            0 <= lowbits < 16,
            0 <= a <= 1,
            0 <= b <= 1,
            0 <= c <= 1,
            0 <= d <= 1,
    ;
}

/// The bytes written for enumerated timing codes, position by position.
proof fn lemma_codes_bytes_layout(codes: Seq<u16>, two_byte: bool)
    ensures
        spec_codes_bytes(codes, two_byte).len() == (if two_byte { 2 * codes.len() as int } else { codes.len() as int }),
        forall|k: int|
            0 <= k < codes.len() ==> (if two_byte {
                spec_codes_bytes(codes, two_byte).subrange(2 * k, 2 * k + 2) == spec_le16_bytes(
                    #[trigger] codes[k] as int,
                )
            } else {
                spec_codes_bytes(codes, two_byte)[k] == codes[k] as u8
            }),
    decreases codes.len(),
{
    if codes.len() > 0 {
        let init = codes.drop_last();
        lemma_codes_bytes_layout(init, two_byte);
        let b = spec_codes_bytes(codes, two_byte);
        let bi = spec_codes_bytes(init, two_byte);
        assert forall|k: int| 0 <= k < codes.len() implies (if two_byte {
            b.subrange(2 * k, 2 * k + 2) == spec_le16_bytes(#[trigger] codes[k] as int)
        } else {
            b[k] == codes[k] as u8
        }) by {
            if k < init.len() {
                assert(init[k] == codes[k]);
                if two_byte {
                    assert(b.subrange(2 * k, 2 * k + 2) =~= bi.subrange(2 * k, 2 * k + 2));
                }
            } else if two_byte {
                assert(b.subrange(2 * k, 2 * k + 2) =~= spec_le16_bytes(codes.last() as int));
            }
        }
    }
}

/// Codes with no code wider than a byte among the first `n` each fit a byte.
proof fn lemma_no_wide_code(codes: Seq<u16>, n: int)
    requires
        0 <= n <= codes.len(),
        spec_first_wide_code(codes, n) is None,
    ensures
        forall|k: int| 0 <= k < n ==> #[trigger] codes[k] <= 255,
    decreases n,
{
    if n > 0 {
        lemma_no_wide_code(codes, n - 1);
    }
}

/// Written enumerated timing codes read back as the same codes, code type
/// and code size, provided there is at least one code.
proof fn lemma_enumerated_reads_back(
    tag: u8,
    code_type: u8,
    code_size: u8,
    codes: Seq<u16>,
    revision: u8,
    p: Seq<u8>,
)
    requires
        tag == 0x06 || tag == 0x23,
        spec_encode_enumerated(code_type, code_size, codes) == Ok::<(u8, Seq<u8>), ExtensionWriteError>(
            (revision, p),
        ),
        codes.len() > 0,
    ensures
        spec_did_view_error(tag, revision, p) is None,
        revision / 64 == code_type,
        (if (revision / 8) % 2 == 1 { 2u8 } else { 1u8 }) == code_size,
        spec_enumerated_codes(p, (revision / 8) % 2 == 1) == codes,
        revision / 64 <= 2,
        revision % 8 == 0,
        (revision / 16) % 4 == 0,
{
    let two = code_size == 2;
    let t = if two { 8int } else { 0int };
    assert(revision == code_type * 64 + t);
    assert(revision / 64 == code_type && ((revision / 8) % 2 == 1) == two && revision % 8 == 0 && (revision / 16) % 4
        == 0) by (nonlinear_arith)
        requires
            revision == code_type * 64 + t,
            0 <= code_type <= 2,
            t == 0 || t == 8,
            two == (t == 8),
    ;
    lemma_codes_bytes_layout(codes, two);
    let dec = spec_enumerated_codes(p, two);
    if two {
        assert(p.len() / 2 == codes.len()) by (nonlinear_arith)
            requires
                p.len() == 2 * codes.len(),
        ;
        assert forall|k: int| 0 <= k < codes.len() implies #[trigger] dec[k] == codes[k] by {
            assert(p.subrange(2 * k, 2 * k + 2) == spec_le16_bytes(codes[k] as int));
            lemma_le16_read(p, 2 * k, codes[k] as int);
        }
    } else {
        lemma_no_wide_code(codes, codes.len() as int);
        assert forall|k: int| 0 <= k < codes.len() implies #[trigger] dec[k] == codes[k] by {
            assert(p[k] == codes[k] as u8);
            assert(codes[k] <= 255);
        }
    }
    assert(dec =~= codes);
}

/// The bytes written for formula timings, record by record.
proof fn lemma_formulas_layout(ts: Seq<DisplayIdFormulaTiming>)
    ensures
        spec_formulas_bytes(ts).len() == 6 * ts.len(),
        forall|k: int|
            0 <= k < ts.len() ==> spec_formulas_bytes(ts).subrange(6 * k, 6 * k + 6) == spec_formula_bytes(
                #[trigger] ts[k],
            ),
    decreases ts.len(),
{
    if ts.len() > 0 {
        let init = ts.drop_last();
        lemma_formulas_layout(init);
        let b = spec_formulas_bytes(ts);
        let bi = spec_formulas_bytes(init);
        assert forall|k: int| 0 <= k < ts.len() implies b.subrange(6 * k, 6 * k + 6) == spec_formula_bytes(
            #[trigger] ts[k],
        ) by {
            if k < init.len() {
                assert(init[k] == ts[k]);
                assert(b.subrange(6 * k, 6 * k + 6) =~= bi.subrange(6 * k, 6 * k + 6));
            } else {
                assert(b.subrange(6 * k, 6 * k + 6) =~= spec_formula_bytes(ts.last()));
            }
        }
    }
}

/// Formula timings without a first error among the first `n` have none.
proof fn lemma_no_formula_error(ts: Seq<DisplayIdFormulaTiming>, n: int, tag: u8)
    requires
        0 <= n <= ts.len(),
        spec_first_formula_error(ts, n, tag) is None,
    ensures
        forall|k: int| 0 <= k < n ==> (#[trigger] spec_formula_error(ts[k], tag, k)) is None,
    decreases n,
{
    if n > 0 {
        lemma_no_formula_error(ts, n - 1, tag);
    }
}

/// One written formula timing reads back as itself.
proof fn lemma_formula_entry_reads_back(p: Seq<u8>, k: int, t: DisplayIdFormulaTiming)
    requires
        0 <= k,
        6 * k + 6 <= p.len(),
        p.subrange(6 * k, 6 * k + 6) == spec_formula_bytes(t),
        spec_formula_error(t, 0x24, k) is None,
        t.formula < 8,
    ensures
        spec_formula_entry_ok(p, k),
        spec_le16_at(p, 6 * k + 1) + 1 == t.h_active,
        spec_le16_at(p, 6 * k + 3) + 1 == t.v_active,
        p[6 * k + 5] + 1 == t.v_refresh_hz,
        p[6 * k] % 8 == t.formula,
        ((p[6 * k] / 16) % 2 == 1) == t.ntsc_refresh,
        (p[6 * k] / 32) % 4 == t.stereo_3d,
        p[6 * k] < 128,
        (p[6 * k] / 8) % 2 == 0,
{
    let r = spec_formula_bytes(t);
    assert(forall|j: int| 0 <= j < 6 ==> p[6 * k + j] == r[j]) by {
        assert forall|j: int| 0 <= j < 6 implies p[6 * k + j] == r[j] by {
            assert(p.subrange(6 * k, 6 * k + 6)[j] == p[6 * k + j]);
        }
    }
    assert(r.subrange(1, 3) =~= spec_le16_bytes(t.h_active - 1));
    assert(r.subrange(3, 5) =~= spec_le16_bytes(t.v_active - 1));
    lemma_le16_read(r, 1, t.h_active - 1);
    lemma_le16_read(r, 3, t.v_active - 1);
    assert(p[6 * k + 1] == r[1] && p[6 * k + 2] == r[2] && p[6 * k + 3] == r[3] && p[6 * k + 4] == r[4]);
    let ntsc = if t.ntsc_refresh { 1int } else { 0int };
    let b = t.stereo_3d * 32 + ntsc * 16 + t.formula % 8;
    assert(r[0] == b as u8);
    assert(r[5] == (t.v_refresh_hz - 1) as u8);
    assert(0 <= b < 128 && b % 8 == t.formula && (b / 16) % 2 == ntsc && (b / 32) % 4 == t.stereo_3d && (b / 8)
        % 2 == 0) by (nonlinear_arith)
        requires
            b == t.stereo_3d * 32 + ntsc * 16 + t.formula % 8,
            t.stereo_3d <= 3,
            t.formula < 8,
            0 <= ntsc <= 1,
    ;
}

/// Written formula timings whose formula codes fit three bits read back as
/// the same timings.
proof fn lemma_formula_reads_back(ts: Seq<DisplayIdFormulaTiming>, p: Seq<u8>)
    requires
        spec_encode_formula(0x24, ts) == Ok::<Seq<u8>, ExtensionWriteError>(p),
        forall|k: int| 0 <= k < ts.len() ==> (#[trigger] ts[k]).formula < 8,
    ensures
        spec_did_view_defined(0x24, p),
        spec_did_view_error(0x24, 0, p) is None,
        spec_formula_timings(p) == ts,
        spec_formula_bytes_canonical(p),
{
    lemma_formulas_layout(ts);
    lemma_no_formula_error(ts, ts.len() as int, 0x24);
    let n = ts.len();
    assert(p.len() / 6 == n && p.len() % 6 == 0) by (nonlinear_arith)
        requires
            p.len() == 6 * n,
    ;
    let dec = spec_formula_timings(p);
    assert forall|k: int| 0 <= k < n implies #[trigger] dec[k] == ts[k] && spec_formula_entry_ok(p, k) by {
        assert(spec_formula_error(ts[k], 0x24, k) is None);
        lemma_formula_entry_reads_back(p, k, ts[k]);
    }
    assert forall|k: int| 0 <= k < p.len() / 6 implies #[trigger] spec_formula_entry_ok(p, k) by {
        assert(dec[k] == ts[k]);
    }
    assert forall|k: int| 0 <= k < p.len() / 6 implies #[trigger] p[6 * k] < 128 && (p[6 * k] / 8) % 2 == 0 by {
        assert(dec[k] == ts[k]);
        assert(spec_formula_error(ts[k], 0x24, k) is None);
        lemma_formula_entry_reads_back(p, k, ts[k]);
    }
    assert(dec =~= ts);
}

/// Whether a detailed timing's aspect ratio code reads back as itself: a
/// reserved code is one of 9..=15.
pub open spec fn spec_aspect_canonical(a: DisplayIdAspectRatio) -> bool {
    a matches DisplayIdAspectRatio::Reserved(v) ==> 9 <= v < 16
}

/// Byte 3 of a written timing reads back as its aspect ratio, interlace and
/// stereo fields, and its top bit.
proof fn lemma_timing_byte3_reads_back(t: DisplayIdDetailedTiming, rev: u8)
    requires
        spec_aspect_canonical(t.aspect_ratio),
    ensures
        ({
            let f = spec_timing_byte3(t, rev);
            &&& spec_aspect_of(f % 16) == t.aspect_ratio
            &&& ((f / 16) % 2 == 1) == t.interlaced
            &&& spec_stereo_of(f / 32) == t.stereo_3d
            &&& (f >= 128) == (if rev < 2 { t.preferred } else { t.ycbcr420 })
        }),
{
    let n = spec_aspect_nibble(t.aspect_ratio);
    let i = if t.interlaced { 1int } else { 0int };
    let sb = spec_stereo_bits(t.stereo_3d);
    let top = if (if rev < 2 { t.preferred } else { t.ycbcr420 }) { 1int } else { 0int };
    let f = n + i * 16 + sb * 32 + top * 128;
    assert(n < 16 && sb <= 3);
    assert(spec_timing_byte3(t, rev) == f as u8);
    assert(0 <= f < 256 && f % 16 == n && (f / 16) % 2 == i && (f / 32) % 4 == sb && (f >= 128) == (top == 1))
        by (nonlinear_arith)
        requires
            f == n + i * 16 + sb * 32 + top * 128,
            0 <= n < 16,
            0 <= i <= 1,
            0 <= sb <= 3,
            0 <= top <= 1,
    ;
    assert(spec_aspect_of(n) == t.aspect_ratio);
    assert(spec_stereo_of((f / 32) as u8) == t.stereo_3d);
}

/// The stored fields of a written detailed timing.
proof fn lemma_timing_bytes_read(t: DisplayIdDetailedTiming, type_one: bool, rev: u8, index: int, tag: u8)
    requires
        spec_did_timing_error(t, index, type_one, tag) is None,
    ensures
        ({
            let b = spec_did_timing_bytes(t, type_one, rev);
            let unit = if type_one { t.pixel_clock_khz / 10 } else { t.pixel_clock_khz };
            &&& b.len() == 20
            &&& 1 <= unit <= 0x0100_0000
            &&& spec_le24_at(b, 0) == unit - 1
            &&& b[3] == spec_timing_byte3(t, rev)
            &&& spec_le16_at(b, 4) == t.h_active - 1
            &&& spec_le16_at(b, 6) == t.h_blank - 1
            &&& spec_le16_at(b, 8) == t.h_sync_offset - 1 + (if t.h_sync_positive { 32768int } else { 0int })
            &&& spec_le16_at(b, 10) == t.h_sync_width - 1
            &&& spec_le16_at(b, 12) == t.v_active - 1
            &&& spec_le16_at(b, 14) == t.v_blank - 1
            &&& spec_le16_at(b, 16) == t.v_sync_offset - 1 + (if t.v_sync_positive { 32768int } else { 0int })
            &&& spec_le16_at(b, 18) == t.v_sync_width - 1
            &&& 1 <= t.h_sync_offset <= 32768
            &&& 1 <= t.v_sync_offset <= 32768
        }),
{
    let b = spec_did_timing_bytes(t, type_one, rev);
    let unit = if type_one { t.pixel_clock_khz / 10 } else { t.pixel_clock_khz };
    assert(spec_timing_field_error(t, tag, index) is None);
    let hs = t.h_sync_offset - 1 + (if t.h_sync_positive { 32768int } else { 0int });
    let vs = t.v_sync_offset - 1 + (if t.v_sync_positive { 32768int } else { 0int });
    assert(b.subrange(0, 3) =~= spec_le24_bytes(unit - 1));
    assert(b.subrange(4, 6) =~= spec_le16_bytes(t.h_active - 1));
    assert(b.subrange(6, 8) =~= spec_le16_bytes(t.h_blank - 1));
    assert(b.subrange(8, 10) =~= spec_le16_bytes(hs));
    assert(b.subrange(10, 12) =~= spec_le16_bytes(t.h_sync_width - 1));
    assert(b.subrange(12, 14) =~= spec_le16_bytes(t.v_active - 1));
    assert(b.subrange(14, 16) =~= spec_le16_bytes(t.v_blank - 1));
    assert(b.subrange(16, 18) =~= spec_le16_bytes(vs));
    assert(b.subrange(18, 20) =~= spec_le16_bytes(t.v_sync_width - 1));
    lemma_le24_read(b, 0, unit - 1);
    lemma_le16_read(b, 4, t.h_active - 1);
    lemma_le16_read(b, 6, t.h_blank - 1);
    lemma_le16_read(b, 8, hs);
    lemma_le16_read(b, 10, t.h_sync_width - 1);
    lemma_le16_read(b, 12, t.v_active - 1);
    lemma_le16_read(b, 14, t.v_blank - 1);
    lemma_le16_read(b, 16, vs);
    lemma_le16_read(b, 18, t.v_sync_width - 1);
}

/// A written detailed timing reads back as itself under the revision it was
/// written with, when its aspect code is canonical and the top bit of byte 3
/// carries its only set flag (preferred before revision 2, YCbCr 4:2:0 from
/// it on).
#[verifier::spinoff_prover]
#[verifier::rlimit(40)]
proof fn lemma_timing_reads_back(t: DisplayIdDetailedTiming, type_one: bool, rev: u8, index: int, tag: u8)
    requires
        spec_did_timing_error(t, index, type_one, tag) is None,
        spec_aspect_canonical(t.aspect_ratio),
        rev < 2 ==> !t.ycbcr420,
        rev >= 2 ==> !t.preferred,
    ensures
        spec_did_timing(spec_did_timing_bytes(t, type_one, rev), type_one, rev as int) == t,
{
    let b = spec_did_timing_bytes(t, type_one, rev);
    let unit = if type_one { t.pixel_clock_khz / 10 } else { t.pixel_clock_khz };
    lemma_timing_bytes_read(t, type_one, rev, index, tag);
    if type_one {
        assert(t.pixel_clock_khz % 10 == 0);
        assert((unit - 1 + 1) * 10 == t.pixel_clock_khz) by (nonlinear_arith)
            requires
                unit == t.pixel_clock_khz / 10,
                t.pixel_clock_khz % 10 == 0,
        ;
    }
    lemma_timing_byte3_reads_back(t, rev);
    let d = spec_did_timing(b, type_one, rev as int);
    assert(d.pixel_clock_khz == t.pixel_clock_khz);
    assert(d.h_sync_offset == t.h_sync_offset && d.h_sync_positive == t.h_sync_positive);
    assert(d.v_sync_offset == t.v_sync_offset && d.v_sync_positive == t.v_sync_positive);
    assert(d.preferred == t.preferred && d.ycbcr420 == t.ycbcr420);
}

/// The bytes written for detailed timings, record by record.
proof fn lemma_timings_layout(ts: Seq<DisplayIdDetailedTiming>, type_one: bool, rev: u8)
    ensures
        spec_did_timings_bytes(ts, type_one, rev).len() == 20 * ts.len(),
        forall|k: int|
            0 <= k < ts.len() ==> spec_did_timings_bytes(ts, type_one, rev).subrange(20 * k, 20 * k + 20)
                == spec_did_timing_bytes(#[trigger] ts[k], type_one, rev),
    decreases ts.len(),
{
    if ts.len() > 0 {
        let init = ts.drop_last();
        lemma_timings_layout(init, type_one, rev);
        let b = spec_did_timings_bytes(ts, type_one, rev);
        let bi = spec_did_timings_bytes(init, type_one, rev);
        assert(spec_did_timing_bytes(ts.last(), type_one, rev).len() == 20);
        assert forall|k: int| 0 <= k < ts.len() implies b.subrange(20 * k, 20 * k + 20) == spec_did_timing_bytes(
            #[trigger] ts[k],
            type_one,
            rev,
        ) by {
            if k < init.len() {
                assert(init[k] == ts[k]);
                assert(b.subrange(20 * k, 20 * k + 20) =~= bi.subrange(20 * k, 20 * k + 20));
            } else {
                assert(b.subrange(20 * k, 20 * k + 20) =~= spec_did_timing_bytes(ts.last(), type_one, rev));
            }
        }
    }
}

/// Timings without a first error among the first `n` have none.
proof fn lemma_no_timing_error(ts: Seq<DisplayIdDetailedTiming>, n: int, type_one: bool, tag: u8)
    requires
        0 <= n <= ts.len(),
        spec_first_did_timing_error(ts, n, type_one, tag) is None,
    ensures
        forall|k: int| 0 <= k < n ==> (#[trigger] spec_did_timing_error(ts[k], k, type_one, tag)) is None,
    decreases n,
{
    if n > 0 {
        lemma_no_timing_error(ts, n - 1, type_one, tag);
    }
}

/// Whether detailed timings are read back as written: every aspect code is
/// canonical, and no timing is marked preferred when some timing uses
/// YCbCr 4:2:0 (the two share one bit, chosen by the block revision).
pub open spec fn spec_timings_canonical(ts: Seq<DisplayIdDetailedTiming>) -> bool {
    &&& forall|k: int| 0 <= k < ts.len() ==> spec_aspect_canonical((#[trigger] ts[k]).aspect_ratio)
    &&& (exists|k: int| 0 <= k < ts.len() && (#[trigger] ts[k]).ycbcr420) ==> forall|k: int|
        0 <= k < ts.len() ==> !(#[trigger] ts[k]).preferred
}

/// Byte 3 of a written timing has its top bit set exactly when the flag it
/// carries under the revision is set.
proof fn lemma_timing_top_bit(t: DisplayIdDetailedTiming, type_one: bool, rev: u8)
    ensures
        (spec_did_timing_bytes(t, type_one, rev)[3] >= 128) == (if rev < 2 { t.preferred } else { t.ycbcr420 }),
{
    let n = spec_aspect_nibble(t.aspect_ratio);
    let i = if t.interlaced { 1int } else { 0int };
    let sb = spec_stereo_bits(t.stereo_3d);
    let top = if (if rev < 2 { t.preferred } else { t.ycbcr420 }) { 1int } else { 0int };
    let f = n + i * 16 + sb * 32 + top * 128;
    assert(n < 16 && sb <= 3);
    assert(0 <= f < 256 && (f >= 128) == (top == 1)) by (nonlinear_arith)
        requires
            f == n + i * 16 + sb * 32 + top * 128,
            0 <= n < 16,
            0 <= i <= 1,
            0 <= sb <= 3,
            0 <= top <= 1,
    ;
    assert(spec_did_timing_bytes(t, type_one, rev)[3] == spec_timing_byte3(t, rev));
}

/// The revision written for detailed timings is canonical for the bytes
/// written.
proof fn lemma_detailed_revision_canonical(tag: u8, ts: Seq<DisplayIdDetailedTiming>, revision: u8, p: Seq<u8>)
    requires
        tag == 0x03 || tag == 0x22,
        spec_encode_timings(tag, ts) == Ok::<(u8, Seq<u8>), ExtensionWriteError>((revision, p)),
    ensures
        spec_timing_revision_canonical(revision, p),
{
    let type_one = tag == 0x03;
    let any = exists|k: int| 0 <= k < ts.len() && (#[trigger] ts[k]).ycbcr420;
    if any {
        assert(revision == 2);
        lemma_timings_layout(ts, type_one, revision);
        let k = choose|k: int| 0 <= k < ts.len() && (#[trigger] ts[k]).ycbcr420;
        let t = ts[k];
        lemma_timing_top_bit(t, type_one, revision);
        assert(p.subrange(20 * k, 20 * k + 20) == spec_did_timing_bytes(t, type_one, revision));
        assert(p[20 * k + 3] == spec_did_timing_bytes(t, type_one, revision)[3]);
        assert(k < p.len() / 20) by (nonlinear_arith)
            requires
                p.len() == 20 * ts.len(),
                0 <= k < ts.len(),
        ;
    } else {
        assert(revision == 0);
    }
}

/// Written detailed timings read back as the same timings under the
/// revision they were written with.
proof fn lemma_detailed_reads_back(tag: u8, ts: Seq<DisplayIdDetailedTiming>, revision: u8, p: Seq<u8>)
    requires
        tag == 0x03 || tag == 0x22,
        spec_encode_timings(tag, ts) == Ok::<(u8, Seq<u8>), ExtensionWriteError>((revision, p)),
        spec_timings_canonical(ts),
    ensures
        spec_did_view_error(tag, revision, p) is None,
        spec_did_timings(p, tag == 0x03, revision as int % 8) == ts,
        spec_timing_revision_canonical(revision, p),
{
    let type_one = tag == 0x03;
    let any = exists|k: int| 0 <= k < ts.len() && (#[trigger] ts[k]).ycbcr420;
    assert(revision == (if any { 2u8 } else { 0u8 }));
    assert(revision as int % 8 == revision as int);
    lemma_timings_layout(ts, type_one, revision);
    lemma_no_timing_error(ts, ts.len() as int, type_one, tag);
    let n = ts.len();
    assert(p.len() / 20 == n && p.len() % 20 == 0) by (nonlinear_arith)
        requires
            p.len() == 20 * n,
    ;
    let dec = spec_did_timings(p, type_one, revision as int);
    assert forall|k: int| 0 <= k < n implies #[trigger] dec[k] == ts[k] by {
        let t = ts[k];
        assert(spec_did_timing_error(t, k, type_one, tag) is None);
        assert(spec_aspect_canonical(t.aspect_ratio));
        if !any {
            assert(!t.ycbcr420);
        } else {
            assert(!t.preferred);
        }
        lemma_timing_reads_back(t, type_one, revision, k, tag);
        assert(p.subrange(20 * k, 20 * k + 20) == spec_did_timing_bytes(t, type_one, revision));
    }
    assert(dec =~= ts);
    lemma_detailed_revision_canonical(tag, ts, revision, p);
}

/// `y` holds the same tiled topology as `x` (the raw payload and the OUI
/// flag, which follows the tag, aside).
pub open spec fn spec_tiled_agree(x: DisplayIdTiledDisplayTopology, y: DisplayIdTiledDisplayTopology) -> bool {
    &&& y.caps == x.caps
    &&& y.tiles_h == x.tiles_h
    &&& y.tiles_v == x.tiles_v
    &&& y.tile_location_h == x.tile_location_h
    &&& y.tile_location_v == x.tile_location_v
    &&& y.tile_width == x.tile_width
    &&& y.tile_height == x.tile_height
    &&& y.pixel_multiplier == x.pixel_multiplier
    &&& y.bevel_top == x.bevel_top
    &&& y.bevel_bottom == x.bevel_bottom
    &&& y.bevel_right == x.bevel_right
    &&& y.bevel_left == x.bevel_left
    &&& y.vendor_id@ == x.vendor_id@
    &&& y.product_code == x.product_code
    &&& y.serial_number == x.serial_number
}

/// Whether a tiled topology reads back as written: bevel sizes present
/// exactly when the bevel bit is set.
pub open spec fn spec_tiled_canonical(x: DisplayIdTiledDisplayTopology) -> bool {
    let bevel = (x.caps / 64) % 2 == 1;
    &&& x.bevel_top is Some == bevel
    &&& x.bevel_bottom is Some == bevel
    &&& x.bevel_right is Some == bevel
    &&& x.bevel_left is Some == bevel
}

/// A written tiled topology reads back with its fields.
#[verifier::rlimit(30)]
proof fn lemma_tiled_reads_back(tag: u8, x: DisplayIdTiledDisplayTopology, p: Seq<u8>, y: DisplayIdTiledDisplayTopology)
    requires
        tag == 0x12 || tag == 0x28,
        spec_encode_tiled(tag, x) == Ok::<Seq<u8>, ExtensionWriteError>(p),
        spec_tiled_canonical(x),
    ensures
        spec_did_view_defined(tag, p),
        spec_did_view_error(tag, 0, p) is None,
        spec_tiled_of(tag, p, y) ==> spec_tiled_agree(x, y),
        p.len() <= 121,
{
    let nh = x.tiles_h - 1;
    let nv = x.tiles_v - 1;
    let lh = x.tile_location_h;
    let lv = x.tile_location_v;
    assert(0 <= nh < 64 && 0 <= nv < 64 && lh < 64 && lv < 64);
    let b1 = (nh % 16) * 16 + nv % 16;
    let b2 = (lh % 16) * 16 + lv % 16;
    let b3 = ((nh / 16) % 4) * 64 + ((nv / 16) % 4) * 16 + ((lh / 16) % 4) * 4 + (lv / 16) % 4;
    assert(p[1] == b1 as u8 && p[2] == b2 as u8 && p[3] == b3 as u8);
    assert(0 <= b1 < 256 && 0 <= b2 < 256 && 0 <= b3 < 256 && b1 / 16 + ((b3 / 64) % 4) * 16 == nh && b1 % 16 + ((
    b3 / 16) % 4) * 16 == nv && b2 % 16 + (b3 % 4) * 16 == lv && b2 / 16 + ((b3 / 4) % 4) * 16 == lh)
        by (nonlinear_arith)
        requires
            b1 == (nh % 16) * 16 + nv % 16,
            b2 == (lh % 16) * 16 + lv % 16,
            b3 == ((nh / 16) % 4) * 64 + ((nv / 16) % 4) * 16 + ((lh / 16) % 4) * 4 + (lv / 16) % 4,
            0 <= nh < 64,
            0 <= nv < 64,
            0 <= lh < 64,
            0 <= lv < 64,
    ;
    let f = spec_tile_fields(p);
    assert(f.0 == nh && f.1 == nv && f.2 == lh && f.3 == lv);
    assert(p.subrange(4, 6) =~= spec_le16_bytes(x.tile_width - 1));
    assert(p.subrange(6, 8) =~= spec_le16_bytes(x.tile_height - 1));
    assert(p.subrange(16, 18) =~= spec_le16_bytes(x.product_code as int));
    assert(p.subrange(18, 22) =~= spec_le32_bytes(x.serial_number as int));
    lemma_le16_read(p, 4, x.tile_width - 1);
    lemma_le16_read(p, 6, x.tile_height - 1);
    lemma_le16_read(p, 16, x.product_code as int);
    lemma_le32_read(p, 18, x.serial_number as int);
    assert(p.subrange(13, 16) =~= x.vendor_id@);
}

/// Whether a DisplayID tag has a typed view of its own.
pub open spec fn spec_did_tag_modeled(tag: u8) -> bool {
    tag == 0x00 || tag == 0x20 || tag == 0x01 || tag == 0x21 || tag == 0x03 || tag == 0x22 || tag == 0x0F || tag
        == 0x26 || tag == 0x09 || tag == 0x25 || tag == 0x06 || tag == 0x23 || tag == 0x24 || tag == 0x12 || tag
        == 0x28 || tag == 0x81
}

/// Whether a typed DisplayID view is read back as written: the conditions
/// above for detailed timings, formula timings (codes below 8), enumerated
/// timings (at least one code), 1.x ranges (a raw payload of at most the
/// fixed 15 bytes) and tiled topologies, and an unknown view under a tag
/// without a typed view. Embedded CTA views are not covered here.
pub open spec fn spec_did_view_reads_back(v: DisplayIdDataBlockView) -> bool {
    match v {
        DisplayIdDataBlockView::DetailedTiming { timings } => spec_timings_canonical(timings@),
        DisplayIdDataBlockView::FormulaTiming { timings } => forall|k: int|
            0 <= k < timings@.len() ==> (#[trigger] timings@[k]).formula < 8,
        DisplayIdDataBlockView::EnumeratedTiming { codes, .. } => codes@.len() > 0,
        DisplayIdDataBlockView::VideoTimingRange1x { range } => range.raw@.len() <= 15,
        DisplayIdDataBlockView::TiledDisplayTopology { topology } => spec_tiled_canonical(topology),
        DisplayIdDataBlockView::Cta { .. } => false,
        DisplayIdDataBlockView::Unknown { tag, .. } => !spec_did_tag_modeled(tag),
        _ => true,
    }
}

/// `w` is the same kind of view as `v` with the same typed fields (raw
/// payload copies and tag-derived OUI flags aside).
pub open spec fn spec_did_fields_agree(v: DisplayIdDataBlockView, w: DisplayIdDataBlockView) -> bool {
    match v {
        DisplayIdDataBlockView::ProductIdentification { product } => w matches DisplayIdDataBlockView::ProductIdentification {
            product: y,
        } && spec_product_agree(product, y),
        DisplayIdDataBlockView::DisplayParameters { parameters } => w matches DisplayIdDataBlockView::DisplayParameters {
            parameters: y,
        } && spec_params_agree(parameters, y),
        DisplayIdDataBlockView::DetailedTiming { timings } => w matches DisplayIdDataBlockView::DetailedTiming {
            timings: y,
        } && y@ == timings@,
        DisplayIdDataBlockView::InterfaceFeatures { features } => w matches DisplayIdDataBlockView::InterfaceFeatures {
            features: y,
        } && spec_features_agree(features, y),
        DisplayIdDataBlockView::DynamicVideoTimingRange { range } =>
            w matches DisplayIdDataBlockView::DynamicVideoTimingRange { range: y } && spec_dynamic_agree(range, y),
        DisplayIdDataBlockView::VideoTimingRange1x { range } => w matches DisplayIdDataBlockView::VideoTimingRange1x {
            range: y,
        } && spec_range1x_agree(range, y),
        DisplayIdDataBlockView::FormulaTiming { timings } => w matches DisplayIdDataBlockView::FormulaTiming {
            timings: y,
        } && y@ == timings@,
        DisplayIdDataBlockView::EnumeratedTiming { code_type, code_size, codes } =>
            w matches DisplayIdDataBlockView::EnumeratedTiming { code_type: t, code_size: z, codes: c } && t
            == code_type && z == code_size && c@ == codes@,
        DisplayIdDataBlockView::TiledDisplayTopology { topology } =>
            w matches DisplayIdDataBlockView::TiledDisplayTopology { topology: y } && spec_tiled_agree(topology, y),
        DisplayIdDataBlockView::Cta { data_blocks, .. } => w matches DisplayIdDataBlockView::Cta {
            data_blocks: d,
            ..
        } && d@ == data_blocks@,
        DisplayIdDataBlockView::Unknown { tag, payload } => w matches DisplayIdDataBlockView::Unknown {
            tag: t,
            payload: rest,
        } && t == tag && rest@ == payload@,
    }
}

/// Writing a typed DisplayID view under a tag and reading the block back
/// gives a view with the same typed fields: the written block always has a
/// typed view, and that view is of the same kind with the same values, for
/// every view that reads back as written in the sense of
/// `spec_did_view_reads_back`.
pub proof fn lemma_did_view_write_then_read(
    v: DisplayIdDataBlockView,
    tag: u8,
    revision: u8,
    payload: Seq<u8>,
    w: DisplayIdDataBlockView,
)
    requires
        spec_did_encode(v, tag) == Ok::<(u8, Seq<u8>), ExtensionWriteError>((revision, payload)),
        spec_did_view_reads_back(v),
    ensures
        spec_did_view_defined(tag, payload),
        spec_did_view_error(tag, revision, payload) is None,
        spec_did_view_matches(tag, revision, payload, w) ==> spec_did_fields_agree(v, w),
{
    match v {
        DisplayIdDataBlockView::ProductIdentification { product } => {
            lemma_product_reads_back(tag, product, payload, w->product);
        },
        DisplayIdDataBlockView::DisplayParameters { parameters } => {
            lemma_params_reads_back(tag, parameters, payload, w->parameters);
        },
        DisplayIdDataBlockView::DetailedTiming { timings } => {
            lemma_detailed_reads_back(tag, timings@, revision, payload);
        },
        DisplayIdDataBlockView::InterfaceFeatures { features } => {
            lemma_features_reads_back(tag, features, payload, w->features);
        },
        DisplayIdDataBlockView::DynamicVideoTimingRange { range } => {
            lemma_dynamic_reads_back(range, payload, w->DynamicVideoTimingRange_range);
        },
        DisplayIdDataBlockView::VideoTimingRange1x { range } => {
            lemma_range1x_reads_back(range, payload, w->VideoTimingRange1x_range);
        },
        DisplayIdDataBlockView::FormulaTiming { timings } => {
            lemma_formula_reads_back(timings@, payload);
        },
        DisplayIdDataBlockView::EnumeratedTiming { code_type, code_size, codes } => {
            lemma_enumerated_reads_back(tag, code_type, code_size, codes@, revision, payload);
        },
        DisplayIdDataBlockView::TiledDisplayTopology { topology } => {
            lemma_tiled_reads_back(tag, topology, payload, w->topology);
        },
        DisplayIdDataBlockView::Cta { .. } => {},
        DisplayIdDataBlockView::Unknown { .. } => {},
    }
}

// ---------------------------------------------------------------------------
// Writing is stable
// ---------------------------------------------------------------------------

/// A typed view read from a data block (other than embedded CTA) reads back
/// as written.
proof fn lemma_read_view_reads_back(tag: u8, revision: u8, p: Seq<u8>, v: DisplayIdDataBlockView)
    requires
        spec_did_view_error(tag, revision, p) is None,
        spec_did_view_matches(tag, revision, p, v),
        tag != 0x81,
    ensures
        spec_did_view_reads_back(v),
{
    if tag == 0x03 || tag == 0x22 {
        let ts = v->DetailedTiming_timings@;
        assert forall|k: int| 0 <= k < ts.len() implies spec_aspect_canonical((#[trigger] ts[k]).aspect_ratio) by {
            let b = p.subrange(20 * k, 20 * k + 20);
            assert(ts[k] == spec_did_timing(b, tag == 0x03, revision as int % 8));
        }
    } else if tag == 0x24 {
        let ts = v->FormulaTiming_timings@;
        assert forall|k: int| 0 <= k < ts.len() implies (#[trigger] ts[k]).formula < 8 by {
            assert(ts[k].formula == p[6 * k] % 8);
        }
    } else if tag == 0x06 || tag == 0x23 {
        let two = (revision / 8) % 2 == 1;
        if two {
            assert(p.len() / 2 >= 1) by (nonlinear_arith)
                requires
                    p.len() > 0,
                    p.len() % 2 == 0,
            ;
        }
        assert(v->codes@.len() > 0);
    }
}

/// The block written for a view that reads back as written is canonical.
proof fn lemma_written_did_block_canonical(v: DisplayIdDataBlockView, tag: u8, revision: u8, p: Seq<u8>)
    requires
        spec_did_encode(v, tag) == Ok::<(u8, Seq<u8>), ExtensionWriteError>((revision, p)),
        spec_did_view_reads_back(v),
    ensures
        spec_did_block_canonical(tag, revision, p),
{
    match v {
        DisplayIdDataBlockView::ProductIdentification { product } => {
            lemma_product_reads_back(tag, product, p, product);
        },
        DisplayIdDataBlockView::DisplayParameters { parameters } => {
            assert(p.len() == parameters.raw@.len());
        },
        DisplayIdDataBlockView::InterfaceFeatures { features } => {
            let base = if features.raw@.len() >= 9 { features.raw@ } else { spec_zeros(9) };
            assert(p.len() == base.len());
        },
        DisplayIdDataBlockView::DynamicVideoTimingRange { range } => {
            let base = if range.raw@.len() >= 9 { range.raw@ } else { spec_zeros(9) };
            assert(p.len() == base.len());
        },
        DisplayIdDataBlockView::DetailedTiming { timings } => {
            lemma_detailed_revision_canonical(tag, timings@, revision, p);
            lemma_timings_layout(timings@, tag == 0x03, revision);
        },
        DisplayIdDataBlockView::VideoTimingRange1x { range } => {
            lemma_range1x_reads_back(range, p, range);
        },
        DisplayIdDataBlockView::FormulaTiming { timings } => {
            lemma_formula_reads_back(timings@, p);
        },
        DisplayIdDataBlockView::EnumeratedTiming { code_type, code_size, codes } => {
            lemma_enumerated_reads_back(tag, code_type, code_size, codes@, revision, p);
        },
        DisplayIdDataBlockView::TiledDisplayTopology { topology } => {
            lemma_tiled_reads_back(tag, topology, p, topology);
        },
        _ => {},
    }
}

/// Writing a typed view read from a DisplayID data block is stable:
/// whenever the view is written under a tag, the written block has a typed
/// view again, writing that view under the same tag gives the same block,
/// and both views choose the same canonical tag. For an embedded CTA block,
/// `sv` and `wv` are the typed views of the embedded CTA data blocks of the
/// source and of the written block, as `CtaDataBlock::view` returns them
/// for every readable data block; for other blocks they play no part.
pub proof fn lemma_did_write_is_stable(
    source_tag: u8,
    source_revision: u8,
    source: Seq<u8>,
    v: DisplayIdDataBlockView,
    tag: u8,
    revision: u8,
    p: Seq<u8>,
    w: DisplayIdDataBlockView,
    sv: Seq<CtaDataBlockView>,
    wv: Seq<CtaDataBlockView>,
)
    requires
        spec_did_view_error(source_tag, source_revision, source) is None,
        spec_did_view_matches(source_tag, source_revision, source, v),
        spec_did_encode(v, tag) == Ok::<(u8, Seq<u8>), ExtensionWriteError>((revision, p)),
        source_tag == 0x81 ==> forall|k: int|
            0 <= k < spec_parse_cta(source, 0, 0, false)->Ok_0.len() ==> spec_cta_view_matches(
                (#[trigger] spec_parse_cta(source, 0, 0, false)->Ok_0[k]).0,
                spec_parse_cta(source, 0, 0, false)->Ok_0[k].1,
                sv[k],
            ),
        source_tag == 0x81 ==> forall|k: int|
            0 <= k < spec_parse_cta(p, 0, 0, false)->Ok_0.len() ==> spec_cta_view_matches(
                (#[trigger] spec_parse_cta(p, 0, 0, false)->Ok_0[k]).0,
                spec_parse_cta(p, 0, 0, false)->Ok_0[k].1,
                wv[k],
            ),
    ensures
        spec_did_view_defined(tag, p),
        spec_did_view_error(tag, revision, p) is None,
        spec_did_view_matches(tag, revision, p, w) ==> spec_did_encode(w, tag) == Ok::<
            (u8, Seq<u8>),
            ExtensionWriteError,
        >((revision, p)) && spec_canonical_tag(w) == spec_canonical_tag(v),
{
    if source_tag == 0x81 {
        assert(tag == 0x81);
        lemma_did_cta_write_is_stable(source_revision, source, v, revision, p, w, sv, wv);
    } else {
        lemma_read_view_reads_back(source_tag, source_revision, source, v);
        lemma_did_view_write_then_read(v, tag, revision, p, w);
        lemma_written_did_block_canonical(v, tag, revision, p);
        if spec_did_view_matches(tag, revision, p, w) {
            lemma_did_block_read_then_write(tag, revision, p, w);
        }
    }
}

/// Byte 3 of a DisplayID detailed timing reads by the DisplayID table: the
/// low nibble is the aspect ratio (0 for 1:1, 1 for 5:4, 2 for 4:3, 3 for
/// 15:9, 4 for 16:9, 5 for 16:10, 6 for 64:27, 7 for 256:135, 8 for
/// calculated, any other value reserved), bit 4 marks interlacing, bits 6:5
/// are the stereo mode (00 mono, 01 stereo, 10 selected by user action, 11
/// reserved), and bit 7 is the preferred flag before block revision 2 and
/// the YCbCr 4:2:0 flag from revision 2 on.
pub proof fn lemma_did_timing_byte3_table(b: Seq<u8>, type_one: bool, block_revision: int)
    requires
        b.len() >= 20,
    ensures
        ({
        let t = spec_did_timing(b, type_one, block_revision);
        &&& (b[3] % 16 == 0) == (t.aspect_ratio == DisplayIdAspectRatio::OneToOne)
        &&& (b[3] % 16 == 1) == (t.aspect_ratio == DisplayIdAspectRatio::FiveToFour)
        &&& (b[3] % 16 == 2) == (t.aspect_ratio == DisplayIdAspectRatio::FourToThree)
        &&& (b[3] % 16 == 3) == (t.aspect_ratio == DisplayIdAspectRatio::FifteenToNine)
        &&& (b[3] % 16 == 4) == (t.aspect_ratio == DisplayIdAspectRatio::SixteenToNine)
        &&& (b[3] % 16 == 5) == (t.aspect_ratio == DisplayIdAspectRatio::SixteenToTen)
        &&& (b[3] % 16 == 6) == (t.aspect_ratio == DisplayIdAspectRatio::SixtyFourToTwentySeven)
        &&& (b[3] % 16 == 7) == (t.aspect_ratio == DisplayIdAspectRatio::TwoHundredFiftySixToOneThirtyFive)
        &&& (b[3] % 16 == 8) == (t.aspect_ratio == DisplayIdAspectRatio::Calculated)
        &&& b[3] % 16 >= 9 ==> t.aspect_ratio == DisplayIdAspectRatio::Reserved(b[3] % 16)
        &&& t.interlaced == ((b[3] / 16) % 2 == 1)
        &&& ((b[3] / 32) % 4 == 0) == (t.stereo_3d == DisplayIdStereo3d::Mono)
        &&& ((b[3] / 32) % 4 == 1) == (t.stereo_3d == DisplayIdStereo3d::Stereo3d)
        &&& ((b[3] / 32) % 4 == 2) == (t.stereo_3d == DisplayIdStereo3d::UserAction)
        &&& ((b[3] / 32) % 4 == 3) == (t.stereo_3d == DisplayIdStereo3d::Reserved)
        &&& t.preferred == (block_revision < 2 && b[3] >= 128)
        &&& t.ycbcr420 == (block_revision >= 2 && b[3] >= 128)
    }),
{
}

/// Writing a DisplayID detailed timing puts the same table in byte 3: the
/// aspect-ratio code in the low nibble, interlacing in bit 4, the stereo
/// code in bits 6:5 and, in bit 7, the preferred flag before block revision
/// 2 and the YCbCr 4:2:0 flag from revision 2 on.
pub proof fn lemma_did_timing_byte3_encode(t: DisplayIdDetailedTiming, block_revision: u8)
    ensures
        ({
        let x = spec_timing_byte3(t, block_revision);
        &&& t.aspect_ratio == DisplayIdAspectRatio::OneToOne ==> x % 16 == 0
        &&& t.aspect_ratio == DisplayIdAspectRatio::FiveToFour ==> x % 16 == 1
        &&& t.aspect_ratio == DisplayIdAspectRatio::FourToThree ==> x % 16 == 2
        &&& t.aspect_ratio == DisplayIdAspectRatio::FifteenToNine ==> x % 16 == 3
        &&& t.aspect_ratio == DisplayIdAspectRatio::SixteenToNine ==> x % 16 == 4
        &&& t.aspect_ratio == DisplayIdAspectRatio::SixteenToTen ==> x % 16 == 5
        &&& t.aspect_ratio == DisplayIdAspectRatio::SixtyFourToTwentySeven ==> x % 16 == 6
        &&& t.aspect_ratio == DisplayIdAspectRatio::TwoHundredFiftySixToOneThirtyFive ==> x % 16 == 7
        &&& t.aspect_ratio == DisplayIdAspectRatio::Calculated ==> x % 16 == 8
        &&& (x / 16) % 2 == (if t.interlaced { 1int } else { 0int })
        &&& t.stereo_3d == DisplayIdStereo3d::Mono ==> (x / 32) % 4 == 0
        &&& t.stereo_3d == DisplayIdStereo3d::Stereo3d ==> (x / 32) % 4 == 1
        &&& t.stereo_3d == DisplayIdStereo3d::UserAction ==> (x / 32) % 4 == 2
        &&& t.stereo_3d == DisplayIdStereo3d::Reserved ==> (x / 32) % 4 == 3
        &&& (x >= 128) == (if block_revision < 2 { t.preferred } else { t.ycbcr420 })
    }),
{
}

} // verus!
