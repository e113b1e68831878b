//! When a CTA-861 extension can be built from data blocks and timings, and
//! what the built block reads back as.
use vstd::prelude::*;
use super::{
    ExtensionError, spec_cta_build, spec_collection_len, spec_collection_bytes, spec_first_cta_block_error,
    spec_first_timing_error, spec_dtd_bytes, spec_cta_blocks, spec_cta_dtds, spec_cta_dtds_of,
    lemma_cta_build_header, lemma_cta_build_then_read, lemma_no_block_error_at, lemma_no_error_from_each,
    lemma_dtd_bytes_len, lemma_collection_len_bound,
};
use super::cta::spec_cta_block_error;
use crate::edid::{DecodedDtd, spec_decode_dtd, spec_encode_dtd, spec_extension_error, spec_header};
use crate::timing::{DetailedTiming, spec_dtd_error};

verus! {

/// Encoded length of CTA data blocks: one header byte plus the payload each.
pub open spec fn spec_cta_size(bv: Seq<(u8, Seq<u8>)>) -> int
    decreases bv.len(),
{
    if bv.len() == 0 {
        0
    } else {
        spec_cta_size(bv.drop_last()) + 1 + bv.last().1.len()
    }
}

/// The inputs from which a CTA-861 extension can be built: every data block
/// has a tag of at most 7 and a payload of at most 31 bytes, the blocks take
/// at most 123 bytes, the timings fit, 18 bytes each, in the space left
/// after them, and every timing has a DTD encoding.
pub open spec fn spec_cta_buildable(bv: Seq<(u8, Seq<u8>)>, t: Seq<DetailedTiming>) -> bool {
    &&& forall|k: int| 0 <= k < bv.len() ==> (#[trigger] bv[k]).0 <= 7 && bv[k].1.len() <= 31
    &&& spec_cta_size(bv) <= 123
    &&& t.len() <= (123 - spec_cta_size(bv)) / 18
    &&& forall|k: int| 0 <= k < t.len() ==> spec_dtd_error(#[trigger] t[k]) is None
}

proof fn lemma_collection_len_saturates(bv: Seq<(u8, Seq<u8>)>, n: int)
    requires
        0 <= n <= bv.len(),
    ensures
        spec_cta_size(bv.take(n)) >= 0,
        spec_collection_len(bv, n) == if spec_cta_size(bv.take(n)) > usize::MAX {
            usize::MAX as int
        } else {
            spec_cta_size(bv.take(n))
        },
    decreases n,
{
    if n > 0 {
        assert(bv.take(n).drop_last() =~= bv.take(n - 1));
        assert(bv.take(n).last() == bv[n - 1]);
        lemma_collection_len_saturates(bv, n - 1);
    } else {
        assert(bv.take(n) =~= Seq::<(u8, Seq<u8>)>::empty());
    }
}

proof fn lemma_first_timing_error_none(t: Seq<DetailedTiming>, n: int)
    requires
        0 <= n <= t.len(),
    ensures
        spec_first_timing_error(t, n) is None <==> forall|k: int|
            0 <= k < n ==> spec_dtd_error(#[trigger] t[k]) is None,
    decreases n,
{
    if n > 0 {
        lemma_first_timing_error_none(t, n - 1);
        if spec_first_timing_error(t, n) is None {
            assert forall|k: int| 0 <= k < n implies spec_dtd_error(#[trigger] t[k]) is None by {
                if k < n - 1 {
                    assert(spec_first_timing_error(t, n - 1) is None);
                }
            }
        }
    }
}

proof fn lemma_dtd_bytes_at(t: Seq<DetailedTiming>, k: int)
    requires
        0 <= k < t.len(),
    ensures
        spec_dtd_bytes(t).subrange(18 * k, 18 * k + 18) == spec_encode_dtd(t[k]),
    decreases t.len(),
{
    let p = t.drop_last();
    lemma_dtd_bytes_len(p);
    assert(spec_dtd_bytes(t) == spec_dtd_bytes(p) + spec_encode_dtd(t.last()));
    if k == t.len() - 1 {
        assert(spec_dtd_bytes(t).subrange(18 * k, 18 * k + 18) =~= spec_encode_dtd(t[k]));
    } else {
        lemma_dtd_bytes_at(p, k);
        assert(spec_dtd_bytes(t).subrange(18 * k, 18 * k + 18) =~= spec_dtd_bytes(p).subrange(
            18 * k,
            18 * k + 18,
        ));
    }
}

/// A representable timing is written with a nonzero pixel clock and reads
/// back as a timing.
proof fn lemma_encoded_dtd_reads(t: DetailedTiming)
    requires
        spec_dtd_error(t) is None,
    ensures
        spec_encode_dtd(t).len() == 18,
        !(spec_encode_dtd(t)[0] == 0 && spec_encode_dtd(t)[1] == 0),
        spec_decode_dtd(spec_encode_dtd(t)) is Some,
{
    let d = spec_encode_dtd(t);
    let pc = (t.pixel_clock_khz + 5) / 10;
    assert(1000 <= pc < 65536);
    assert(d[0] + 256 * d[1] == pc);
    assert(d[17] != 1);
}

/// The DTDs read from offset `d + 18 * k` of a block that holds the
/// encodings of `t` from `d` on, followed by zero padding.
proof fn lemma_cta_dtds_read(out: Seq<u8>, d: int, t: Seq<DetailedTiming>, k: int)
    requires
        out.len() == 128,
        4 <= d,
        d + 18 * t.len() <= 127,
        0 <= k <= t.len(),
        forall|j: int| d <= j < d + 18 * t.len() ==> out[j] == #[trigger] spec_dtd_bytes(t)[j - d],
        forall|j: int| d + 18 * t.len() <= j < 127 ==> #[trigger] out[j] == 0,
        forall|i: int| 0 <= i < t.len() ==> spec_dtd_error(#[trigger] t[i]) is None,
    ensures
        spec_cta_dtds(out, d + 18 * k).len() == t.len() - k,
        forall|i: int|
            0 <= i < t.len() - k ==> spec_decode_dtd(spec_encode_dtd(t[k + i])) == Some(
                #[trigger] spec_cta_dtds(out, d + 18 * k)[i],
            ),
    decreases t.len() - k,
{
    let off = d + 18 * k;
    if k == t.len() {
        if off + 18 <= 127 {
            assert(out[off] == 0 && out[off + 1] == 0);
        }
        assert(spec_cta_dtds(out, off) =~= Seq::<DecodedDtd>::empty());
    } else {
        lemma_dtd_bytes_len(t);
        lemma_dtd_bytes_at(t, k);
        lemma_encoded_dtd_reads(t[k]);
        let e = spec_encode_dtd(t[k]);
        assert(out.subrange(off, off + 18) =~= e) by {
            assert forall|j: int| 0 <= j < 18 implies out.subrange(off, off + 18)[j] == e[j] by {
                assert(out[off + j] == spec_dtd_bytes(t)[off + j - d]);
                assert(spec_dtd_bytes(t).subrange(18 * k, 18 * k + 18)[j] == spec_dtd_bytes(t)[18 * k + j]);
            }
        }
        lemma_cta_dtds_read(out, d, t, k + 1);
        let first = spec_decode_dtd(e)->Some_0;
        let rest = spec_cta_dtds(out, off + 18);
        assert(d + 18 * (k + 1) == off + 18);
        assert(spec_cta_dtds(out, off) == seq![first] + rest);
        assert forall|i: int| 0 <= i < t.len() - k implies spec_decode_dtd(spec_encode_dtd(t[k + i])) == Some(
            #[trigger] spec_cta_dtds(out, off)[i],
        ) by {
            if i > 0 {
                assert(spec_cta_dtds(out, off)[i] == rest[i - 1]);
                assert(t[k + i] == t[(k + 1) + (i - 1)]);
            }
        }
    }
}

/// A CTA-861 extension can be built from data blocks and timings exactly
/// when `spec_cta_buildable` holds. The built block starts with the CTA tag,
/// the revision, the offset of the first DTD (4 plus the blocks' encoded
/// length) and the DTD count; it reads back as the same data blocks and as
/// one DTD per timing, in order; and it passes the extension-block checks.
pub proof fn lemma_cta_build_law(revision: u8, bv: Seq<(u8, Seq<u8>)>, t: Seq<DetailedTiming>)
    ensures
        spec_cta_build(revision, bv, t) is Ok <==> spec_cta_buildable(bv, t),
        spec_cta_build(revision, bv, t) matches Ok(out) ==> {
            &&& out.len() == 128
            &&& out[0] == 0x02
            &&& out[1] == revision
            &&& out[2] == 4 + spec_cta_size(bv)
            &&& out[3] == t.len()
            &&& spec_cta_blocks(out) == Ok::<Seq<(u8, Seq<u8>)>, ExtensionError>(bv)
            &&& spec_cta_dtds_of(out) matches Ok(ds) && ds.len() == t.len() && forall|k: int|
                0 <= k < t.len() ==> spec_decode_dtd(spec_encode_dtd(t[k])) == Some(#[trigger] ds[k])
            &&& spec_extension_error(out) is None
        },
{
    let n = bv.len() as int;
    lemma_collection_len_saturates(bv, n);
    assert(bv.take(n) =~= bv);
    lemma_first_timing_error_none(t, t.len() as int);
    if spec_first_cta_block_error(bv, n) is None {
        assert forall|k: int| 0 <= k < n implies (#[trigger] bv[k]).0 <= 7 && bv[k].1.len() <= 31 by {
            lemma_no_block_error_at(bv, n, k);
        }
    }
    if forall|k: int| 0 <= k < n ==> (#[trigger] bv[k]).0 <= 7 && bv[k].1.len() <= 31 {
        assert forall|k: int| 0 <= k < n implies spec_cta_block_error(bv[k].0, bv[k].1) is None by {
            assert(bv[k].0 <= 7 && bv[k].1.len() <= 31);
        }
        lemma_no_error_from_each(bv, n);
    }
    if spec_cta_build(revision, bv, t) is Ok {
        let out = spec_cta_build(revision, bv, t)->Ok_0;
        let total = spec_collection_len(bv, n);
        lemma_cta_build_header(revision, bv, t);
        lemma_cta_build_then_read(revision, bv, t);
        lemma_collection_len_bound(bv, n);
        lemma_dtd_bytes_len(t);
        let dd = 4 + total;
        let body = seq![0x02u8, revision, dd as u8, t.len() as u8] + spec_collection_bytes(bv) + spec_dtd_bytes(
            t,
        ) + Seq::new((124 - total - 18 * t.len()) as nat, |i: int| 0u8);
        assert(out == body.update(127, out[127]));
        assert forall|j: int| dd <= j < dd + 18 * t.len() implies out[j] == #[trigger] spec_dtd_bytes(t)[j - dd] by {
            assert(out[j] == body[j]);
        }
        assert forall|j: int| dd + 18 * t.len() <= j < 127 implies #[trigger] out[j] == 0 by {
            assert(out[j] == body[j]);
        }
        lemma_cta_dtds_read(out, dd, t, 0);
        assert(spec_cta_dtds_of(out) == Ok::<Seq<DecodedDtd>, ExtensionError>(spec_cta_dtds(out, dd)));
        assert(out.take(8)[0] != spec_header()[0]);
    }
}

} // verus!
