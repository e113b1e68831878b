//! Writing the typed view of a DisplayID embedded CTA block is stable: the
//! written block reads back, and writing its view again gives it unchanged.
use vstd::prelude::*;
use super::{ExtensionError, ExtensionWriteError, spec_parse_cta, spec_collection_bytes, lemma_parse_collection,
    lemma_no_error_from_each,
};
use super::cta::{CtaDataBlockView, spec_cta_view_error, spec_cta_view_matches, spec_to_data_block,
    spec_cta_block_bytes, spec_cta_block_error, spec_cta_views,
};
use super::cta_roundtrip::lemma_cta_write_is_stable;
use super::display_id::{DisplayIdDataBlockView, spec_did_view_error, spec_did_view_matches, spec_did_encode,
    spec_did_view_defined, spec_canonical_tag, spec_cta_reencode, spec_cta_embedded_bytes,
};

verus! {

/// The typed view that the writer re-encodes an embedded CTA data block from.
pub open spec fn spec_embedded_view(b: (u8, Seq<u8>)) -> CtaDataBlockView {
    choose|v: CtaDataBlockView| spec_cta_view_matches(b.0, b.1, v)
}

/// The data blocks that an embedded CTA collection is written back as.
pub open spec fn spec_cta_rewritten(bv: Seq<(u8, Seq<u8>)>) -> Seq<(u8, Seq<u8>)> {
    Seq::new(bv.len(), |k: int| spec_to_data_block(spec_embedded_view(bv[k]))->Ok_0)
}

proof fn lemma_embedded_each_ok(bv: Seq<(u8, Seq<u8>)>, n: int, k: int)
    requires
        0 <= k < n <= bv.len(),
        spec_cta_embedded_bytes(bv, n) is Ok,
    ensures
        spec_cta_reencode(bv[k].0, bv[k].1) is Ok,
    decreases n,
{
    if k < n - 1 {
        lemma_embedded_each_ok(bv, n - 1, k);
    }
}

proof fn lemma_embedded_bytes(bv: Seq<(u8, Seq<u8>)>, c: Seq<(u8, Seq<u8>)>, n: int)
    requires
        0 <= n <= bv.len(),
        n <= c.len(),
        forall|k: int|
            0 <= k < n ==> spec_cta_reencode(bv[k].0, bv[k].1) == Ok::<Seq<u8>, ExtensionWriteError>(
                spec_cta_block_bytes(#[trigger] c[k].0, c[k].1),
            ),
    ensures
        spec_cta_embedded_bytes(bv, n) == Ok::<Seq<u8>, ExtensionWriteError>(spec_collection_bytes(c.take(n))),
    decreases n,
{
    if n > 0 {
        lemma_embedded_bytes(bv, c, n - 1);
        assert(c.take(n).drop_last() =~= c.take(n - 1));
        assert(c.take(n).last() == c[n - 1]);
    } else {
        assert(c.take(n) =~= Seq::<(u8, Seq<u8>)>::empty());
    }
}

/// Re-encoding embedded CTA data blocks that have typed views gives the
/// encoding of `spec_cta_rewritten`, which reads back as those blocks.
proof fn lemma_embedded_rewrite(bs: Seq<(u8, Seq<u8>)>, sv: Seq<CtaDataBlockView>, p: Seq<u8>)
    requires
        spec_cta_embedded_bytes(bs, bs.len() as int) == Ok::<Seq<u8>, ExtensionWriteError>(p),
        forall|k: int| 0 <= k < bs.len() ==> spec_cta_view_matches((#[trigger] bs[k]).0, bs[k].1, sv[k]),
    ensures
        p == spec_collection_bytes(spec_cta_rewritten(bs)),
        spec_parse_cta(p, 0, 0, false) == Ok::<Seq<(u8, Seq<u8>)>, ExtensionError>(spec_cta_rewritten(bs)),
        forall|k: int|
            0 <= k < bs.len() ==> spec_cta_view_error((#[trigger] bs[k]).0, bs[k].1) is None
                && spec_cta_view_matches(bs[k].0, bs[k].1, spec_embedded_view(bs[k])) && spec_to_data_block(
                spec_embedded_view(bs[k]),
            ) == Ok::<(u8, Seq<u8>), ExtensionWriteError>(spec_cta_rewritten(bs)[k]),
{
    let n = bs.len() as int;
    let c = spec_cta_rewritten(bs);
    assert forall|k: int|
        #![trigger bs[k]]
        #![trigger c[k]]
        0 <= k < n implies spec_cta_reencode(bs[k].0, bs[k].1) == Ok::<Seq<u8>, ExtensionWriteError>(
        spec_cta_block_bytes(c[k].0, c[k].1),
    ) && spec_cta_block_error(c[k].0, c[k].1) is None && spec_cta_view_error(bs[k].0, bs[k].1) is None
        && spec_cta_view_matches(bs[k].0, bs[k].1, spec_embedded_view(bs[k])) && spec_to_data_block(
        spec_embedded_view(bs[k]),
    ) == Ok::<(u8, Seq<u8>), ExtensionWriteError>(c[k]) by {
        lemma_embedded_each_ok(bs, n, k);
        assert(spec_cta_view_matches(bs[k].0, bs[k].1, sv[k]));
    }
    lemma_embedded_bytes(bs, c, n);
    assert(c.take(n) =~= c);
    lemma_no_error_from_each(c, n);
    lemma_parse_collection(c, Seq::empty(), 0);
    assert(Seq::<u8>::empty() + spec_collection_bytes(c) =~= p);
}

/// The rewritten blocks, re-encoded again from their own typed views, give
/// the same bytes.
proof fn lemma_embedded_rewrite_again(bs: Seq<(u8, Seq<u8>)>, wv: Seq<CtaDataBlockView>)
    requires
        forall|k: int|
            0 <= k < bs.len() ==> spec_cta_view_error((#[trigger] bs[k]).0, bs[k].1) is None
                && spec_cta_view_matches(bs[k].0, bs[k].1, spec_embedded_view(bs[k])) && spec_to_data_block(
                spec_embedded_view(bs[k]),
            ) == Ok::<(u8, Seq<u8>), ExtensionWriteError>(spec_cta_rewritten(bs)[k]),
        forall|k: int|
            0 <= k < bs.len() ==> spec_cta_view_matches(
                (#[trigger] spec_cta_rewritten(bs)[k]).0,
                spec_cta_rewritten(bs)[k].1,
                wv[k],
            ),
    ensures
        spec_cta_embedded_bytes(spec_cta_rewritten(bs), bs.len() as int) == Ok::<Seq<u8>, ExtensionWriteError>(
            spec_collection_bytes(spec_cta_rewritten(bs)),
        ),
{
    let n = bs.len() as int;
    let c = spec_cta_rewritten(bs);
    assert forall|k: int| 0 <= k < n implies spec_cta_reencode(c[k].0, c[k].1) == Ok::<Seq<u8>, ExtensionWriteError>(
        spec_cta_block_bytes(#[trigger] c[k].0, c[k].1),
    ) by {
        assert(spec_cta_view_matches(c[k].0, c[k].1, wv[k]));
        let u = spec_embedded_view(c[k]);
        assert(spec_cta_view_matches(c[k].0, c[k].1, u));
        assert(spec_cta_view_error(bs[k].0, bs[k].1) is None);
        lemma_cta_write_is_stable(bs[k].0, bs[k].1, spec_embedded_view(bs[k]), c[k].0, c[k].1, u);
    }
    lemma_embedded_bytes(c, c, n);
    assert(c.take(n) =~= c);
}

/// Writing the typed view read from a DisplayID embedded CTA block (tag
/// 0x81) is stable: whenever the view is written, the written block has a
/// typed view again, writing that view gives the same block, and both views
/// choose the same canonical tag. `sv` and `wv` are the typed views of the
/// embedded CTA data blocks of the source and of the written block, as
/// `CtaDataBlock::view` returns them for every readable data block.
#[verifier::rlimit(40)]
pub proof fn lemma_did_cta_write_is_stable(
    source_revision: u8,
    source: Seq<u8>,
    v: DisplayIdDataBlockView,
    revision: u8,
    p: Seq<u8>,
    w: DisplayIdDataBlockView,
    sv: Seq<CtaDataBlockView>,
    wv: Seq<CtaDataBlockView>,
)
    requires
        spec_did_view_error(0x81, source_revision, source) is None,
        spec_did_view_matches(0x81, source_revision, source, v),
        spec_did_encode(v, 0x81) == Ok::<(u8, Seq<u8>), ExtensionWriteError>((revision, p)),
        forall|k: int|
            0 <= k < spec_parse_cta(source, 0, 0, false)->Ok_0.len() ==> spec_cta_view_matches(
                (#[trigger] spec_parse_cta(source, 0, 0, false)->Ok_0[k]).0,
                spec_parse_cta(source, 0, 0, false)->Ok_0[k].1,
                sv[k],
            ),
        forall|k: int|
            0 <= k < spec_parse_cta(p, 0, 0, false)->Ok_0.len() ==> spec_cta_view_matches(
                (#[trigger] spec_parse_cta(p, 0, 0, false)->Ok_0[k]).0,
                spec_parse_cta(p, 0, 0, false)->Ok_0[k].1,
                wv[k],
            ),
    ensures
        spec_did_view_defined(0x81, p),
        spec_did_view_error(0x81, revision, p) is None,
        spec_did_view_matches(0x81, revision, p, w) ==> spec_did_encode(w, 0x81) == Ok::<
            (u8, Seq<u8>),
            ExtensionWriteError,
        >((revision, p)) && spec_canonical_tag(w) == spec_canonical_tag(v),
{
    let bs = spec_parse_cta(source, 0, 0, false)->Ok_0;
    let n = bs.len() as int;
    assert(bs == spec_cta_views(v->Cta_data_blocks@));
    assert(spec_cta_embedded_bytes(bs, n) == Ok::<Seq<u8>, ExtensionWriteError>(p) && p.len() <= 121
        && revision == 0);
    lemma_embedded_rewrite(bs, sv, p);
    let c = spec_cta_rewritten(bs);
    if spec_did_view_matches(0x81, revision, p, w) {
        assert(spec_cta_views(w->Cta_data_blocks@) == c);
        assert forall|k: int| 0 <= k < n implies spec_cta_view_matches(
            (#[trigger] c[k]).0,
            c[k].1,
            wv[k],
        ) by {
            assert(spec_parse_cta(p, 0, 0, false)->Ok_0[k] == c[k]);
        }
        lemma_embedded_rewrite_again(bs, wv);
    }
}

} // verus!
