//! Canonical ordering of DisplayID data blocks: by tag, then revision, then
//! payload bytes compared lexicographically.
use vstd::prelude::*;
use vstd::multiset::Multiset;
use super::ExtensionWriteError;
use super::display_id::{
    DisplayIdDataBlock, DisplayIdOrdering, spec_did_views, spec_did_blocks, spec_did_build,
    spec_parse_did, spec_did_total, spec_first_did_block_error, lemma_did_build_then_read,
};
use crate::edid::EdidBlock;

verus! {

broadcast use vstd::seq_lib::group_to_multiset_ensures;

/// Lexicographic order of byte strings: a proper prefix comes first.
pub open spec fn spec_bytes_le(x: Seq<u8>, y: Seq<u8>) -> bool
    decreases x.len(),
{
    if x.len() == 0 {
        true
    } else if y.len() == 0 {
        false
    } else if x[0] != y[0] {
        x[0] < y[0]
    } else {
        spec_bytes_le(x.drop_first(), y.drop_first())
    }
}

/// Order of data blocks: tag, then revision, then payload.
pub open spec fn spec_block_le(a: (u8, u8, Seq<u8>), b: (u8, u8, Seq<u8>)) -> bool {
    if a.0 != b.0 {
        a.0 < b.0
    } else if a.1 != b.1 {
        a.1 < b.1
    } else {
        spec_bytes_le(a.2, b.2)
    }
}

/// The blocks are in canonical order.
pub open spec fn spec_blocks_sorted(s: Seq<(u8, u8, Seq<u8>)>) -> bool {
    forall|i: int, j: int| 0 <= i < j < s.len() ==> spec_block_le(s[i], s[j])
}

/// The canonical order of a list of blocks: the sorted arrangement of the
/// same blocks (unique, see `lemma_sorted_unique`).
pub open spec fn spec_canonical_blocks(bv: Seq<(u8, u8, Seq<u8>)>) -> Seq<(u8, u8, Seq<u8>)> {
    choose|r: Seq<(u8, u8, Seq<u8>)>| spec_blocks_sorted(r) && r.to_multiset() == bv.to_multiset()
}

proof fn lemma_bytes_le_total(x: Seq<u8>, y: Seq<u8>)
    ensures
        spec_bytes_le(x, y) || spec_bytes_le(y, x),
        spec_bytes_le(x, y) && spec_bytes_le(y, x) ==> x == y,
    decreases x.len(),
{
    if x.len() > 0 && y.len() > 0 && x[0] == y[0] {
        lemma_bytes_le_total(x.drop_first(), y.drop_first());
        if spec_bytes_le(x, y) && spec_bytes_le(y, x) {
            assert(x =~= seq![x[0]] + x.drop_first());
            assert(y =~= seq![y[0]] + y.drop_first());
        }
    } else if x.len() == 0 && y.len() == 0 {
        assert(x =~= y);
    }
}

proof fn lemma_bytes_le_trans(x: Seq<u8>, y: Seq<u8>, z: Seq<u8>)
    requires
        spec_bytes_le(x, y),
        spec_bytes_le(y, z),
    ensures
        spec_bytes_le(x, z),
    decreases x.len(),
{
    if x.len() > 0 && y.len() > 0 && z.len() > 0 && x[0] == y[0] && y[0] == z[0] {
        lemma_bytes_le_trans(x.drop_first(), y.drop_first(), z.drop_first());
    }
}

/// The block order is total, transitive and antisymmetric.
proof fn lemma_block_le_order(a: (u8, u8, Seq<u8>), b: (u8, u8, Seq<u8>), c: (u8, u8, Seq<u8>))
    ensures
        spec_block_le(a, b) || spec_block_le(b, a),
        spec_block_le(a, b) && spec_block_le(b, a) ==> a == b,
        spec_block_le(a, b) && spec_block_le(b, c) ==> spec_block_le(a, c),
{
    lemma_bytes_le_total(a.2, b.2);
    if spec_block_le(a, b) && spec_block_le(b, c) && a.0 == b.0 && b.0 == c.0 && a.1 == b.1 && b.1
        == c.1 {
        lemma_bytes_le_trans(a.2, b.2, c.2);
    }
}

/// Two sorted arrangements of the same blocks are the same list.
pub proof fn lemma_sorted_unique(r1: Seq<(u8, u8, Seq<u8>)>, r2: Seq<(u8, u8, Seq<u8>)>)
    requires
        spec_blocks_sorted(r1),
        spec_blocks_sorted(r2),
        r1.to_multiset() == r2.to_multiset(),
    ensures
        r1 == r2,
    decreases r1.len(),
{
    broadcast use vstd::multiset::group_multiset_axioms;

    assert(r1.len() == r1.to_multiset().len());
    assert(r2.len() == r2.to_multiset().len());
    if r1.len() == 0 {
        assert(r1 =~= r2);
    } else {
        let a = r1[0];
        let b = r2[0];
        assert(r1.to_multiset().contains(a));
        assert(r2.to_multiset().contains(a));
        let ia = choose|i: int| 0 <= i < r2.len() && r2[i] == a;
        assert(r1.to_multiset().contains(b));
        let ib = choose|i: int| 0 <= i < r1.len() && r1[i] == b;
        if ia > 0 {
            assert(spec_block_le(b, a));
        }
        if ib > 0 {
            assert(spec_block_le(a, b));
        }
        lemma_block_le_order(a, b, a);
        assert(a == b);
        let t1 = r1.drop_first();
        let t2 = r2.drop_first();
        assert(r1 =~= seq![a] + t1);
        assert(r2 =~= seq![a] + t2);
        assert(r1.remove(0) =~= t1);
        assert(r2.remove(0) =~= t2);
        vstd::seq_lib::to_multiset_remove(r1, 0);
        vstd::seq_lib::to_multiset_remove(r2, 0);
        assert(spec_blocks_sorted(t1)) by {
            assert forall|i: int, j: int| 0 <= i < j < t1.len() implies spec_block_le(t1[i], t1[j]) by {
                assert(r1[i + 1] == t1[i] && r1[j + 1] == t1[j]);
            }
        }
        assert(spec_blocks_sorted(t2)) by {
            assert forall|i: int, j: int| 0 <= i < j < t2.len() implies spec_block_le(t2[i], t2[j]) by {
                assert(r2[i + 1] == t2[i] && r2[j + 1] == t2[j]);
            }
        }
        lemma_sorted_unique(t1, t2);
    }
}

/// Inserting a block right after every block that sorts before it keeps
/// the list sorted.
proof fn lemma_insert_sorted(t: Seq<(u8, u8, Seq<u8>)>, x: (u8, u8, Seq<u8>), p: int)
    requires
        spec_blocks_sorted(t),
        0 <= p <= t.len(),
        forall|i: int| 0 <= i < p ==> spec_block_le(#[trigger] t[i], x),
        p < t.len() ==> !spec_block_le(t[p], x),
    ensures
        spec_blocks_sorted(t.insert(p, x)),
{
    if p < t.len() {
        lemma_block_le_order(t[p], x, x);
        assert forall|j: int| p <= j < t.len() implies spec_block_le(x, #[trigger] t[j]) by {
            if j > p {
                lemma_block_le_order(x, t[p], t[j]);
            }
        }
    }
    let nv = t.insert(p, x);
    assert forall|i: int, j: int| 0 <= i < j < nv.len() implies spec_block_le(nv[i], nv[j]) by {
        if i < p && j > p {
            lemma_block_le_order(nv[i], x, nv[j]);
        }
    }
}

/// Index of the first block of `t`, from `p` on, that does not sort before `x`.
spec fn spec_insert_pos(t: Seq<(u8, u8, Seq<u8>)>, x: (u8, u8, Seq<u8>), p: int) -> int
    decreases t.len() - p,
{
    if p < 0 || p >= t.len() || !spec_block_le(t[p], x) {
        p
    } else {
        spec_insert_pos(t, x, p + 1)
    }
}

/// Insertion sort, as a witness that every list has a sorted arrangement.
spec fn spec_insertion_sort(s: Seq<(u8, u8, Seq<u8>)>) -> Seq<(u8, u8, Seq<u8>)>
    decreases s.len(),
{
    if s.len() == 0 {
        s
    } else {
        let t = spec_insertion_sort(s.drop_last());
        t.insert(spec_insert_pos(t, s.last(), 0), s.last())
    }
}

proof fn lemma_insert_pos(t: Seq<(u8, u8, Seq<u8>)>, x: (u8, u8, Seq<u8>), p: int)
    requires
        0 <= p <= t.len(),
        forall|i: int| 0 <= i < p ==> spec_block_le(#[trigger] t[i], x),
    ensures
        p <= spec_insert_pos(t, x, p) <= t.len(),
        forall|i: int| 0 <= i < spec_insert_pos(t, x, p) ==> spec_block_le(#[trigger] t[i], x),
        spec_insert_pos(t, x, p) < t.len() ==> !spec_block_le(t[spec_insert_pos(t, x, p)], x),
    decreases t.len() - p,
{
    if p < t.len() && spec_block_le(t[p], x) {
        lemma_insert_pos(t, x, p + 1);
    }
}

proof fn lemma_insertion_sort(s: Seq<(u8, u8, Seq<u8>)>)
    ensures
        spec_blocks_sorted(spec_insertion_sort(s)),
        spec_insertion_sort(s).to_multiset() == s.to_multiset(),
    decreases s.len(),
{
    if s.len() > 0 {
        let t = spec_insertion_sort(s.drop_last());
        lemma_insertion_sort(s.drop_last());
        lemma_insert_pos(t, s.last(), 0);
        let p = spec_insert_pos(t, s.last(), 0);
        lemma_insert_sorted(t, s.last(), p);
        vstd::seq_lib::to_multiset_insert(t, p, s.last());
        vstd::seq_lib::to_multiset_build(s.drop_last(), s.last());
        assert(s.drop_last().push(s.last()) =~= s);
    }
}

/// Lexicographic comparison of two byte strings.
fn bytes_le(x: &Vec<u8>, y: &Vec<u8>) -> (r: bool)
    ensures
        r == spec_bytes_le(x@, y@),
{
    let mut i: usize = 0;
    assert(x@.skip(0) =~= x@);
    assert(y@.skip(0) =~= y@);
    while i < x.len() && i < y.len()
        invariant
            i <= x@.len(),
            i <= y@.len(),
            spec_bytes_le(x@, y@) == spec_bytes_le(x@.skip(i as int), y@.skip(i as int)),
        decreases x@.len() - i,
    {
        if x[i] != y[i] {
            return x[i] < y[i];
        }
        assert(x@.skip(i as int).drop_first() =~= x@.skip(i + 1));
        assert(y@.skip(i as int).drop_first() =~= y@.skip(i + 1));
        i = i + 1;
    }
    i == x.len()
}

/// Canonical comparison of two data blocks.
fn block_le(a: &DisplayIdDataBlock, b: &DisplayIdDataBlock) -> (r: bool)
    ensures
        r == spec_block_le((a.tag, a.revision, a.payload@), (b.tag, b.revision, b.payload@)),
{
    if a.tag != b.tag {
        a.tag < b.tag
    } else if a.revision != b.revision {
        a.revision < b.revision
    } else {
        bytes_le(&a.payload, &b.payload)
    }
}

/// Sort data blocks into canonical order.
fn sort_blocks(blocks: Vec<DisplayIdDataBlock>) -> (sorted: Vec<DisplayIdDataBlock>)
    ensures
        spec_blocks_sorted(spec_did_views(sorted@)),
        spec_did_views(sorted@).to_multiset() == spec_did_views(blocks@).to_multiset(),
{
    let ghost all = spec_did_views(blocks@);
    let mut rest = blocks;
    let mut sorted: Vec<DisplayIdDataBlock> = Vec::new();
    while rest.len() > 0
        invariant
            spec_blocks_sorted(spec_did_views(sorted@)),
            spec_did_views(sorted@).to_multiset().add(spec_did_views(rest@).to_multiset())
                == all.to_multiset(),
        decreases rest@.len(),
    {
        let ghost before_rest = spec_did_views(rest@);
        let ghost before_sorted = spec_did_views(sorted@);
        let x = rest.pop().unwrap();
        let ghost xv = (x.tag, x.revision, x.payload@);
        proof {
            assert(before_rest =~= spec_did_views(rest@).push(xv));
        }
        let mut p: usize = 0;
        while p < sorted.len() && block_le(&sorted[p], &x)
            invariant
                p <= sorted@.len(),
                before_sorted == spec_did_views(sorted@),
                xv == (x.tag, x.revision, x.payload@),
                forall|i: int| 0 <= i < p ==> spec_block_le(#[trigger] before_sorted[i], xv),
            decreases sorted@.len() - p,
        {
            p = p + 1;
        }
        proof {
            lemma_insert_sorted(before_sorted, xv, p as int);
        }
        sorted.insert(p, x);
        proof {
            let nv = spec_did_views(sorted@);
            assert(nv =~= before_sorted.insert(p as int, xv));
            vstd::seq_lib::to_multiset_insert(before_sorted, p as int, xv);
            vstd::seq_lib::to_multiset_build(spec_did_views(rest@), xv);
            assert(nv.to_multiset().add(spec_did_views(rest@).to_multiset()) =~= all.to_multiset());
        }
    }
    proof {
        assert(spec_did_views(rest@) =~= Seq::<(u8, u8, Seq<u8>)>::empty());
        assert(spec_did_views(sorted@).to_multiset() =~= all.to_multiset());
    }
    sorted
}

/// The sorted arrangement that `sort_blocks` produces is the canonical one.
proof fn lemma_canonical_is(r: Seq<(u8, u8, Seq<u8>)>, bv: Seq<(u8, u8, Seq<u8>)>)
    requires
        spec_blocks_sorted(r),
        r.to_multiset() == bv.to_multiset(),
    ensures
        spec_canonical_blocks(bv) == r,
{
    let c = spec_canonical_blocks(bv);
    assert(spec_blocks_sorted(c) && c.to_multiset() == bv.to_multiset());
    lemma_sorted_unique(c, r);
}

impl EdidBlock {
    /// Re-order DisplayID data blocks according to the ordering policy.
    ///
    /// `PreserveSourceOrder` is a no-op that keeps the block bytes unchanged;
    /// `Canonical` deterministically sorts the data blocks and is idempotent.
    pub fn reorder_display_id_data_blocks(&mut self, ordering: DisplayIdOrdering) -> (res: Result<
        (),
        ExtensionWriteError,
    >)
        ensures
            ordering == DisplayIdOrdering::PreserveSourceOrder ==> res is Ok && final(self).raw@
                == old(self).raw@,
            ordering == DisplayIdOrdering::Canonical ==> match spec_did_blocks(old(self).raw@) {
                Err(e) => res == Err::<(), ExtensionWriteError>(
                    ExtensionWriteError::InvalidDisplayIdLayout { source: e },
                ),
                Ok(bv) => match spec_did_build(
                    old(self).raw@[1],
                    old(self).raw@[3],
                    old(self).raw@[4],
                    spec_canonical_blocks(bv),
                ) {
                    Ok(b) => res is Ok && final(self).raw@ == b,
                    Err(e) => res == Err::<(), ExtensionWriteError>(e),
                },
            },
            ordering == DisplayIdOrdering::Canonical && spec_did_blocks(old(self).raw@) is Ok ==> res is Ok,
            res is Err ==> final(self).raw@ == old(self).raw@,
    {
        match ordering {
            DisplayIdOrdering::PreserveSourceOrder => Ok(()),
            DisplayIdOrdering::Canonical => {
                let blocks = match self.display_id_data_blocks() {
                    Ok(b) => b,
                    Err(source) => {
                        return Err(ExtensionWriteError::InvalidDisplayIdLayout { source });
                    },
                };
                let sorted = sort_blocks(blocks);
                proof {
                    lemma_canonical_is(spec_did_views(sorted@), spec_did_views(blocks@));
                    lemma_canonical_idempotent(self.raw@);
                }
                self.replace_display_id_data_blocks(sorted.as_slice())
            },
        }
    }
}

/// Encoded size of data blocks: a three-byte header plus the payload each.
pub open spec fn spec_did_size(bv: Seq<(u8, u8, Seq<u8>)>) -> int
    decreases bv.len(),
{
    if bv.len() == 0 {
        0
    } else {
        spec_did_size(bv.drop_last()) + 3 + bv.last().2.len()
    }
}

proof fn lemma_did_size_concat(a: Seq<(u8, u8, Seq<u8>)>, b: Seq<(u8, u8, Seq<u8>)>)
    ensures
        spec_did_size(a + b) == spec_did_size(a) + spec_did_size(b),
    decreases b.len(),
{
    if b.len() > 0 {
        assert((a + b).drop_last() =~= a + b.drop_last());
        assert((a + b).last() == b.last());
        lemma_did_size_concat(a, b.drop_last());
    } else {
        assert(a + b =~= a);
    }
}

proof fn lemma_did_size_remove(s: Seq<(u8, u8, Seq<u8>)>, i: int)
    requires
        0 <= i < s.len(),
    ensures
        spec_did_size(s) == spec_did_size(s.remove(i)) + 3 + s[i].2.len(),
    decreases s.len(),
{
    if i == s.len() - 1 {
        assert(s.remove(i) =~= s.drop_last());
    } else {
        assert(s.remove(i).drop_last() =~= s.drop_last().remove(i));
        assert(s.remove(i).last() == s.last());
        lemma_did_size_remove(s.drop_last(), i);
    }
}

/// The encoded size does not depend on the order of the blocks.
proof fn lemma_did_size_perm(s1: Seq<(u8, u8, Seq<u8>)>, s2: Seq<(u8, u8, Seq<u8>)>)
    requires
        s1.to_multiset() == s2.to_multiset(),
    ensures
        spec_did_size(s1) == spec_did_size(s2),
    decreases s1.len(),
{
    if s1.len() == 0 {
        assert(s2.len() == s2.to_multiset().len());
        assert(s1.len() == s1.to_multiset().len());
    } else {
        let x = s1.last();
        assert(s1.contains(x)) by {
            assert(s1[s1.len() - 1] == x);
        }
        assert(s1.to_multiset().count(x) > 0);
        assert(s2.to_multiset().count(x) > 0);
        assert(s2.contains(x));
        let i = choose|i: int| 0 <= i < s2.len() && s2[i] == x;
        assert(s1.remove(s1.len() - 1) =~= s1.drop_last());
        assert(s1.drop_last().to_multiset() == s1.to_multiset().remove(x));
        assert(s2.remove(i).to_multiset() == s2.to_multiset().remove(x));
        lemma_did_size_perm(s1.drop_last(), s2.remove(i));
        lemma_did_size_remove(s2, i);
    }
}

/// Data blocks read from `data` from `off` on fill the rest of it exactly,
/// and each payload fits its one-byte length.
proof fn lemma_parse_did_size(data: Seq<u8>, off: int, base: int)
    requires
        0 <= off <= data.len(),
        spec_parse_did(data, off, base) is Ok,
    ensures
        spec_did_size(spec_parse_did(data, off, base)->Ok_0) == data.len() - off,
        forall|k: int|
            0 <= k < spec_parse_did(data, off, base)->Ok_0.len() ==> (#[trigger] spec_parse_did(
                data,
                off,
                base,
            )->Ok_0[k]).2.len() <= 255,
    decreases data.len() - off,
{
    if off < data.len() {
        let length = data[off + 2] as int;
        lemma_parse_did_size(data, off + 3 + length, base);
        let rest = spec_parse_did(data, off + 3 + length, base)->Ok_0;
        let x = (data[off], data[off + 1], data.subrange(off + 3, off + 3 + length));
        let v = seq![x] + rest;
        assert(spec_parse_did(data, off, base)->Ok_0 == v);
        assert(3 + length <= data.len() - off);
        assert(x.2.len() == length);
        lemma_did_size_concat(seq![x], rest);
        assert(seq![x].drop_last() =~= Seq::<(u8, u8, Seq<u8>)>::empty());
        assert(spec_did_size(Seq::<(u8, u8, Seq<u8>)>::empty()) == 0);
        assert(seq![x].last() == x);
        assert(spec_did_size(seq![x]) == 3 + length);
        assert forall|k: int| 0 <= k < v.len() implies (#[trigger] v[k]).2.len() <= 255 by {
            if k > 0 {
                assert(v[k] == rest[k - 1]);
            }
        }
    } else {
        assert(spec_parse_did(data, off, base)->Ok_0 =~= Seq::<(u8, u8, Seq<u8>)>::empty());
    }
}

proof fn lemma_did_total_is_size(bv: Seq<(u8, u8, Seq<u8>)>, n: int)
    requires
        0 <= n <= bv.len(),
        spec_did_size(bv.take(n)) <= usize::MAX,
    ensures
        spec_did_total(bv, n) == spec_did_size(bv.take(n)),
    decreases n,
{
    if n > 0 {
        assert(bv.take(n).drop_last() =~= bv.take(n - 1));
        assert(bv.take(n).last() == bv[n - 1]);
        lemma_did_total_is_size(bv, n - 1);
    }
}

proof fn lemma_no_did_block_error(bv: Seq<(u8, u8, Seq<u8>)>, n: int)
    requires
        0 <= n <= bv.len(),
        forall|k: int| 0 <= k < n ==> (#[trigger] bv[k]).2.len() <= 255,
    ensures
        spec_first_did_block_error(bv, n) is None,
    decreases n,
{
    if n > 0 {
        lemma_no_did_block_error(bv, n - 1);
    }
}

/// Any arrangement of the data blocks read from a DisplayID block can be
/// built back into a block with the same section header fields.
pub proof fn lemma_did_rearranged_build_ok(raw: Seq<u8>, c: Seq<(u8, u8, Seq<u8>)>)
    requires
        raw.len() == 128,
        spec_did_blocks(raw) is Ok,
        c.to_multiset() == spec_did_blocks(raw)->Ok_0.to_multiset(),
    ensures
        spec_did_build(raw[1], raw[3], raw[4], c) is Ok,
{
    let bv = spec_did_blocks(raw)->Ok_0;
    let data = raw.subrange(5, 5 + raw[2] as int);
    lemma_parse_did_size(data, 0, 5);
    lemma_did_size_perm(c, bv);
    assert forall|k: int| 0 <= k < c.len() implies (#[trigger] c[k]).2.len() <= 255 by {
        assert(c.contains(c[k]));
        assert(c.to_multiset().count(c[k]) > 0);
        assert(bv.to_multiset().count(c[k]) > 0);
        assert(bv.contains(c[k]));
        let j = choose|j: int| 0 <= j < bv.len() && bv[j] == c[k];
        assert(bv[j].2.len() <= 255);
    }
    lemma_no_did_block_error(c, c.len() as int);
    assert(c.take(c.len() as int) =~= c);
    lemma_did_total_is_size(c, c.len() as int);
}

/// Canonical re-ordering of a readable DisplayID block always succeeds. Its
/// output keeps the section header fields, reads back as the same data
/// blocks sorted into canonical order, and re-ordering it again rebuilds
/// exactly the same block.
pub proof fn lemma_canonical_idempotent(raw: Seq<u8>)
    requires
        raw.len() == 128,
        spec_did_blocks(raw) is Ok,
    ensures
        ({
            let bv = spec_did_blocks(raw)->Ok_0;
            let c = spec_canonical_blocks(bv);
            let out = spec_did_build(raw[1], raw[3], raw[4], c)->Ok_0;
            &&& spec_did_build(raw[1], raw[3], raw[4], c) is Ok
            &&& spec_blocks_sorted(c)
            &&& c.to_multiset() == bv.to_multiset()
            &&& out[1] == raw[1] && out[3] == raw[3] && out[4] == raw[4]
            &&& spec_did_blocks(out) == Ok::<Seq<(u8, u8, Seq<u8>)>, super::ExtensionError>(c)
            &&& spec_canonical_blocks(c) == c
            &&& spec_did_build(out[1], out[3], out[4], spec_canonical_blocks(c)) == Ok::<
                Seq<u8>,
                ExtensionWriteError,
            >(out)
        }),
{
    let bv = spec_did_blocks(raw)->Ok_0;
    let c = spec_canonical_blocks(bv);
    lemma_insertion_sort(bv);
    lemma_canonical_is(spec_insertion_sort(bv), bv);
    lemma_did_rearranged_build_ok(raw, c);
    lemma_did_build_then_read(raw[1], raw[3], raw[4], c);
    lemma_canonical_is(c, c);
}

} // verus!
