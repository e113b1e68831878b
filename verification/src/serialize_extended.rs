//! Serialization that spills timings into CTA-861 and DisplayID extension
//! blocks when the base block cannot hold them.
use vstd::prelude::*;
use crate::edid::{EdidBlock, spec_available_slots, spec_kinds, spec_place_timings, spec_first_dtd_error, spec_concat, push_bytes};
use crate::error::{DtdError, DtdField, SerializeError};
use crate::metadata::spec_with_checksum;
use crate::serialize::{
    ExtensionPolicy, SerializeOptions, SerializedEdid, spec_existing_blocks, spec_sequence_error, spec_serialize_blocks,
    spec_lenient_written, parse_existing_blocks, serialize_timing_blocks, validate_block_sequence,
};
use crate::extensions::spec_cta_build;
use crate::extensions::cta::{CtaDataBlock, spec_cta_views};
use crate::extensions::display_id::{
    DisplayIdAspectRatio, DisplayIdDataBlock, DisplayIdDataBlockView, DisplayIdDetailedTiming, DisplayIdStereo3d,
    spec_did_build, spec_did_views, spec_encode_timings, spec_did_encode, spec_canonical_tag,
};
use crate::timing::{DetailedTiming, spec_dtd_fits, dtd_fits};

verus! {

/// The first `n` items of `s`, or all of them.
pub open spec fn spec_front<T>(s: Seq<T>, n: int) -> Seq<T> {
    if s.len() <= n {
        s
    } else {
        s.take(n)
    }
}

/// The items of `s` after the first `n`.
pub open spec fn spec_rest<T>(s: Seq<T>, n: int) -> Seq<T> {
    if s.len() <= n {
        Seq::empty()
    } else {
        s.skip(n)
    }
}

/// The CTA-861 extension block holding one list of DTDs, or the error
/// reported when it cannot be built.
pub open spec fn spec_cta_chunk_block(c: Seq<DetailedTiming>) -> Result<Seq<u8>, SerializeError> {
    match spec_cta_build(3, Seq::empty(), c) {
        Err(_) => Err(SerializeError::NoDtdSlot { index: 0 }),
        Ok(b) => Ok(b),
    }
}

fn cta_chunk_block(chunk: &Vec<DetailedTiming>) -> (res: Result<EdidBlock, SerializeError>)
    ensures
        match res {
            Ok(b) => spec_cta_chunk_block(chunk@) == Ok::<Seq<u8>, SerializeError>(b.raw@),
            Err(e) => spec_cta_chunk_block(chunk@) == Err::<Seq<u8>, SerializeError>(e),
        },
{
    let none: Vec<CtaDataBlock> = Vec::new();
    assert(spec_cta_views(none@) =~= Seq::<(u8, Seq<u8>)>::empty());
    match EdidBlock::from_cta_data_blocks_and_timings(3, none.as_slice(), chunk.as_slice()) {
        Err(_) => Err(SerializeError::NoDtdSlot { index: 0 }),
        Ok(b) => Ok(b),
    }
}

/// CTA-861 extension blocks holding `ts` as DTDs, six per block, or the
/// error reported when one cannot be built.
pub open spec fn spec_cta_extension_blocks(ts: Seq<DetailedTiming>) -> Result<Seq<Seq<u8>>, SerializeError>
    decreases ts.len(),
{
    if ts.len() == 0 {
        Ok(Seq::empty())
    } else {
        match spec_cta_chunk_block(spec_front(ts, 6)) {
            Err(e) => Err(e),
            Ok(b) => match spec_cta_extension_blocks(spec_rest(ts, 6)) {
                Err(e) => Err(e),
                Ok(r) => Ok(seq![b] + r),
            },
        }
    }
}

/// The DisplayID tag a non-empty list of detailed timings is written under:
/// Type I when every pixel clock is a multiple of 10 kHz, else Type VII.
pub open spec fn spec_timing_list_tag(c: Seq<DisplayIdDetailedTiming>) -> u8 {
    if forall|i: int| 0 <= i < c.len() ==> (#[trigger] c[i]).pixel_clock_khz % 10 == 0 {
        0x03
    } else {
        0x22
    }
}

/// The DisplayID extension block holding one list of detailed timings, or
/// the error reported when it cannot be built.
pub open spec fn spec_did_chunk_block(c: Seq<DisplayIdDetailedTiming>) -> Result<Seq<u8>, SerializeError> {
    let tag = spec_timing_list_tag(c);
    match spec_encode_timings(tag, c) {
        Err(_) => Err(SerializeError::NoDtdSlot { index: 0 }),
        Ok(rp) => match spec_did_build(0x20, 0, 0, seq![(tag, rp.0, rp.1)]) {
            Err(_) => Err(SerializeError::NoDtdSlot { index: 0 }),
            Ok(b) => Ok(b),
        },
    }
}

fn did_chunk_block(chunk: Vec<DisplayIdDetailedTiming>) -> (res: Result<EdidBlock, SerializeError>)
    requires
        chunk@.len() > 0,
    ensures
        match res {
            Ok(b) => spec_did_chunk_block(chunk@) == Ok::<Seq<u8>, SerializeError>(b.raw@),
            Err(e) => spec_did_chunk_block(chunk@) == Err::<Seq<u8>, SerializeError>(e),
        },
{
    let ghost c = chunk@;
    let view = DisplayIdDataBlockView::DetailedTiming { timings: chunk };
    assert(spec_canonical_tag(view) == spec_timing_list_tag(c));
    let db = match view.to_data_block() {
        Ok(db) => db,
        Err(_) => {
            return Err(SerializeError::NoDtdSlot { index: 0 });
        },
    };
    let mut dbs: Vec<DisplayIdDataBlock> = Vec::new();
    dbs.push(db);
    assert(spec_did_views(dbs@) =~= seq![(db.tag, db.revision, db.payload@)]);
    match EdidBlock::from_display_id_data_blocks(0x20, 0, 0, dbs.as_slice()) {
        Ok(b) => Ok(b),
        Err(_) => Err(SerializeError::NoDtdSlot { index: 0 }),
    }
}

/// DisplayID extension blocks holding `ts`, five detailed timings per
/// block, or the error reported when one cannot be built.
pub open spec fn spec_did_extension_blocks(ts: Seq<DisplayIdDetailedTiming>) -> Result<Seq<Seq<u8>>, SerializeError>
    decreases ts.len(),
{
    if ts.len() == 0 {
        Ok(Seq::empty())
    } else {
        match spec_did_chunk_block(spec_front(ts, 5)) {
            Err(e) => Err(e),
            Ok(b) => match spec_did_extension_blocks(spec_rest(ts, 5)) {
                Err(e) => Err(e),
                Ok(r) => Ok(seq![b] + r),
            },
        }
    }
}

/// `acc` followed by the blocks of `r`, or the error of `r`.
pub open spec fn spec_prepend_ext(acc: Seq<Seq<u8>>, r: Result<Seq<Seq<u8>>, SerializeError>) -> Result<
    Seq<Seq<u8>>,
    SerializeError,
> {
    match r {
        Err(e) => Err(e),
        Ok(x) => Ok(acc + x),
    }
}

/// Copy `s[from..to]`.
fn copy_timings<T: Copy>(s: &[T], from: usize, to: usize) -> (out: Vec<T>)
    requires
        from <= to <= s@.len(),
    ensures
        out@ == s@.subrange(from as int, to as int),
{
    let mut out: Vec<T> = Vec::new();
    let mut i = from;
    while i < to
        invariant
            from <= i <= to <= s@.len(),
            out@ == s@.subrange(from as int, i as int),
        decreases to - i,
    {
        out.push(s[i]);
        assert(s@.subrange(from as int, i + 1) =~= s@.subrange(from as int, i as int).push(s@[i as int]));
        i = i + 1;
    }
    out
}

/// Build the CTA-861 extension blocks holding `ts`, six DTDs per block.
fn cta_extension_blocks(ts: &[DetailedTiming]) -> (res: Result<Vec<EdidBlock>, SerializeError>)
    ensures
        match res {
            Ok(v) => spec_cta_extension_blocks(ts@) == Ok::<Seq<Seq<u8>>, SerializeError>(
                Seq::new(v@.len(), |i: int| v@[i].raw@),
            ),
            Err(e) => spec_cta_extension_blocks(ts@) == Err::<Seq<Seq<u8>>, SerializeError>(e),
        },
{
    let mut out: Vec<EdidBlock> = Vec::new();
    let mut i: usize = 0;
    proof {
        assert(ts@.skip(0) =~= ts@);
        assert(Seq::new(out@.len(), |j: int| out@[j].raw@) =~= Seq::<Seq<u8>>::empty());
    }
    while i < ts.len()
        invariant
            i <= ts@.len(),
            spec_cta_extension_blocks(ts@) == spec_prepend_ext(
                Seq::new(out@.len(), |j: int| out@[j].raw@),
                spec_cta_extension_blocks(ts@.skip(i as int)),
            ),
        decreases ts@.len() - i,
    {
        let end = if ts.len() - i <= 6 {
            ts.len()
        } else {
            i + 6
        };
        let chunk = copy_timings(ts, i, end);
        let ghost rest = ts@.skip(i as int);
        assert(chunk@ =~= spec_front(rest, 6));
        assert(ts@.skip(end as int) =~= spec_rest(rest, 6));
        let ghost before = Seq::new(out@.len(), |j: int| out@[j].raw@);
        match cta_chunk_block(&chunk) {
            Err(e) => {
                return Err(e);
            },
            Ok(b) => {
                out.push(b);
                proof {
                    let now = Seq::new(out@.len(), |j: int| out@[j].raw@);
                    assert(now =~= before + seq![b.raw@]);
                    match spec_cta_extension_blocks(ts@.skip(end as int)) {
                        Ok(r) => {
                            assert(before + (seq![b.raw@] + r) =~= now + r);
                        },
                        Err(_) => {},
                    }
                }
            },
        }
        i = end;
    }
    proof {
        assert(ts@.skip(i as int).len() == 0);
        assert(Seq::new(out@.len(), |j: int| out@[j].raw@) + Seq::<Seq<u8>>::empty() =~= Seq::new(
            out@.len(),
            |j: int| out@[j].raw@,
        ));
    }
    Ok(out)
}

/// A sum of timing sizes, held at `u32::MAX` when it would exceed it.
pub open spec fn spec_saturated(v: int) -> u32 {
    if v > u32::MAX {
        u32::MAX
    } else {
        v as u32
    }
}

/// The DisplayID detailed timing written for a DTD timing: the same clock,
/// active sizes and polarities, the blanking of porches, syncs and both
/// borders (held at `u32::MAX`), the front porch as sync offset, an aspect
/// ratio calculated from the active size, progressive, without stereo, and
/// no YCbCr 4:2:0 flag.
pub open spec fn spec_to_display_id(t: DetailedTiming, preferred: bool) -> DisplayIdDetailedTiming {
    DisplayIdDetailedTiming {
        pixel_clock_khz: t.pixel_clock_khz,
        h_active: t.h_active,
        h_blank: spec_saturated(t.h_front + t.h_sync + t.h_back + 2 * t.h_border),
        h_sync_offset: t.h_front,
        h_sync_width: t.h_sync,
        v_active: t.v_active,
        v_blank: spec_saturated(t.v_front + t.v_sync + t.v_back + 2 * t.v_border),
        v_sync_offset: t.v_front,
        v_sync_width: t.v_sync,
        h_sync_positive: t.h_pol,
        v_sync_positive: t.v_pol,
        aspect_ratio: DisplayIdAspectRatio::Calculated,
        interlaced: false,
        stereo_3d: DisplayIdStereo3d::Mono,
        preferred,
        ycbcr420: false,
    }
}

fn saturated_sum(a: u32, b: u32, c: u32, border: u32) -> (s: u32)
    ensures
        s == spec_saturated(a + b + c + 2 * border),
{
    let total: u64 = a as u64 + b as u64 + c as u64 + 2 * (border as u64);
    if total > u32::MAX as u64 {
        u32::MAX
    } else {
        total as u32
    }
}

impl DetailedTiming {
    /// The DisplayID detailed timing that carries this timing.
    pub fn to_display_id(&self, preferred: bool) -> (d: DisplayIdDetailedTiming)
        ensures
            d == spec_to_display_id(*self, preferred),
    {
        DisplayIdDetailedTiming {
            pixel_clock_khz: self.pixel_clock_khz,
            h_active: self.h_active,
            h_blank: saturated_sum(self.h_front, self.h_sync, self.h_back, self.h_border),
            h_sync_offset: self.h_front,
            h_sync_width: self.h_sync,
            v_active: self.v_active,
            v_blank: saturated_sum(self.v_front, self.v_sync, self.v_back, self.v_border),
            v_sync_offset: self.v_front,
            v_sync_width: self.v_sync,
            h_sync_positive: self.h_pol,
            v_sync_positive: self.v_pol,
            aspect_ratio: DisplayIdAspectRatio::Calculated,
            interlaced: false,
            stereo_3d: DisplayIdStereo3d::Mono,
            preferred,
            ycbcr420: false,
        }
    }
}

/// The DisplayID timings of DTD timings, none marked preferred.
pub open spec fn spec_display_id_timings(ts: Seq<DetailedTiming>) -> Seq<DisplayIdDetailedTiming> {
    Seq::new(ts.len(), |i: int| spec_to_display_id(ts[i], false))
}

fn display_id_timings(ts: &[DetailedTiming]) -> (out: Vec<DisplayIdDetailedTiming>)
    ensures
        out@ == spec_display_id_timings(ts@),
{
    let mut out: Vec<DisplayIdDetailedTiming> = Vec::new();
    let mut i: usize = 0;
    while i < ts.len()
        invariant
            i <= ts@.len(),
            out@ == spec_display_id_timings(ts@.take(i as int)),
        decreases ts@.len() - i,
    {
        let d = ts[i].to_display_id(false);
        out.push(d);
        assert(spec_display_id_timings(ts@.take(i + 1)) =~= spec_display_id_timings(ts@.take(i as int)).push(d));
        i = i + 1;
    }
    assert(ts@.take(i as int) =~= ts@);
    out
}

/// Build the DisplayID extension blocks holding `ts`, five per block.
fn did_extension_blocks(ts: &[DisplayIdDetailedTiming]) -> (res: Result<Vec<EdidBlock>, SerializeError>)
    ensures
        match res {
            Ok(v) => spec_did_extension_blocks(ts@) == Ok::<Seq<Seq<u8>>, SerializeError>(
                Seq::new(v@.len(), |i: int| v@[i].raw@),
            ),
            Err(e) => spec_did_extension_blocks(ts@) == Err::<Seq<Seq<u8>>, SerializeError>(e),
        },
{
    let mut out: Vec<EdidBlock> = Vec::new();
    let mut i: usize = 0;
    proof {
        assert(ts@.skip(0) =~= ts@);
        assert(Seq::new(out@.len(), |j: int| out@[j].raw@) =~= Seq::<Seq<u8>>::empty());
    }
    while i < ts.len()
        invariant
            i <= ts@.len(),
            spec_did_extension_blocks(ts@) == spec_prepend_ext(
                Seq::new(out@.len(), |j: int| out@[j].raw@),
                spec_did_extension_blocks(ts@.skip(i as int)),
            ),
        decreases ts@.len() - i,
    {
        let end = if ts.len() - i <= 5 {
            ts.len()
        } else {
            i + 5
        };
        let chunk = copy_timings(ts, i, end);
        let ghost rest = ts@.skip(i as int);
        assert(chunk@ =~= spec_front(rest, 5));
        assert(ts@.skip(end as int) =~= spec_rest(rest, 5));
        let ghost before = Seq::new(out@.len(), |j: int| out@[j].raw@);
        match did_chunk_block(chunk) {
            Err(e) => {
                return Err(e);
            },
            Ok(b) => {
                out.push(b);
                proof {
                    let now = Seq::new(out@.len(), |j: int| out@[j].raw@);
                    assert(now =~= before + seq![b.raw@]);
                    match spec_did_extension_blocks(ts@.skip(end as int)) {
                        Ok(r) => {
                            assert(before + (seq![b.raw@] + r) =~= now + r);
                        },
                        Err(_) => {},
                    }
                }
            },
            Err(_) => {
                return Err(SerializeError::NoDtdSlot { index: 0 });
            },
        }
        i = end;
    }
    proof {
        assert(ts@.skip(i as int).len() == 0);
        assert(Seq::new(out@.len(), |j: int| out@[j].raw@) + Seq::<Seq<u8>>::empty() =~= Seq::new(
            out@.len(),
            |j: int| out@[j].raw@,
        ));
    }
    Ok(out)
}

/// The first timing from index `k` on with a zero pixel clock, width or
/// height, reported as that invalid field.
pub open spec fn spec_first_zero_field(ts: Seq<DetailedTiming>, k: int) -> Option<SerializeError>
    decreases ts.len() - k,
{
    if k < 0 || k >= ts.len() {
        None
    } else if ts[k].pixel_clock_khz == 0 {
        Some(SerializeError::InvalidTiming {
            index: k as usize,
            source: DtdError::InvalidField { field: DtdField::PixelClockKHz, value: 0 },
        })
    } else if ts[k].h_active == 0 {
        Some(SerializeError::InvalidTiming {
            index: k as usize,
            source: DtdError::InvalidField { field: DtdField::HorizontalActive, value: 0 },
        })
    } else if ts[k].v_active == 0 {
        Some(SerializeError::InvalidTiming {
            index: k as usize,
            source: DtdError::InvalidField { field: DtdField::VerticalActive, value: 0 },
        })
    } else {
        spec_first_zero_field(ts, k + 1)
    }
}

/// Index of the first timing from `k` on that does not fit a DTD.
pub open spec fn spec_first_misfit(ts: Seq<DetailedTiming>, k: int) -> Option<int>
    decreases ts.len() - k,
{
    if k < 0 || k >= ts.len() {
        None
    } else if !spec_dtd_fits(ts[k]) {
        Some(k)
    } else {
        spec_first_misfit(ts, k + 1)
    }
}

/// The timings that fit a DTD (`fit`) or do not (`!fit`), in order.
pub open spec fn spec_select(ts: Seq<DetailedTiming>, fit: bool) -> Seq<DetailedTiming>
    decreases ts.len(),
{
    if ts.len() == 0 {
        Seq::empty()
    } else if spec_dtd_fits(ts.last()) == fit {
        spec_select(ts.drop_last(), fit).push(ts.last())
    } else {
        spec_select(ts.drop_last(), fit)
    }
}

/// Every block, each with its checksum fixed, one after another.
pub open spec fn spec_checksummed(blocks: Seq<Seq<u8>>) -> Seq<u8> {
    spec_concat(Seq::new(blocks.len(), |i: int| spec_with_checksum(blocks[i])))
}

/// The extension blocks that the policy writes for the timings that found no
/// base slot (`overflow`) and those that fit no DTD (`misfits`).
pub open spec fn spec_policy_extensions(
    policy: ExtensionPolicy,
    overflow: Seq<DetailedTiming>,
    misfits: Seq<DetailedTiming>,
) -> Result<Seq<Seq<u8>>, SerializeError> {
    match policy {
        ExtensionPolicy::PreferCta => spec_cta_extension_blocks(overflow),
        ExtensionPolicy::PreferDisplayId => spec_did_extension_blocks(
            spec_display_id_timings(overflow) + spec_display_id_timings(misfits),
        ),
        _ => match spec_cta_extension_blocks(overflow) {
            Err(e) => Err(e),
            Ok(c) => spec_prepend_ext(c, spec_did_extension_blocks(spec_display_id_timings(misfits))),
        },
    }
}

/// The EDID bytes that extended serialization of `ts` into `blocks`
/// produces, or the first error.
///
/// The block sequence is checked; extensions are dropped unless preserved.
/// Base-only serialization is the strict serializer. Otherwise every timing
/// needs a pixel clock, width and height; the preferring-CTA policy needs
/// every timing to fit a DTD. The fitting timings fill the base block's
/// reusable slots; what does not find a slot, and what does not fit a DTD,
/// goes to new extension blocks under the policy (six DTDs per CTA-861
/// block, five timings per DisplayID block); the total block count is
/// limited by the options and by 256; the base block's extension count is
/// set and every checksum fixed.
pub open spec fn spec_extended_pipeline(blocks: Seq<Seq<u8>>, ts: Seq<DetailedTiming>, o: SerializeOptions) -> Result<
    Seq<u8>,
    SerializeError,
> {
    let kept = if o.preserve_existing_extensions {
        blocks
    } else {
        blocks.take(1)
    };
    if spec_sequence_error(blocks) is Some {
        Err(spec_sequence_error(blocks)->0)
    } else if o.extension_policy == ExtensionPolicy::BaseOnly {
        spec_serialize_blocks(kept, ts)
    } else if spec_first_zero_field(ts, 0) is Some {
        Err(spec_first_zero_field(ts, 0)->0)
    } else if o.extension_policy == ExtensionPolicy::PreferCta && spec_first_misfit(ts, 0) is Some {
        Err(SerializeError::TimingDoesNotFit { index: spec_first_misfit(ts, 0)->0 as usize })
    } else {
        let fit = spec_select(ts, true);
        let written = spec_lenient_written(kept[0], fit);
        let base = if spec_first_dtd_error(fit) is Some {
            kept[0]
        } else {
            spec_place_timings(kept[0], fit)
        };
        match spec_policy_extensions(o.extension_policy, fit.skip(written), spec_select(ts, false)) {
            Err(e) => Err(e),
            Ok(x) => {
                let total = kept.len() + x.len();
                if total > o.max_blocks || total > 256 {
                    Err(
                        SerializeError::TooManyExtensions {
                            count: if total - 1 > usize::MAX {
                                usize::MAX
                            } else {
                                (total - 1) as usize
                            },
                        },
                    )
                } else {
                    Ok(spec_checksummed(seq![base.update(126, (total - 1) as u8)] + kept.skip(1) + x))
                }
            },
        }
    }
}

/// The EDID bytes of extended serialization of `ts` over existing data, or
/// the first error.
pub open spec fn spec_serialize_extended(existing: Option<Seq<u8>>, ts: Seq<DetailedTiming>, o: SerializeOptions) -> Result<
    Seq<u8>,
    SerializeError,
> {
    match spec_existing_blocks(existing) {
        Err(e) => Err(e),
        Ok(blocks) => spec_extended_pipeline(blocks, ts, o),
    }
}

/// The raw bytes of each block.
pub open spec fn spec_raws(v: Seq<EdidBlock>) -> Seq<Seq<u8>> {
    Seq::new(v.len(), |i: int| v[i].raw@)
}

/// Output every block with its checksum fixed.
fn checksummed_bytes(blocks: &Vec<EdidBlock>) -> (bytes: Vec<u8>)
    ensures
        bytes@ == spec_checksummed(spec_raws(blocks@)),
{
    let ghost outs = Seq::new(blocks@.len(), |i: int| spec_with_checksum(blocks@[i].raw@));
    let mut bytes: Vec<u8> = Vec::new();
    let mut i: usize = 0;
    proof {
        assert(outs.take(0) =~= Seq::<Seq<u8>>::empty());
        assert(spec_concat(Seq::<Seq<u8>>::empty()) =~= Seq::<u8>::empty());
    }
    while i < blocks.len()
        invariant
            i <= blocks@.len(),
            outs == Seq::new(blocks@.len(), |i: int| spec_with_checksum(blocks@[i].raw@)),
            bytes@ == spec_concat(outs.take(i as int)),
        decreases blocks@.len() - i,
    {
        let mut block = blocks[i];
        block.update_checksum();
        push_bytes(&mut bytes, block.as_bytes());
        proof {
            assert(outs.take(i + 1).drop_last() =~= outs.take(i as int));
            assert(block.raw@ =~= outs[i as int]);
        }
        i = i + 1;
    }
    assert(outs.take(i as int) =~= outs);
    assert(Seq::new(spec_raws(blocks@).len(), |i: int| spec_with_checksum(spec_raws(blocks@)[i])) =~= outs);
    bytes
}

/// The first zero pixel clock, width or height among the timings.
fn check_zero_fields(ts: &[DetailedTiming]) -> (res: Result<(), SerializeError>)
    ensures
        res == (match spec_first_zero_field(ts@, 0) {
            None => Ok(()),
            Some(e) => Err(e),
        }),
{
    let mut i: usize = 0;
    while i < ts.len()
        invariant
            i <= ts@.len(),
            spec_first_zero_field(ts@, 0) == spec_first_zero_field(ts@, i as int),
        decreases ts@.len() - i,
    {
        let t = &ts[i];
        if t.pixel_clock_khz == 0 {
            return Err(SerializeError::InvalidTiming {
                index: i,
                source: DtdError::InvalidField { field: DtdField::PixelClockKHz, value: 0 },
            });
        }
        if t.h_active == 0 {
            return Err(SerializeError::InvalidTiming {
                index: i,
                source: DtdError::InvalidField { field: DtdField::HorizontalActive, value: 0 },
            });
        }
        if t.v_active == 0 {
            return Err(SerializeError::InvalidTiming {
                index: i,
                source: DtdError::InvalidField { field: DtdField::VerticalActive, value: 0 },
            });
        }
        i = i + 1;
    }
    Ok(())
}

/// Split the timings into those that fit a DTD and those that do not; with
/// `strict`, the first that does not fit is an error instead.
fn split_timings(ts: &[DetailedTiming], strict: bool) -> (res: Result<(Vec<DetailedTiming>, Vec<DetailedTiming>), SerializeError>)
    ensures
        match res {
            Ok((fit, misfit)) => (!strict || spec_first_misfit(ts@, 0) is None) && fit@ == spec_select(ts@, true)
                && misfit@ == spec_select(ts@, false),
            Err(e) => strict && spec_first_misfit(ts@, 0) is Some && e == SerializeError::TimingDoesNotFit {
                index: spec_first_misfit(ts@, 0)->0 as usize,
            },
        },
{
    let mut fit: Vec<DetailedTiming> = Vec::new();
    let mut misfit: Vec<DetailedTiming> = Vec::new();
    let mut i: usize = 0;
    assert(ts@.take(0) =~= Seq::<DetailedTiming>::empty());
    while i < ts.len()
        invariant
            i <= ts@.len(),
            fit@ == spec_select(ts@.take(i as int), true),
            misfit@ == spec_select(ts@.take(i as int), false),
            strict ==> spec_first_misfit(ts@, 0) == spec_first_misfit(ts@, i as int),
        decreases ts@.len() - i,
    {
        let t = ts[i];
        assert(ts@.take(i + 1).drop_last() =~= ts@.take(i as int));
        assert(ts@.take(i + 1).last() == t);
        if dtd_fits(&t) {
            fit.push(t);
        } else {
            if strict {
                return Err(SerializeError::TimingDoesNotFit { index: i });
            }
            misfit.push(t);
        }
        i = i + 1;
    }
    assert(ts@.take(i as int) =~= ts@);
    Ok((fit, misfit))
}

/// Serialize `timings` into existing `blocks`, spilling what the base block
/// cannot hold into new CTA-861 and DisplayID extension blocks under the
/// options' extension policy.
pub fn serialize_extended_pipeline(blocks: Vec<EdidBlock>, timings: &[DetailedTiming], options: &SerializeOptions) -> (res:
    Result<SerializedEdid, SerializeError>)
    requires
        blocks@.len() >= 1,
    ensures
        match res {
            Ok(out) => spec_extended_pipeline(spec_raws(blocks@), timings@, *options) == Ok::<Seq<u8>, SerializeError>(
                out.bytes@,
            ) && out.written == timings@.len() && out.skipped == 0,
            Err(e) => spec_extended_pipeline(spec_raws(blocks@), timings@, *options) == Err::<
                Seq<u8>,
                SerializeError,
            >(e),
        },
{
    let ghost views = spec_raws(blocks@);
    proof {
        assert(Seq::new(blocks@.len(), |i: int| blocks@[i].raw@) =~= views);
    }
    validate_block_sequence(&blocks)?;
    let mut kept = blocks;
    if !options.preserve_existing_extensions {
        kept.truncate(1);
    }
    let ghost kv = spec_raws(kept@);
    proof {
        if options.preserve_existing_extensions {
            assert(kv =~= views);
        } else {
            assert(kv =~= views.take(1));
        }
        assert(Seq::new(kept@.len(), |i: int| kept@[i].raw@) =~= kv);
    }
    let strict = match options.extension_policy {
        ExtensionPolicy::BaseOnly => {
            return serialize_timing_blocks(kept, timings);
        },
        ExtensionPolicy::PreferCta => true,
        _ => false,
    };
    check_zero_fields(timings)?;
    let (fit, misfit) = split_timings(timings, strict)?;
    let mut base = kept[0];
    let written = base.write_resolutions(fit.as_slice());
    let overflow = copy_timings(fit.as_slice(), written, fit.len());
    assert(overflow@ =~= fit@.skip(written as int));
    let mut exts = match options.extension_policy {
        ExtensionPolicy::PreferCta => cta_extension_blocks(overflow.as_slice())?,
        ExtensionPolicy::PreferDisplayId => {
            let mut all = display_id_timings(overflow.as_slice());
            let mut rest = display_id_timings(misfit.as_slice());
            all.append(&mut rest);
            did_extension_blocks(all.as_slice())?
        },
        _ => {
            let mut c = cta_extension_blocks(overflow.as_slice())?;
            let d_timings = display_id_timings(misfit.as_slice());
            let mut d = did_extension_blocks(d_timings.as_slice())?;
            let ghost cv = spec_raws(c@);
            let ghost dv = spec_raws(d@);
            c.append(&mut d);
            assert(spec_raws(c@) =~= cv + dv);
            c
        },
    };
    let ghost xv = spec_raws(exts@);
    let k = kept.len();
    assert(k <= 256);
    if exts.len() > 256 - k || options.max_blocks < k || exts.len() > options.max_blocks - k {
        let count = match (k - 1).checked_add(exts.len()) {
            Some(c) => c,
            None => usize::MAX,
        };
        return Err(SerializeError::TooManyExtensions { count });
    }
    let total = k + exts.len();
    base.raw[126] = (total - 1) as u8;
    let mut all = kept;
    all.set(0, base);
    assert(spec_raws(all@) =~= seq![base.raw@] + kv.skip(1));
    let ghost av = spec_raws(all@);
    all.append(&mut exts);
    assert(spec_raws(all@) =~= av + xv);
    let bytes = checksummed_bytes(&all);
    Ok(SerializedEdid { bytes, written: timings.len(), skipped: 0 })
}

/// Serialize caller-provided detailed timings into an EDID binary with
/// automatic extension generation.
///
/// Timings that fit standard DTDs are allocated to the base block first.
/// Any overflow timings or timings exceeding DTD constraints are split into
/// CTA-861 (up to 6 DTDs per block) or DisplayID (up to 5 detailed timings
/// per block) extension blocks according to `options.extension_policy`.
pub fn serialize_timings_extended(existing: Option<&[u8]>, timings: &[DetailedTiming], options: &SerializeOptions) -> (res:
    Result<SerializedEdid, SerializeError>)
    ensures
        ({
            let ex = match existing {
                Some(d) => Some(d@),
                None => None,
            };
            match res {
                Ok(out) => spec_serialize_extended(ex, timings@, *options) == Ok::<Seq<u8>, SerializeError>(
                    out.bytes@,
                ) && out.written == timings@.len() && out.skipped == 0,
                Err(e) => spec_serialize_extended(ex, timings@, *options) == Err::<Seq<u8>, SerializeError>(e),
            }
        }),
{
    let blocks = parse_existing_blocks(existing)?;
    proof {
        assert(Seq::new(blocks@.len(), |i: int| blocks@[i].raw@) =~= spec_raws(blocks@));
    }
    serialize_extended_pipeline(blocks, timings, options)
}

} // verus!
