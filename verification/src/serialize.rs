//! Timing → EDID serialization pipeline.
//!
//! Rewrites the base block's detailed-timing slots while preserving monitor
//! descriptors, fixes the checksum of every block, and returns the complete
//! EDID binary.
use vstd::prelude::*;
use crate::edid::{
    EdidBlock, byte_sum, spec_edid_bytes, spec_edid_error, spec_extension_chunks,
    spec_first_block_error, spec_parse_error, spec_has_header, lemma_place_keeps_descriptors,
    spec_default_byte, spec_header,
    lemma_serialize_then_parse, spec_checksum_byte, copy_block, push_bytes, spec_available_slots, spec_base_error, spec_block_error,
    spec_chunk, spec_concat, spec_default_block, spec_extension_error, spec_first_dtd_error,
    spec_kinds, spec_place_timings,
};
use crate::error::{DtdError, EdidError, SerializeError};
use crate::metadata::{spec_with_checksum, lemma_with_checksum_sum};
use crate::timing::{DetailedTiming, spec_dtd_error, validate_dtd};

verus! {

/// PC vs HDTV timing style.
#[derive(Copy, Clone, Debug, PartialEq, Eq)]
pub enum TimingKind {
    /// CVT 1.2 reduced blanking (recommended for PC monitors).
    Pc,
    /// Standard CEA/HDTV blanking from the preset table.
    Hdtv,
}

/// Strategy for automatically creating or extending CTA-861 and DisplayID extension blocks.
#[derive(Copy, Clone, Debug, PartialEq, Eq)]
pub enum ExtensionPolicy {
    /// Only write to the 4 Base Block DTD slots (legacy behavior).
    BaseOnly,
    /// Automatically allocate overflow timings to CTA-861 DTDs, and
    /// DTD-incompatible timings (e.g. v_front > 63) to DisplayID Detailed Timings.
    Auto,
    /// Prefer CTA-861 extension blocks for DTD-compatible timings.
    /// Returns an error if any timing cannot be represented as a DTD.
    PreferCta,
    /// Prefer DisplayID extension blocks for all overflow and DTD-incompatible timings.
    PreferDisplayId,
}

impl Default for ExtensionPolicy {
    fn default() -> (p: Self)
        ensures
            p == ExtensionPolicy::Auto,
    {
        ExtensionPolicy::Auto
    }
}

/// Options controlling high-level resolution and timing serialization.
#[derive(Clone, Debug, PartialEq)]
pub struct SerializeOptions {
    /// Policy for creating or appending extension blocks.
    pub extension_policy: ExtensionPolicy,
    /// Maximum allowed total EDID blocks (Base + Extensions, up to 256).
    pub max_blocks: usize,
    /// Whether to retain existing extension blocks from input EDID.
    pub preserve_existing_extensions: bool,
}

impl Default for SerializeOptions {
    fn default() -> (o: Self)
        ensures
            o.extension_policy == ExtensionPolicy::Auto,
            o.max_blocks == 256,
            o.preserve_existing_extensions,
    {
        SerializeOptions {
            extension_policy: ExtensionPolicy::Auto,
            max_blocks: crate::edid::MAX_EDID_BLOCKS,
            preserve_existing_extensions: true,
        }
    }
}

/// Outcome of a serialization run.
#[derive(Clone, Debug, PartialEq)]
pub struct SerializedEdid {
    /// Complete EDID binary: base block + preserved extension blocks.
    pub bytes: Vec<u8>,
    /// Number of resolutions actually written to a DTD slot.
    pub written: usize,
    /// Number of resolutions skipped: timing could not be computed, did not
    /// fit a DTD, or no slot was available.
    pub skipped: usize,
}

/// Why block `index` of existing EDID data is rejected, if it is: the
/// block checks, then the base-block checks for the first block and the
/// extension-slot checks for the others.
pub open spec fn spec_existing_block_error(c: Seq<u8>, index: int) -> Option<EdidError> {
    if index == 0 {
        spec_base_error(c)
    } else if spec_block_error(c) is Some {
        spec_block_error(c)
    } else {
        spec_extension_error(c)
    }
}

/// The first rejected block of existing data from block `k` on.
pub open spec fn spec_first_existing_error(d: Seq<u8>, k: int) -> Option<SerializeError>
    decreases d.len() / 128 - k,
{
    if k < 0 || k >= d.len() / 128 {
        None
    } else if spec_existing_block_error(spec_chunk(d, k), k) is Some {
        Some(
            SerializeError::InvalidExistingBlock {
                index: k as usize,
                source: spec_existing_block_error(spec_chunk(d, k), k)->0,
            },
        )
    } else {
        spec_first_existing_error(d, k + 1)
    }
}

/// The blocks of existing EDID data, or why it is rejected; no data starts
/// from the default block.
pub open spec fn spec_existing_blocks(existing: Option<Seq<u8>>) -> Result<
    Seq<Seq<u8>>,
    SerializeError,
> {
    match existing {
        None => Ok(seq![spec_default_block()]),
        Some(d) => if d.len() < 128 || d.len() > 32768 || d.len() % 128 != 0 {
            Err(SerializeError::InvalidExistingLength { actual: d.len() as usize })
        } else if spec_first_existing_error(d, 0) is Some {
            Err(spec_first_existing_error(d, 0)->0)
        } else {
            Ok(Seq::new(d.len() / 128, |i: int| spec_chunk(d, i)))
        },
    }
}

/// Why a block list cannot be serialized as a sequence, if it cannot: too
/// many extensions, or a base-block count that disagrees.
pub open spec fn spec_sequence_error(blocks: Seq<Seq<u8>>) -> Option<SerializeError> {
    if blocks.len() - 1 > 255 {
        Some(SerializeError::TooManyExtensions { count: (blocks.len() - 1) as usize })
    } else if blocks[0][126] != blocks.len() - 1 {
        Some(
            SerializeError::ExtensionCountMismatch {
                declared: blocks[0][126] as usize,
                actual: (blocks.len() - 1) as usize,
            },
        )
    } else {
        None
    }
}

/// The first timing from index `k` on that fails DTD validation.
pub open spec fn spec_first_timing_error(timings: Seq<DetailedTiming>, k: int) -> Option<SerializeError>
    decreases timings.len() - k,
{
    if k < 0 || k >= timings.len() {
        None
    } else if spec_dtd_error(timings[k]) is Some {
        Some(
            SerializeError::InvalidTiming {
                index: k as usize,
                source: spec_dtd_error(timings[k])->0,
            },
        )
    } else {
        spec_first_timing_error(timings, k + 1)
    }
}

/// The EDID bytes that serializing `timings` into `blocks` produces, or the
/// first error: timings placed into the base block, every checksum fixed.
pub open spec fn spec_serialize_blocks(blocks: Seq<Seq<u8>>, timings: Seq<DetailedTiming>) -> Result<
    Seq<u8>,
    SerializeError,
> {
    if spec_sequence_error(blocks) is Some {
        Err(spec_sequence_error(blocks)->0)
    } else if spec_first_timing_error(timings, 0) is Some {
        Err(spec_first_timing_error(timings, 0)->0)
    } else if timings.len() > spec_available_slots(spec_kinds(blocks[0])) {
        Err(
            SerializeError::NoDtdSlot {
                index: if timings.len() == 0 {
                    0usize
                } else {
                    (timings.len() - 1) as usize
                },
            },
        )
    } else {
        Ok(
            spec_concat(
                Seq::new(
                    blocks.len(),
                    |i: int|
                        if i == 0 {
                            spec_with_checksum(spec_place_timings(blocks[0], timings))
                        } else {
                            spec_with_checksum(blocks[i])
                        },
                ),
            ),
        )
    }
}

proof fn lemma_first_timing_error(timings: Seq<DetailedTiming>, k: int)
    requires
        0 <= k <= timings.len(),
        spec_first_timing_error(timings, k) is None,
    ensures
        spec_first_dtd_error(timings.skip(k)) is None,
    decreases timings.len() - k,
{
    if k < timings.len() {
        lemma_first_timing_error(timings, k + 1);
        assert(timings.skip(k).drop_first() =~= timings.skip(k + 1));
    } else {
        assert(timings.skip(k).len() == 0);
    }
}

proof fn lemma_first_existing_error_step(d: Seq<u8>, k: int, n: int)
    requires
        0 <= k <= n,
        n == d.len() / 128,
        forall|j: int| 0 <= j < k ==> spec_existing_block_error(#[trigger] spec_chunk(d, j), j) is None,
    ensures
        spec_first_existing_error(d, 0) == spec_first_existing_error(d, k),
    decreases k,
{
    if k > 0 {
        lemma_first_existing_error_step(d, k - 1, n);
        assert(spec_existing_block_error(spec_chunk(d, k - 1), k - 1) is None);
    }
}

/// Parse and validate existing EDID data into blocks.
pub fn parse_existing_blocks(existing: Option<&[u8]>) -> (res: Result<Vec<EdidBlock>, SerializeError>)
    ensures
        match res {
            Ok(blocks) => spec_existing_blocks(
                match existing {
                    Some(d) => Some(d@),
                    None => None,
                },
            ) == Ok::<Seq<Seq<u8>>, SerializeError>(
                Seq::new(blocks@.len(), |i: int| blocks@[i].raw@),
            ),
            Err(e) => spec_existing_blocks(
                match existing {
                    Some(d) => Some(d@),
                    None => None,
                },
            ) == Err::<Seq<Seq<u8>>, SerializeError>(e),
        },
{
    let data = match existing {
        None => {
            let mut blocks: Vec<EdidBlock> = Vec::new();
            blocks.push(EdidBlock::new_default());
            assert(Seq::new(blocks@.len(), |i: int| blocks@[i].raw@) =~= seq![spec_default_block()]);
            return Ok(blocks);
        },
        Some(d) => d,
    };
    if data.len() < 128 || data.len() > 32768 || data.len() % 128 != 0 {
        return Err(SerializeError::InvalidExistingLength { actual: data.len() });
    }
    let n = data.len() / 128;
    let mut blocks: Vec<EdidBlock> = Vec::new();
    let mut index: usize = 0;
    while index < n
        invariant
            existing == Some(data),
            n == data@.len() / 128,
            data@.len() % 128 == 0,
            128 <= data@.len() <= 32768,
            index <= n,
            blocks@.len() == index,
            forall|j: int| 0 <= j < index ==> #[trigger] blocks@[j].raw@ == spec_chunk(data@, j),
            forall|j: int|
                0 <= j < index ==> spec_existing_block_error(#[trigger] spec_chunk(data@, j), j) is None,
        decreases n - index,
    {
        assert(128 * index + 128 <= data@.len()) by (nonlinear_arith)
            requires
                index < data@.len() / 128,
                data@.len() >= 0,
        ;
        let block = EdidBlock { raw: copy_block(data, 128 * index) };
        assert(block.raw@ == spec_chunk(data@, index as int));
        let checked = if index == 0 {
            block.validate_base()
        } else {
            match block.validate() {
                Err(e) => Err(e),
                Ok(()) => block.validate_extension(),
            }
        };
        if let Err(source) = checked {
            proof {
                lemma_first_existing_error_step(data@, index as int, n as int);
                assert(spec_existing_block_error(spec_chunk(data@, index as int), index as int)
                    == Some(source));
                assert(spec_first_existing_error(data@, index as int) == Some(
                    SerializeError::InvalidExistingBlock { index, source },
                ));
            }
            return Err(SerializeError::InvalidExistingBlock { index, source });
        }
        blocks.push(block);
        index = index + 1;
    }
    proof {
        lemma_first_existing_error_step(data@, n as int, n as int);
    }
    assert(Seq::new(blocks@.len(), |i: int| blocks@[i].raw@) =~= Seq::new(
        data@.len() / 128,
        |i: int| spec_chunk(data@, i),
    ));
    Ok(blocks)
}

/// Check the extension count of a block list.
pub(crate) fn validate_block_sequence(blocks: &Vec<EdidBlock>) -> (res: Result<(), SerializeError>)
    requires
        blocks@.len() >= 1,
    ensures
        res == (match spec_sequence_error(Seq::new(blocks@.len(), |i: int| blocks@[i].raw@)) {
            None => Ok(()),
            Some(e) => Err(e),
        }),
{
    let extension_count = blocks.len() - 1;
    if extension_count > 255 {
        return Err(SerializeError::TooManyExtensions { count: extension_count });
    }
    let declared = blocks[0].raw[126] as usize;
    if declared != extension_count {
        return Err(SerializeError::ExtensionCountMismatch { declared, actual: extension_count });
    }
    Ok(())
}

/// Place `timings` into the base block of `blocks` and output the whole
/// sequence with every checksum fixed.
pub fn serialize_timing_blocks(blocks: Vec<EdidBlock>, timings: &[DetailedTiming]) -> (res: Result<
    SerializedEdid,
    SerializeError,
>)
    requires
        blocks@.len() >= 1,
    ensures
        match res {
            Ok(out) => spec_serialize_blocks(
                Seq::new(blocks@.len(), |i: int| blocks@[i].raw@),
                timings@,
            ) == Ok::<Seq<u8>, SerializeError>(out.bytes@) && out.written == timings@.len()
                && out.skipped == 0,
            Err(e) => spec_serialize_blocks(Seq::new(blocks@.len(), |i: int| blocks@[i].raw@), timings@)
                == Err::<Seq<u8>, SerializeError>(e),
        },
{
    let ghost views = Seq::new(blocks@.len(), |i: int| blocks@[i].raw@);
    validate_block_sequence(&blocks)?;
    let mut index: usize = 0;
    while index < timings.len()
        invariant
            index <= timings@.len(),
            views == Seq::new(blocks@.len(), |i: int| blocks@[i].raw@),
            spec_sequence_error(views) is None,
            spec_first_timing_error(timings@, 0) == spec_first_timing_error(timings@, index as int),
        decreases timings@.len() - index,
    {
        if let Err(source) = validate_dtd(&timings[index]) {
            return Err(SerializeError::InvalidTiming { index, source });
        }
        index = index + 1;
    }
    proof {
        lemma_first_timing_error(timings@, 0);
        assert(timings@.skip(0) =~= timings@);
    }
    let mut base = blocks[0];
    let written = match base.write_resolutions_checked(timings) {
        Ok(w) => w,
        Err(DtdError::NoAvailableSlot { .. }) => {
            let index = if timings.len() == 0 {
                0
            } else {
                timings.len() - 1
            };
            return Err(SerializeError::NoDtdSlot { index });
        },
        Err(source) => {
            return Err(SerializeError::InvalidTiming { index: 0, source });
        },
    };
    if written != timings.len() {
        return Err(SerializeError::NoDtdSlot { index: written });
    }
    base.update_checksum();
    let ghost outs = Seq::new(
        views.len(),
        |i: int|
            if i == 0 {
                spec_with_checksum(spec_place_timings(views[0], timings@))
            } else {
                spec_with_checksum(views[i])
            },
    );
    let mut bytes: Vec<u8> = Vec::new();
    push_bytes(&mut bytes, base.as_bytes());
    proof {
        assert(outs.take(1).drop_last() =~= Seq::<Seq<u8>>::empty());
        assert(spec_concat(Seq::<Seq<u8>>::empty()) =~= Seq::<u8>::empty());
        assert(views[0] == blocks@[0].raw@);
        assert(outs[0] == base.raw@);
        assert(outs.take(1).last() == outs[0]);
        assert(bytes@ =~= spec_concat(outs.take(1)));
    }
    let mut i: usize = 1;
    while i < blocks.len()
        invariant
            1 <= i <= blocks@.len(),
            outs.len() == blocks@.len(),
            views == Seq::new(blocks@.len(), |i: int| blocks@[i].raw@),
            outs == Seq::new(
                views.len(),
                |i: int|
                    if i == 0 {
                        spec_with_checksum(spec_place_timings(views[0], timings@))
                    } else {
                        spec_with_checksum(views[i])
                    },
            ),
            bytes@ == spec_concat(outs.take(i as int)),
        decreases blocks@.len() - i,
    {
        let mut block = blocks[i];
        block.update_checksum();
        push_bytes(&mut bytes, block.as_bytes());
        proof {
            assert(outs.take(i + 1).drop_last() =~= outs.take(i as int));
        }
        i = i + 1;
    }
    assert(outs.take(i as int) =~= outs);
    Ok(SerializedEdid { bytes, written, skipped: 0 })
}

/// Serialize caller-provided detailed timings into an EDID override.
///
/// This is the strict manual-timing entry point. Existing blocks are validated
/// and every timing must fit the EDID DTD representation.
pub fn serialize_timings(existing: Option<&[u8]>, timings: &[DetailedTiming]) -> (res: Result<
    SerializedEdid,
    SerializeError,
>)
    ensures
        ({
            let blocks = spec_existing_blocks(
                match existing {
                    Some(d) => Some(d@),
                    None => None,
                },
            );
            match res {
                Ok(out) => blocks is Ok && spec_serialize_blocks(blocks->Ok_0, timings@) == Ok::<
                    Seq<u8>,
                    SerializeError,
                >(out.bytes@) && out.written == timings@.len() && out.skipped == 0,
                Err(e) => blocks == Err::<Seq<Seq<u8>>, SerializeError>(e) || (blocks is Ok
                    && spec_serialize_blocks(blocks->Ok_0, timings@) == Err::<
                    Seq<u8>,
                    SerializeError,
                >(e)),
            }
        }),
{
    let blocks = parse_existing_blocks(existing)?;
    serialize_timing_blocks(blocks, timings)
}

/// The blocks that lenient serialization keeps of existing data: every
/// complete block, at most 256; no data, or less than one block, starts
/// from the default block.
pub open spec fn spec_lenient_blocks(existing: Option<Seq<u8>>) -> Seq<Seq<u8>> {
    match existing {
        Some(d) => if d.len() >= 128 {
            Seq::new(
                if d.len() / 128 > 256 {
                    256nat
                } else {
                    d.len() / 128
                },
                |i: int| spec_chunk(d, i),
            )
        } else {
            seq![spec_default_block()]
        },
        None => seq![spec_default_block()],
    }
}

/// The bytes of lenient serialization: timings placed into the base block,
/// the extension count set to the kept blocks, every checksum fixed.
pub open spec fn spec_lenient_bytes(blocks: Seq<Seq<u8>>, timings: Seq<DetailedTiming>) -> Seq<u8> {
    let base = if spec_first_dtd_error(timings) is Some {
        blocks[0]
    } else {
        spec_place_timings(blocks[0], timings)
    };
    spec_concat(
        Seq::new(
            blocks.len(),
            |i: int|
                if i == 0 {
                    spec_with_checksum(base.update(126, (blocks.len() - 1) as u8))
                } else {
                    spec_with_checksum(blocks[i])
                },
        ),
    )
}

/// How many of `timings` lenient serialization writes into a base block.
pub open spec fn spec_lenient_written(base: Seq<u8>, timings: Seq<DetailedTiming>) -> int {
    if spec_first_dtd_error(timings) is Some {
        0
    } else {
        vstd::math::min(timings.len() as int, spec_available_slots(spec_kinds(base)))
    }
}

/// Lenient counterpart to [`serialize_timings`], for timings computed from
/// requested resolutions.
///
/// Existing data shorter than one block, or none, starts from the default
/// block; a trailing partial block is dropped and at most 255 extension
/// blocks are kept. The timings are written into the base block's reusable
/// slots, the extension count byte is normalized to the kept blocks and
/// every checksum is fixed. `unavailable` counts the requested resolutions
/// for which no timing could be computed; they are reported as skipped,
/// together with the timings that found no slot.
pub fn serialize_timings_lenient(existing: Option<&[u8]>, timings: &[DetailedTiming], unavailable: usize) -> (out: SerializedEdid)
    requires
        unavailable + timings@.len() <= usize::MAX,
    ensures
        ({
            let blocks = spec_lenient_blocks(
                match existing {
                    Some(d) => Some(d@),
                    None => None,
                },
            );
            &&& out.bytes@ == spec_lenient_bytes(blocks, timings@)
            &&& out.written == spec_lenient_written(blocks[0], timings@)
            &&& out.skipped == unavailable + timings@.len() - spec_lenient_written(blocks[0], timings@)
        }),
{
    let ghost ex = match existing {
        Some(d) => Some(d@),
        None => None,
    };
    let ghost blocks = spec_lenient_blocks(ex);
    let mut kept: Vec<EdidBlock> = Vec::new();
    match existing {
        Some(data) => {
            if data.len() >= 128 {
                let n = if data.len() / 128 > 256 {
                    256
                } else {
                    data.len() / 128
                };
                let mut i: usize = 0;
                while i < n
                    invariant
                        existing == Some(data),
                        data@.len() >= 128,
                        n == (if data@.len() / 128 > 256 {
                            256
                        } else {
                            data@.len() / 128
                        }),
                        i <= n,
                        kept@.len() == i,
                        forall|j: int| 0 <= j < i ==> #[trigger] kept@[j].raw@ == spec_chunk(data@, j),
                    decreases n - i,
                {
                    assert(128 * i + 128 <= data@.len()) by (nonlinear_arith)
                        requires
                            i < data@.len() / 128,
                            data@.len() >= 0,
                    ;
                    kept.push(EdidBlock { raw: copy_block(data, 128 * i) });
                    i = i + 1;
                }
            }
        },
        None => {},
    }
    if kept.len() == 0 {
        kept.push(EdidBlock::new_default());
    }
    assert(Seq::new(kept@.len(), |i: int| kept@[i].raw@) =~= blocks);
    let mut base = kept[0];
    let written = base.write_resolutions(timings);
    let skipped = unavailable + (timings.len() - written);
    base.raw[126] = (kept.len() - 1) as u8;
    base.update_checksum();
    let ghost outs = Seq::new(
        blocks.len(),
        |i: int|
            if i == 0 {
                spec_with_checksum(
                    (if spec_first_dtd_error(timings@) is Some {
                        blocks[0]
                    } else {
                        spec_place_timings(blocks[0], timings@)
                    }).update(126, (blocks.len() - 1) as u8),
                )
            } else {
                spec_with_checksum(blocks[i])
            },
    );
    let mut bytes: Vec<u8> = Vec::new();
    push_bytes(&mut bytes, base.as_bytes());
    proof {
        assert(outs.take(1).drop_last() =~= Seq::<Seq<u8>>::empty());
        assert(spec_concat(Seq::<Seq<u8>>::empty()) =~= Seq::<u8>::empty());
        assert(outs[0] =~= base.raw@);
        assert(outs.take(1).last() == outs[0]);
        assert(bytes@ =~= spec_concat(outs.take(1)));
    }
    let mut i: usize = 1;
    while i < kept.len()
        invariant
            1 <= i <= kept@.len(),
            outs.len() == kept@.len(),
            blocks == Seq::new(kept@.len(), |i: int| kept@[i].raw@),
            forall|j: int| 1 <= j < outs.len() ==> #[trigger] outs[j] == spec_with_checksum(blocks[j]),
            bytes@ == spec_concat(outs.take(i as int)),
        decreases kept@.len() - i,
    {
        let mut block = kept[i];
        block.update_checksum();
        push_bytes(&mut bytes, block.as_bytes());
        proof {
            assert(outs.take(i + 1).drop_last() =~= outs.take(i as int));
            assert(outs[i as int] == block.raw@);
        }
        i = i + 1;
    }
    assert(outs.take(i as int) =~= outs);
    SerializedEdid { bytes, written, skipped }
}

/// Recomputing the checksum of a block whose bytes already sum to zero
/// changes nothing.
proof fn lemma_checksum_fixed_point(b: Seq<u8>)
    requires
        b.len() == 128,
        byte_sum(b) % 256 == 0,
    ensures
        spec_with_checksum(b) == b,
{
    assert(b.drop_last() =~= b.take(127));
    assert(byte_sum(b) == byte_sum(b.take(127)) + b[127]);
    assert(spec_checksum_byte(b) == b[127]);
    assert(spec_with_checksum(b) =~= b);
}

proof fn lemma_concat_front(first: Seq<u8>, rest: Seq<Seq<u8>>)
    ensures
        spec_concat(seq![first] + rest) == first + spec_concat(rest),
    decreases rest.len(),
{
    if rest.len() == 0 {
        assert(seq![first] + rest =~= seq![first]);
        assert(seq![first].drop_last() =~= Seq::<Seq<u8>>::empty());
        assert(spec_concat(seq![first].drop_last()) =~= Seq::<u8>::empty());
        assert(spec_concat(rest) =~= Seq::<u8>::empty());
        assert(first + spec_concat(rest) =~= first);
    } else {
        lemma_concat_front(first, rest.drop_last());
        assert((seq![first] + rest).drop_last() =~= seq![first] + rest.drop_last());
        assert(first + spec_concat(rest) =~= first + spec_concat(rest.drop_last()) + rest.last());
    }
}

proof fn lemma_no_extension_error(exts: Seq<Seq<u8>>)
    requires
        forall|i: int| 0 <= i < exts.len() ==> spec_extension_error(#[trigger] exts[i]) is None,
    ensures
        spec_first_block_error(exts) is None,
    decreases exts.len(),
{
    if exts.len() > 0 {
        assert forall|i: int| 0 <= i < exts.drop_first().len() implies spec_extension_error(
            #[trigger] exts.drop_first()[i],
        ) is None by {
            assert(exts.drop_first()[i] == exts[i + 1]);
        }
        lemma_no_extension_error(exts.drop_first());
        assert(spec_extension_error(exts[0]) is None);
    }
}

proof fn lemma_no_existing_error(d: Seq<u8>, k: int)
    requires
        0 <= k,
        spec_first_existing_error(d, k) is None,
    ensures
        forall|j: int|
            k <= j < d.len() / 128 ==> spec_existing_block_error(#[trigger] spec_chunk(d, j), j) is None,
    decreases d.len() / 128 - k,
{
    if k < d.len() / 128 {
        lemma_no_existing_error(d, k + 1);
    }
}

/// Strict timing serialization emits a complete EDID that the strict
/// parser accepts: its base block is the input base block with the timings
/// placed and the checksum fixed, and its extension blocks are the input
/// extension blocks unchanged.
pub proof fn lemma_serialize_output_parses(existing: Option<Seq<u8>>, timings: Seq<DetailedTiming>)
    requires
        spec_existing_blocks(existing) is Ok,
        spec_serialize_blocks(spec_existing_blocks(existing)->Ok_0, timings) is Ok,
    ensures
        ({
            let blocks = spec_existing_blocks(existing)->Ok_0;
            let out = spec_serialize_blocks(blocks, timings)->Ok_0;
            &&& spec_parse_error(out) is None
            &&& spec_chunk(out, 0) == spec_with_checksum(spec_place_timings(blocks[0], timings))
            &&& spec_extension_chunks(out) == blocks.drop_first()
        }),
{
    let blocks = spec_existing_blocks(existing)->Ok_0;
    let n = blocks.len();
    let base = spec_with_checksum(spec_place_timings(blocks[0], timings));
    let exts = blocks.drop_first();
    // Every kept block passed the existing-data checks.
    assert(n >= 1);
    assert forall|i: int| 0 <= i < n implies (#[trigger] blocks[i]).len() == 128 && (i == 0
        ==> spec_base_error(blocks[i]) is None) && (i > 0 ==> spec_block_error(blocks[i]) is None
        && spec_extension_error(blocks[i]) is None) by {
        match existing {
            None => {
                let raw = Seq::new(128, |j: int| spec_default_byte(j));
                lemma_with_checksum_sum(raw);
                assert(blocks[0] == spec_with_checksum(raw));
                assert(blocks[0].take(8) =~= spec_header());
            },
            Some(d) => {
                lemma_no_existing_error(d, 0);
                assert(blocks[i] == spec_chunk(d, i));
                assert(128 * i + 128 <= d.len()) by (nonlinear_arith)
                    requires
                        0 <= i < d.len() / 128,
                ;
                assert(spec_existing_block_error(spec_chunk(d, i), i) is None);
            },
        }
    }
    assert(spec_base_error(blocks[0]) is None);
    // The base block keeps its header, version and count, with a fixed checksum.
    lemma_place_keeps_descriptors(blocks[0], timings);
    let placed = spec_place_timings(blocks[0], timings);
    lemma_with_checksum_sum(placed);
    assert(base.take(8) =~= blocks[0].take(8));
    assert(base[18] == blocks[0][18] && base[19] == blocks[0][19] && base[126] == blocks[0][126]);
    assert(spec_has_header(blocks[0]));
    assert(spec_has_header(base));
    assert(spec_base_error(base) is None);
    // Extension blocks already sum to zero, so they are unchanged.
    assert forall|i: int| 0 <= i < exts.len() implies spec_with_checksum(#[trigger] exts[i]) == exts[i] by {
        assert(exts[i] == blocks[i + 1]);
        lemma_checksum_fixed_point(exts[i]);
    }
    let outs = Seq::new(
        n,
        |i: int|
            if i == 0 {
                spec_with_checksum(spec_place_timings(blocks[0], timings))
            } else {
                spec_with_checksum(blocks[i])
            },
    );
    assert(outs =~= seq![base] + exts) by {
        assert forall|i: int| 0 < i < n implies outs[i] == exts[i - 1] by {
            assert(exts[i - 1] == blocks[i]);
        }
    }
    lemma_concat_front(base, exts);
    assert forall|i: int| 0 <= i < exts.len() implies spec_extension_error(#[trigger] exts[i]) is None by {
        assert(exts[i] == blocks[i + 1]);
    }
    lemma_no_extension_error(exts);
    assert(spec_edid_error(base, exts) is None);
    assert forall|i: int| 0 <= i < exts.len() implies (#[trigger] exts[i]).len() == 128 by {
        assert(exts[i] == blocks[i + 1]);
    }
    lemma_serialize_then_parse(base, exts);
}

} // verus!
