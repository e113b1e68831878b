//! EDID base-block read/write: the 18-byte detailed timing descriptor
//! (DTD), slot classification, and checksum handling.
//
// EDID detailed timing descriptor (bytes 0-17):
//   [0-1]   Pixel clock (kHz/10, LE)
//   [2]     HActive[7:0]
//   [3]     HBlank[7:0]
//   [4]     HActive[11:8] << 4 | HBlank[11:8]
//   [5]     VActive[7:0]
//   [6]     VBlank[7:0]
//   [7]     VActive[11:8] << 4 | VBlank[11:8]
//   [8]     HFront[7:0]
//   [9]     HSync[7:0]
//   [10]    VFront[3:0] << 4 | VSync[3:0]
//   [11]    HFront[9:8] << 6 | HSync[9:8] << 4 | VFront[5:4] << 2 | VSync[5:4]
//   [12]    HSize[7:0]   (= HActive / 4)
//   [13]    VSize[7:0]   (= VActive / 4)
//   [14]    HSize[11:8] << 4 | VSize[11:8]
//   [15]    HBorder
//   [16]    VBorder
//   [17]    Flags: Interlaced|Stereo|Sync Type|Serrate/SyncOnGreen|VPol|HPol
//
// Byte 17 (E-EDID 1.4 section 3.10.2): bits 1/2 are H/V polarity only for
// digital separate sync (bits 4-3 = 11). Digital composite encodes H polarity
// in bit 1 (V is always negative); analog composite/bipolar use bits 1/2 for
// serrate/sync-on-green and encode neither polarity. HBlank/VBlank include
// 2x the border values (bytes 15/16).
use vstd::prelude::*;
use crate::error::{DtdError, EdidError};
use crate::timing::{
    DetailedTiming, spec_dtd_error, spec_h_blank, spec_v_blank, validate_dtd,
};

verus! {

/// Size of one EDID block in bytes.
pub const EDID_BLOCK_SIZE: usize = 128;
/// Largest number of blocks in one EDID: the base block and 255 extensions.
pub const MAX_EDID_BLOCKS: usize = 256;
/// Largest EDID byte sequence.
pub const MAX_EDID_BYTES: usize = 32768;
/// Length of one detailed-timing/monitor descriptor.
pub const EDID_DESCRIPTOR_LEN: usize = 18;
/// Number of descriptor slots in a base block.
pub const DETAILED_SLOTS: usize = 4;
/// Offset of the first descriptor slot in a base block.
pub const DETAILED_START: usize = 54;

/// One raw EDID block (base block or extension block).
#[derive(Clone, Copy, Debug, PartialEq, Eq)]
pub struct EdidBlock {
    /// The raw 128 EDID bytes.
    pub raw: [u8; 128],
}

/// Raw flags from DTD byte 17.
#[derive(Copy, Clone, Debug, PartialEq, Eq)]
pub struct DtdFlags {
    /// Original EDID byte 17, including interlace, stereo and sync fields.
    pub raw: u8,
}

/// A decoded DTD with its timing and raw flag semantics.
#[derive(Clone, Copy, Debug, PartialEq, Eq)]
pub struct DecodedDtd {
    /// Decoded timing fields.
    pub timing: DetailedTiming,
    /// Original DTD flags.
    pub flags: DtdFlags,
}

/// Classification of a detailed-timing descriptor slot.
#[derive(Copy, Clone, Debug, PartialEq, Eq, Structural)]
pub enum SlotKind {
    /// Pixel clock != 0: holds a detailed timing (progressive or interlaced).
    Timing,
    /// Pixel clock == 0, no descriptor payload: reusable dummy slot.
    Free,
    /// Pixel clock == 0 with a descriptor tag/payload: monitor descriptor.
    Descriptor,
}

// ---------------------------------------------------------------------------
// Byte-level specifications
// ---------------------------------------------------------------------------

/// Sum of all bytes, as an unbounded integer.
pub open spec fn byte_sum(s: Seq<u8>) -> int
    decreases s.len(),
{
    if s.len() == 0 {
        0
    } else {
        byte_sum(s.drop_last()) + s.last()
    }
}

/// The eight-byte EDID base-block header `00 FF FF FF FF FF FF 00`.
pub open spec fn spec_header() -> Seq<u8> {
    seq![0x00u8, 0xFF, 0xFF, 0xFF, 0xFF, 0xFF, 0xFF, 0x00]
}

/// The block starts with the EDID base-block header.
pub open spec fn spec_has_header(s: Seq<u8>) -> bool {
    s.len() >= 8 && s.take(8) == spec_header()
}

/// Every byte of `s` equals `b`.
pub open spec fn spec_all_bytes(s: Seq<u8>, b: u8) -> bool {
    forall|i: int| 0 <= i < s.len() ==> s[i] == b
}

/// Replace `d.len()` bytes of `s` starting at `off` with `d`.
pub open spec fn spec_splice(s: Seq<u8>, off: int, d: Seq<u8>) -> Seq<u8> {
    s.take(off) + d + s.skip(off + d.len())
}

/// The 18 bytes of descriptor slot `slot`.
pub open spec fn spec_slot_bytes(s: Seq<u8>, slot: int) -> Seq<u8> {
    s.subrange(54 + 18 * slot, 72 + 18 * slot)
}

/// Block validity checks in the order the strict parser applies them.
pub open spec fn spec_block_error(s: Seq<u8>) -> Option<EdidError> {
    if s[0] == 0 && !spec_has_header(s) {
        Some(EdidError::InvalidHeader)
    } else if byte_sum(s) % 256 != 0 {
        Some(EdidError::InvalidChecksum { sum: (byte_sum(s) % 256) as u8 })
    } else {
        None
    }
}

/// Extension-slot checks: a block with the base-block header is not an
/// extension; otherwise the block checks.
pub open spec fn spec_extension_error(s: Seq<u8>) -> Option<EdidError> {
    if spec_has_header(s) {
        Some(EdidError::InvalidHeader)
    } else {
        spec_block_error(s)
    }
}

/// Base-block checks: block checks, the header, then the 1.x version.
pub open spec fn spec_base_error(s: Seq<u8>) -> Option<EdidError> {
    if spec_block_error(s) is Some {
        spec_block_error(s)
    } else if !spec_has_header(s) {
        Some(EdidError::InvalidHeader)
    } else if s[18] != 1 || s[19] > 4 {
        Some(EdidError::UnsupportedVersion { major: s[18], minor: s[19] })
    } else {
        None
    }
}

/// Byte 127 value that makes the whole block sum to zero modulo 256.
pub open spec fn spec_checksum_byte(s: Seq<u8>) -> u8 {
    ((256 - byte_sum(s.take(127)) % 256) % 256) as u8
}

/// `a - b`, or zero when `b` exceeds `a`.
pub open spec fn sat_sub(a: int, b: int) -> int {
    if a > b {
        a - b
    } else {
        0
    }
}

#[verifier::opaque]
/// Refresh rate in milli-hertz for a pixel clock in kHz and the total
/// horizontal/vertical sizes; zero when a total is zero.
pub open spec fn spec_refresh_millihz(clock_khz: int, h_total: int, v_total: int) -> int {
    if h_total * v_total == 0 {
        0
    } else {
        (clock_khz * 1_000_000) / (h_total * v_total)
    }
}

/// The timing and flags held by an 18-byte DTD, or `None` for padding,
/// descriptors and clocks below 10 MHz.
pub open spec fn spec_decode_dtd(d: Seq<u8>) -> Option<DecodedDtd> {
    let pc = d[0] + 256 * d[1];
    if spec_all_bytes(d, 1) || pc < 1000 {
        None
    } else {
        let h_border = d[15] as int;
        let v_border = d[16] as int;
        let h_active = d[2] + 256 * (d[4] / 16);
        let h_blank = sat_sub(d[3] + 256 * (d[4] % 16), 2 * h_border);
        let v_active = d[5] + 256 * (d[7] / 16);
        let v_blank = sat_sub(d[6] + 256 * (d[7] % 16), 2 * v_border);
        let h_front = d[8] + 256 * (d[11] / 64);
        let h_sync = d[9] + 256 * ((d[11] / 16) % 4);
        let v_front = d[10] / 16 + 16 * ((d[11] / 4) % 4);
        let v_sync = d[10] % 16 + 16 * (d[11] % 4);
        let sync_type = (d[17] / 8) % 4;
        Some(
            DecodedDtd {
                timing: DetailedTiming {
                    h_active: h_active as u32,
                    v_active: v_active as u32,
                    h_front: h_front as u32,
                    h_sync: h_sync as u32,
                    h_back: sat_sub(h_blank, h_front + h_sync) as u32,
                    v_front: v_front as u32,
                    v_sync: v_sync as u32,
                    v_back: sat_sub(v_blank, v_front + v_sync) as u32,
                    h_border: h_border as u32,
                    v_border: v_border as u32,
                    pixel_clock_khz: (pc * 10) as u32,
                    h_pol: sync_type >= 2 && (d[17] / 2) % 2 == 1,
                    v_pol: sync_type == 3 && (d[17] / 4) % 2 == 1,
                    v_rate_millihz: spec_refresh_millihz(
                        pc * 10,
                        h_active + h_blank,
                        v_active + v_blank,
                    ) as u64,
                },
                flags: DtdFlags { raw: d[17] },
            },
        )
    }
}

/// DTD byte 17 written for a timing: digital separate sync with its
/// polarities.
pub open spec fn spec_dtd_flags(t: DetailedTiming) -> u8 {
    (0x18 + (if t.h_pol { 2int } else { 0 }) + (if t.v_pol { 4int } else { 0 })) as u8
}

/// The 18 bytes written for a representable timing.
pub open spec fn spec_encode_dtd(t: DetailedTiming) -> Seq<u8> {
    let pc = (t.pixel_clock_khz + 5) / 10;
    let ha = t.h_active as int;
    let va = t.v_active as int;
    let hb = spec_h_blank(t);
    let vb = spec_v_blank(t);
    let hsize = ha / 4;
    let vsize = va / 4;
    seq![
        (pc % 256) as u8,
        (pc / 256) as u8,
        (ha % 256) as u8,
        (hb % 256) as u8,
        (((ha / 256) % 16) * 16 + (hb / 256) % 16) as u8,
        (va % 256) as u8,
        (vb % 256) as u8,
        (((va / 256) % 16) * 16 + (vb / 256) % 16) as u8,
        (t.h_front % 256) as u8,
        (t.h_sync % 256) as u8,
        ((t.v_front % 16) * 16 + t.v_sync % 16) as u8,
        (((t.h_front / 256) % 4) * 64 + ((t.h_sync / 256) % 4) * 16 + ((t.v_front / 16) % 4) * 4
            + (t.v_sync / 16) % 4) as u8,
        (hsize % 256) as u8,
        (vsize % 256) as u8,
        (((hsize / 256) % 16) * 16 + (vsize / 256) % 16) as u8,
        t.h_border as u8,
        t.v_border as u8,
        spec_dtd_flags(t),
    ]
}

/// A descriptor slot cleared to the dummy descriptor convention:
/// pixel clock 0, tag byte 0x10, zero payload.
pub open spec fn spec_cleared_slot() -> Seq<u8> {
    Seq::new(18, |i: int| if i == 3 { 0x10u8 } else { 0u8 })
}

/// Classification of an 18-byte descriptor slot.
pub open spec fn spec_slot_kind(d: Seq<u8>) -> SlotKind {
    if spec_all_bytes(d, 1) {
        SlotKind::Free
    } else if d[0] != 0 || d[1] != 0 {
        SlotKind::Timing
    } else if spec_all_bytes(d, 0) || (d[3] == 0x10 && spec_all_bytes(d.skip(4), 0)) {
        SlotKind::Free
    } else {
        SlotKind::Descriptor
    }
}

/// The decoded timing is exactly `t`, up to the refresh rate that the
/// decoder recomputes from the clock and totals.
pub open spec fn spec_same_timing_fields(a: DetailedTiming, t: DetailedTiming) -> bool {
    a == DetailedTiming { v_rate_millihz: a.v_rate_millihz, ..t }
}

/// The slot kinds of the four descriptor slots of a block.
pub open spec fn spec_kinds(s: Seq<u8>) -> Seq<SlotKind> {
    Seq::new(4, |k: int| spec_slot_kind(spec_slot_bytes(s, k)))
}

/// Number of the first `n` slots that have kind `kind`.
pub open spec fn spec_count_kind(kinds: Seq<SlotKind>, kind: SlotKind, n: int) -> int
    decreases n,
{
    if n <= 0 {
        0
    } else {
        spec_count_kind(kinds, kind, n - 1) + (if kinds[n - 1] == kind { 1int } else { 0 })
    }
}

/// Number of slots that timings may be written to: existing timing slots
/// and free slots; monitor descriptors are never reused.
pub open spec fn spec_available_slots(kinds: Seq<SlotKind>) -> int {
    spec_count_kind(kinds, SlotKind::Timing, 4) + spec_count_kind(kinds, SlotKind::Free, 4)
}

/// Position of slot `k` in the placement order: existing timing slots in
/// slot order, then free slots in slot order.
pub open spec fn spec_rank(kinds: Seq<SlotKind>, k: int) -> int {
    if kinds[k] == SlotKind::Timing {
        spec_count_kind(kinds, SlotKind::Timing, k)
    } else {
        spec_count_kind(kinds, SlotKind::Timing, 4) + spec_count_kind(kinds, SlotKind::Free, k)
    }
}

/// Contents of slot `k` after placing `timings`: descriptors are kept, the
/// slot of rank `r` receives `timings[r]`, leftover timing slots are cleared
/// and leftover free slots are kept.
pub open spec fn spec_placed_slot(s: Seq<u8>, timings: Seq<DetailedTiming>, k: int) -> Seq<u8> {
    let kinds = spec_kinds(s);
    if kinds[k] == SlotKind::Descriptor {
        spec_slot_bytes(s, k)
    } else if spec_rank(kinds, k) < timings.len() {
        spec_encode_dtd(timings[spec_rank(kinds, k)])
    } else if kinds[k] == SlotKind::Timing {
        spec_cleared_slot()
    } else {
        spec_slot_bytes(s, k)
    }
}

/// The block after placing `timings` into the slots below `m`.
pub open spec fn spec_place_prefix(s: Seq<u8>, timings: Seq<DetailedTiming>, m: int) -> Seq<u8> {
    Seq::new(
        s.len(),
        |i: int|
            if 54 <= i < 54 + 18 * m {
                spec_placed_slot(s, timings, (i - 54) / 18)[(i - 54) % 18]
            } else {
                s[i]
            },
    )
}

/// The block after placing `timings` into its reusable descriptor slots.
pub open spec fn spec_place_timings(s: Seq<u8>, timings: Seq<DetailedTiming>) -> Seq<u8> {
    spec_place_prefix(s, timings, 4)
}

/// Placing timings keeps every monitor descriptor slot and every byte
/// outside the descriptor area.
pub proof fn lemma_place_keeps_descriptors(s: Seq<u8>, timings: Seq<DetailedTiming>)
    requires
        s.len() == 128,
    ensures
        spec_place_timings(s, timings).len() == 128,
        forall|i: int|
            (0 <= i < 54 || 126 <= i < 128) ==> #[trigger] spec_place_timings(s, timings)[i] == s[i],
        forall|k: int|
            0 <= k < 4 && spec_kinds(s)[k] == SlotKind::Descriptor ==> #[trigger] spec_slot_bytes(
                spec_place_timings(s, timings),
                k,
            ) == spec_slot_bytes(s, k),
{
    let p = spec_place_timings(s, timings);
    assert forall|k: int| 0 <= k < 4 && spec_kinds(s)[k] == SlotKind::Descriptor implies #[trigger] spec_slot_bytes(
        p,
        k,
    ) == spec_slot_bytes(s, k) by {
        assert forall|j: int| 0 <= j < 18 implies spec_slot_bytes(p, k)[j] == spec_slot_bytes(s, k)[j] by {
            let i = 54 + 18 * k + j;
            assert((i - 54) / 18 == k && (i - 54) % 18 == j) by (nonlinear_arith)
                requires
                    i == 54 + 18 * k + j,
                    0 <= j < 18,
            ;
        }
        assert(spec_slot_bytes(p, k) =~= spec_slot_bytes(s, k));
    }
}

/// The first DTD validation failure among `timings`, if any.
pub open spec fn spec_first_dtd_error(timings: Seq<DetailedTiming>) -> Option<DtdError>
    decreases timings.len(),
{
    if timings.len() == 0 {
        None
    } else if spec_dtd_error(timings[0]) is Some {
        spec_dtd_error(timings[0])
    } else {
        spec_first_dtd_error(timings.drop_first())
    }
}

/// Bytes 0..127 of the default minimal base block.
pub open spec fn spec_default_byte(i: int) -> u8 {
    if 1 <= i < 7 {
        0xFF
    } else if i == 18 {
        0x01
    } else if i == 19 {
        0x04
    } else if i == 20 {
        0x80
    } else if 38 <= i < 54 {
        0x01
    } else if i == 57 || i == 75 || i == 93 || i == 111 {
        0x10
    } else {
        0
    }
}

/// The default minimal base block, checksum included.
pub open spec fn spec_default_block() -> Seq<u8> {
    let s = Seq::new(128, |i: int| spec_default_byte(i));
    s.update(127, spec_checksum_byte(s))
}

/// The progressive timing in slot `slot`: decoded DTDs with the interlace
/// flag are left out.
pub open spec fn spec_read_progressive(s: Seq<u8>, slot: int) -> Option<DetailedTiming> {
    if 0 <= slot < 4 {
        match spec_decode_dtd(spec_slot_bytes(s, slot)) {
            Some(d) => if d.flags.raw >= 0x80 {
                None
            } else {
                Some(d.timing)
            },
            None => None,
        }
    } else {
        None
    }
}

// ---------------------------------------------------------------------------
// Lemmas
// ---------------------------------------------------------------------------

proof fn lemma_byte_sum_step(s: Seq<u8>, i: int)
    requires
        0 <= i < s.len(),
    ensures
        byte_sum(s.take(i + 1)) == byte_sum(s.take(i)) + s[i],
{
    assert(s.take(i + 1).drop_last() =~= s.take(i));
}

proof fn lemma_split_byte(x: int)
    requires
        0 <= x < 4096,
    ensures
        x % 256 + 256 * ((x / 256) % 16) == x,
        0 <= x % 256 < 256,
        (x / 256) % 16 == x / 256,
{
}

proof fn lemma_pack_nibbles(a: int, b: int)
    requires
        0 <= a < 16,
        0 <= b < 16,
    ensures
        (a * 16 + b) / 16 == a,
        (a * 16 + b) % 16 == b,
        0 <= a * 16 + b < 256,
{
}

pub(crate) proof fn lemma_pack_crumbs(a: int, b: int, c: int, e: int) by (nonlinear_arith)
    requires
        0 <= a < 4,
        0 <= b < 4,
        0 <= c < 4,
        0 <= e < 4,
    ensures
        ({
            let x = a * 64 + b * 16 + c * 4 + e;
            &&& 0 <= x < 256
            &&& x / 64 == a
            &&& (x / 16) % 4 == b
            &&& (x / 4) % 4 == c
            &&& x % 4 == e
        }),
{
}

proof fn lemma_split_ten_bits(x: int)
    requires
        0 <= x < 1024,
    ensures
        x % 256 + 256 * ((x / 256) % 4) == x,
{
}

proof fn lemma_split_six_bits(x: int)
    requires
        0 <= x < 64,
    ensures
        x % 16 + 16 * ((x / 16) % 4) == x,
        0 <= x % 16 < 16,
{
}

proof fn lemma_flags_bits(t: DetailedTiming)
    ensures
        ({
            let f = spec_dtd_flags(t) as int;
            &&& (f / 8) % 4 == 3
            &&& ((f / 2) % 2 == 1) == t.h_pol
            &&& ((f / 4) % 2 == 1) == t.v_pol
            &&& f < 0x80
            &&& f != 1
        }),
{
}

/// A written DTD decodes back to the timing it encodes: every field is
/// preserved, and the flags are digital separate sync with the timing's
/// polarities. The pixel clock must be a whole number of 10 kHz units,
/// the DTD clock resolution.
#[verifier::spinoff_prover]
#[verifier::rlimit(80)]
pub proof fn lemma_dtd_roundtrip(t: DetailedTiming)
    requires
        spec_dtd_error(t) is None,
        t.pixel_clock_khz % 10 == 0,
    ensures
        spec_decode_dtd(spec_encode_dtd(t)) matches Some(d) && spec_same_timing_fields(d.timing, t)
            && d.flags.raw == spec_dtd_flags(t) && d.flags.raw < 0x80,
{
    let d = spec_encode_dtd(t);
    let pc = (t.pixel_clock_khz + 5) / 10;
    assert(pc * 10 == t.pixel_clock_khz);
    assert(d[0] + 256 * d[1] == pc) by {
        assert(pc < 65536);
    }
    lemma_flags_bits(t);
    assert(d[17] != 1);
    assert(!spec_all_bytes(d, 1));
    let ha = t.h_active as int;
    let hb = spec_h_blank(t);
    let va = t.v_active as int;
    let vb = spec_v_blank(t);
    lemma_split_byte(ha);
    lemma_split_byte(hb);
    lemma_split_byte(va);
    lemma_split_byte(vb);
    lemma_pack_nibbles((ha / 256) % 16, (hb / 256) % 16);
    lemma_pack_nibbles((va / 256) % 16, (vb / 256) % 16);
    assert(d[2] + 256 * (d[4] / 16) == ha);
    assert(d[3] + 256 * (d[4] % 16) == hb);
    assert(d[5] + 256 * (d[7] / 16) == va);
    assert(d[6] + 256 * (d[7] % 16) == vb);
    lemma_split_ten_bits(t.h_front as int);
    lemma_split_ten_bits(t.h_sync as int);
    lemma_split_six_bits(t.v_front as int);
    lemma_split_six_bits(t.v_sync as int);
    lemma_pack_crumbs(
        (t.h_front / 256) as int % 4,
        (t.h_sync / 256) as int % 4,
        (t.v_front / 16) as int % 4,
        (t.v_sync / 16) as int % 4,
    );
    lemma_pack_nibbles(t.v_front as int % 16, t.v_sync as int % 16);
    assert(d[8] + 256 * (d[11] / 64) == t.h_front);
    assert(d[9] + 256 * ((d[11] / 16) % 4) == t.h_sync);
    assert(d[10] / 16 + 16 * ((d[11] / 4) % 4) == t.v_front);
    assert(d[10] % 16 + 16 * (d[11] % 4) == t.v_sync);
}

// ---------------------------------------------------------------------------
// Executable code
// ---------------------------------------------------------------------------

/// Sum of the first `n` bytes modulo 256.
pub(crate) fn sum_bytes_mod(raw: &[u8; 128], n: usize) -> (r: u8)
    requires
        n <= 128,
    ensures
        r == byte_sum(raw@.take(n as int)) % 256,
{
    let mut acc: u8 = 0;
    let mut i: usize = 0;
    assert(raw@.take(0) =~= Seq::<u8>::empty());
    while i < n
        invariant
            i <= n <= 128,
            acc == byte_sum(raw@.take(i as int)) % 256,
        decreases n - i,
    {
        proof {
            lemma_byte_sum_step(raw@, i as int);
            vstd::arithmetic::div_mod::lemma_add_mod_noop(
                byte_sum(raw@.take(i as int)),
                raw@[i as int] as int,
                256,
            );
        }
        acc = ((acc as u32 + raw[i] as u32) % 256) as u8;
        i = i + 1;
    }
    acc
}

/// Whether the first eight bytes are the EDID base-block header.
pub(crate) fn has_header(raw: &[u8; 128]) -> (b: bool)
    ensures
        b == spec_has_header(raw@),
{
    let ok = raw[0] == 0 && raw[1] == 0xFF && raw[2] == 0xFF && raw[3] == 0xFF && raw[4] == 0xFF
        && raw[5] == 0xFF && raw[6] == 0xFF && raw[7] == 0;
    proof {
        if ok {
            assert(raw@.take(8) =~= spec_header());
        } else {
            if raw@.take(8) == spec_header() {
                assert(raw@.take(8)[0] == 0);
            }
        }
    }
    ok
}

/// Decode the 18-byte DTD stored at `off`.
pub(crate) fn decode_dtd_bytes(raw: &[u8; 128], off: usize) -> (res: Option<DecodedDtd>)
    requires
        off + 18 <= 128,
    ensures
        res == spec_decode_dtd(raw@.subrange(off as int, off + 18)),
{
    let ghost d = raw@.subrange(off as int, off + 18);
    let mut all_ones = true;
    let mut k: usize = 0;
    while k < 18
        invariant
            k <= 18,
            off + 18 <= 128,
            d == raw@.subrange(off as int, off + 18),
            all_ones == (forall|j: int| 0 <= j < k ==> d[j] == 1),
        decreases 18 - k,
    {
        let b = raw[off + k];
        assert(d[k as int] == b);
        if b != 1 {
            all_ones = false;
        }
        k = k + 1;
    }
    assert(all_ones == spec_all_bytes(d, 1));
    let pixel_clock: u32 = raw[off] as u32 + 256 * raw[off + 1] as u32;
    if all_ones || pixel_clock < 1000 {
        return None;
    }
    let h_border: u32 = raw[off + 15] as u32;
    let v_border: u32 = raw[off + 16] as u32;
    let h_active: u32 = raw[off + 2] as u32 + 256 * (raw[off + 4] as u32 / 16);
    let h_blank_raw: u32 = raw[off + 3] as u32 + 256 * (raw[off + 4] as u32 % 16);
    let h_blank: u32 = if h_blank_raw > 2 * h_border { h_blank_raw - 2 * h_border } else { 0 };
    let v_active: u32 = raw[off + 5] as u32 + 256 * (raw[off + 7] as u32 / 16);
    let v_blank_raw: u32 = raw[off + 6] as u32 + 256 * (raw[off + 7] as u32 % 16);
    let v_blank: u32 = if v_blank_raw > 2 * v_border { v_blank_raw - 2 * v_border } else { 0 };
    let h_front: u32 = raw[off + 8] as u32 + 256 * (raw[off + 11] as u32 / 64);
    let h_sync: u32 = raw[off + 9] as u32 + 256 * ((raw[off + 11] as u32 / 16) % 4);
    let v_front: u32 = raw[off + 10] as u32 / 16 + 16 * ((raw[off + 11] as u32 / 4) % 4);
    let v_sync: u32 = raw[off + 10] as u32 % 16 + 16 * (raw[off + 11] as u32 % 4);
    let h_back: u32 = if h_blank > h_front + h_sync { h_blank - (h_front + h_sync) } else { 0 };
    let v_back: u32 = if v_blank > v_front + v_sync { v_blank - (v_front + v_sync) } else { 0 };
    let flags: u8 = raw[off + 17];
    let sync_type: u8 = (flags / 8) % 4;
    let h_pol = sync_type >= 2 && (flags / 2) % 2 == 1;
    let v_pol = sync_type == 3 && (flags / 4) % 2 == 1;
    let h_total: u64 = h_active as u64 + h_blank as u64;
    let v_total: u64 = v_active as u64 + v_blank as u64;
    assert(h_total * v_total <= 8192 * 8192) by (nonlinear_arith)
        requires
            h_total <= 8192,
            v_total <= 8192,
    ;
    let product: u64 = h_total * v_total;
    let clock_khz: u64 = pixel_clock as u64 * 10;
    let v_rate_millihz: u64 = if product == 0 { 0 } else { (clock_khz * 1_000_000) / product };
    proof {
        reveal(spec_refresh_millihz);
    }
    Some(
        DecodedDtd {
            timing: DetailedTiming {
                h_active,
                v_active,
                h_front,
                h_sync,
                h_back,
                v_front,
                v_sync,
                v_back,
                h_border,
                v_border,
                pixel_clock_khz: pixel_clock * 10,
                h_pol,
                v_pol,
                v_rate_millihz,
            },
            flags: DtdFlags { raw: flags },
        },
    )
}

impl DtdFlags {
    /// Whether the timing is interlaced (byte 17 bit 7).
    pub fn interlaced(self) -> (b: bool)
        ensures
            b == (self.raw >= 0x80),
    {
        self.raw >= 0x80
    }
}

proof fn lemma_first_dtd_error_step(timings: Seq<DetailedTiming>, i: int)
    requires
        0 <= i < timings.len(),
        spec_first_dtd_error(timings.take(i)) is None,
    ensures
        spec_first_dtd_error(timings.take(i + 1)) == (if spec_dtd_error(timings[i]) is Some {
            spec_dtd_error(timings[i])
        } else {
            None
        }),
    decreases i,
{
    if i == 0 {
        assert(timings.take(1).drop_first() =~= Seq::<DetailedTiming>::empty());
        assert(timings.take(1)[0] == timings[0]);
        assert(spec_first_dtd_error(Seq::<DetailedTiming>::empty()) is None);
    } else {
        assert(timings.take(i + 1).drop_first() =~= timings.drop_first().take(i));
        assert(timings.take(i).drop_first() =~= timings.drop_first().take(i - 1));
        assert(timings.take(i + 1)[0] == timings[0]);
        assert(timings.take(i)[0] == timings[0]);
        assert(spec_dtd_error(timings[0]) is None);
        assert(timings.drop_first()[i - 1] == timings[i]);
        lemma_first_dtd_error_step(timings.drop_first(), i - 1);
    }
}

/// Find the first timing that fails DTD validation.
pub(crate) fn first_dtd_error(timings: &[DetailedTiming]) -> (res: Option<DtdError>)
    ensures
        res == spec_first_dtd_error(timings@),
{
    let mut i: usize = 0;
    while i < timings.len()
        invariant
            i <= timings@.len(),
            spec_first_dtd_error(timings@.take(i as int)) is None,
        decreases timings@.len() - i,
    {
        proof {
            lemma_first_dtd_error_step(timings@, i as int);
        }
        match validate_dtd(&timings[i]) {
            Err(e) => {
                proof {
                    lemma_first_dtd_error_prefix(timings@, i as int);
                }
                return Some(e);
            },
            Ok(()) => {},
        }
        i = i + 1;
    }
    assert(timings@.take(i as int) =~= timings@);
    None
}

proof fn lemma_first_dtd_error_prefix(timings: Seq<DetailedTiming>, i: int)
    requires
        0 <= i < timings.len(),
        spec_first_dtd_error(timings.take(i)) is None,
        spec_dtd_error(timings[i]) is Some,
    ensures
        spec_first_dtd_error(timings) == spec_dtd_error(timings[i]),
    decreases i,
{
    if i > 0 {
        assert(timings.take(i).drop_first() =~= timings.drop_first().take(i - 1));
        assert(timings.take(i)[0] == timings[0]);
        lemma_first_dtd_error_prefix(timings.drop_first(), i - 1);
    }
}

impl EdidBlock {
    /// Recompute byte 127 so that the block bytes sum to zero modulo 256.
    pub fn update_checksum(&mut self)
        ensures
            final(self).raw@ == old(self).raw@.update(127, spec_checksum_byte(old(self).raw@)),
            byte_sum(final(self).raw@) % 256 == 0,
    {
        let sum = sum_bytes_mod(&self.raw, 127);
        let ghost before = self.raw@;
        let c: u8 = ((256 - sum as u32) % 256) as u8;
        self.raw[127] = c;
        proof {
            let after = self.raw@;
            assert(after.drop_last() =~= before.take(127));
            assert(byte_sum(after) == byte_sum(before.take(127)) + c);
        }
    }

    /// Create the default minimal EDID 1.4 base block: header, version
    /// 1.4, digital input, unused standard timings (`01 01`), dummy
    /// descriptors in all four slots, no extensions, valid checksum.
    pub fn new_default() -> (block: Self)
        ensures
            forall|i: int| 0 <= i < 127 ==> block.raw@[i] == spec_default_byte(i),
            byte_sum(block.raw@) % 256 == 0,
            block.raw@ == spec_default_block(),
    {
        let mut raw = [0u8; 128];
        raw[1] = 0xFF;
        raw[2] = 0xFF;
        raw[3] = 0xFF;
        raw[4] = 0xFF;
        raw[5] = 0xFF;
        raw[6] = 0xFF;
        raw[18] = 0x01;
        raw[19] = 0x04;
        raw[20] = 0x80;
        let mut i: usize = 38;
        while i < 54
            invariant
                38 <= i <= 54,
                forall|j: int| 0 <= j < 38 ==> raw@[j] == spec_default_byte(j),
                forall|j: int| 38 <= j < i ==> raw@[j] == 1,
                forall|j: int| 54 <= j < 128 ==> raw@[j] == 0,
            decreases 54 - i,
        {
            raw[i] = 0x01;
            i = i + 1;
        }
        raw[57] = 0x10;
        raw[75] = 0x10;
        raw[93] = 0x10;
        raw[111] = 0x10;
        assert(raw@ =~= Seq::new(128, |i: int| spec_default_byte(i)));
        let mut block = Self { raw };
        block.update_checksum();
        block
    }

    /// Parse an EDID block from the first 128 bytes of `data`.
    pub fn from_bytes(data: &[u8]) -> (res: Option<Self>)
        ensures
            data@.len() < 128 ==> res is None,
            data@.len() >= 128 ==> (res matches Some(b) && b.raw@ == data@.take(128)),
    {
        if data.len() < 128 {
            return None;
        }
        Some(Self { raw: copy_block(data, 0) })
    }

    /// Parse and validate exactly one EDID block.
    ///
    /// Base blocks must contain the EDID header. Extension blocks are
    /// accepted by their non-zero tag and are validated by checksum only.
    pub fn from_bytes_checked(data: &[u8]) -> (res: Result<Self, EdidError>)
        ensures
            data@.len() != 128 ==> res == Err::<Self, EdidError>(
                EdidError::InvalidLength { expected: 128, actual: data@.len() as usize },
            ),
            data@.len() == 128 ==> res == (match spec_block_error(data@) {
                None => Ok(Self { raw: res->Ok_0.raw }),
                Some(e) => Err(e),
            }),
            res matches Ok(b) ==> b.raw@ == data@,
    {
        if data.len() != 128 {
            return Err(EdidError::InvalidLength { expected: 128, actual: data.len() });
        }
        let block = Self { raw: copy_block(data, 0) };
        assert(data@.take(128) =~= data@);
        match block.validate() {
            Ok(()) => Ok(block),
            Err(e) => Err(e),
        }
    }

    /// Validate this block's base header when present and its checksum.
    pub fn validate(&self) -> (res: Result<(), EdidError>)
        ensures
            res == (match spec_block_error(self.raw@) {
                None => Ok(()),
                Some(e) => Err(e),
            }),
    {
        if self.raw[0] == 0 && !has_header(&self.raw) {
            return Err(EdidError::InvalidHeader);
        }
        let sum = sum_bytes_mod(&self.raw, 128);
        assert(self.raw@.take(128) =~= self.raw@);
        if sum != 0 {
            return Err(EdidError::InvalidChecksum { sum });
        }
        Ok(())
    }

    /// Validate a block that stands in an extension slot: it must not carry
    /// the base-block header, and it must pass the block checks.
    pub fn validate_extension(&self) -> (res: Result<(), EdidError>)
        ensures
            res == (match spec_extension_error(self.raw@) {
                None => Ok(()),
                Some(e) => Err(e),
            }),
    {
        if has_header(&self.raw) {
            return Err(EdidError::InvalidHeader);
        }
        self.validate()
    }

    /// Validate fields specific to an EDID base block.
    pub(crate) fn validate_base(&self) -> (res: Result<(), EdidError>)
        ensures
            res == (match spec_base_error(self.raw@) {
                None => Ok(()),
                Some(e) => Err(e),
            }),
    {
        self.validate()?;
        if !has_header(&self.raw) {
            return Err(EdidError::InvalidHeader);
        }
        let major = self.raw[18];
        let minor = self.raw[19];
        if major != 1 || minor > 4 {
            return Err(EdidError::UnsupportedVersion { major, minor });
        }
        Ok(())
    }

    /// Read a detailed timing together with its original DTD flags.
    pub fn read_detailed_with_flags(&self, slot: usize) -> (res: Option<DecodedDtd>)
        ensures
            slot >= 4 ==> res is None,
            slot < 4 ==> res == spec_decode_dtd(spec_slot_bytes(self.raw@, slot as int)),
    {
        if slot >= DETAILED_SLOTS {
            return None;
        }
        decode_dtd_bytes(&self.raw, DETAILED_START + slot * EDID_DESCRIPTOR_LEN)
    }

    /// Read a progressive detailed timing from slot (0-3).
    ///
    /// Interlaced DTDs are available through [`Self::read_detailed_with_flags`]
    /// and are excluded from this progressive-only view.
    pub fn read_detailed(&self, slot: usize) -> (res: Option<DetailedTiming>)
        ensures
            res == spec_read_progressive(self.raw@, slot as int),
    {
        match self.read_detailed_with_flags(slot) {
            Some(decoded) => {
                if decoded.flags.interlaced() {
                    None
                } else {
                    Some(decoded.timing)
                }
            },
            None => None,
        }
    }

    /// Write a detailed timing after validating every DTD field.
    ///
    /// On failure the block is left unchanged. The block checksum is not
    /// updated.
    #[verifier::spinoff_prover]
    #[verifier::rlimit(30)]
    pub fn write_detailed_checked(&mut self, slot: usize, t: &DetailedTiming) -> (res: Result<
        (),
        DtdError,
    >)
        ensures
            slot >= 4 ==> res == Err::<(), DtdError>(DtdError::SlotOutOfRange { slot, slots: 4 }),
            slot < 4 && spec_dtd_error(*t) is Some ==> res == Err::<(), DtdError>(
                spec_dtd_error(*t)->0,
            ),
            slot < 4 && spec_dtd_error(*t) is None ==> res is Ok,
            res is Ok ==> final(self).raw@ == spec_splice(
                old(self).raw@,
                54 + 18 * slot,
                spec_encode_dtd(*t),
            ),
            res is Err ==> final(self).raw@ == old(self).raw@,
    {
        if slot >= DETAILED_SLOTS {
            return Err(DtdError::SlotOutOfRange { slot, slots: DETAILED_SLOTS });
        }
        validate_dtd(t)?;
        let ghost before = self.raw@;
        let off = DETAILED_START + slot * EDID_DESCRIPTOR_LEN;
        let d = encode_dtd(t);
        let mut k: usize = 0;
        while k < 18
            invariant
                k <= 18,
                off == 54 + 18 * slot,
                slot < 4,
                d@ == spec_encode_dtd(*t),
                self.raw@.len() == 128,
                forall|j: int| 0 <= j < off ==> self.raw@[j] == before[j],
                forall|j: int| off + 18 <= j < 128 ==> self.raw@[j] == before[j],
                forall|j: int| 0 <= j < k ==> self.raw@[off + j] == d@[j],
            decreases 18 - k,
        {
            self.raw[off + k] = d[k];
            k = k + 1;
        }
        assert(self.raw@ =~= spec_splice(before, off as int, spec_encode_dtd(*t)));
        Ok(())
    }

    /// Write a detailed timing, retaining the legacy infallible signature.
    ///
    /// Invalid timings are rejected without modifying the block.
    pub fn write_detailed(&mut self, slot: usize, t: &DetailedTiming)
        ensures
            slot < 4 && spec_dtd_error(*t) is None ==> final(self).raw@ == spec_splice(
                old(self).raw@,
                54 + 18 * slot,
                spec_encode_dtd(*t),
            ),
            !(slot < 4 && spec_dtd_error(*t) is None) ==> final(self).raw@ == old(self).raw@,
    {
        let _ = self.write_detailed_checked(slot, t);
    }

    /// Write a timing while preserving explicit DTD flag semantics.
    pub fn write_detailed_with_flags_checked(
        &mut self,
        slot: usize,
        timing: &DetailedTiming,
        flags: DtdFlags,
    ) -> (res: Result<(), DtdError>)
        ensures
            slot >= 4 ==> res == Err::<(), DtdError>(DtdError::SlotOutOfRange { slot, slots: 4 }),
            slot < 4 && spec_dtd_error(*timing) is Some ==> res == Err::<(), DtdError>(
                spec_dtd_error(*timing)->0,
            ),
            slot < 4 && spec_dtd_error(*timing) is None ==> res is Ok,
            res is Ok ==> final(self).raw@ == spec_splice(
                old(self).raw@,
                54 + 18 * slot,
                spec_encode_dtd(*timing).update(17, flags.raw),
            ),
            res is Err ==> final(self).raw@ == old(self).raw@,
    {
        self.write_detailed_checked(slot, timing)?;
        let ghost mid = self.raw@;
        let offset = DETAILED_START + slot * EDID_DESCRIPTOR_LEN;
        self.raw[offset + 17] = flags.raw;
        assert(self.raw@ =~= spec_splice(
            old(self).raw@,
            54 + 18 * slot,
            spec_encode_dtd(*timing).update(17, flags.raw),
        ));
        Ok(())
    }

    /// Clear a detailed timing slot to the dummy descriptor convention:
    /// pixel clock = 0, tag byte 0x10, payload zeroed.
    pub fn clear_slot(&mut self, slot: usize)
        ensures
            slot < 4 ==> final(self).raw@ == spec_splice(
                old(self).raw@,
                54 + 18 * slot,
                spec_cleared_slot(),
            ),
            slot >= 4 ==> final(self).raw@ == old(self).raw@,
    {
        if slot >= DETAILED_SLOTS {
            return;
        }
        let ghost before = self.raw@;
        let off = DETAILED_START + slot * EDID_DESCRIPTOR_LEN;
        let mut k: usize = 0;
        while k < 18
            invariant
                k <= 18,
                off == 54 + 18 * slot,
                slot < 4,
                self.raw@.len() == 128,
                forall|j: int| 0 <= j < off ==> self.raw@[j] == before[j],
                forall|j: int| off + 18 <= j < 128 ==> self.raw@[j] == before[j],
                forall|j: int| 0 <= j < k ==> self.raw@[off + j] == spec_cleared_slot()[j],
            decreases 18 - k,
        {
            self.raw[off + k] = if k == 3 { 0x10 } else { 0 };
            k = k + 1;
        }
        assert(self.raw@ =~= spec_splice(before, off as int, spec_cleared_slot()));
    }

    /// Classify a detailed-timing descriptor slot.
    pub fn slot_kind(&self, slot: usize) -> (kind: SlotKind)
        requires
            slot < 4,
        ensures
            kind == spec_slot_kind(spec_slot_bytes(self.raw@, slot as int)),
    {
        let off = DETAILED_START + slot * EDID_DESCRIPTOR_LEN;
        let ghost d = spec_slot_bytes(self.raw@, slot as int);
        let mut all_ones = true;
        let mut all_zero = true;
        let mut rest_zero = true;
        let mut k: usize = 0;
        while k < 18
            invariant
                k <= 18,
                off == 54 + 18 * slot,
                slot < 4,
                d == spec_slot_bytes(self.raw@, slot as int),
                all_ones == (forall|j: int| 0 <= j < k ==> d[j] == 1),
                all_zero == (forall|j: int| 0 <= j < k ==> d[j] == 0),
                rest_zero == (forall|j: int| 4 <= j < k ==> d[j] == 0),
            decreases 18 - k,
        {
            let b = self.raw[off + k];
            assert(d[k as int] == b);
            if b != 1 {
                all_ones = false;
            }
            if b != 0 {
                all_zero = false;
                if k >= 4 {
                    rest_zero = false;
                }
            }
            k = k + 1;
        }
        assert(all_ones == spec_all_bytes(d, 1));
        assert(all_zero == spec_all_bytes(d, 0));
        assert(rest_zero == spec_all_bytes(d.skip(4), 0)) by {
            if rest_zero {
                assert forall|j: int| 0 <= j < d.skip(4).len() implies d.skip(4)[j] == 0 by {
                    assert(d.skip(4)[j] == d[j + 4]);
                }
            } else {
                let j = choose|j: int| 4 <= j < 18 && d[j] != 0;
                assert(d.skip(4)[j - 4] == d[j]);
            }
        }
        if all_ones {
            return SlotKind::Free;
        }
        if self.raw[off] != 0 || self.raw[off + 1] != 0 {
            return SlotKind::Timing;
        }
        if all_zero || (self.raw[off + 3] == 0x10 && rest_zero) {
            SlotKind::Free
        } else {
            SlotKind::Descriptor
        }
    }

    /// The raw 128 EDID bytes as a slice.
    pub fn as_bytes(&self) -> (b: &[u8])
        ensures
            b@ == self.raw@,
    {
        self.raw.as_slice()
    }
}

/// Copy 128 bytes of `data` starting at `start` into a block array.
pub(crate) fn copy_block(data: &[u8], start: usize) -> (raw: [u8; 128])
    requires
        start + 128 <= data@.len(),
    ensures
        raw@ == data@.subrange(start as int, start + 128),
{
    let mut raw = [0u8; 128];
    let mut i: usize = 0;
    while i < 128
        invariant
            i <= 128,
            start + 128 <= data.len(),
            forall|j: int| 0 <= j < i ==> raw@[j] == data@[start + j],
        decreases 128 - i,
    {
        raw[i] = data[start + i];
        i = i + 1;
    }
    assert(raw@ =~= data@.subrange(start as int, start + 128));
    raw
}

/// Encode a representable timing as its 18 DTD bytes.
pub(crate) fn encode_dtd(t: &DetailedTiming) -> (d: Vec<u8>)
    requires
        spec_dtd_error(*t) is None,
    ensures
        d@ == spec_encode_dtd(*t),
{
    let pc: u32 = (t.pixel_clock_khz + 5) / 10;
    let ha: u32 = t.h_active;
    let va: u32 = t.v_active;
    let hb: u32 = t.h_front + t.h_sync + t.h_back + 2 * t.h_border;
    let vb: u32 = t.v_front + t.v_sync + t.v_back + 2 * t.v_border;
    let hsize: u32 = ha / 4;
    let vsize: u32 = va / 4;
    let mut flags: u8 = 0x18;
    if t.h_pol {
        flags = flags + 2;
    }
    if t.v_pol {
        flags = flags + 4;
    }
    let mut d: Vec<u8> = Vec::with_capacity(18);
    d.push((pc % 256) as u8);
    d.push((pc / 256) as u8);
    d.push((ha % 256) as u8);
    d.push((hb % 256) as u8);
    d.push((((ha / 256) % 16) * 16 + (hb / 256) % 16) as u8);
    d.push((va % 256) as u8);
    d.push((vb % 256) as u8);
    d.push((((va / 256) % 16) * 16 + (vb / 256) % 16) as u8);
    d.push((t.h_front % 256) as u8);
    d.push((t.h_sync % 256) as u8);
    d.push(((t.v_front % 16) * 16 + t.v_sync % 16) as u8);
    d.push(
        (((t.h_front / 256) % 4) * 64 + ((t.h_sync / 256) % 4) * 16 + ((t.v_front / 16) % 4) * 4
            + (t.v_sync / 16) % 4) as u8,
    );
    d.push((hsize % 256) as u8);
    d.push((vsize % 256) as u8);
    d.push((((hsize / 256) % 16) * 16 + (vsize / 256) % 16) as u8);
    d.push(t.h_border as u8);
    d.push(t.v_border as u8);
    d.push(flags);
    assert(d@ =~= spec_encode_dtd(*t));
    d
}

proof fn lemma_slot_index(k: int, j: int)
    requires
        0 <= k < 4,
        0 <= j < 18,
    ensures
        (18 * k + j) / 18 == k,
        (18 * k + j) % 18 == j,
{
    vstd::arithmetic::div_mod::lemma_fundamental_div_mod(18 * k + j, 18);
    vstd::arithmetic::div_mod::lemma_mod_multiples_vanish(k, j, 18);
    vstd::arithmetic::div_mod::lemma_small_mod(j as nat, 18);
}

proof fn lemma_place_prefix_step(
    orig: Seq<u8>,
    cur: Seq<u8>,
    timings: Seq<DetailedTiming>,
    k: int,
)
    requires
        orig.len() == 128,
        0 <= k < 4,
        cur == spec_place_prefix(orig, timings, k),
    ensures
        spec_slot_bytes(cur, k) == spec_slot_bytes(orig, k),
        spec_splice(cur, 54 + 18 * k, spec_placed_slot(orig, timings, k)) == spec_place_prefix(
            orig,
            timings,
            k + 1,
        ),
{
    let placed = spec_placed_slot(orig, timings, k);
    assert(placed.len() == 18);
    assert(spec_slot_bytes(cur, k) =~= spec_slot_bytes(orig, k));
    let lhs = spec_splice(cur, 54 + 18 * k, placed);
    let rhs = spec_place_prefix(orig, timings, k + 1);
    assert forall|i: int| 0 <= i < 128 implies lhs[i] == rhs[i] by {
        if 54 + 18 * k <= i < 72 + 18 * k {
            lemma_slot_index(k, i - 54 - 18 * k);
            assert((i - 54) / 18 == k);
        } else if 54 <= i < 54 + 18 * k {
        }
    }
    assert(lhs =~= rhs);
}

proof fn lemma_count_kind_bound(kinds: Seq<SlotKind>, kind: SlotKind, n: int)
    requires
        n >= 0,
    ensures
        0 <= spec_count_kind(kinds, kind, n) <= n,
    decreases n,
{
    if n > 0 {
        lemma_count_kind_bound(kinds, kind, n - 1);
    }
}

proof fn lemma_count_kind_step(kinds: Seq<SlotKind>, kind: SlotKind, n: int)
    requires
        n >= 0,
    ensures
        spec_count_kind(kinds, kind, n + 1) == spec_count_kind(kinds, kind, n) + (if kinds[n]
            == kind {
            1int
        } else {
            0
        }),
{
}

impl EdidBlock {
    /// Kinds of the four descriptor slots.
    pub(crate) fn slot_kinds(&self) -> (kinds: Vec<SlotKind>)
        ensures
            kinds@ == spec_kinds(self.raw@),
    {
        let mut kinds: Vec<SlotKind> = Vec::with_capacity(4);
        let mut s: usize = 0;
        while s < 4
            invariant
                s <= 4,
                kinds@.len() == s,
                forall|j: int| 0 <= j < s ==> kinds@[j] == spec_kinds(self.raw@)[j],
            decreases 4 - s,
        {
            kinds.push(self.slot_kind(s));
            s = s + 1;
        }
        assert(kinds@ =~= spec_kinds(self.raw@));
        kinds
    }

    /// Place `timings` into the reusable slots described by `kinds`.
    fn place_timings(&mut self, timings: &[DetailedTiming], kinds: &Vec<SlotKind>)
        requires
            kinds@ == spec_kinds(old(self).raw@),
            forall|i: int| 0 <= i < timings@.len() ==> spec_dtd_error(#[trigger] timings@[i]) is None,
        ensures
            final(self).raw@ == spec_place_timings(old(self).raw@, timings@),
    {
        let ghost orig = self.raw@;
        let mut total_timing: usize = 0;
        let mut s: usize = 0;
        while s < 4
            invariant
                s <= 4,
                kinds@ == spec_kinds(orig),
                total_timing == spec_count_kind(kinds@, SlotKind::Timing, s as int),
                total_timing <= s,
            decreases 4 - s,
        {
            proof {
                lemma_count_kind_step(kinds@, SlotKind::Timing, s as int);
            }
            if kinds[s] == SlotKind::Timing {
                total_timing = total_timing + 1;
            }
            s = s + 1;
        }
        assert(self.raw@ =~= spec_place_prefix(orig, timings@, 0));
        let mut seen_timing: usize = 0;
        let mut seen_free: usize = 0;
        let mut k: usize = 0;
        while k < 4
            invariant
                k <= 4,
                orig.len() == 128,
                kinds@ == spec_kinds(orig),
                total_timing == spec_count_kind(kinds@, SlotKind::Timing, 4),
                seen_timing == spec_count_kind(kinds@, SlotKind::Timing, k as int),
                seen_free == spec_count_kind(kinds@, SlotKind::Free, k as int),
                total_timing <= 4,
                seen_timing <= k,
                seen_free <= k,
                self.raw@ == spec_place_prefix(orig, timings@, k as int),
                forall|i: int| 0 <= i < timings@.len() ==> spec_dtd_error(#[trigger] timings@[i]) is None,
            decreases 4 - k,
        {
            proof {
                lemma_count_kind_step(kinds@, SlotKind::Timing, k as int);
                lemma_count_kind_step(kinds@, SlotKind::Free, k as int);
                lemma_place_prefix_step(orig, self.raw@, timings@, k as int);
            }
            let kind = kinds[k];
            if kind == SlotKind::Timing {
                let rank = seen_timing;
                if rank < timings.len() {
                    let r = self.write_detailed_checked(k, &timings[rank]);
                    assert(r is Ok);
                } else {
                    self.clear_slot(k);
                }
                seen_timing = seen_timing + 1;
            } else if kind == SlotKind::Free {
                let rank = total_timing + seen_free;
                if rank < timings.len() {
                    let r = self.write_detailed_checked(k, &timings[rank]);
                    assert(r is Ok);
                } else {
                    assert(spec_splice(self.raw@, 54 + 18 * k, spec_slot_bytes(orig, k as int))
                        =~= self.raw@);
                }
                seen_free = seen_free + 1;
            } else {
                assert(spec_splice(self.raw@, 54 + 18 * k, spec_slot_bytes(orig, k as int))
                    =~= self.raw@);
            }
            k = k + 1;
        }
    }

    /// Replace timings after validating all DTD fields.
    ///
    /// Existing timing slots are reused before free slots. Monitor
    /// descriptors are never modified. If a timing is invalid or there are
    /// fewer reusable slots than timings, the block is left unchanged.
    pub fn write_resolutions_checked(&mut self, timings: &[DetailedTiming]) -> (res: Result<
        usize,
        DtdError,
    >)
        ensures
            spec_first_dtd_error(timings@) is Some ==> res == Err::<usize, DtdError>(
                spec_first_dtd_error(timings@)->0,
            ),
            spec_first_dtd_error(timings@) is None && timings@.len() > spec_available_slots(
                spec_kinds(old(self).raw@),
            ) ==> res == Err::<usize, DtdError>(
                DtdError::NoAvailableSlot {
                    requested: timings@.len() as usize,
                    available: spec_available_slots(spec_kinds(old(self).raw@)) as usize,
                },
            ),
            spec_first_dtd_error(timings@) is None && timings@.len() <= spec_available_slots(
                spec_kinds(old(self).raw@),
            ) ==> res == Ok::<usize, DtdError>(timings@.len() as usize),
            res is Ok ==> final(self).raw@ == spec_place_timings(old(self).raw@, timings@),
            res is Err ==> final(self).raw@ == old(self).raw@,
    {
        if let Some(e) = first_dtd_error(timings) {
            return Err(e);
        }
        proof {
            lemma_no_dtd_error(timings@);
        }
        let kinds = self.slot_kinds();
        let available = count_reusable(&kinds);
        if timings.len() > available {
            return Err(DtdError::NoAvailableSlot { requested: timings.len(), available });
        }
        self.place_timings(timings, &kinds);
        Ok(timings.len())
    }

    /// Replace timings while retaining the legacy infallible signature.
    ///
    /// Invalid timings are rejected without modifying the block and 0 is
    /// returned; otherwise as many timings as there are reusable slots are
    /// written and their number is returned.
    pub fn write_resolutions(&mut self, timings: &[DetailedTiming]) -> (written: usize)
        ensures
            spec_first_dtd_error(timings@) is Some ==> written == 0 && final(self).raw@ == old(
                self,
            ).raw@,
            spec_first_dtd_error(timings@) is None ==> {
                &&& written == vstd::math::min(
                    timings@.len() as int,
                    spec_available_slots(spec_kinds(old(self).raw@)),
                )
                &&& final(self).raw@ == spec_place_timings(old(self).raw@, timings@)
            },
    {
        if first_dtd_error(timings).is_some() {
            return 0;
        }
        proof {
            lemma_no_dtd_error(timings@);
        }
        let kinds = self.slot_kinds();
        let available = count_reusable(&kinds);
        self.place_timings(timings, &kinds);
        if timings.len() < available {
            timings.len()
        } else {
            available
        }
    }

    /// Get all progressive detailed timings from this block, in slot order.
    pub fn detailed_timings(&self) -> (res: Vec<DetailedTiming>)
        ensures
            res@ == spec_collect_progressive(self.raw@, 4),
    {
        let mut res: Vec<DetailedTiming> = Vec::new();
        let mut slot: usize = 0;
        while slot < 4
            invariant
                slot <= 4,
                res@ == spec_collect_progressive(self.raw@, slot as int),
            decreases 4 - slot,
        {
            if let Some(t) = self.read_detailed(slot) {
                res.push(t);
            }
            slot = slot + 1;
        }
        res
    }

    /// Read all detailed timings with flags in this block, in slot order.
    pub fn detailed_timings_flagged(&self) -> (res: Vec<DecodedDtd>)
        ensures
            res@ == spec_collect_flagged(self.raw@, 4),
    {
        let mut res: Vec<DecodedDtd> = Vec::new();
        let mut slot: usize = 0;
        while slot < 4
            invariant
                slot <= 4,
                res@ == spec_collect_flagged(self.raw@, slot as int),
            decreases 4 - slot,
        {
            if let Some(t) = self.read_detailed_with_flags(slot) {
                res.push(t);
            }
            slot = slot + 1;
        }
        res
    }
}

/// The progressive timings of slots below `n`, in slot order.
pub open spec fn spec_collect_progressive(s: Seq<u8>, n: int) -> Seq<DetailedTiming>
    decreases n,
{
    if n <= 0 {
        Seq::empty()
    } else {
        let prev = spec_collect_progressive(s, n - 1);
        match spec_read_progressive(s, n - 1) {
            Some(t) => prev.push(t),
            None => prev,
        }
    }
}

/// The decoded DTDs of slots below `n`, in slot order.
pub open spec fn spec_collect_flagged(s: Seq<u8>, n: int) -> Seq<DecodedDtd>
    decreases n,
{
    if n <= 0 {
        Seq::empty()
    } else {
        let prev = spec_collect_flagged(s, n - 1);
        match spec_decode_dtd(spec_slot_bytes(s, n - 1)) {
            Some(d) => prev.push(d),
            None => prev,
        }
    }
}

proof fn lemma_no_dtd_error(timings: Seq<DetailedTiming>)
    requires
        spec_first_dtd_error(timings) is None,
    ensures
        forall|i: int| 0 <= i < timings.len() ==> spec_dtd_error(#[trigger] timings[i]) is None,
    decreases timings.len(),
{
    if timings.len() > 0 {
        lemma_no_dtd_error(timings.drop_first());
        assert forall|i: int| 0 <= i < timings.len() implies spec_dtd_error(
            #[trigger] timings[i],
        ) is None by {
            if i > 0 {
                assert(timings.drop_first()[i - 1] == timings[i]);
            }
        }
    }
}

/// Number of timing and free slots among the kinds.
fn count_reusable(kinds: &Vec<SlotKind>) -> (n: usize)
    requires
        kinds@.len() == 4,
    ensures
        n == spec_available_slots(kinds@),
        n <= 4,
{
    let mut t: usize = 0;
    let mut f: usize = 0;
    let mut s: usize = 0;
    while s < 4
        invariant
            s <= 4,
            kinds@.len() == 4,
            t == spec_count_kind(kinds@, SlotKind::Timing, s as int),
            f == spec_count_kind(kinds@, SlotKind::Free, s as int),
            t + f <= s,
        decreases 4 - s,
    {
        proof {
            lemma_count_kind_step(kinds@, SlotKind::Timing, s as int);
            lemma_count_kind_step(kinds@, SlotKind::Free, s as int);
        }
        if kinds[s] == SlotKind::Timing {
            t = t + 1;
        } else if kinds[s] == SlotKind::Free {
            f = f + 1;
        }
        s = s + 1;
    }
    t + f
}

/// A complete EDID made of one validated base block and its extensions.
#[derive(Clone, Debug, PartialEq, Eq)]
pub struct Edid {
    /// Validated EDID base block.
    pub base: EdidBlock,
    /// Validated extension blocks in their original order.
    pub extensions: Vec<EdidBlock>,
}

/// The raw bytes of each block of a block list.
pub open spec fn spec_block_views(blocks: Seq<EdidBlock>) -> Seq<Seq<u8>> {
    Seq::new(blocks.len(), |i: int| blocks[i].raw@)
}

/// Concatenation of byte sequences in order.
pub open spec fn spec_concat(parts: Seq<Seq<u8>>) -> Seq<u8>
    decreases parts.len(),
{
    if parts.len() == 0 {
        Seq::empty()
    } else {
        spec_concat(parts.drop_last()) + parts.last()
    }
}

/// The complete EDID byte sequence of a base block and extensions.
pub open spec fn spec_edid_bytes(base: Seq<u8>, extensions: Seq<Seq<u8>>) -> Seq<u8> {
    base + spec_concat(extensions)
}

/// The `i`-th 128-byte block of a byte sequence.
pub open spec fn spec_chunk(d: Seq<u8>, i: int) -> Seq<u8> {
    d.subrange(128 * i, 128 * i + 128)
}

/// The extension blocks of a whole block sequence: every block after the
/// first.
pub open spec fn spec_extension_chunks(d: Seq<u8>) -> Seq<Seq<u8>> {
    Seq::new((d.len() / 128 - 1) as nat, |i: int| spec_chunk(d, i + 1))
}

/// The first block-validation error among `blocks`, if any.
pub open spec fn spec_first_block_error(blocks: Seq<Seq<u8>>) -> Option<EdidError>
    decreases blocks.len(),
{
    if blocks.len() == 0 {
        None
    } else if spec_extension_error(blocks[0]) is Some {
        spec_extension_error(blocks[0])
    } else {
        spec_first_block_error(blocks.drop_first())
    }
}

/// Why a complete EDID byte sequence is rejected by the strict parser, if
/// it is.
pub open spec fn spec_parse_error(d: Seq<u8>) -> Option<EdidError> {
    if d.len() < 128 || d.len() % 128 != 0 {
        Some(EdidError::InvalidBlockSequenceLength { actual: d.len() as usize })
    } else if spec_base_error(spec_chunk(d, 0)) is Some {
        spec_base_error(spec_chunk(d, 0))
    } else if d[126] != d.len() / 128 - 1 {
        Some(
            EdidError::ExtensionCountMismatch {
                declared: d[126] as usize,
                actual: (d.len() / 128 - 1) as usize,
            },
        )
    } else {
        spec_first_block_error(spec_extension_chunks(d))
    }
}

/// Why a base block and extension list fail aggregate validation, if they do.
pub open spec fn spec_edid_error(base: Seq<u8>, extensions: Seq<Seq<u8>>) -> Option<EdidError> {
    if spec_base_error(base) is Some {
        spec_base_error(base)
    } else if base[126] != extensions.len() {
        Some(
            EdidError::ExtensionCountMismatch {
                declared: base[126] as usize,
                actual: extensions.len() as usize,
            },
        )
    } else {
        spec_first_block_error(extensions)
    }
}

proof fn lemma_first_block_error_step(blocks: Seq<Seq<u8>>, i: int)
    requires
        0 <= i < blocks.len(),
        spec_first_block_error(blocks.take(i)) is None,
    ensures
        spec_extension_error(blocks[i]) is Some ==> spec_first_block_error(blocks) == spec_extension_error(
            blocks[i],
        ),
        spec_extension_error(blocks[i]) is None ==> spec_first_block_error(blocks.take(i + 1)) is None,
    decreases i,
{
    if i == 0 {
        assert(blocks.take(1).drop_first() =~= Seq::<Seq<u8>>::empty());
        assert(blocks.take(1)[0] == blocks[0]);
    } else {
        assert(blocks.take(i + 1).drop_first() =~= blocks.drop_first().take(i));
        assert(blocks.take(i).drop_first() =~= blocks.drop_first().take(i - 1));
        assert(blocks.take(i + 1)[0] == blocks[0]);
        assert(blocks.take(i)[0] == blocks[0]);
        assert(blocks.drop_first()[i - 1] == blocks[i]);
        lemma_first_block_error_step(blocks.drop_first(), i - 1);
    }
}

/// Append the bytes of `b` to `v`.
pub(crate) fn push_bytes(v: &mut Vec<u8>, b: &[u8])
    ensures
        final(v)@ == old(v)@ + b@,
{
    let ghost start = v@;
    let mut i: usize = 0;
    while i < b.len()
        invariant
            i <= b@.len(),
            v@ == start + b@.take(i as int),
        decreases b@.len() - i,
    {
        v.push(b[i]);
        i = i + 1;
        assert(v@ =~= start + b@.take(i as int));
    }
    assert(b@.take(i as int) =~= b@);
}

/// Check each block in order and report the first failure.
pub(crate) fn validate_blocks(blocks: &Vec<EdidBlock>) -> (res: Result<(), EdidError>)
    ensures
        res == (match spec_first_block_error(spec_block_views(blocks@)) {
            None => Ok(()),
            Some(e) => Err(e),
        }),
{
    let ghost views = spec_block_views(blocks@);
    let mut i: usize = 0;
    while i < blocks.len()
        invariant
            i <= blocks@.len(),
            views == spec_block_views(blocks@),
            spec_first_block_error(views.take(i as int)) is None,
        decreases blocks@.len() - i,
    {
        proof {
            lemma_first_block_error_step(views, i as int);
        }
        blocks[i].validate_extension()?;
        i = i + 1;
    }
    assert(views.take(i as int) =~= views);
    Ok(())
}

impl Edid {
    /// Parse and validate a complete EDID byte sequence.
    pub fn from_bytes(data: &[u8]) -> (res: Result<Self, EdidError>)
        ensures
            res matches Err(e) ==> spec_parse_error(data@) == Some(e),
            res is Ok <==> spec_parse_error(data@) is None,
            res matches Ok(edid) ==> {
                &&& edid.base.raw@ == spec_chunk(data@, 0)
                &&& spec_block_views(edid.extensions@) == spec_extension_chunks(data@)
            },
    {
        if data.len() < 128 || data.len() % 128 != 0 {
            return Err(EdidError::InvalidBlockSequenceLength { actual: data.len() });
        }
        let base = EdidBlock { raw: copy_block(data, 0) };
        base.validate_base()?;
        let actual = data.len() / 128 - 1;
        let declared = base.raw[126] as usize;
        if declared != actual {
            return Err(EdidError::ExtensionCountMismatch { declared, actual });
        }
        let ghost chunks = spec_extension_chunks(data@);
        assert(base.raw@[126] == data@[126]);
        let mut extensions: Vec<EdidBlock> = Vec::with_capacity(actual);
        let mut i: usize = 0;
        while i < actual
            invariant
                i <= actual,
                actual == data@.len() / 128 - 1,
                data@.len() % 128 == 0,
                data.len() >= 128,
                chunks == spec_extension_chunks(data@),
                spec_base_error(spec_chunk(data@, 0)) is None,
                data@[126] == actual,
                base.raw@ == spec_chunk(data@, 0),
                spec_block_views(extensions@) == chunks.take(i as int),
                spec_first_block_error(chunks.take(i as int)) is None,
            decreases actual - i,
        {
            proof {
                lemma_first_block_error_step(chunks, i as int);
                assert(128 * (i + 2) <= data@.len()) by (nonlinear_arith)
                    requires
                        i < data@.len() / 128 - 1,
                        data@.len() >= 0,
                ;
            }
            let block = EdidBlock { raw: copy_block(data, 128 * (i + 1)) };
            assert(block.raw@ == chunks[i as int]);
            block.validate_extension()?;
            extensions.push(block);
            i = i + 1;
            assert(spec_block_views(extensions@) =~= chunks.take(i as int));
        }
        assert(chunks.take(i as int) =~= chunks);
        Ok(Self { base, extensions })
    }

    /// Return the complete EDID as contiguous bytes, exactly as stored,
    /// without repairing the extension count, checksums or offsets.
    pub fn to_bytes(&self) -> (bytes: Vec<u8>)
        ensures
            bytes@ == spec_edid_bytes(self.base.raw@, spec_block_views(self.extensions@)),
    {
        let mut bytes: Vec<u8> = Vec::new();
        push_bytes(&mut bytes, self.base.as_bytes());
        let ghost views = spec_block_views(self.extensions@);
        let mut i: usize = 0;
        while i < self.extensions.len()
            invariant
                i <= self.extensions@.len(),
                views == spec_block_views(self.extensions@),
                bytes@ == self.base.raw@ + spec_concat(views.take(i as int)),
            decreases self.extensions@.len() - i,
        {
            push_bytes(&mut bytes, self.extensions[i].as_bytes());
            proof {
                assert(views.take(i + 1).drop_last() =~= views.take(i as int));
            }
            i = i + 1;
        }
        assert(views.take(i as int) =~= views);
        bytes
    }

    /// Validate the base block, the extension count, and every extension.
    pub fn validate(&self) -> (res: Result<(), EdidError>)
        ensures
            res == (match spec_edid_error(self.base.raw@, spec_block_views(self.extensions@)) {
                None => Ok(()),
                Some(e) => Err(e),
            }),
    {
        self.base.validate_base()?;
        let actual = self.extensions.len();
        let declared = self.base.raw[126] as usize;
        if declared != actual {
            return Err(EdidError::ExtensionCountMismatch { declared, actual });
        }
        validate_blocks(&self.extensions)
    }

    /// Validate this EDID before a checked serialization.
    pub fn validate_for_serialization(&self) -> (res: Result<(), EdidError>)
        ensures
            res == (match spec_edid_error(self.base.raw@, spec_block_views(self.extensions@)) {
                None => Ok(()),
                Some(e) => Err(e),
            }),
    {
        self.validate()
    }

    /// Validate and return the complete EDID as contiguous bytes.
    ///
    /// Checked output is atomic: invalid state returns an error and no bytes.
    pub fn to_bytes_checked(&self) -> (res: Result<Vec<u8>, EdidError>)
        ensures
            res matches Err(e) ==> spec_edid_error(
                self.base.raw@,
                spec_block_views(self.extensions@),
            ) == Some(e),
            res matches Ok(bytes) ==> spec_edid_error(
                self.base.raw@,
                spec_block_views(self.extensions@),
            ) is None && bytes@ == spec_edid_bytes(
                self.base.raw@,
                spec_block_views(self.extensions@),
            ),
            res is Ok <==> spec_edid_error(self.base.raw@, spec_block_views(self.extensions@)) is None,
    {
        self.validate_for_serialization()?;
        Ok(self.to_bytes())
    }
}

proof fn lemma_concat_chunks(d: Seq<u8>, k: int)
    requires
        d.len() % 128 == 0,
        d.len() >= 128,
        0 <= k <= d.len() / 128 - 1,
    ensures
        spec_concat(spec_extension_chunks(d).take(k)) == d.subrange(128, 128 + 128 * k),
    decreases k,
{
    let chunks = spec_extension_chunks(d);
    if k == 0 {
        assert(chunks.take(0) =~= Seq::<Seq<u8>>::empty());
        assert(d.subrange(128, 128) =~= Seq::<u8>::empty());
    } else {
        lemma_concat_chunks(d, k - 1);
        assert(chunks.take(k).drop_last() =~= chunks.take(k - 1));
        assert(chunks.take(k).last() == spec_chunk(d, k));
        assert(d.subrange(128, 128 + 128 * k) =~= d.subrange(128, 128 + 128 * (k - 1))
            + d.subrange(128 * k, 128 * k + 128));
    }
}

proof fn lemma_concat_len(parts: Seq<Seq<u8>>)
    requires
        forall|i: int| 0 <= i < parts.len() ==> (#[trigger] parts[i]).len() == 128,
    ensures
        spec_concat(parts).len() == 128 * parts.len(),
        forall|i: int|
            0 <= i < parts.len() ==> #[trigger] spec_chunk(spec_concat(parts), i) == parts[i],
    decreases parts.len(),
{
    if parts.len() > 0 {
        let prev = parts.drop_last();
        lemma_concat_len(prev);
        let c = spec_concat(parts);
        assert(c == spec_concat(prev) + parts.last());
        assert forall|i: int| 0 <= i < parts.len() implies #[trigger] spec_chunk(c, i)
            == parts[i] by {
            if i < parts.len() - 1 {
                assert(spec_chunk(c, i) =~= spec_chunk(spec_concat(prev), i));
                assert(prev[i] == parts[i]);
            } else {
                assert(spec_chunk(c, i) =~= parts.last());
            }
        }
    }
}

/// Parsing then serializing is lossless: the bytes of a strictly parsed
/// EDID are exactly its input, and they pass checked serialization.
pub proof fn lemma_parse_then_serialize(d: Seq<u8>)
    requires
        spec_parse_error(d) is None,
    ensures
        spec_edid_bytes(spec_chunk(d, 0), spec_extension_chunks(d)) == d,
        spec_edid_error(spec_chunk(d, 0), spec_extension_chunks(d)) is None,
{
    let n = d.len() / 128 - 1;
    lemma_concat_chunks(d, n);
    assert(spec_extension_chunks(d).take(n) =~= spec_extension_chunks(d));
    assert(d =~= spec_chunk(d, 0) + d.subrange(128, 128 + 128 * n));
}

/// Checked serialization output is stable: bytes of a valid EDID parse
/// back into the same base block and extensions.
pub proof fn lemma_serialize_then_parse(base: Seq<u8>, extensions: Seq<Seq<u8>>)
    requires
        base.len() == 128,
        forall|i: int| 0 <= i < extensions.len() ==> (#[trigger] extensions[i]).len() == 128,
        spec_edid_error(base, extensions) is None,
    ensures
        spec_parse_error(spec_edid_bytes(base, extensions)) is None,
        spec_chunk(spec_edid_bytes(base, extensions), 0) == base,
        spec_extension_chunks(spec_edid_bytes(base, extensions)) == extensions,
{
    let d = spec_edid_bytes(base, extensions);
    lemma_concat_len(extensions);
    let n = extensions.len();
    assert(d.len() == 128 * (n + 1));
    assert(d.len() % 128 == 0 && d.len() / 128 == n + 1) by (nonlinear_arith)
        requires
            d.len() == 128 * (n + 1),
            n >= 0,
    ;
    assert(spec_chunk(d, 0) =~= base);
    assert(d[126] == base[126]);
    let chunks = spec_extension_chunks(d);
    assert forall|i: int| 0 <= i < n implies chunks[i] == extensions[i] by {
        assert(spec_chunk(d, i + 1) =~= spec_chunk(spec_concat(extensions), i));
    }
    assert(chunks =~= extensions);
}

} // verus!
