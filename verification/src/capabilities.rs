//! Source-tracked display capabilities: where each aggregated value came
//! from, and the explicit safe overlap of several VRR ranges.
use vstd::prelude::*;
use crate::extensions::{
    CtaAudioDescriptor, DisplayIdDetailedTiming, DisplayIdEnumeratedTiming, DisplayIdFormulaTiming,
    DisplayIdInterfaceFeatures,
};
use crate::timing::DetailedTiming;
use crate::edid::{Edid, EdidBlock, spec_collect_progressive};
use crate::extensions::{spec_cta_dtds_of, spec_progressive, spec_cta_blocks};
use crate::extensions::cta::{spec_cta_views, spec_cta_view_error, spec_audio_descriptors, spec_get, CtaDataBlockView, CtaVendorSpecificBlock};
use crate::extensions::display_id::{
    spec_did_blocks, spec_first_view_error, spec_collect_timings, spec_collect_formulas, spec_collect_enumerated,
    spec_select, spec_features_of,
};
use crate::metadata::{spec_id_chars, spec_id_codes_valid};
use crate::edid::spec_has_header;
use crate::descriptor::spec_find_text;

verus! {

/// Where an aggregated capability was read from.
#[derive(Clone, Copy, Debug, PartialEq, Eq)]
pub enum CapabilitySource {
    /// The base EDID block.
    Base,
    /// A CTA-861 extension block, identified by its zero-based index.
    CtaExtension {
        /// Zero-based extension index.
        index: usize,
    },
    /// A DisplayID extension block, identified by its zero-based index.
    DisplayIdExtension {
        /// Zero-based extension index.
        index: usize,
    },
    /// A block whose kind was not recognized.
    UnknownExtension {
        /// Zero-based extension index.
        index: usize,
    },
}

/// A discrete timing, source-tracked.
#[derive(Clone, Debug, PartialEq)]
pub enum DisplayTiming {
    /// A detailed timing descriptor from the Base block or a CTA-861 extension.
    Detailed(DetailedTiming),
    /// A DisplayID Type I/VII detailed timing descriptor.
    DisplayIdDetailed(DisplayIdDetailedTiming),
    /// A DisplayID Type IX formula-based timing.
    Formula(DisplayIdFormulaTiming),
    /// A DisplayID Type VIII enumerated timing code.
    Enumerated(DisplayIdEnumeratedTiming),
}

/// A source-tracked timing entry.
#[derive(Clone, Debug, PartialEq)]
pub struct TimingSource {
    /// Where the timing came from.
    pub source: CapabilitySource,
    /// The timing value.
    pub timing: DisplayTiming,
}

/// A source-tracked VRR refresh-rate range (inclusive).
#[derive(Clone, Debug, PartialEq, Eq)]
pub struct VrrRange {
    /// Where the range came from.
    pub source: CapabilitySource,
    /// Minimum refresh rate (Hz).
    pub min_hz: u16,
    /// Maximum refresh rate (Hz).
    pub max_hz: u16,
}

/// A source-tracked CTA audio descriptor.
#[derive(Clone, Debug, PartialEq, Eq)]
pub struct AudioSource {
    /// Where the descriptor came from.
    pub source: CapabilitySource,
    /// The audio descriptor.
    pub descriptor: CtaAudioDescriptor,
}

/// A source-tracked DisplayID interface-features block.
#[derive(Clone, Debug, PartialEq, Eq)]
pub struct InterfaceSource {
    /// Where the block came from.
    pub source: CapabilitySource,
    /// The interface features.
    pub features: DisplayIdInterfaceFeatures,
}

/// Read-only aggregate display capabilities.
#[derive(Clone, Debug, PartialEq)]
pub struct DisplayCapabilities {
    /// Three-letter manufacturer ID from the base block, if present.
    pub manufacturer_id: Option<String>,
    /// Monitor product name, if present.
    pub product_name: Option<String>,
    /// All timings in source order (Base + CTA + DisplayID).
    pub timings: Vec<TimingSource>,
    /// All CTA audio descriptors in source order.
    pub audio: Vec<AudioSource>,
    /// All VRR refresh ranges in source order.
    pub vrr_ranges: Vec<VrrRange>,
    /// All DisplayID interface-features blocks in source order.
    pub interfaces: Vec<InterfaceSource>,
}

/// A refresh rate lies in every range.
pub open spec fn spec_in_all(ranges: Seq<VrrRange>, hz: int) -> bool {
    forall|i: int| 0 <= i < ranges.len() ==> ranges[i].min_hz <= hz <= #[trigger] ranges[i].max_hz
}

/// The greatest minimum of the first `n` ranges.
pub open spec fn spec_greatest_min(ranges: Seq<VrrRange>, n: int) -> int
    decreases n,
{
    if n <= 1 {
        ranges[0].min_hz as int
    } else if spec_greatest_min(ranges, n - 1) < ranges[n - 1].min_hz {
        ranges[n - 1].min_hz as int
    } else {
        spec_greatest_min(ranges, n - 1)
    }
}

/// The least maximum of the first `n` ranges.
pub open spec fn spec_least_max(ranges: Seq<VrrRange>, n: int) -> int
    decreases n,
{
    if n <= 1 {
        ranges[0].max_hz as int
    } else if ranges[n - 1].max_hz < spec_least_max(ranges, n - 1) {
        ranges[n - 1].max_hz as int
    } else {
        spec_least_max(ranges, n - 1)
    }
}

proof fn lemma_bounds(ranges: Seq<VrrRange>, n: int)
    requires
        1 <= n <= ranges.len(),
    ensures
        forall|i: int| 0 <= i < n ==> ranges[i].min_hz <= spec_greatest_min(ranges, n),
        forall|i: int| 0 <= i < n ==> spec_least_max(ranges, n) <= ranges[i].max_hz,
        exists|i: int| 0 <= i < n && ranges[i].min_hz == spec_greatest_min(ranges, n),
        exists|i: int| 0 <= i < n && ranges[i].max_hz == spec_least_max(ranges, n),
    decreases n,
{
    if n > 1 {
        lemma_bounds(ranges, n - 1);
    } else {
        assert(ranges[0].min_hz == spec_greatest_min(ranges, n));
        assert(ranges[0].max_hz == spec_least_max(ranges, n));
    }
}

impl DisplayCapabilities {
    /// Compute the safe VRR intersection across all reported ranges.
    ///
    /// Returns `(low, high)` where `low` is the greatest minimum and `high` the
    /// least maximum across every source. Returns `None` when the sources
    /// conflict (i.e. no common refresh rate).
    pub fn vrr_safe_intersection(&self) -> (res: Option<(u16, u16)>)
        ensures
            self.vrr_ranges@.len() == 0 ==> res is None,
            self.vrr_ranges@.len() > 0 ==> res == (if spec_greatest_min(
                self.vrr_ranges@,
                self.vrr_ranges@.len() as int,
            ) <= spec_least_max(self.vrr_ranges@, self.vrr_ranges@.len() as int) {
                Some(
                    (
                        spec_greatest_min(self.vrr_ranges@, self.vrr_ranges@.len() as int) as u16,
                        spec_least_max(self.vrr_ranges@, self.vrr_ranges@.len() as int) as u16,
                    ),
                )
            } else {
                None::<(u16, u16)>
            }),
            res matches Some((low, high)) ==> forall|hz: int|
                low <= hz <= high <==> spec_in_all(self.vrr_ranges@, hz),
            res is None ==> forall|hz: int| !spec_in_all(self.vrr_ranges@, hz) || self.vrr_ranges@.len() == 0,
    {
        let ranges = &self.vrr_ranges;
        if ranges.len() == 0 {
            return None;
        }
        let mut low: u16 = ranges[0].min_hz;
        let mut high: u16 = ranges[0].max_hz;
        let mut i: usize = 1;
        while i < ranges.len()
            invariant
                1 <= i <= ranges@.len(),
                low == spec_greatest_min(ranges@, i as int),
                high == spec_least_max(ranges@, i as int),
            decreases ranges@.len() - i,
        {
            if low < ranges[i].min_hz {
                low = ranges[i].min_hz;
            }
            if ranges[i].max_hz < high {
                high = ranges[i].max_hz;
            }
            i = i + 1;
        }
        proof {
            let n = ranges@.len() as int;
            lemma_bounds(ranges@, n);
            let a = choose|a: int| 0 <= a < n && ranges@[a].min_hz == spec_greatest_min(ranges@, n);
            let b = choose|b: int| 0 <= b < n && ranges@[b].max_hz == spec_least_max(ranges@, n);
            assert forall|hz: int| spec_in_all(ranges@, hz) implies low <= hz <= high by {
                assert(ranges@[a].min_hz <= hz <= ranges@[a].max_hz);
                assert(ranges@[b].min_hz <= hz <= ranges@[b].max_hz);
            }
        }
        if low <= high {
            Some((low, high))
        } else {
            None
        }
    }

    /// Return whether two or more VRR ranges conflict (no common refresh rate).
    pub fn has_vrr_conflict(&self) -> (b: bool)
        ensures
            b <==> self.vrr_ranges@.len() > 1 && forall|hz: int| !spec_in_all(self.vrr_ranges@, hz),
    {
        if self.vrr_ranges.len() <= 1 {
            return false;
        }
        let r = self.vrr_safe_intersection();
        proof {
            if let Some((low, high)) = r {
                assert(spec_in_all(self.vrr_ranges@, low as int));
            }
        }
        r.is_none()
    }
}

// ---------------------------------------------------------------------------
// Aggregation
// ---------------------------------------------------------------------------

/// The source of extension block `index` with bytes `raw`.
pub open spec fn spec_source(index: int, raw: Seq<u8>) -> CapabilitySource {
    if raw[0] == 0x02 {
        CapabilitySource::CtaExtension { index: index as usize }
    } else if raw[0] == 0x70 {
        CapabilitySource::DisplayIdExtension { index: index as usize }
    } else {
        CapabilitySource::UnknownExtension { index: index as usize }
    }
}

/// DTD timings, each tagged with `src`.
pub open spec fn spec_detailed_entries(ts: Seq<DetailedTiming>, src: CapabilitySource) -> Seq<TimingSource> {
    Seq::new(ts.len(), |i: int| TimingSource { source: src, timing: DisplayTiming::Detailed(ts[i]) })
}

/// DisplayID detailed, formula and enumerated timings, each tagged with `src`.
pub open spec fn spec_did_entries(
    d: Seq<DisplayIdDetailedTiming>,
    f: Seq<DisplayIdFormulaTiming>,
    e: Seq<DisplayIdEnumeratedTiming>,
    src: CapabilitySource,
) -> Seq<TimingSource> {
    Seq::new(d.len(), |i: int| TimingSource { source: src, timing: DisplayTiming::DisplayIdDetailed(d[i]) })
        + Seq::new(f.len(), |i: int| TimingSource { source: src, timing: DisplayTiming::Formula(f[i]) })
        + Seq::new(e.len(), |i: int| TimingSource { source: src, timing: DisplayTiming::Enumerated(e[i]) })
}

/// The timings an extension block contributes: the DTDs of a CTA-861 block
/// that reads, or the detailed, formula and enumerated timings of a
/// DisplayID block whose data blocks all have typed views.
pub open spec fn spec_ext_timings(raw: Seq<u8>, src: CapabilitySource) -> Seq<TimingSource> {
    if raw[0] == 0x02 {
        match spec_cta_dtds_of(raw) {
            Ok(d) => spec_detailed_entries(spec_progressive(d), src),
            Err(_) => Seq::empty(),
        }
    } else if raw[0] == 0x70 {
        match spec_did_blocks(raw) {
            Ok(bv) => if spec_first_view_error(bv, bv.len() as int) is None {
                spec_did_entries(
                    spec_collect_timings(bv, bv.len() as int),
                    spec_collect_formulas(bv, bv.len() as int),
                    spec_collect_enumerated(bv, bv.len() as int),
                    src,
                )
            } else {
                Seq::empty()
            },
            Err(_) => Seq::empty(),
        }
    } else {
        Seq::empty()
    }
}

/// Timings of the first `n` extension blocks, in order.
pub open spec fn spec_exts_timings(exts: Seq<Seq<u8>>, n: int) -> Seq<TimingSource>
    decreases n,
{
    if n <= 0 {
        Seq::empty()
    } else {
        spec_exts_timings(exts, n - 1) + spec_ext_timings(exts[n - 1], spec_source(n - 1, exts[n - 1]))
    }
}

fn push_detailed(out: &mut Vec<TimingSource>, v: &Vec<DetailedTiming>, src: CapabilitySource)
    ensures
        final(out)@ == old(out)@ + spec_detailed_entries(v@, src),
{
    let ghost start = out@;
    let mut i: usize = 0;
    while i < v.len()
        invariant
            i <= v@.len(),
            out@ == start + spec_detailed_entries(v@.take(i as int), src),
        decreases v@.len() - i,
    {
        out.push(TimingSource { source: src, timing: DisplayTiming::Detailed(v[i]) });
        assert(spec_detailed_entries(v@.take(i + 1), src) =~= spec_detailed_entries(v@.take(i as int), src).push(
            TimingSource { source: src, timing: DisplayTiming::Detailed(v@[i as int]) },
        ));
        i = i + 1;
    }
    assert(v@.take(i as int) =~= v@);
}

fn ext_timings(block: &EdidBlock, src: CapabilitySource) -> (out: Vec<TimingSource>)
    ensures
        out@ == spec_ext_timings(block.raw@, src),
{
    let mut out: Vec<TimingSource> = Vec::new();
    if block.raw[0] == 0x02 {
        if let Ok(ts) = block.cta_detailed_timings() {
            push_detailed(&mut out, &ts, src);
        }
        assert(out@ =~= spec_ext_timings(block.raw@, src));
    } else if block.raw[0] == 0x70 {
        let d = block.display_id_detailed_timings();
        let f = block.display_id_formula_timings();
        let e = block.display_id_enumerated_timings();
        if let (Ok(d), Ok(f), Ok(e)) = (d, f, e) {
            let mut i: usize = 0;
            while i < d.len()
                invariant
                    i <= d@.len(),
                    out@ == Seq::new(i as nat, |k: int| TimingSource { source: src, timing: DisplayTiming::DisplayIdDetailed(d@[k]) }),
                decreases d@.len() - i,
            {
                out.push(TimingSource { source: src, timing: DisplayTiming::DisplayIdDetailed(d[i]) });
                assert(out@ =~= Seq::new((i + 1) as nat, |k: int| TimingSource { source: src, timing: DisplayTiming::DisplayIdDetailed(d@[k]) }));
                i = i + 1;
            }
            let ghost a = out@;
            let mut j: usize = 0;
            while j < f.len()
                invariant
                    j <= f@.len(),
                    out@ == a + Seq::new(j as nat, |k: int| TimingSource { source: src, timing: DisplayTiming::Formula(f@[k]) }),
                decreases f@.len() - j,
            {
                out.push(TimingSource { source: src, timing: DisplayTiming::Formula(f[j]) });
                assert(out@ =~= a + Seq::new((j + 1) as nat, |k: int| TimingSource { source: src, timing: DisplayTiming::Formula(f@[k]) }));
                j = j + 1;
            }
            let ghost b = out@;
            let mut k: usize = 0;
            while k < e.len()
                invariant
                    k <= e@.len(),
                    out@ == b + Seq::new(k as nat, |m: int| TimingSource { source: src, timing: DisplayTiming::Enumerated(e@[m]) }),
                decreases e@.len() - k,
            {
                out.push(TimingSource { source: src, timing: DisplayTiming::Enumerated(e[k]) });
                assert(out@ =~= b + Seq::new((k + 1) as nat, |m: int| TimingSource { source: src, timing: DisplayTiming::Enumerated(e@[m]) }));
                k = k + 1;
            }
            assert(out@ =~= spec_ext_timings(block.raw@, src));
        } else {
            assert(out@ =~= spec_ext_timings(block.raw@, src));
        }
    } else {
        assert(out@ =~= spec_ext_timings(block.raw@, src));
    }
    out
}

/// Audio descriptors of the first `n` CTA data blocks, each tagged with `src`.
pub open spec fn spec_cta_audio_of(bv: Seq<(u8, Seq<u8>)>, n: int, src: CapabilitySource) -> Seq<AudioSource>
    decreases n,
{
    if n <= 0 {
        Seq::empty()
    } else {
        let b = bv[n - 1];
        spec_cta_audio_of(bv, n - 1, src) + if b.0 == 1 && spec_cta_view_error(1, b.1) is None {
            Seq::new(
                spec_audio_descriptors(b.1).len(),
                |i: int| AudioSource { source: src, descriptor: spec_audio_descriptors(b.1)[i] },
            )
        } else {
            Seq::empty()
        }
    }
}

/// Whether a CTA data block is an AMD FreeSync vendor block that states both
/// refresh limits.
pub open spec fn spec_freesync_range(tag: u8, p: Seq<u8>) -> bool {
    &&& tag == 3
    &&& p.len() >= 6
    &&& p[0] == 0x1A && p[1] == 0x00 && p[2] == 0x00
}

/// FreeSync refresh ranges of the first `n` CTA data blocks.
pub open spec fn spec_cta_vrr_of(bv: Seq<(u8, Seq<u8>)>, n: int, src: CapabilitySource) -> Seq<VrrRange>
    decreases n,
{
    if n <= 0 {
        Seq::empty()
    } else {
        let b = bv[n - 1];
        spec_cta_vrr_of(bv, n - 1, src) + if spec_freesync_range(b.0, b.1) {
            seq![VrrRange { source: src, min_hz: b.1[4] as u16, max_hz: b.1[5] as u16 }]
        } else {
            Seq::empty()
        }
    }
}

/// Audio descriptors and FreeSync ranges of the data blocks of a CTA-861
/// block that reads.
fn cta_audio_and_vrr(block: &EdidBlock, src: CapabilitySource) -> (r: (Vec<AudioSource>, Vec<VrrRange>))
    ensures
        match spec_cta_blocks(block.raw@) {
            Ok(bv) => r.0@ == spec_cta_audio_of(bv, bv.len() as int, src) && r.1@ == spec_cta_vrr_of(
                bv,
                bv.len() as int,
                src,
            ),
            Err(_) => r.0@.len() == 0 && r.1@.len() == 0,
        },
{
    let mut audio: Vec<AudioSource> = Vec::new();
    let mut vrr: Vec<VrrRange> = Vec::new();
    let blocks = match block.cta_data_blocks() {
        Ok(b) => b,
        Err(_) => {
            return (audio, vrr);
        },
    };
    let ghost bv = spec_cta_views(blocks@);
    let mut i: usize = 0;
    while i < blocks.len()
        invariant
            i <= blocks@.len(),
            bv == spec_cta_views(blocks@),
            audio@ == spec_cta_audio_of(bv, i as int, src),
            vrr@ == spec_cta_vrr_of(bv, i as int, src),
        decreases blocks@.len() - i,
    {
        let db = &blocks[i];
        assert(bv[i as int] == (db.tag, db.payload@));
        let ghost a0 = audio@;
        let ghost v0 = vrr@;
        match db.view() {
            Ok(CtaDataBlockView::Audio { descriptors }) => {
                let mut j: usize = 0;
                while j < descriptors.len()
                    invariant
                        j <= descriptors@.len(),
                        audio@ == a0 + Seq::new(
                            j as nat,
                            |k: int| AudioSource { source: src, descriptor: descriptors@[k] },
                        ),
                    decreases descriptors@.len() - j,
                {
                    audio.push(AudioSource { source: src, descriptor: descriptors[j] });
                    assert(audio@ =~= a0 + Seq::new(
                        (j + 1) as nat,
                        |k: int| AudioSource { source: src, descriptor: descriptors@[k] },
                    ));
                    j = j + 1;
                }
            },
            Ok(CtaDataBlockView::VendorSpecific(CtaVendorSpecificBlock::AmdFreeSync { min_refresh_hz, max_refresh_hz, .. })) => {
                if let (Some(lo), Some(hi)) = (min_refresh_hz, max_refresh_hz) {
                    vrr.push(VrrRange { source: src, min_hz: lo as u16, max_hz: hi as u16 });
                }
            },
            _ => {},
        }
        assert(audio@ =~= spec_cta_audio_of(bv, i + 1, src));
        assert(vrr@ =~= spec_cta_vrr_of(bv, i + 1, src));
        i = i + 1;
    }
    (audio, vrr)
}

/// The data blocks of a DisplayID block whose data blocks all have typed
/// views, or none.
pub open spec fn spec_did_viewed_blocks(raw: Seq<u8>) -> Seq<(u8, u8, Seq<u8>)> {
    match spec_did_blocks(raw) {
        Ok(bv) => if spec_first_view_error(bv, bv.len() as int) is None {
            bv
        } else {
            Seq::empty()
        },
        Err(_) => Seq::empty(),
    }
}

/// Refresh ranges of a DisplayID block: dynamic video timing ranges, then
/// 1.x video timing range limits, each tagged with `src`.
pub open spec fn spec_did_vrr(raw: Seq<u8>, src: CapabilitySource) -> Seq<VrrRange> {
    let bv = spec_did_viewed_blocks(raw);
    let d = spec_select(bv, bv.len() as int, 0);
    let r = spec_select(bv, bv.len() as int, 1);
    Seq::new(
        d.len(),
        |k: int| VrrRange { source: src, min_hz: d[k].2[6] as u16, max_hz: ((d[k].2[8] % 4) * 256 + d[k].2[7]) as u16 },
    ) + Seq::new(r.len(), |k: int| VrrRange { source: src, min_hz: r[k].2[10] as u16, max_hz: r[k].2[11] as u16 })
}

/// Payloads of the interface features blocks of a DisplayID block.
pub open spec fn spec_did_interface_payloads(raw: Seq<u8>) -> Seq<Seq<u8>> {
    let bv = spec_did_viewed_blocks(raw);
    let f = spec_select(bv, bv.len() as int, 2);
    Seq::new(f.len(), |k: int| f[k].2)
}

fn did_vrr(block: &EdidBlock, src: CapabilitySource) -> (out: Vec<VrrRange>)
    ensures
        out@ == spec_did_vrr(block.raw@, src),
{
    let mut out: Vec<VrrRange> = Vec::new();
    let dynamic = block.display_id_dynamic_video_timing_ranges();
    let limits = block.display_id_video_timing_range_limits();
    let ghost bv = spec_did_viewed_blocks(block.raw@);
    let ghost d = spec_select(bv, bv.len() as int, 0);
    let ghost r = spec_select(bv, bv.len() as int, 1);
    if let (Ok(dv), Ok(rv)) = (dynamic, limits) {
        let mut i: usize = 0;
        while i < dv.len()
            invariant
                i <= dv@.len(),
                dv@.len() == d.len(),
                forall|k: int| 0 <= k < dv@.len() ==> crate::extensions::display_id::spec_dynamic_of(d[k].2, #[trigger] dv@[k]),
                out@ == Seq::new(
                    i as nat,
                    |k: int| VrrRange { source: src, min_hz: d[k].2[6] as u16, max_hz: ((d[k].2[8] % 4) * 256 + d[k].2[7]) as u16 },
                ),
            decreases dv@.len() - i,
        {
            let x = &dv[i];
            assert(crate::extensions::display_id::spec_dynamic_of(d[i as int].2, dv@[i as int]));
            out.push(VrrRange { source: src, min_hz: x.min_vfreq_hz as u16, max_hz: x.max_vfreq_hz });
            assert(out@ =~= Seq::new(
                (i + 1) as nat,
                |k: int| VrrRange { source: src, min_hz: d[k].2[6] as u16, max_hz: ((d[k].2[8] % 4) * 256 + d[k].2[7]) as u16 },
            ));
            i = i + 1;
        }
        let ghost a = out@;
        let mut j: usize = 0;
        while j < rv.len()
            invariant
                j <= rv@.len(),
                rv@.len() == r.len(),
                forall|k: int| 0 <= k < rv@.len() ==> crate::extensions::display_id::spec_range1x_of(r[k].2, #[trigger] rv@[k]),
                out@ == a + Seq::new(j as nat, |k: int| VrrRange { source: src, min_hz: r[k].2[10] as u16, max_hz: r[k].2[11] as u16 }),
            decreases rv@.len() - j,
        {
            let x = &rv[j];
            assert(crate::extensions::display_id::spec_range1x_of(r[j as int].2, rv@[j as int]));
            out.push(VrrRange { source: src, min_hz: x.min_vfreq_hz as u16, max_hz: x.max_vfreq_hz as u16 });
            assert(out@ =~= a + Seq::new(
                (j + 1) as nat,
                |k: int| VrrRange { source: src, min_hz: r[k].2[10] as u16, max_hz: r[k].2[11] as u16 },
            ));
            j = j + 1;
        }
        assert(out@ =~= spec_did_vrr(block.raw@, src));
    } else {
        assert(bv.len() == 0);
        assert(out@ =~= spec_did_vrr(block.raw@, src));
    }
    out
}

fn did_interfaces(block: &EdidBlock, src: CapabilitySource) -> (out: Vec<InterfaceSource>)
    ensures
        out@.len() == spec_did_interface_payloads(block.raw@).len(),
        forall|k: int|
            0 <= k < out@.len() ==> (#[trigger] out@[k]).source == src && spec_features_of(
                spec_did_interface_payloads(block.raw@)[k],
                out@[k].features,
            ),
{
    let mut out: Vec<InterfaceSource> = Vec::new();
    let ghost ps = spec_did_interface_payloads(block.raw@);
    match block.display_id_interface_features() {
        Ok(mut fs) => {
            let ghost all = fs@;
            let n = fs.len();
            let mut i: usize = 0;
            while i < n
                invariant
                    i <= n == all.len() == ps.len(),
                    fs@ == all.skip(i as int),
                    forall|k: int| 0 <= k < all.len() ==> spec_features_of(ps[k], #[trigger] all[k]),
                    out@.len() == i,
                    forall|k: int| 0 <= k < i ==> (#[trigger] out@[k]).source == src && out@[k].features == all[k],
                decreases n - i,
            {
                let f = fs.remove(0);
                assert(all.skip(i as int)[0] == all[i as int]);
                assert(all.skip(i as int).remove(0) =~= all.skip(i + 1));
                out.push(InterfaceSource { source: src, features: f });
                i = i + 1;
            }
        },
        Err(_) => {},
    }
    out
}

/// The audio descriptors of a CTA-861 extension block, or none.
pub open spec fn spec_ext_audio(raw: Seq<u8>, src: CapabilitySource) -> Seq<AudioSource> {
    if raw[0] == 0x02 {
        match spec_cta_blocks(raw) {
            Ok(bv) => spec_cta_audio_of(bv, bv.len() as int, src),
            Err(_) => Seq::empty(),
        }
    } else {
        Seq::empty()
    }
}

/// The refresh ranges of an extension block: FreeSync ranges of a CTA-861
/// block, dynamic and 1.x ranges of a DisplayID block.
pub open spec fn spec_ext_vrr(raw: Seq<u8>, src: CapabilitySource) -> Seq<VrrRange> {
    if raw[0] == 0x02 {
        match spec_cta_blocks(raw) {
            Ok(bv) => spec_cta_vrr_of(bv, bv.len() as int, src),
            Err(_) => Seq::empty(),
        }
    } else if raw[0] == 0x70 {
        spec_did_vrr(raw, src)
    } else {
        Seq::empty()
    }
}

/// The interface features payloads of an extension block, with its source.
pub open spec fn spec_ext_interfaces(raw: Seq<u8>, src: CapabilitySource) -> Seq<(CapabilitySource, Seq<u8>)> {
    if raw[0] == 0x70 {
        let ps = spec_did_interface_payloads(raw);
        Seq::new(ps.len(), |k: int| (src, ps[k]))
    } else {
        Seq::empty()
    }
}

/// Audio descriptors of the first `n` extension blocks.
pub open spec fn spec_exts_audio(exts: Seq<Seq<u8>>, n: int) -> Seq<AudioSource>
    decreases n,
{
    if n <= 0 {
        Seq::empty()
    } else {
        spec_exts_audio(exts, n - 1) + spec_ext_audio(exts[n - 1], spec_source(n - 1, exts[n - 1]))
    }
}

/// Refresh ranges of the first `n` extension blocks.
pub open spec fn spec_exts_vrr(exts: Seq<Seq<u8>>, n: int) -> Seq<VrrRange>
    decreases n,
{
    if n <= 0 {
        Seq::empty()
    } else {
        spec_exts_vrr(exts, n - 1) + spec_ext_vrr(exts[n - 1], spec_source(n - 1, exts[n - 1]))
    }
}

/// Interface features payloads of the first `n` extension blocks.
pub open spec fn spec_exts_interfaces(exts: Seq<Seq<u8>>, n: int) -> Seq<(CapabilitySource, Seq<u8>)>
    decreases n,
{
    if n <= 0 {
        Seq::empty()
    } else {
        spec_exts_interfaces(exts, n - 1) + spec_ext_interfaces(exts[n - 1], spec_source(n - 1, exts[n - 1]))
    }
}

/// The raw bytes of each extension block.
pub open spec fn spec_ext_raws(v: Seq<EdidBlock>) -> Seq<Seq<u8>> {
    Seq::new(v.len(), |i: int| v[i].raw@)
}

impl Edid {
    /// Aggregate read-only display capabilities across all blocks.
    ///
    /// Blocks that cannot be fully parsed are skipped; the underlying blocks
    /// remain unchanged.
    pub fn display_capabilities(&self) -> (caps: DisplayCapabilities)
        ensures
            ({
                let base = self.base.raw@;
                let exts = spec_ext_raws(self.extensions@);
                let n = exts.len() as int;
                let ifs = spec_exts_interfaces(exts, n);
                &&& (caps.manufacturer_id is Some) == (spec_has_header(base) && spec_id_codes_valid(base))
                &&& caps.manufacturer_id matches Some(m) ==> m@ == spec_id_chars(base)
                &&& match caps.product_name {
                    Some(t) => spec_find_text(base, 0xFC) == Some(t@),
                    None => spec_find_text(base, 0xFC) is None,
                }
                &&& caps.timings@ == spec_detailed_entries(spec_collect_progressive(base, 4), CapabilitySource::Base)
                    + spec_exts_timings(exts, n)
                &&& caps.audio@ == spec_exts_audio(exts, n)
                &&& caps.vrr_ranges@ == spec_exts_vrr(exts, n)
                &&& caps.interfaces@.len() == ifs.len()
                &&& forall|k: int|
                    0 <= k < ifs.len() ==> (#[trigger] caps.interfaces@[k]).source == ifs[k].0 && spec_features_of(
                        ifs[k].1,
                        caps.interfaces@[k].features,
                    )
            }),
    {
        let manufacturer_id = match self.base.metadata() {
            Ok(meta) => Some(meta.manufacturer_id),
            Err(_) => None,
        };
        let product_name = self.monitor_name();
        let mut timings: Vec<TimingSource> = Vec::new();
        let base_timings = self.base.detailed_timings();
        push_detailed(&mut timings, &base_timings, CapabilitySource::Base);
        let mut audio: Vec<AudioSource> = Vec::new();
        let mut vrr_ranges: Vec<VrrRange> = Vec::new();
        let mut interfaces: Vec<InterfaceSource> = Vec::new();
        let ghost exts = spec_ext_raws(self.extensions@);
        let ghost bt = timings@;
        assert(timings@ =~= bt + spec_exts_timings(exts, 0));
        let mut index: usize = 0;
        while index < self.extensions.len()
            invariant
                index <= self.extensions@.len(),
                exts == spec_ext_raws(self.extensions@),
                timings@ == bt + spec_exts_timings(exts, index as int),
                audio@ == spec_exts_audio(exts, index as int),
                vrr_ranges@ == spec_exts_vrr(exts, index as int),
                interfaces@.len() == spec_exts_interfaces(exts, index as int).len(),
                forall|k: int|
                    0 <= k < interfaces@.len() ==> (#[trigger] interfaces@[k]).source == spec_exts_interfaces(
                        exts,
                        index as int,
                    )[k].0 && spec_features_of(spec_exts_interfaces(exts, index as int)[k].1, interfaces@[k].features),
            decreases self.extensions@.len() - index,
        {
            let block = &self.extensions[index];
            assert(exts[index as int] == block.raw@);
            let source = if block.raw[0] == 0x02 {
                CapabilitySource::CtaExtension { index }
            } else if block.raw[0] == 0x70 {
                CapabilitySource::DisplayIdExtension { index }
            } else {
                CapabilitySource::UnknownExtension { index }
            };
            let mut t = ext_timings(block, source);
            timings.append(&mut t);
            assert(timings@ =~= bt + spec_exts_timings(exts, index + 1));
            if block.raw[0] == 0x02 {
                let (mut a, mut v) = cta_audio_and_vrr(block, source);
                audio.append(&mut a);
                vrr_ranges.append(&mut v);
            } else if block.raw[0] == 0x70 {
                let mut v = did_vrr(block, source);
                vrr_ranges.append(&mut v);
            }
            assert(audio@ =~= spec_exts_audio(exts, index + 1));
            assert(vrr_ranges@ =~= spec_exts_vrr(exts, index + 1));
            let ghost before = interfaces@;
            let ghost prev = spec_exts_interfaces(exts, index as int);
            if block.raw[0] == 0x70 {
                let mut f = did_interfaces(block, source);
                let ghost fv = f@;
                interfaces.append(&mut f);
                assert(interfaces@ =~= before + fv);
            }
            proof {
                let now = spec_exts_interfaces(exts, index + 1);
                assert(now =~= prev + spec_ext_interfaces(block.raw@, source));
                assert forall|k: int| 0 <= k < interfaces@.len() implies (#[trigger] interfaces@[k]).source == now[k].0
                    && spec_features_of(now[k].1, interfaces@[k].features) by {
                    if k < before.len() {
                        assert(interfaces@[k] == before[k]);
                    }
                }
            }
            index = index + 1;
        }
        DisplayCapabilities { manufacturer_id, product_name, timings, audio, vrr_ranges, interfaces }
    }
}

} // verus!
