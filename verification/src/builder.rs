//! Builder for valid EDID base blocks.
use vstd::prelude::*;
use crate::descriptor::{MonitorDescriptor, spec_encode_descriptor};
use crate::edid::{
    EdidBlock, byte_sum, spec_base_error, spec_header, spec_available_slots, spec_default_block, spec_first_dtd_error, spec_has_header,
    spec_kinds, spec_place_timings, spec_splice,
};
use crate::error::{DescriptorError, DtdError, MetadataError, MetadataWriteError};
use crate::metadata::{
    BaseMetadata, ChromaticityCoordinates, EstablishedTimings, StandardTimingEntry,
    spec_chromaticity_error, spec_first_standard_error, spec_metadata_error, spec_standard_bytes,
    spec_with_checksum, spec_write_chromaticity, spec_write_metadata,
};
use crate::timing::DetailedTiming;

verus! {

/// Explicit placement policy used by [`BaseBlockBuilder`].
#[derive(Clone, Copy, Debug, PartialEq, Eq)]
pub enum TimingPlacement {
    /// Reuse existing timing slots first, then dummy/free slots; never overwrite descriptors.
    ReuseTimingsThenFreePreserveDescriptors,
}

impl Default for TimingPlacement {
    fn default() -> (p: Self)
        ensures
            p == TimingPlacement::ReuseTimingsThenFreePreserveDescriptors,
    {
        TimingPlacement::ReuseTimingsThenFreePreserveDescriptors
    }
}

/// Errors produced while constructing a base block.
#[derive(Clone, Debug, PartialEq, Eq)]
pub enum BaseBlockError {
    /// Identity metadata is not representable.
    Metadata(MetadataError),
    /// Chromaticity or standard timings are not representable.
    MetadataWrite(MetadataWriteError),
    /// A monitor descriptor is invalid.
    Descriptor(DescriptorError),
    /// A detailed timing cannot be represented or no slot is available.
    Dtd(DtdError),
}

/// Incrementally constructs a valid EDID base block.
///
/// The fields are the requested contents; [`Self::build`] applies them in
/// field order to the default block.
#[derive(Clone, Debug)]
pub struct BaseBlockBuilder {
    /// Identity and capability metadata to write.
    pub metadata: Option<BaseMetadata>,
    /// Chromaticity coordinates to write.
    pub chromaticity: Option<ChromaticityCoordinates>,
    /// Established timing bitfields to write.
    pub established: Option<EstablishedTimings>,
    /// Standard timing slots to write.
    pub standard: Option<[StandardTimingEntry; 8]>,
    /// Monitor descriptors to write, by slot.
    pub descriptors: [Option<MonitorDescriptor>; 4],
    /// Detailed timings to place.
    pub timings: Vec<DetailedTiming>,
    /// Detailed timing placement policy.
    pub placement: TimingPlacement,
    /// An error recorded by a builder call, reported by [`Self::build`].
    pub pending_error: Option<BaseBlockError>,
}

/// Write the metadata, if any, as `set_metadata` does.
pub open spec fn spec_step_metadata(s: Seq<u8>, m: Option<BaseMetadata>) -> Result<
    Seq<u8>,
    BaseBlockError,
> {
    match m {
        None => Ok(s),
        Some(m) => if !spec_has_header(s) {
            Err(BaseBlockError::Metadata(MetadataError::NotBaseBlock))
        } else if spec_metadata_error(m) is Some {
            Err(BaseBlockError::Metadata(spec_metadata_error(m)->0))
        } else {
            Ok(spec_with_checksum(spec_write_metadata(s, m)))
        },
    }
}

/// Write the chromaticity, if any, as `set_chromaticity` does.
pub open spec fn spec_step_chromaticity(s: Seq<u8>, c: Option<ChromaticityCoordinates>) -> Result<
    Seq<u8>,
    BaseBlockError,
> {
    match c {
        None => Ok(s),
        Some(c) => if !spec_has_header(s) {
            Err(BaseBlockError::MetadataWrite(MetadataWriteError::NotBaseBlock))
        } else if spec_chromaticity_error(c) is Some {
            Err(BaseBlockError::MetadataWrite(spec_chromaticity_error(c)->0))
        } else {
            Ok(spec_with_checksum(spec_write_chromaticity(s, c)))
        },
    }
}

/// Write the established timings, if any, as `set_established_timings` does.
pub open spec fn spec_step_established(s: Seq<u8>, e: Option<EstablishedTimings>) -> Result<
    Seq<u8>,
    BaseBlockError,
> {
    match e {
        None => Ok(s),
        Some(e) => if !spec_has_header(s) {
            Err(BaseBlockError::Metadata(MetadataError::NotBaseBlock))
        } else {
            Ok(spec_with_checksum(spec_splice(s, 35, e.raw@)))
        },
    }
}

/// Write the standard timings, if any, as `set_standard_timings` does.
pub open spec fn spec_step_standard(s: Seq<u8>, t: Option<[StandardTimingEntry; 8]>) -> Result<
    Seq<u8>,
    BaseBlockError,
> {
    match t {
        None => Ok(s),
        Some(t) => if !spec_has_header(s) {
            Err(BaseBlockError::MetadataWrite(MetadataWriteError::NotBaseBlock))
        } else if spec_first_standard_error(t@, 8) is Some {
            Err(BaseBlockError::MetadataWrite(spec_first_standard_error(t@, 8)->0))
        } else {
            Ok(spec_with_checksum(spec_splice(s, 38, spec_standard_bytes(t@))))
        },
    }
}

/// Write one monitor descriptor, if any, as `set_monitor_descriptor` does.
pub open spec fn spec_step_descriptor(s: Seq<u8>, slot: int, d: Option<MonitorDescriptor>) -> Result<
    Seq<u8>,
    BaseBlockError,
> {
    match d {
        None => Ok(s),
        Some(d) => if !spec_has_header(s) {
            Err(BaseBlockError::Descriptor(DescriptorError::NotBaseBlock))
        } else if spec_encode_descriptor(d) is Err {
            Err(BaseBlockError::Descriptor(spec_encode_descriptor(d)->Err_0))
        } else {
            Ok(
                spec_with_checksum(
                    spec_splice(
                        s,
                        54 + 18 * slot,
                        seq![0u8, 0u8, 0u8, spec_encode_descriptor(d)->Ok_0.0, 0u8]
                            + spec_encode_descriptor(d)->Ok_0.1,
                    ),
                ),
            )
        },
    }
}

/// Write the monitor descriptors of slots below `n`, in slot order.
pub open spec fn spec_step_descriptors(s: Seq<u8>, ds: Seq<Option<MonitorDescriptor>>, n: int) -> Result<
    Seq<u8>,
    BaseBlockError,
>
    decreases n,
{
    if n <= 0 {
        Ok(s)
    } else {
        match spec_step_descriptors(s, ds, n - 1) {
            Err(e) => Err(e),
            Ok(s2) => spec_step_descriptor(s2, n - 1, ds[n - 1]),
        }
    }
}

proof fn lemma_descriptors_err_keeps(s: Seq<u8>, ds: Seq<Option<MonitorDescriptor>>, k: int, n: int)
    requires
        0 <= k <= n,
        spec_step_descriptors(s, ds, k) is Err,
    ensures
        spec_step_descriptors(s, ds, n) == spec_step_descriptors(s, ds, k),
    decreases n - k,
{
    if k < n {
        lemma_descriptors_err_keeps(s, ds, k, n - 1);
    }
}

/// Place the detailed timings as `write_resolutions_checked` does.
pub open spec fn spec_step_timings(s: Seq<u8>, timings: Seq<DetailedTiming>) -> Result<
    Seq<u8>,
    BaseBlockError,
> {
    if spec_first_dtd_error(timings) is Some {
        Err(BaseBlockError::Dtd(spec_first_dtd_error(timings)->0))
    } else if timings.len() > spec_available_slots(spec_kinds(s)) {
        Err(
            BaseBlockError::Dtd(
                DtdError::NoAvailableSlot {
                    requested: timings.len() as usize,
                    available: spec_available_slots(spec_kinds(s)) as usize,
                },
            ),
        )
    } else {
        Ok(spec_place_timings(s, timings))
    }
}

/// The default block with the metadata, chromaticity, established and
/// standard timings of a builder written in turn, or the first error.
pub open spec fn spec_build_header_fields(b: BaseBlockBuilder) -> Result<Seq<u8>, BaseBlockError> {
    match spec_step_metadata(spec_default_block(), b.metadata) {
        Err(e) => Err(e),
        Ok(s1) => match spec_step_chromaticity(s1, b.chromaticity) {
            Err(e) => Err(e),
            Ok(s2) => match spec_step_established(s2, b.established) {
                Err(e) => Err(e),
                Ok(s3) => spec_step_standard(s3, b.standard),
            },
        },
    }
}

/// The block a builder produces, or the first error: the recorded error,
/// then each requested part written in turn to the default block, and the
/// checksum fixed at the end.
pub open spec fn spec_build(b: BaseBlockBuilder) -> Result<Seq<u8>, BaseBlockError> {
    if b.pending_error is Some {
        Err(b.pending_error->0)
    } else {
        match spec_build_header_fields(b) {
            Err(e) => Err(e),
            Ok(s4) => match spec_step_descriptors(s4, b.descriptors@, 4) {
                Err(e) => Err(e),
                Ok(s5) => match spec_step_timings(s5, b.timings@) {
                    Err(e) => Err(e),
                    Ok(s6) => Ok(spec_with_checksum(s6)),
                },
            },
        }
    }
}

/// The header and version bytes of a base block.
spec fn spec_base_identity(s: Seq<u8>) -> bool {
    &&& s.len() == 128
    &&& spec_has_header(s)
    &&& s[18] == 1
    &&& s[19] == 4
}

/// A write that keeps bytes 0-7, 18 and 19 keeps the header and version.
proof fn lemma_identity_kept(a: Seq<u8>, b: Seq<u8>)
    requires
        spec_base_identity(a),
        b.len() == 128,
        forall|i: int| 0 <= i < 8 ==> b[i] == a[i],
        b[18] == a[18],
        b[19] == a[19],
    ensures
        spec_base_identity(b),
{
    assert(b.take(8) =~= a.take(8));
}

impl BaseBlockBuilder {
    /// Create a builder using the library's minimal EDID defaults.
    pub fn new() -> (b: Self)
        ensures
            b.metadata is None,
            b.chromaticity is None,
            b.established is None,
            b.standard is None,
            forall|i: int| 0 <= i < 4 ==> b.descriptors@[i] is None,
            b.timings@.len() == 0,
            b.placement == TimingPlacement::ReuseTimingsThenFreePreserveDescriptors,
            b.pending_error is None,
    {
        BaseBlockBuilder {
            metadata: None,
            chromaticity: None,
            established: None,
            standard: None,
            descriptors: [None, None, None, None],
            timings: Vec::new(),
            placement: TimingPlacement::ReuseTimingsThenFreePreserveDescriptors,
            pending_error: None,
        }
    }

    /// Set identity and capability metadata.
    pub fn metadata(self, value: BaseMetadata) -> (b: Self)
        ensures
            b == (BaseBlockBuilder { metadata: Some(value), ..self }),
    {
        let mut b = self;
        b.metadata = Some(value);
        b
    }

    /// Set the four chromaticity points.
    pub fn chromaticity(self, value: ChromaticityCoordinates) -> (b: Self)
        ensures
            b == (BaseBlockBuilder { chromaticity: Some(value), ..self }),
    {
        let mut b = self;
        b.chromaticity = Some(value);
        b
    }

    /// Set established timing bitfields.
    pub fn established_timings(self, value: EstablishedTimings) -> (b: Self)
        ensures
            b == (BaseBlockBuilder { established: Some(value), ..self }),
    {
        let mut b = self;
        b.established = Some(value);
        b
    }

    /// Set all eight standard timing slots.
    pub fn standard_timings(self, value: [StandardTimingEntry; 8]) -> (b: Self)
        ensures
            b == (BaseBlockBuilder { standard: Some(value), ..self }),
    {
        let mut b = self;
        b.standard = Some(value);
        b
    }

    /// Set one monitor descriptor slot (zero-based).
    ///
    /// An out-of-range slot is recorded and returned by [`Self::build`]; it is
    /// never silently ignored.
    pub fn monitor_descriptor(self, slot: usize, value: MonitorDescriptor) -> (b: Self)
        ensures
            slot < 4 ==> b.descriptors@ == self.descriptors@.update(slot as int, Some(value))
                && b.pending_error == self.pending_error,
            slot >= 4 ==> b.descriptors@ == self.descriptors@ && b.pending_error == Some(
                BaseBlockError::Descriptor(DescriptorError::SlotOutOfRange { slot, slots: 4 }),
            ),
            b.metadata == self.metadata,
            b.chromaticity == self.chromaticity,
            b.established == self.established,
            b.standard == self.standard,
            b.timings == self.timings,
            b.placement == self.placement,
    {
        let mut b = self;
        if slot < 4 {
            b.descriptors[slot] = Some(value);
        } else {
            b.pending_error = Some(
                BaseBlockError::Descriptor(DescriptorError::SlotOutOfRange { slot, slots: 4 }),
            );
        }
        b
    }

    /// Select the explicit detailed-timing placement policy.
    pub fn timing_placement(self, placement: TimingPlacement) -> (b: Self)
        ensures
            b == (BaseBlockBuilder { placement, ..self }),
    {
        let mut b = self;
        b.placement = placement;
        b
    }

    /// Set the detailed timings, which are placed into reusable slots.
    pub fn detailed_timings(self, value: Vec<DetailedTiming>) -> (b: Self)
        ensures
            b == (BaseBlockBuilder { timings: value, ..self }),
    {
        let mut b = self;
        b.timings = value;
        b
    }

    /// Build the block atomically; failures return no partially written block.
    ///
    /// Detailed timings use the selected policy: existing timing slots are
    /// replaced before free slots, monitor descriptors are preserved, and
    /// unused former timing slots are cleared.
    pub fn build(self) -> (res: Result<EdidBlock, BaseBlockError>)
        ensures
            match res {
                Ok(block) => spec_build(self) == Ok::<Seq<u8>, BaseBlockError>(block.raw@),
                Err(e) => spec_build(self) == Err::<Seq<u8>, BaseBlockError>(e),
            },
            res matches Ok(block) ==> spec_base_error(block.raw@) is None,
    {
        if let Some(error) = self.pending_error {
            return Err(error);
        }
        let mut block = EdidBlock::new_default();
        assert(block.raw@.take(8) =~= spec_header());
        if let Some(value) = &self.metadata {
            let ghost before = block.raw@;
            if let Err(e) = block.set_metadata(value) {
                return Err(BaseBlockError::Metadata(e));
            }
            proof {
                lemma_identity_kept(before, block.raw@);
            }
        }
        if let Some(value) = &self.chromaticity {
            let ghost before = block.raw@;
            if let Err(e) = block.set_chromaticity(value) {
                return Err(BaseBlockError::MetadataWrite(e));
            }
            proof {
                lemma_identity_kept(before, block.raw@);
            }
        }
        if let Some(value) = &self.established {
            let ghost before = block.raw@;
            if let Err(e) = block.set_established_timings(value) {
                return Err(BaseBlockError::Metadata(e));
            }
            proof {
                lemma_identity_kept(before, block.raw@);
            }
        }
        if let Some(value) = &self.standard {
            let ghost before = block.raw@;
            if let Err(e) = block.set_standard_timings(value) {
                return Err(BaseBlockError::MetadataWrite(e));
            }
            proof {
                lemma_identity_kept(before, block.raw@);
            }
        }
        let ghost s4 = block.raw@;
        let mut slot: usize = 0;
        while slot < 4
            invariant
                slot <= 4,
                self.pending_error is None,
                spec_build_header_fields(self) == Ok::<Seq<u8>, BaseBlockError>(s4),
                spec_base_identity(block.raw@),
                spec_step_descriptors(s4, self.descriptors@, slot as int) == Ok::<
                    Seq<u8>,
                    BaseBlockError,
                >(block.raw@),
            decreases 4 - slot,
        {
            let ghost before = block.raw@;
            if let Some(value) = &self.descriptors[slot] {
                let ghost d_before = block.raw@;
                if let Err(e) = block.set_monitor_descriptor(slot, value) {
                    proof {
                        assert(self.descriptors@[slot as int] == Some(*value));
                        assert(spec_step_descriptor(before, slot as int, Some(*value)) == Err::<
                            Seq<u8>,
                            BaseBlockError,
                        >(BaseBlockError::Descriptor(e)));
                        assert(spec_step_descriptors(s4, self.descriptors@, slot + 1) == Err::<
                            Seq<u8>,
                            BaseBlockError,
                        >(BaseBlockError::Descriptor(e)));
                        lemma_descriptors_err_keeps(s4, self.descriptors@, slot + 1, 4);
                    }
                    return Err(BaseBlockError::Descriptor(e));
                }
                proof {
                    lemma_identity_kept(d_before, block.raw@);
                }
            }
            slot = slot + 1;
        }
        match self.placement {
            TimingPlacement::ReuseTimingsThenFreePreserveDescriptors => {
                let ghost t_before = block.raw@;
                if let Err(e) = block.write_resolutions_checked(self.timings.as_slice()) {
                    return Err(BaseBlockError::Dtd(e));
                }
                proof {
                    lemma_identity_kept(t_before, block.raw@);
                }
            },
        }
        let ghost c_before = block.raw@;
        block.update_checksum();
        proof {
            lemma_identity_kept(c_before, block.raw@);
        }
        Ok(block)
    }
}

impl Default for BaseBlockBuilder {
    fn default() -> (b: Self)
        ensures
            b.metadata is None,
            b.chromaticity is None,
            b.established is None,
            b.standard is None,
            forall|i: int| 0 <= i < 4 ==> b.descriptors@[i] is None,
            b.timings@.len() == 0,
            b.placement == TimingPlacement::ReuseTimingsThenFreePreserveDescriptors,
            b.pending_error is None,
    {
        Self::new()
    }
}

} // verus!
