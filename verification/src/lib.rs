//! EDID parsing and serialization: the detailed timing model, EDID base-block
//! read/write, metadata and monitor descriptors, CTA-861 and DisplayID
//! extension blocks, and the timing-to-EDID serialization pipeline.
#![allow(unused_imports)]

pub mod error;
pub mod timing;
pub mod presets;
pub mod edid;
pub mod metadata;
pub mod text;
pub mod hex;
pub mod descriptor;
pub mod extensions;
pub mod builder;
pub mod serialize;
pub mod serialize_extended;
pub mod capabilities;
pub mod message;

pub use edid::{
    DecodedDtd, DtdFlags, EDID_BLOCK_SIZE, Edid, EdidBlock, MAX_EDID_BLOCKS, MAX_EDID_BYTES,
};
pub use error::{
    DescriptorError, DtdError, DtdField, EdidError, HexError, MetadataError, MetadataWriteError,
    ModelineError, SerializeError,
};
pub use extensions::{
    CtaAudioDescriptor, CtaColorimetry, CtaDataBlock, CtaDataBlockView, CtaExtendedDataBlockView,
    CtaHeader, CtaSpeakerAllocation, CtaVendorSpecificBlock, CtaVideoCapability, CtaVideoMode,
    DisplayIdDataBlock, DisplayIdDataBlockView, DisplayIdDetailedTiming,
    DisplayIdDisplayParameters, DisplayIdHeader, ExtensionError, ExtensionKind,
    ExtensionWriteError,
};
pub use metadata::{
    AdditionalColorPoint, BaseMetadata, ChromaticityCoordinates, ChromaticityPoint,
    ColorManagementDescriptor, Cvt3ByteTimingEntry, CvtAspectRatio, CvtPreferredRate,
    CvtRangeSupport, CvtSupportedRates, EstablishedTiming, EstablishedTiming3, EstablishedTimings,
    EstablishedTimings3, MonitorDescriptor, RangeLimitsExtension, SecondaryGtfParameters,
    StandardTiming, StandardTimingAspectRatio, StandardTimingEntry,
};
pub use timing::{DetailedTiming, dtd_fits, validate_dtd};
pub use presets::all_presets;
pub use builder::{BaseBlockBuilder, BaseBlockError, TimingPlacement};
pub use serialize::{ExtensionPolicy, SerializeOptions, SerializedEdid, TimingKind, serialize_timings};
pub use serialize_extended::serialize_timings_extended;
