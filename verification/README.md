# edid-seria

EDID parsing and serialization with machine-checked contracts. The library
in `src/` is written in Verus: every public function states what it returns
in terms of byte-level specification functions, and Verus proves the code
against those statements (no panics, no overflow, exact results).

## Layout

| Path | Contents |
|------|----------|
| `src/edid.rs` | EDID blocks, detailed timing descriptors, slot placement, strict block-sequence parsing and serialization |
| `src/timing.rs` | The integer timing model (refresh rate in milli-hertz) and DTD validation |
| `src/presets.rs` | The PC, common wide-screen and HDTV preset timing tables |
| `src/metadata.rs` | Base-block identity, chromaticity, established and standard timings |
| `src/descriptor.rs` | Monitor descriptors (text, color points, timing lists, range limits, ...) |
| `src/extensions.rs`, `src/extensions/` | CTA-861 and DisplayID extension views, encoders and builders; canonical DisplayID block order |
| `src/hex.rs` | Hex text output and a tolerant hex parser |
| `src/builder.rs` | Base-block builder |
| `src/serialize.rs` | Timing → EDID serialization, strict and lenient |
| `src/serialize_extended.rs` | Serialization that spills timings into new CTA-861 and DisplayID extension blocks |
| `src/capabilities.rs` | Source-tracked capabilities aggregated across all blocks, and the safe VRR overlap |
| `src/message.rs` | Human-readable error messages |
| `app/lib.rs` | Floating-point front end: CVT formulas, preset lookup by refresh rate, resolution-based serialization |
| `tests/` | Scenario tests |

## Laws

Besides the contracts, `src/` states and proves laws as public proof
functions, for example: DTD write/read round trips, parse → serialize →
parse stability of complete EDIDs, hex round trips, descriptor round trips,
that placing timings never touches monitor descriptors, that the builder
always yields a valid base block, that strict serialization output parses
back with the extension blocks unchanged, that canonical DisplayID
ordering of a readable block always succeeds and is idempotent
(`src/extensions/ordering.rs`), exactly when a CTA-861 extension can be built
from data blocks and timings and what it reads back as
(`src/extensions/cta_layout.rs`), that a typed CTA or DisplayID view written as a data block
reads back with the same fields, and that a
canonical CTA or DisplayID data block read as a typed view is written back
byte for byte, so that writing a view read from any block is stable after
one pass, embedded CTA blocks included (`src/extensions/cta_roundtrip.rs`,
`src/extensions/display_id_roundtrip.rs`, `src/extensions/embedded_cta.rs`).

## Not provided

- Modeline formatting and parsing: only its error type exists.
- Resolved YCbCr 4:2:0 support (`cta_y420_support`) and typed views of the
  YCbCr 4:2:0 video and capability map blocks, which read as unknown
  extended blocks.
- Adding, moving and replacing individual extension blocks of an `Edid`.
- Refresh ranges from HDMI Forum VRR fields and from the CTA Adaptive-Sync
  block in the capability summary: those blocks are kept as raw bytes.
- Refresh rates as floating-point numbers in the library: the library holds
  them in millihertz; `app/` converts.
