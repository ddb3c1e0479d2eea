//! Protocol version, layout family, color encoding and capability descriptors.
use vstd::prelude::*;

use crate::mode::{EccLevel, TransmissionMode};

verus! {

/// Semantic protocol version.
#[derive(Debug, Clone, Copy, PartialEq, Eq, Structural)]
pub struct ProtocolVersion {
    /// Major version.
    pub major: u8,
    /// Minor version.
    pub minor: u8,
    /// Patch version.
    pub patch: u8,
}

impl ProtocolVersion {
    /// Current protocol version implemented by this library (0.1.0).
    pub fn current() -> (r: ProtocolVersion)
        ensures
            r == (ProtocolVersion { major: 0, minor: 1, patch: 0 }),
    {
        ProtocolVersion { major: 0, minor: 1, patch: 0 }
    }
}

/// Logical symbol layout family.
#[derive(Debug, Clone, Copy, PartialEq, Eq, Hash, Structural)]
pub enum LayoutFamily {
    /// Continuous ribbon lanes with side totems and chevron signatures; the default layout.
    RibbonWeave,
    /// Color-calibrated interleaved ribbon mesh for screens.
    SpectralMesh,
    /// Wide temporal ribbon strips for animated optical transmission.
    PulseStream,
    /// Non-corner halo anchors with diagonal timing spines.
    Constellation,
    /// Asymmetric rectangular frame grid retained for earlier v0 experiments.
    FrameGrid,
    /// Square-compatible matrix grid retained for baseline compatibility tests.
    Matrix,
    /// Hexagonal module packing reserved for future high-density screen mode.
    Hexagonal,
    /// Radial rings reserved for lens-distortion tolerant symbols.
    Radial,
}

/// Color modulation strategy.
#[derive(Debug, Clone, Copy, PartialEq, Eq, Hash, Structural)]
pub enum ColorEncoding {
    /// Monochrome dark/light modules.
    Mono,
    /// Calibrated limited palette for print or e-ink.
    LimitedPalette,
    /// RGB subchannel modulation for high-quality displays.
    Rgb,
    /// Per-frame color calibration in burst transfers.
    Adaptive,
}

/// Optional implementation capability advertised by an encoder or scanner.
#[derive(Debug, Clone, Copy, PartialEq, Eq, Hash, Structural)]
pub enum Capability {
    /// Static print-mode symbols.
    PrintMode,
    /// Static screen-mode symbols.
    ScreenMode,
    /// Animated burst-mode streams.
    BurstMode,
    /// Color module support.
    Color,
    /// Camera/display calibration support.
    Calibration,
    /// GPU accelerated sampling or rendering.
    GpuAcceleration,
    /// Temporal fountain-style recovery.
    FountainRecovery,
}

/// Compact capability set used for negotiation and diagnostics: the capabilities in
/// order of first insertion, each at most once.
#[derive(Debug, Clone, PartialEq, Eq)]
pub struct CapabilitySet {
    capabilities: Vec<Capability>,
}

impl View for CapabilitySet {
    type V = Seq<Capability>;

    closed spec fn view(&self) -> Seq<Capability> {
        self.capabilities@
    }
}

/// The capabilities after inserting `c` into `s`.
pub open spec fn seq_insert_unique(s: Seq<Capability>, c: Capability) -> Seq<Capability> {
    if s.contains(c) {
        s
    } else {
        s.push(c)
    }
}

/// Insert each of `values` in turn into `s`.
pub open spec fn seq_insert_all(s: Seq<Capability>, values: Seq<Capability>) -> Seq<Capability>
    decreases values.len(),
{
    if values.len() == 0 {
        s
    } else {
        seq_insert_all(seq_insert_unique(s, values[0]), values.skip(1))
    }
}

impl CapabilitySet {
    /// No capability occurs twice.
    pub closed spec fn well_formed(&self) -> bool {
        self.capabilities@.no_duplicates()
    }

    /// Create an empty capability set.
    pub fn new() -> (r: CapabilitySet)
        ensures
            r@ == Seq::<Capability>::empty(),
            r.well_formed(),
    {
        CapabilitySet { capabilities: Vec::new() }
    }

    /// Create a capability set from a list, keeping first occurrences in order.
    pub fn from_iterable(values: Vec<Capability>) -> (r: CapabilitySet)
        ensures
            r@ == seq_insert_all(Seq::empty(), values@),
            r.well_formed(),
    {
        let mut set = CapabilitySet::new();
        let mut i: usize = 0;
        assert(values@.skip(0) =~= values@);
        while i < values.len()
            invariant
                i <= values@.len(),
                set.well_formed(),
                seq_insert_all(set@, values@.skip(i as int)) == seq_insert_all(
                    Seq::empty(),
                    values@,
                ),
            decreases values@.len() - i,
        {
            let ghost before = set@;
            set.insert(values[i]);
            assert(values@.skip(i as int).skip(1) =~= values@.skip(i + 1));
            i = i + 1;
        }
        set
    }

    /// Insert a capability if it is not already present.
    pub fn insert(&mut self, capability: Capability)
        requires
            old(self).well_formed(),
        ensures
            final(self)@ == seq_insert_unique(old(self)@, capability),
            final(self).well_formed(),
    {
        if !self.contains(capability) {
            self.capabilities.push(capability);
        }
    }

    /// Test whether a capability is present.
    pub fn contains(&self, capability: Capability) -> (r: bool)
        ensures
            r == self@.contains(capability),
    {
        let mut i: usize = 0;
        while i < self.capabilities.len()
            invariant
                i <= self.capabilities@.len(),
                forall|j: int| 0 <= j < i ==> self.capabilities@[j] != capability,
            decreases self.capabilities@.len() - i,
        {
            if self.capabilities[i] == capability {
                return true;
            }
            i = i + 1;
        }
        false
    }

    /// An independent copy of this set.
    pub(crate) fn duplicate(&self) -> (r: CapabilitySet)
        ensures
            r@ == self@,
            r.well_formed() == self.well_formed(),
    {
        CapabilitySet { capabilities: self.capabilities.clone() }
    }

    /// The contained capabilities, in insertion order.
    pub fn iter(&self) -> (r: Vec<Capability>)
        ensures
            r@ == self@,
    {
        self.capabilities.clone()
    }
}

/// Human and machine readable description of an encoded symbol.
#[derive(Debug, Clone, PartialEq, Eq)]
pub struct SymbolDescriptor {
    /// Protocol version used to encode the symbol.
    pub version: ProtocolVersion,
    /// Transmission mode.
    pub mode: TransmissionMode,
    /// Error correction level.
    pub ecc_level: EccLevel,
    /// Geometric layout family.
    pub layout: LayoutFamily,
    /// Color encoding profile.
    pub color: ColorEncoding,
    /// Symbol width in modules.
    pub width: u16,
    /// Symbol height in modules.
    pub height: u16,
    /// Payload length before ECC bytes.
    pub payload_len: usize,
    /// Stream identifier for burst or multi-frame payloads.
    pub stream_id: u64,
    /// Zero-based frame index.
    pub frame_index: u16,
    /// Total frame count.
    pub frame_count: u16,
    /// Data-module capacity in bits.
    pub data_capacity_bits: usize,
    /// Optional features required to decode this symbol.
    pub capabilities: CapabilitySet,
}

} // verus!
