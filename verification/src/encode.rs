//! Static and animated symbol encoders: frame, ECC codewords, geometry, matrix
//! placement and descriptor.
use vstd::prelude::*;

use crate::bitstream::{bits_of_bytes, bytes_to_bits};
use crate::cell::Cell;
use crate::descriptor::{
    Capability, CapabilitySet, ColorEncoding, LayoutFamily, ProtocolVersion, SymbolDescriptor,
};
use crate::ecc::{ecc_output_len, encode_for_mode, encode_for_mode_spec, verify_for_mode_spec};
use crate::error::GlyphError;
use crate::frame::{frame_well_formed, frame_wire_bytes, Frame, FrameHeader};
use crate::geometry::{choose_geometry_spec, choose_symbol_geometry, SymbolGeometry};
use crate::layout::{capacity_spec, is_data_spec};
use crate::matrix::{data_positions, fresh_cell, lin, padded_bit, SymbolMatrix};
use crate::mode::{EccLevel, TransmissionMode};
use crate::primitives::{blake3_digest, blake3_hash, crc32_checksum};
use crate::profile::{profile_spec, profile_table, ProfileId};
use crate::wire::{copy_range, get_be64, read_be64};

verus! {

/// Encoder errors.
#[derive(Debug)]
pub enum EncodeError {
    /// Wrapped core error.
    Core(GlyphError),
}

/// Encoder configuration.
#[derive(Debug, Clone, PartialEq, Eq)]
pub struct EncoderConfig {
    /// Transmission mode.
    pub mode: TransmissionMode,
    /// Error-correction level.
    pub ecc_level: EccLevel,
    /// Layout family.
    pub layout: LayoutFamily,
    /// Color encoding profile.
    pub color: ColorEncoding,
    /// Maximum raw payload bytes per burst frame.
    pub max_frame_payload: usize,
    /// Optional explicit module geometry override.
    pub geometry: Option<SymbolGeometry>,
}

impl Default for EncoderConfig {
    fn default() -> (r: Self)
        ensures
            r == (EncoderConfig {
                mode: TransmissionMode::Print,
                ecc_level: EccLevel::High,
                layout: LayoutFamily::RibbonWeave,
                color: ColorEncoding::Mono,
                max_frame_payload: 512,
                geometry: None,
            }),
    {
        EncoderConfig {
            mode: TransmissionMode::Print,
            ecc_level: EccLevel::High,
            layout: LayoutFamily::RibbonWeave,
            color: ColorEncoding::Mono,
            max_frame_payload: 512,
            geometry: None,
        }
    }
}

impl EncoderConfig {
    /// Build an encoder configuration from a named protocol profile.
    pub fn for_profile(profile: ProfileId) -> (r: Self)
        ensures
            r == (EncoderConfig {
                mode: profile_table(profile).mode,
                ecc_level: profile_table(profile).ecc_level,
                layout: profile_table(profile).layout,
                color: profile_table(profile).color,
                max_frame_payload: profile_table(profile).max_frame_payload,
                geometry: None,
            }),
    {
        let spec = profile_spec(profile);
        EncoderConfig {
            mode: spec.mode,
            ecc_level: spec.ecc_level,
            layout: spec.layout,
            color: spec.color,
            max_frame_payload: spec.max_frame_payload,
            geometry: None,
        }
    }
}

/// Encoded visual symbol and metadata.
#[derive(Debug, Clone, PartialEq, Eq)]
pub struct EncodedSymbol {
    /// Machine-readable descriptor.
    pub descriptor: SymbolDescriptor,
    /// Module matrix ready for rendering.
    pub matrix: SymbolMatrix,
    /// Binary frame before ECC padding.
    pub frame: Frame,
    /// Wire bytes plus parity bytes.
    pub codewords: Vec<u8>,
}

/// Scheduled burst transmission entry.
#[derive(Debug, Clone, PartialEq, Eq)]
pub struct BurstScheduleEntry {
    /// Zero-based transmit slot.
    pub slot: usize,
    /// Zero-based redundancy pass.
    pub pass: u16,
    /// Zero-based frame index in the source burst set.
    pub frame_index: u16,
    /// Encoded frame to render in this slot.
    pub symbol: EncodedSymbol,
}

/// Burst sender scheduling options.
#[derive(Debug, Clone, Copy, PartialEq, Eq)]
pub struct BurstScheduleConfig {
    /// Number of full round-robin passes over all burst frames.
    pub passes: u16,
}

impl Default for BurstScheduleConfig {
    fn default() -> (r: Self)
        ensures
            r.passes == 1,
    {
        BurstScheduleConfig { passes: 1 }
    }
}

/// The stream identifier of a payload: the first eight bytes of its BLAKE3 hash,
/// big-endian.
pub open spec fn stream_id_spec(payload: Seq<u8>) -> u64 {
    read_be64(blake3_digest(payload), 0)
}

/// The frame `Frame::new` builds for these fields and payload.
pub open spec fn frame_spec(
    mode: TransmissionMode,
    level: EccLevel,
    frame_index: u16,
    frame_count: u16,
    stream_id: u64,
    payload: Seq<u8>,
) -> (FrameHeader, Seq<u8>) {
    let h = FrameHeader {
        mode,
        ecc_level: level,
        frame_index,
        frame_count,
        stream_id,
        payload_len: payload.len() as u32,
        payload_crc: crc32_checksum(payload),
        header_crc: 0,
    };
    (FrameHeader { header_crc: h.expected_crc(), ..h }, payload)
}

/// The error `Frame::new` reports for these arguments, if any.
pub open spec fn frame_args_error(payload_len: nat, frame_index: u16, frame_count: u16) -> Option<
    GlyphError,
> {
    if payload_len > u32::MAX {
        Some(GlyphError::InvalidArgument("payload is too large for one frame"))
    } else if frame_count == 0 || frame_index >= frame_count {
        Some(GlyphError::InvalidFrameIndex { index: frame_index, count: frame_count })
    } else {
        None
    }
}

/// The geometry a symbol gets: the configured one, else the smallest reference
/// geometry that holds `bits_len` bits.
pub open spec fn symbol_geometry_spec(config: EncoderConfig, mode: TransmissionMode, bits_len: nat) -> Result<
    SymbolGeometry,
    GlyphError,
> {
    match config.geometry {
        Some(g) => Ok(g),
        None => choose_geometry_spec(mode, config.layout, bits_len as int),
    }
}

/// The capabilities a symbol advertises: its mode, color when not monochrome,
/// and fountain recovery for bursts.
pub open spec fn capabilities_spec(mode: TransmissionMode, color: ColorEncoding) -> Seq<Capability> {
    let first = match mode {
        TransmissionMode::Print => Capability::PrintMode,
        TransmissionMode::Screen => Capability::ScreenMode,
        TransmissionMode::Burst => Capability::BurstMode,
    };
    seq![first] + (if color != ColorEncoding::Mono {
        seq![Capability::Color]
    } else {
        Seq::empty()
    }) + (if mode == TransmissionMode::Burst {
        seq![Capability::FountainRecovery]
    } else {
        Seq::empty()
    })
}

/// The bits a frame's codewords put into the matrix.
pub open spec fn frame_bits(
    config: EncoderConfig,
    mode: TransmissionMode,
    frame_index: u16,
    frame_count: u16,
    stream_id: u64,
    payload: Seq<u8>,
) -> Seq<bool> {
    bits_of_bytes(
        encode_for_mode_spec(
            mode,
            config.ecc_level,
            frame_wire_bytes(
                frame_spec(mode, config.ecc_level, frame_index, frame_count, stream_id, payload),
            ),
        ),
    )
}

/// Why encoding a frame fails, if it does: bad frame arguments, no geometry, an
/// empty geometry, or too little capacity.
pub open spec fn encode_frame_error(
    config: EncoderConfig,
    payload: Seq<u8>,
    frame_index: u16,
    frame_count: u16,
    stream_id: u64,
    mode: TransmissionMode,
) -> Option<GlyphError> {
    match frame_args_error(payload.len(), frame_index, frame_count) {
        Some(e) => Some(e),
        None => {
            let bits_len = frame_bits(config, mode, frame_index, frame_count, stream_id, payload).len();
            match symbol_geometry_spec(config, mode, bits_len) {
                Err(e) => Some(e),
                Ok(g) => if g.width == 0 || g.height == 0 {
                    Some(GlyphError::InvalidArgument("symbol geometry must be non-zero"))
                } else if bits_len > capacity_spec(config.layout, g.width, g.height) {
                    Some(
                        GlyphError::CapacityExceeded {
                            needed_bits: bits_len as usize,
                            available_bits: capacity_spec(config.layout, g.width, g.height) as usize,
                        },
                    )
                } else {
                    None
                },
            }
        },
    }
}

/// A matrix laid out for `layout` at `w` by `h` whose data modules carry `bits`,
/// zero-padded, in canonical order, and whose other modules are the layout's own.
pub open spec fn matrix_holds(
    m: SymbolMatrix,
    layout: LayoutFamily,
    w: u16,
    h: u16,
    bits: Seq<bool>,
) -> bool {
    let positions = data_positions(layout, w, h);
    &&& m.well_formed()
    &&& m.spec_width() == w
    &&& m.spec_height() == h
    &&& m.spec_layout() == layout
    &&& forall|k: int|
        0 <= k < positions.len() ==> m@[lin(w, (#[trigger] positions[k]).0, positions[k].1)]
            == Cell::Data(padded_bit(bits, k))
    &&& forall|x: int, y: int|
        0 <= x < w && 0 <= y < h && !is_data_spec(layout, w, h, x as u16, y as u16) ==> m@[lin(
            w,
            x,
            y,
        )] == fresh_cell(layout, w, h, x, y)
}

/// `sym` is the symbol that encoding this frame produces.
pub open spec fn encoded_symbol_spec(
    config: EncoderConfig,
    payload: Seq<u8>,
    frame_index: u16,
    frame_count: u16,
    stream_id: u64,
    mode: TransmissionMode,
    sym: EncodedSymbol,
) -> bool {
    let frame = frame_spec(mode, config.ecc_level, frame_index, frame_count, stream_id, payload);
    let bits = frame_bits(config, mode, frame_index, frame_count, stream_id, payload);
    let g = symbol_geometry_spec(config, mode, bits.len())->Ok_0;
    let capacity = capacity_spec(config.layout, g.width, g.height);
    &&& sym.frame@ == frame
    &&& frame_well_formed(frame)
    &&& sym.codewords@ == encode_for_mode_spec(mode, config.ecc_level, frame_wire_bytes(frame))
    &&& sym.codewords@.len() == ecc_output_len(mode, config.ecc_level, 32 + payload.len())
    &&& verify_for_mode_spec(mode, config.ecc_level, sym.codewords@, frame_wire_bytes(frame).len())
    &&& matrix_holds(sym.matrix, config.layout, g.width, g.height, bits)
    &&& sym.descriptor.version == (ProtocolVersion { major: 0, minor: 1, patch: 0 })
    &&& sym.descriptor.mode == mode
    &&& sym.descriptor.ecc_level == config.ecc_level
    &&& sym.descriptor.layout == config.layout
    &&& sym.descriptor.color == config.color
    &&& sym.descriptor.width == g.width
    &&& sym.descriptor.height == g.height
    &&& sym.descriptor.payload_len == payload.len()
    &&& sym.descriptor.stream_id == stream_id
    &&& sym.descriptor.frame_index == frame_index
    &&& sym.descriptor.frame_count == frame_count
    &&& sym.descriptor.data_capacity_bits == capacity
    &&& sym.descriptor.capabilities@ == capabilities_spec(mode, config.color)
    &&& sym.descriptor.capabilities.well_formed()
}

/// Reference encoder.
#[derive(Debug, Clone, PartialEq, Eq)]
pub struct Encoder {
    config: EncoderConfig,
}

impl View for Encoder {
    type V = EncoderConfig;

    /// The configuration.
    closed spec fn view(&self) -> EncoderConfig {
        self.config
    }
}

impl Default for Encoder {
    fn default() -> (r: Self)
        ensures
            r@ == (EncoderConfig {
                mode: TransmissionMode::Print,
                ecc_level: EccLevel::High,
                layout: LayoutFamily::RibbonWeave,
                color: ColorEncoding::Mono,
                max_frame_payload: 512,
                geometry: None,
            }),
    {
        Encoder::new(EncoderConfig::default())
    }
}

/// Compute the deterministic stream identifier for payload bytes.
pub fn stream_id(payload: &[u8]) -> (r: u64)
    ensures
        r == stream_id_spec(payload@),
{
    let hash = blake3_hash(payload);
    stream_id_from_hash(&hash)
}

/// The first eight bytes of a hash, big-endian.
fn stream_id_from_hash(hash: &[u8; 32]) -> (r: u64)
    ensures
        r == read_be64(hash@, 0),
{
    get_be64(hash, 0)
}

/// The capabilities advertised by a symbol of this mode and color.
pub fn capabilities_for(mode: TransmissionMode, color: ColorEncoding) -> (r: CapabilitySet)
    ensures
        r@ == capabilities_spec(mode, color),
        r.well_formed(),
{
    let mut capabilities = CapabilitySet::new();
    match mode {
        TransmissionMode::Print => capabilities.insert(Capability::PrintMode),
        TransmissionMode::Screen => capabilities.insert(Capability::ScreenMode),
        TransmissionMode::Burst => capabilities.insert(Capability::BurstMode),
    }
    let mono = match color {
        ColorEncoding::Mono => true,
        _ => false,
    };
    if !mono {
        capabilities.insert(Capability::Color);
    }
    let burst = match mode {
        TransmissionMode::Burst => true,
        _ => false,
    };
    if burst {
        capabilities.insert(Capability::FountainRecovery);
    }
    assert(capabilities@ =~= capabilities_spec(mode, color));
    capabilities
}

/// The capabilities of a symbol name its own transmission mode, first, and no
/// other: print symbols advertise `PrintMode`, screen symbols `ScreenMode`, burst
/// symbols `BurstMode`. They advertise `Color` exactly when the color encoding is not
/// monochrome, and `FountainRecovery` exactly for burst streams.
pub proof fn capabilities_name_own_mode(mode: TransmissionMode, color: ColorEncoding)
    ensures
        capabilities_spec(mode, color).contains(Capability::PrintMode) <==> mode
            == TransmissionMode::Print,
        capabilities_spec(mode, color).contains(Capability::ScreenMode) <==> mode
            == TransmissionMode::Screen,
        capabilities_spec(mode, color).contains(Capability::BurstMode) <==> mode
            == TransmissionMode::Burst,
        capabilities_spec(mode, color).contains(Capability::Color) <==> color
            != ColorEncoding::Mono,
        capabilities_spec(mode, color).contains(Capability::FountainRecovery) <==> mode
            == TransmissionMode::Burst,
        mode == TransmissionMode::Print ==> capabilities_spec(mode, color)[0]
            == Capability::PrintMode,
        mode == TransmissionMode::Screen ==> capabilities_spec(mode, color)[0]
            == Capability::ScreenMode,
        mode == TransmissionMode::Burst ==> capabilities_spec(mode, color)[0]
            == Capability::BurstMode,
{
    let s = capabilities_spec(mode, color);
    let first = s[0];
    let colored = color != ColorEncoding::Mono;
    let burst = mode == TransmissionMode::Burst;
    assert(first == match mode {
        TransmissionMode::Print => Capability::PrintMode,
        TransmissionMode::Screen => Capability::ScreenMode,
        TransmissionMode::Burst => Capability::BurstMode,
    });
    assert(s.len() == 1 + (if colored { 1int } else { 0int }) + (if burst { 1int } else { 0int }));
    assert forall|i: int| 0 < i < s.len() implies (#[trigger] s[i] == Capability::Color && colored)
        || (s[i] == Capability::FountainRecovery && burst) by {
        if colored && i == 1 {
            assert(s[i] == Capability::Color);
        } else {
            assert(s[i] == Capability::FountainRecovery);
        }
    }
    if colored {
        assert(s[1] == Capability::Color);
    }
    if burst {
        assert(s[s.len() - 1] == Capability::FountainRecovery);
    }
    assert(s[0] == first);
}

/// An independent copy of an encoded symbol.
fn copy_symbol(s: &EncodedSymbol) -> (r: EncodedSymbol)
    ensures
        same_symbol(r, *s),
{
    let d = &s.descriptor;
    let descriptor = SymbolDescriptor {
        version: d.version,
        mode: d.mode,
        ecc_level: d.ecc_level,
        layout: d.layout,
        color: d.color,
        width: d.width,
        height: d.height,
        payload_len: d.payload_len,
        stream_id: d.stream_id,
        frame_index: d.frame_index,
        frame_count: d.frame_count,
        data_capacity_bits: d.data_capacity_bits,
        capabilities: d.capabilities.duplicate(),
    };
    let frame = Frame {
        header: s.frame.header,
        payload: copy_range(s.frame.payload.as_slice(), 0, s.frame.payload.len()),
    };
    assert(frame.payload@ =~= s.frame.payload@);
    let codewords = copy_range(s.codewords.as_slice(), 0, s.codewords.len());
    assert(codewords@ =~= s.codewords@);
    EncodedSymbol { descriptor, matrix: s.matrix.duplicate(), frame, codewords }
}

/// Bytes per burst frame: the configured maximum, at least one.
pub open spec fn chunk_size_spec(config: EncoderConfig) -> nat {
    if config.max_frame_payload < 1 {
        1
    } else {
        config.max_frame_payload as nat
    }
}

/// Frames a burst of `len` bytes takes: the chunks it splits into, at least one.
pub open spec fn burst_frame_count(config: EncoderConfig, len: nat) -> nat {
    let c = crate::ecc::ceil_div(len, chunk_size_spec(config));
    if c < 1 {
        1
    } else {
        c
    }
}

/// Chunk `i` of a burst payload.
pub open spec fn burst_chunk(config: EncoderConfig, payload: Seq<u8>, i: nat) -> Seq<u8> {
    let cs = chunk_size_spec(config);
    let end = if (i + 1) * cs < payload.len() {
        (i + 1) * cs
    } else {
        payload.len()
    };
    payload.subrange((i * cs) as int, end as int)
}

/// The first error among the burst frames `i..`, if any.
#[verifier::opaque]
pub open spec fn burst_frames_error(config: EncoderConfig, payload: Seq<u8>, i: nat) -> Option<
    GlyphError,
>
    decreases burst_frame_count(config, payload.len()) - i,
{
    let n = burst_frame_count(config, payload.len());
    if i >= n {
        None
    } else {
        match encode_frame_error(
            config,
            burst_chunk(config, payload, i),
            i as u16,
            n as u16,
            stream_id_spec(payload),
            TransmissionMode::Burst,
        ) {
            Some(e) => Some(e),
            None => burst_frames_error(config, payload, i + 1),
        }
    }
}

/// Why encoding a burst fails, if it does: too many frames, or the first frame
/// that fails.
pub open spec fn burst_error(config: EncoderConfig, payload: Seq<u8>) -> Option<GlyphError> {
    if burst_frame_count(config, payload.len()) > u16::MAX {
        Some(GlyphError::InvalidArgument("payload requires too many burst frames"))
    } else {
        burst_frames_error(config, payload, 0)
    }
}

/// Burst frame `i` is the symbol of chunk `i`.
#[verifier::opaque]
pub open spec fn burst_frame_spec(config: EncoderConfig, payload: Seq<u8>, i: nat, sym: EncodedSymbol) -> bool {
    encoded_symbol_spec(
        config,
        burst_chunk(config, payload, i),
        i as u16,
        burst_frame_count(config, payload.len()) as u16,
        stream_id_spec(payload),
        TransmissionMode::Burst,
        sym,
    )
}

/// The frame payloads of `frames[0..n]`, one after the other.
pub open spec fn joined_payloads(frames: Seq<EncodedSymbol>, n: nat) -> Seq<u8>
    decreases n,
{
    if n == 0 {
        Seq::empty()
    } else {
        joined_payloads(frames, (n - 1) as nat) + frames[n - 1].frame.payload@
    }
}

impl Encoder {
    /// Create an encoder from explicit configuration.
    pub fn new(config: EncoderConfig) -> (r: Self)
        ensures
            r@ == config,
    {
        Encoder { config }
    }

    /// Borrow the encoder configuration.
    pub fn config(&self) -> (r: &EncoderConfig)
        ensures
            *r == self@,
    {
        &self.config
    }

    /// Encode a complete static symbol: one frame of the configured mode whose
    /// stream identifier comes from the payload.
    pub fn encode_static(&self, payload: &[u8]) -> (r: Result<EncodedSymbol, EncodeError>)
        ensures
            match r {
                Ok(sym) => encode_frame_error(
                    self@,
                    payload@,
                    0,
                    1,
                    stream_id_spec(payload@),
                    self@.mode,
                ) is None && encoded_symbol_spec(
                    self@,
                    payload@,
                    0,
                    1,
                    stream_id_spec(payload@),
                    self@.mode,
                    sym,
                ),
                Err(EncodeError::Core(e)) => encode_frame_error(
                    self@,
                    payload@,
                    0,
                    1,
                    stream_id_spec(payload@),
                    self@.mode,
                ) == Some(e),
            },
    {
        let id = stream_id(payload);
        self.encode_frame(payload, 0, 1, id, self.config.mode)
    }

    /// Encode a single frame with explicit burst metadata.
    pub fn encode_frame(
        &self,
        payload: &[u8],
        frame_index: u16,
        frame_count: u16,
        stream_id: u64,
        mode: TransmissionMode,
    ) -> (r: Result<EncodedSymbol, EncodeError>)
        ensures
            match r {
                Ok(sym) => encode_frame_error(
                    self@,
                    payload@,
                    frame_index,
                    frame_count,
                    stream_id,
                    mode,
                ) is None && encoded_symbol_spec(
                    self@,
                    payload@,
                    frame_index,
                    frame_count,
                    stream_id,
                    mode,
                    sym,
                ),
                Err(EncodeError::Core(e)) => encode_frame_error(
                    self@,
                    payload@,
                    frame_index,
                    frame_count,
                    stream_id,
                    mode,
                ) == Some(e),
            },
    {
        let config = &self.config;
        let level = config.ecc_level;
        let layout = config.layout;
        let owned = copy_range(payload, 0, payload.len());
        assert(owned@ =~= payload@);
        let frame = match Frame::new(mode, level, frame_index, frame_count, stream_id, owned) {
            Ok(f) => f,
            Err(e) => return Err(EncodeError::Core(e)),
        };
        let ghost expected = frame_spec(mode, level, frame_index, frame_count, stream_id, payload@);
        proof {
            let h = frame.header;
            let e = expected.0;
            assert(h.payload_len == payload@.len());
            assert(h.payload_len == e.payload_len);
            assert(h.payload_crc == e.payload_crc);
            assert(h.prefix_bytes() == e.prefix_bytes());
            assert(h.header_crc == e.header_crc);
            assert(h == e);
        }
        assert(frame@ == expected);
        let wire = frame.encode();
        let codewords = encode_for_mode(mode, level, wire.as_slice());
        assert(wire@.len() == 32 + payload@.len());
        let bits = bytes_to_bits(codewords.as_slice());
        assert(bits@ == frame_bits(self@, mode, frame_index, frame_count, stream_id, payload@));
        let geometry = match config.geometry {
            Some(g) => g,
            None => match choose_symbol_geometry(mode, layout, bits.len()) {
                Ok(g) => g,
                Err(e) => return Err(EncodeError::Core(e)),
            },
        };
        if geometry.width == 0 || geometry.height == 0 {
            return Err(
                EncodeError::Core(GlyphError::InvalidArgument("symbol geometry must be non-zero")),
            );
        }
        let mut matrix = SymbolMatrix::with_layout(geometry.width, geometry.height, layout);
        let capacity = matrix.data_capacity_bits();
        if bits.len() > capacity {
            return Err(
                EncodeError::Core(
                    GlyphError::CapacityExceeded {
                        needed_bits: bits.len(),
                        available_bits: capacity,
                    },
                ),
            );
        }
        matrix.write_data_bits(bits.as_slice());
        let descriptor = SymbolDescriptor {
            version: ProtocolVersion::current(),
            mode,
            ecc_level: level,
            layout,
            color: config.color,
            width: matrix.width(),
            height: matrix.height(),
            payload_len: payload.len(),
            stream_id,
            frame_index,
            frame_count,
            data_capacity_bits: capacity,
            capabilities: capabilities_for(mode, config.color),
        };
        Ok(EncodedSymbol { descriptor, matrix, frame, codewords })
    }
}

/// Chunk `i` of a burst starts inside the payload, and the chunks cover it.
proof fn lemma_burst_chunks(len: nat, cs: nat, i: nat)
    requires
        cs >= 1,
        i < (if crate::ecc::ceil_div(len, cs) < 1 {
            1
        } else {
            crate::ecc::ceil_div(len, cs)
        }),
    ensures
        i * cs <= len,
        i * cs < len || len == 0,
{
    let q = len / cs;
    let r = len % cs;
    vstd::arithmetic::div_mod::lemma_fundamental_div_mod(len as int, cs as int);
    if r == 0 {
        if q >= 1 {
            assert(i * cs < len) by (nonlinear_arith)
                requires
                    i + 1 <= q,
                    len == cs * q,
                    cs >= 1,
            ;
        } else {
            assert(i == 0);
        }
    } else {
        assert(i * cs < len) by (nonlinear_arith)
            requires
                i <= q,
                len == cs * q + r,
                r > 0,
                cs >= 1,
        ;
    }
}

proof fn lemma_burst_cover(len: nat, cs: nat)
    requires
        cs >= 1,
    ensures
        len <= cs * (if crate::ecc::ceil_div(len, cs) < 1 {
            1
        } else {
            crate::ecc::ceil_div(len, cs)
        }),
{
    let q = len / cs;
    let r = len % cs;
    vstd::arithmetic::div_mod::lemma_fundamental_div_mod(len as int, cs as int);
    let fc = if crate::ecc::ceil_div(len, cs) < 1 {
        1
    } else {
        crate::ecc::ceil_div(len, cs)
    };
    if r == 0 {
        assert(len <= cs * fc) by (nonlinear_arith)
            requires
                len == cs * q,
                fc >= q,
                cs >= 1,
        ;
    } else {
        assert(len <= cs * fc) by (nonlinear_arith)
            requires
                len == cs * q + r,
                fc == q + 1,
                r < cs,
        ;
    }
}

impl Encoder {
    /// Encode burst chunk `i`.
    fn encode_chunk(&self, payload: &[u8], i: usize, cs: usize, frame_count: usize, id: u64) -> (r:
        Result<EncodedSymbol, EncodeError>)
        requires
            cs == chunk_size_spec(self@),
            frame_count == burst_frame_count(self@, payload@.len()),
            frame_count <= 65535,
            i < frame_count,
            id == stream_id_spec(payload@),
        ensures
            match r {
                Ok(sym) => {
                    &&& burst_frame_spec(self@, payload@, i as nat, sym)
                    &&& encode_frame_error(
                        self@,
                        burst_chunk(self@, payload@, i as nat),
                        i as u16,
                        frame_count as u16,
                        id,
                        TransmissionMode::Burst,
                    ) is None
                    &&& sym.frame.payload@ == payload@.subrange(
                        i * cs,
                        (if (i + 1) * cs < payload@.len() {
                            (i + 1) * cs
                        } else {
                            payload@.len() as int
                        }),
                    )
                    &&& i * cs <= payload@.len()
                },
                Err(EncodeError::Core(e)) => encode_frame_error(
                    self@,
                    burst_chunk(self@, payload@, i as nat),
                    i as u16,
                    frame_count as u16,
                    id,
                    TransmissionMode::Burst,
                ) == Some(e),
            },
    {
        let len = payload.len();
        proof {
            lemma_burst_chunks(len as nat, cs as nat, i as nat);
            assert((i + 1) * cs == i * cs + cs) by (nonlinear_arith);
        }
        let start = i * cs;
        let end = if len - start > cs {
            start + cs
        } else {
            len
        };
        let chunk = copy_range(payload, start, end);
        assert(chunk@ == burst_chunk(self@, payload@, i as nat));
        let r = self.encode_frame(
            chunk.as_slice(),
            i as u16,
            frame_count as u16,
            id,
            TransmissionMode::Burst,
        );
        proof {
            reveal(burst_frame_spec);
        }
        r
    }

    /// Encode payload bytes as a sequence of burst frames: the payload split into
    /// chunks of at most `max_frame_payload` bytes (at least one frame), all under
    /// the payload's stream identifier. The frame payloads joined give the payload
    /// back.
    pub fn encode_burst(&self, payload: &[u8]) -> (r: Result<Vec<EncodedSymbol>, EncodeError>)
        ensures
            match r {
                Ok(frames) => {
                    &&& burst_error(self@, payload@) is None
                    &&& frames@.len() == burst_frame_count(self@, payload@.len())
                    &&& forall|i: int|
                        0 <= i < frames@.len() ==> burst_frame_spec(
                            self@,
                            payload@,
                            i as nat,
                            #[trigger] frames@[i],
                        )
                    &&& joined_payloads(frames@, frames@.len()) == payload@
                },
                Err(EncodeError::Core(e)) => burst_error(self@, payload@) == Some(e),
            },
    {
        let ghost config = self@;
        let cs = if self.config.max_frame_payload < 1 {
            1
        } else {
            self.config.max_frame_payload
        };
        let len = payload.len();
        let c = if len % cs == 0 {
            len / cs
        } else {
            proof {
                assert(len > 0) by {
                    if len == 0 {
                        vstd::arithmetic::div_mod::lemma_small_mod(0, cs as nat);
                    }
                }
                assert(cs != 1) by {
                    if cs == 1 {
                        vstd::arithmetic::div_mod::lemma_fundamental_div_mod_converse(
                            len as int,
                            1,
                            len as int,
                            0,
                        );
                    }
                }
                vstd::arithmetic::div_mod::lemma_div_decreases(len as int, cs as int);
            }
            len / cs + 1
        };
        let frame_count = if c < 1 {
            1
        } else {
            c
        };
        assert(frame_count == burst_frame_count(config, len as nat));
        if frame_count > 65535 {
            return Err(
                EncodeError::Core(
                    GlyphError::InvalidArgument("payload requires too many burst frames"),
                ),
            );
        }
        let id = stream_id(payload);
        let mut frames: Vec<EncodedSymbol> = Vec::new();
        let mut i: usize = 0;
        proof {
            lemma_burst_cover(len as nat, cs as nat);
        }
        while i < frame_count
            invariant
                config == self@,
                cs == chunk_size_spec(config),
                len == payload@.len(),
                frame_count == burst_frame_count(config, len as nat),
                frame_count <= 65535,
                len <= cs * frame_count,
                id == stream_id_spec(payload@),
                i <= frame_count,
                frames@.len() == i,
                forall|j: int|
                    0 <= j < i ==> burst_frame_spec(config, payload@, j as nat, #[trigger] frames@[j]),
                burst_frames_error(config, payload@, 0) == burst_frames_error(
                    config,
                    payload@,
                    i as nat,
                ),
                joined_payloads(frames@, i as nat) == payload@.subrange(
                    0,
                    (if i * cs < len {
                        i * cs
                    } else {
                        len as int
                    }),
                ),
            decreases frame_count - i,
        {
            let ghost before = frames@;
            proof {
                lemma_burst_error_step(config, payload@, i as nat);
            }
            match self.encode_chunk(payload, i, cs, frame_count, id) {
                Ok(sym) => {
                    frames.push(sym);
                    proof {
                        assert(frames@[i as int] == sym);
                        lemma_joined_prefix(frames@, before, i as nat);
                        let prev = joined_payloads(frames@, i as nat);
                        assert(prev == payload@.subrange(0, i * cs));
                        assert(joined_payloads(frames@, (i + 1) as nat) == prev
                            + sym.frame.payload@);
                        assert((i + 1) * cs == i * cs + cs) by (nonlinear_arith);
                        let e = if (i + 1) * cs < len {
                            (i + 1) * cs
                        } else {
                            len as int
                        };
                        assert(i * cs <= e);
                        assert(prev + sym.frame.payload@ =~= payload@.subrange(0, e));
                        assert(joined_payloads(frames@, (i + 1) as nat) =~= payload@.subrange(
                            0,
                            (if (i + 1) * cs < len {
                                (i + 1) * cs
                            } else {
                                len as int
                            }),
                        ));
                    }
                },
                Err(e) => {
                    return Err(e);
                },
            }
            i = i + 1;
        }
        proof {
            lemma_burst_error_step(config, payload@, i as nat);
            assert(frame_count * cs >= len) by (nonlinear_arith)
                requires
                    len <= cs * frame_count,
            ;
            assert(payload@.subrange(0, len as int) =~= payload@);
        }
        Ok(frames)
    }
}

proof fn lemma_burst_error_step(config: EncoderConfig, payload: Seq<u8>, i: nat)
    ensures
        i >= burst_frame_count(config, payload.len()) ==> burst_frames_error(config, payload, i) is None,
        i < burst_frame_count(config, payload.len()) ==> burst_frames_error(config, payload, i)
            == match encode_frame_error(
            config,
            burst_chunk(config, payload, i),
            i as u16,
            burst_frame_count(config, payload.len()) as u16,
            stream_id_spec(payload),
            TransmissionMode::Burst,
        ) {
            Some(e) => Some(e),
            None => burst_frames_error(config, payload, i + 1),
        },
{
    reveal(burst_frames_error);
}

proof fn lemma_joined_prefix(a: Seq<EncodedSymbol>, b: Seq<EncodedSymbol>, n: nat)
    requires
        n <= a.len(),
        n <= b.len(),
        forall|i: int| 0 <= i < n ==> a[i] == b[i],
    ensures
        joined_payloads(a, n) == joined_payloads(b, n),
    decreases n,
{
    if n > 0 {
        lemma_joined_prefix(a, b, (n - 1) as nat);
    }
}

/// Two symbols with the same frame, codewords, matrix and descriptor contents.
pub open spec fn same_symbol(a: EncodedSymbol, b: EncodedSymbol) -> bool {
    &&& a.frame@ == b.frame@
    &&& a.codewords@ == b.codewords@
    &&& a.matrix@ == b.matrix@
    &&& a.matrix.spec_width() == b.matrix.spec_width()
    &&& a.matrix.spec_height() == b.matrix.spec_height()
    &&& a.matrix.spec_layout() == b.matrix.spec_layout()
    &&& a.matrix.well_formed() == b.matrix.well_formed()
    &&& a.descriptor.capabilities@ == b.descriptor.capabilities@
    &&& a.descriptor.capabilities.well_formed() == b.descriptor.capabilities.well_formed()
    &&& a.descriptor == (SymbolDescriptor { capabilities: a.descriptor.capabilities, ..b.descriptor })
}

proof fn lemma_same_symbol_spec(config: EncoderConfig, payload: Seq<u8>, i: nat, a: EncodedSymbol, b: EncodedSymbol)
    requires
        burst_frame_spec(config, payload, i, a),
        same_symbol(b, a),
    ensures
        burst_frame_spec(config, payload, i, b),
{
    reveal(burst_frame_spec);
}

impl Encoder {
    /// Encode and schedule burst frames for one-way repeated transmission: every
    /// pass sends all burst frames in order, and slots count up from zero.
    pub fn encode_burst_schedule(&self, payload: &[u8], schedule: BurstScheduleConfig) -> (r: Result<
        Vec<BurstScheduleEntry>,
        EncodeError,
    >)
        ensures
            schedule.passes == 0 ==> match r {
                Err(EncodeError::Core(e)) => e == GlyphError::InvalidArgument(
                    "burst schedule passes must be >= 1",
                ),
                Ok(_) => false,
            },
            schedule.passes > 0 ==> match r {
                Ok(entries) => {
                    let n = burst_frame_count(self@, payload@.len());
                    &&& burst_error(self@, payload@) is None
                    &&& entries@.len() == schedule.passes * n
                    &&& forall|k: int|
                        0 <= k < entries@.len() ==> {
                            &&& (#[trigger] entries@[k]).slot == k
                            &&& entries@[k].pass == k / (n as int)
                            &&& entries@[k].frame_index == k % (n as int)
                            &&& burst_frame_spec(
                                self@,
                                payload@,
                                (k % (n as int)) as nat,
                                entries@[k].symbol,
                            )
                        }
                },
                Err(EncodeError::Core(e)) => burst_error(self@, payload@) == Some(e),
            },
    {
        if schedule.passes == 0 {
            return Err(
                EncodeError::Core(GlyphError::InvalidArgument("burst schedule passes must be >= 1")),
            );
        }
        let frames = match self.encode_burst(payload) {
            Ok(f) => f,
            Err(e) => return Err(e),
        };
        let n = frames.len();
        let ghost config = self@;
        let mut entries: Vec<BurstScheduleEntry> = Vec::new();
        let mut slot: usize = 0;
        let mut pass: u16 = 0;
        while pass < schedule.passes
            invariant
                config == self@,
                n == frames@.len(),
                n == burst_frame_count(config, payload@.len()),
                1 <= n <= 65535,
                forall|i: int|
                    0 <= i < n ==> burst_frame_spec(config, payload@, i as nat, #[trigger] frames@[i]),
                pass <= schedule.passes,
                slot == pass * n,
                entries@.len() == slot,
                forall|k: int|
                    0 <= k < entries@.len() ==> {
                        &&& (#[trigger] entries@[k]).slot == k
                        &&& entries@[k].pass == k / (n as int)
                        &&& entries@[k].frame_index == k % (n as int)
                        &&& burst_frame_spec(
                            config,
                            payload@,
                            (k % (n as int)) as nat,
                            entries@[k].symbol,
                        )
                    },
            decreases schedule.passes - pass,
        {
            let mut fi: usize = 0;
            while fi < n
                invariant
                    config == self@,
                    n == frames@.len(),
                    1 <= n <= 65535,
                    forall|i: int|
                        0 <= i < n ==> burst_frame_spec(
                            config,
                            payload@,
                            i as nat,
                            #[trigger] frames@[i],
                        ),
                    pass < schedule.passes,
                    fi <= n,
                    slot == pass * n + fi,
                    entries@.len() == slot,
                    forall|k: int|
                        0 <= k < entries@.len() ==> {
                            &&& (#[trigger] entries@[k]).slot == k
                            &&& entries@[k].pass == k / (n as int)
                            &&& entries@[k].frame_index == k % (n as int)
                            &&& burst_frame_spec(
                                config,
                                payload@,
                                (k % (n as int)) as nat,
                                entries@[k].symbol,
                            )
                        },
                decreases n - fi,
            {
                proof {
                    assert(pass * n + fi + 1 <= 65535 * 65535) by (nonlinear_arith)
                        requires
                            pass < 65535,
                            fi < n,
                            n <= 65535,
                    ;
                    vstd::arithmetic::div_mod::lemma_fundamental_div_mod_converse(
                        slot as int,
                        n as int,
                        pass as int,
                        fi as int,
                    );
                }
                let symbol = copy_symbol(&frames[fi]);
                proof {
                    lemma_same_symbol_spec(config, payload@, fi as nat, frames@[fi as int], symbol);
                }
                entries.push(BurstScheduleEntry { slot, pass, frame_index: fi as u16, symbol });
                slot = slot + 1;
                fi = fi + 1;
            }
            proof {
                assert((pass + 1) * n == pass * n + n) by (nonlinear_arith);
            }
            pass = pass + 1;
        }
        Ok(entries)
    }
}

} // verus!
