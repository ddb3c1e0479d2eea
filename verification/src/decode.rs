//! Matrix decoding: sampled payload bits to a validated, ECC-checked frame.
use vstd::prelude::*;

use crate::auth::{envelope_structurally_valid, open_payload, open_with_key_spec, AuthEnvelopeHeader};
use crate::bitstream::{bits_to_bytes, bytes_of_bits};
use crate::descriptor::LayoutFamily;
use crate::ecc::{from_layout, stride_spec, verify_for_mode, verify_for_mode_spec};
use crate::error::GlyphError;
use crate::frame::{
    magic_bytes, parse_frame, parse_header, Frame, FrameHeader, HEADER_LEN, MAGIC, WIRE_VERSION,
};
use crate::matrix::SymbolMatrix;
use crate::mode::{ecc_from_wire, mode_from_wire, EccLevel, TransmissionMode};
use crate::recovery::{
    initial_telemetry, recovery_spec, try_recover_for_mode_with_suspects_and_telemetry,
    RecoveryMethod, RecoveryTelemetry,
};
use crate::bitstream::{bits_of_bytes, lemma_bits_of_bytes_len, lemma_bytes_bits_roundtrip, lemma_bytes_of_bits_concat};
use crate::ecc::{
    encode_for_mode_spec, lemma_parity_of_len, parity_len_for, parity_of, parity_verify_spec,
    rs_shards_for, rs_supported_spec, rs_verify_spec, scheme_spec, to_layout, EccScheme,
};
use crate::encode::{encode_frame_error, encoded_symbol_spec, frame_bits, symbol_geometry_spec, EncodedSymbol, EncoderConfig};
use crate::frame::{frame_well_formed, frame_wire_bytes, lemma_frame_roundtrip, lemma_header_roundtrip};
use crate::layout::capacity_spec;
use crate::matrix::{lemma_write_read, padded_bit};
use crate::recovery::{lemma_recovery_sound, rebuilt_tail, parity_candidate_ok};
use crate::wire::{be32, bytes_equal_at, copy_range, get_be16, get_be32, get_be64, push_all, push_be32, read_be16, read_be32, read_be64};

verus! {

/// Decoder errors.
#[derive(Debug)]
pub enum DecodeError {
    /// Wrapped core error.
    Core(GlyphError),
    /// Image dimensions did not match the configured sampling grid.
    InvalidImageDimensions,
    /// ECC/parity validation failed.
    EccMismatch,
    /// Failed to infer module size and quiet zone automatically.
    AutoDetectFailed,
}

/// Raster sampling options.
#[derive(Debug, Clone, Copy, PartialEq, Eq)]
pub struct DecodeOptions {
    /// Pixels per module.
    pub module_px: u32,
    /// Quiet-zone width in modules.
    pub quiet_zone_modules: u32,
    /// Luma threshold below which a sampled module is considered dark.
    pub threshold: u8,
    /// Expected layout family.
    pub layout: LayoutFamily,
}

impl Default for DecodeOptions {
    fn default() -> (r: Self)
        ensures
            r == (DecodeOptions {
                module_px: 8,
                quiet_zone_modules: 4,
                threshold: 192,
                layout: LayoutFamily::RibbonWeave,
            }),
    {
        DecodeOptions {
            module_px: 8,
            quiet_zone_modules: 4,
            threshold: 192,
            layout: LayoutFamily::RibbonWeave,
        }
    }
}

/// Decoded symbol output.
#[derive(Debug, Clone, PartialEq, Eq)]
pub struct DecodedSymbol {
    /// Sampled matrix.
    pub matrix: SymbolMatrix,
    /// Validated binary frame.
    pub frame: Frame,
    /// Complete sampled bytes, including parity and padding.
    pub sampled_bytes: Vec<u8>,
    /// ECC recovery telemetry for this decode attempt.
    pub recovery: RecoveryTelemetry,
}

/// Auto-detected decode parameters.
#[derive(Debug, Clone, Copy, PartialEq, Eq)]
pub struct AutoDecodeInfo {
    /// Pixels per module.
    pub module_px: u32,
    /// Quiet-zone width in modules.
    pub quiet_zone_modules: u32,
    /// Luma threshold below which a sampled module is considered dark.
    pub threshold: u8,
    /// Inferred layout family.
    pub layout: LayoutFamily,
}

/// Auto-decoded symbol and inference metadata.
#[derive(Debug, Clone, PartialEq, Eq)]
pub struct AutoDecodedSymbol {
    /// Decoded symbol payload and matrix.
    pub decoded: DecodedSymbol,
    /// Auto-detected parameters.
    pub info: AutoDecodeInfo,
}

/// The attempt budget for guided recovery (with suspect bytes).
pub const RECOVERY_MAX_ATTEMPTS: usize = 256;

/// The header fields of `b`, validated like [`parse_header`] except for the
/// header checksum, which is recomputed.
pub open spec fn parse_header_fields(b: Seq<u8>) -> Result<FrameHeader, GlyphError> {
    if b.len() < 32 {
        Err(GlyphError::Truncated { needed: 32, actual: b.len() as usize })
    } else if b.subrange(0, 4) != magic_bytes() {
        Err(GlyphError::InvalidMagic)
    } else if b[4] != WIRE_VERSION {
        Err(GlyphError::UnsupportedVersion(b[4]))
    } else {
        match mode_from_wire(b[5]) {
            None => Err(GlyphError::InvalidMode(b[5])),
            Some(mode) => match ecc_from_wire(b[6]) {
                None => Err(GlyphError::InvalidEccLevel(b[6])),
                Some(ecc_level) => {
                    let h = FrameHeader {
                        mode,
                        ecc_level,
                        frame_index: read_be16(b, 8),
                        frame_count: read_be16(b, 10),
                        stream_id: read_be64(b, 12),
                        payload_len: read_be32(b, 20),
                        payload_crc: read_be32(b, 24),
                        header_crc: 0,
                    };
                    if h.frame_count == 0 || h.frame_index >= h.frame_count {
                        Err(
                            GlyphError::InvalidFrameIndex {
                                index: h.frame_index,
                                count: h.frame_count,
                            },
                        )
                    } else {
                        Ok(FrameHeader { header_crc: h.expected_crc(), ..h })
                    }
                },
            },
        }
    }
}

/// The header a decode works from, with the bytes it goes on with: the sampled
/// header when it checks out, or, when only its checksum is wrong, the header
/// rebuilt from its fields with the checksum bytes rewritten.
pub open spec fn decoded_header_spec(sampled: Seq<u8>) -> Result<(FrameHeader, Seq<u8>), GlyphError> {
    match parse_header(sampled) {
        Ok(h) => Ok((h, sampled)),
        Err(GlyphError::HeaderChecksumMismatch) => match parse_header_fields(sampled) {
            Ok(h) => Ok(
                (
                    h,
                    sampled.subrange(0, 28) + be32(h.header_crc) + sampled.subrange(
                        32,
                        sampled.len() as int,
                    ),
                ),
            ),
            Err(e) => Err(e),
        },
        Err(e) => Err(e),
    }
}

/// The recovery budget: unbounded without suspects, else [`RECOVERY_MAX_ATTEMPTS`].
pub open spec fn recovery_budget(suspects: Seq<usize>) -> nat {
    if suspects.len() == 0 {
        usize::MAX as nat
    } else {
        RECOVERY_MAX_ATTEMPTS as nat
    }
}

/// What decoding the payload bits `bits` gives: the sampled bytes kept, the frame
/// and the recovery telemetry; or the core error (`Some`), or an ECC mismatch
/// (`None`).
pub open spec fn decode_bits_spec(bits: Seq<bool>, suspects: Seq<usize>) -> Result<
    (Seq<u8>, (FrameHeader, Seq<u8>), RecoveryTelemetry),
    Option<GlyphError>,
> {
    match decoded_header_spec(bytes_of_bits(bits)) {
        Err(e) => Err(Some(e)),
        Ok((h, bytes)) => {
            let dl = (32 + h.payload_len) as nat;
            if verify_for_mode_spec(h.mode, h.ecc_level, bytes, dl) {
                match parse_frame(bytes) {
                    Ok(f) => Ok((bytes, f, initial_telemetry(suspects))),
                    Err(e) => Err(Some(e)),
                }
            } else {
                let rec = recovery_spec(
                    h.mode,
                    h.ecc_level,
                    bytes,
                    dl,
                    suspects,
                    recovery_budget(suspects),
                );
                match rec.0 {
                    Some(rb) => if verify_for_mode_spec(h.mode, h.ecc_level, rb, dl) {
                        match parse_frame(rb) {
                            Ok(f) => Ok((rb, f, rec.1)),
                            Err(e) => Err(Some(e)),
                        }
                    } else {
                        Err(None)
                    },
                    None => Err(None),
                }
            }
        },
    }
}

/// `r` is the outcome [`decode_bits_spec`] describes for matrix `m`.
pub open spec fn decode_result_matches(
    r: Result<DecodedSymbol, DecodeError>,
    m: SymbolMatrix,
    suspects: Seq<usize>,
) -> bool {
    match r {
        Ok(d) => {
            &&& decode_bits_spec(m.data_bits(), suspects) == Ok::<
                (Seq<u8>, (FrameHeader, Seq<u8>), RecoveryTelemetry),
                Option<GlyphError>,
            >((d.sampled_bytes@, d.frame@, d.recovery))
            &&& d.matrix@ == m@
            &&& d.matrix.spec_width() == m.spec_width()
            &&& d.matrix.spec_height() == m.spec_height()
            &&& d.matrix.spec_layout() == m.spec_layout()
            &&& d.matrix.well_formed()
        },
        Err(DecodeError::Core(e)) => decode_bits_spec(m.data_bits(), suspects) == Err::<
            (Seq<u8>, (FrameHeader, Seq<u8>), RecoveryTelemetry),
            Option<GlyphError>,
        >(Some(e)),
        Err(DecodeError::EccMismatch) => decode_bits_spec(m.data_bits(), suspects) == Err::<
            (Seq<u8>, (FrameHeader, Seq<u8>), RecoveryTelemetry),
            Option<GlyphError>,
        >(None),
        Err(_) => false,
    }
}

/// Read the header fields of `bytes` without checking the header checksum; the
/// returned header carries a freshly computed one.
pub fn decode_header_fields_without_crc(bytes: &[u8]) -> (r: Result<FrameHeader, GlyphError>)
    ensures
        r == parse_header_fields(bytes@),
{
    if bytes.len() < HEADER_LEN {
        return Err(GlyphError::Truncated { needed: HEADER_LEN, actual: bytes.len() });
    }
    let magic = MAGIC;
    proof {
        assert(magic@ =~= magic_bytes());
    }
    if !bytes_equal_at(bytes, 0, &magic) {
        return Err(GlyphError::InvalidMagic);
    }
    if bytes[4] != WIRE_VERSION {
        return Err(GlyphError::UnsupportedVersion(bytes[4]));
    }
    let mode = match TransmissionMode::from_wire(bytes[5]) {
        Ok(m) => m,
        Err(e) => return Err(e),
    };
    let ecc_level = match EccLevel::from_wire(bytes[6]) {
        Ok(l) => l,
        Err(e) => return Err(e),
    };
    let frame_index = get_be16(bytes, 8);
    let frame_count = get_be16(bytes, 10);
    let stream_id = get_be64(bytes, 12);
    let payload_len = get_be32(bytes, 20);
    let payload_crc = get_be32(bytes, 24);
    FrameHeader::new(mode, ecc_level, frame_index, frame_count, stream_id, payload_len, payload_crc)
}

/// Decode a matrix into a binary frame.
pub fn decode_matrix(matrix: &SymbolMatrix) -> (r: Result<DecodedSymbol, DecodeError>)
    requires
        matrix.well_formed(),
    ensures
        decode_result_matches(r, *matrix, Seq::empty()),
{
    let none: [usize; 0] = [];
    assert(none@ =~= Seq::<usize>::empty());
    decode_matrix_with_suspects(matrix, &none)
}

/// Decode a matrix into a binary frame, guiding ECC recovery with likely-corrupted
/// byte indexes.
pub fn decode_matrix_with_suspects(matrix: &SymbolMatrix, suspect_bytes: &[usize]) -> (r: Result<
    DecodedSymbol,
    DecodeError,
>)
    requires
        matrix.well_formed(),
    ensures
        decode_result_matches(r, *matrix, suspect_bytes@),
{
    let bits = matrix.read_data_bits();
    let sampled = bits_to_bytes(bits.as_slice());
    let (header, bytes) = match FrameHeader::decode(sampled.as_slice()) {
        Ok(h) => (h, sampled),
        Err(GlyphError::HeaderChecksumMismatch) => {
            let h = match decode_header_fields_without_crc(sampled.as_slice()) {
                Ok(h) => h,
                Err(e) => return Err(DecodeError::Core(e)),
            };
            let mut fixed = copy_range(sampled.as_slice(), 0, 28);
            push_be32(&mut fixed, h.header_crc);
            let rest = copy_range(sampled.as_slice(), 32, sampled.len());
            push_all(&mut fixed, rest.as_slice());
            (h, fixed)
        },
        Err(e) => return Err(DecodeError::Core(e)),
    };
    let ghost dl = (32 + header.payload_len) as nat;
    if (bytes.len() as u64) < 32u64 + header.payload_len as u64 {
        proof {
            assert(!verify_for_mode_spec(header.mode, header.ecc_level, bytes@, dl));
            assert(recovery_spec(
                header.mode,
                header.ecc_level,
                bytes@,
                dl,
                suspect_bytes@,
                recovery_budget(suspect_bytes@),
            ).0 is None);
        }
        return Err(DecodeError::EccMismatch);
    }
    let data_len = HEADER_LEN + header.payload_len as usize;
    let matrix_copy = matrix.duplicate();
    if verify_for_mode(header.mode, header.ecc_level, bytes.as_slice(), data_len) {
        let frame = match Frame::decode(bytes.as_slice()) {
            Ok(f) => f,
            Err(e) => return Err(DecodeError::Core(e)),
        };
        let recovery = RecoveryTelemetry {
            attempted: false,
            recovered: false,
            attempts: 0,
            method: RecoveryMethod::NoRepair,
            suspect_count: suspect_bytes.len(),
            max_attempts_exceeded: false,
        };
        return Ok(DecodedSymbol { matrix: matrix_copy, frame, sampled_bytes: bytes, recovery });
    }
    let max_attempts = if suspect_bytes.len() == 0 {
        usize::MAX
    } else {
        RECOVERY_MAX_ATTEMPTS
    };
    let (recovered, recovery) = try_recover_for_mode_with_suspects_and_telemetry(
        header.mode,
        header.ecc_level,
        bytes.as_slice(),
        data_len,
        suspect_bytes,
        max_attempts,
    );
    match recovered {
        Some(recovered_bytes) => {
            if verify_for_mode(header.mode, header.ecc_level, recovered_bytes.as_slice(), data_len) {
                let frame = match Frame::decode(recovered_bytes.as_slice()) {
                    Ok(f) => f,
                    Err(e) => return Err(DecodeError::Core(e)),
                };
                Ok(
                    DecodedSymbol {
                        matrix: matrix_copy,
                        frame,
                        sampled_bytes: recovered_bytes,
                        recovery,
                    },
                )
            } else {
                Err(DecodeError::EccMismatch)
            }
        },
        None => Err(DecodeError::EccMismatch),
    }
}

/// Validate a sampled byte stream without constructing a matrix.
pub fn decode_wire_prefix(bytes: &[u8]) -> (r: Result<Frame, GlyphError>)
    ensures
        match r {
            Ok(f) => parse_frame(bytes@) == Ok::<(FrameHeader, Seq<u8>), GlyphError>(f@),
            Err(e) => parse_frame(bytes@) == Err::<(FrameHeader, Seq<u8>), GlyphError>(e),
        },
{
    Frame::decode(bytes)
}

/// Verify and unwrap an authenticated payload envelope, asking `key_lookup` for the
/// key of its key id.
pub fn decode_authenticated_payload<F: Fn(u32) -> Option<[u8; 32]>>(payload: &[u8], key_lookup: F) -> (r:
    Result<Vec<u8>, DecodeError>)
    requires
        forall|id: u32| call_requires(key_lookup, (id,)),
    ensures
        !envelope_structurally_valid(payload@) ==> match r {
            Err(DecodeError::Core(e)) => e == GlyphError::InvalidAuthenticityEnvelope,
            _ => false,
        },
        envelope_structurally_valid(payload@) ==> exists|key: Option<[u8; 32]>|
            call_ensures(key_lookup, (read_be32(payload@, 6),), key) && match r {
                Ok(raw) => open_with_key_spec(
                    payload@,
                    match key {
                        Some(k) => Some(k@),
                        None => None,
                    },
                ) matches Ok((_, p)) && p == raw@,
                Err(DecodeError::Core(e)) => open_with_key_spec(
                    payload@,
                    match key {
                        Some(k) => Some(k@),
                        None => None,
                    },
                ) == Err::<(AuthEnvelopeHeader, Seq<u8>), GlyphError>(e),
                Err(_) => false,
            },
{
    match open_payload(payload, key_lookup) {
        Ok((_, raw)) => Ok(raw),
        Err(e) => Err(DecodeError::Core(e)),
    }
}

/// Raster image decoder.
#[derive(Debug, Clone, PartialEq, Eq)]
pub struct RasterDecoder {
    options: DecodeOptions,
}

impl View for RasterDecoder {
    type V = DecodeOptions;

    /// The sampling options.
    closed spec fn view(&self) -> DecodeOptions {
        self.options
    }
}

impl RasterDecoder {
    /// Create a decoder from options.
    pub fn new(options: DecodeOptions) -> (r: Self)
        ensures
            r@ == options,
    {
        RasterDecoder { options }
    }

    /// The sampling options.
    pub fn options(&self) -> (r: &DecodeOptions)
        ensures
            *r == self@,
    {
        &self.options
    }
}

impl Default for RasterDecoder {
    fn default() -> (r: Self)
        ensures
            r@ == (DecodeOptions {
                module_px: 8,
                quiet_zone_modules: 4,
                threshold: 192,
                layout: LayoutFamily::RibbonWeave,
            }),
    {
        RasterDecoder::new(DecodeOptions::default())
    }
}

/// Bytes that start with a frame's wire bytes parse as that frame.
proof fn lemma_prefix_parse(x: Seq<u8>, f: (FrameHeader, Seq<u8>))
    requires
        frame_well_formed(f),
        frame_wire_bytes(f).len() <= x.len(),
        x.subrange(0, frame_wire_bytes(f).len() as int) == frame_wire_bytes(f),
    ensures
        parse_frame(x) == Ok::<(FrameHeader, Seq<u8>), GlyphError>(f),
        parse_header(x) == Ok::<FrameHeader, GlyphError>(f.0),
{
    let w = frame_wire_bytes(f);
    let tail = x.subrange(w.len() as int, x.len() as int);
    assert(x =~= w + tail);
    lemma_frame_roundtrip(f, tail);
    assert(x =~= f.0.wire_bytes() + (f.1 + tail));
    lemma_header_roundtrip(f.0, f.1 + tail);
}

proof fn lemma_layout_prefix(x: Seq<u8>, dl: nat, s: nat)
    requires
        dl <= x.len(),
    ensures
        to_layout(x, dl, s).len() == x.len(),
        to_layout(x, dl, s).subrange(0, dl as int) == x.subrange(0, dl as int),
        from_layout(x, dl, s).len() == x.len(),
        from_layout(x, dl, s).subrange(0, dl as int) == x.subrange(0, dl as int),
{
    crate::interleave::lemma_interleave_len(x.subrange(dl as int, x.len() as int), s);
    if s > 1 && x.len() > dl {
        assert(to_layout(x, dl, s).subrange(0, dl as int) =~= x.subrange(0, dl as int));
        assert(from_layout(x, dl, s).subrange(0, dl as int) =~= x.subrange(0, dl as int));
    }
}

/// The bytes sampled from an encoded symbol's matrix: its codewords, then the
/// zero padding of the unused capacity.
proof fn lemma_sampled_codewords(
    config: EncoderConfig,
    payload: Seq<u8>,
    frame_index: u16,
    frame_count: u16,
    stream_id: u64,
    mode: TransmissionMode,
    sym: EncodedSymbol,
)
    requires
        encode_frame_error(config, payload, frame_index, frame_count, stream_id, mode) is None,
        encoded_symbol_spec(config, payload, frame_index, frame_count, stream_id, mode, sym),
    ensures
        bytes_of_bits(sym.matrix.data_bits()).len() >= sym.codewords@.len(),
        bytes_of_bits(sym.matrix.data_bits()).subrange(0, sym.codewords@.len() as int)
            == sym.codewords@,
{
    let cw = sym.codewords@;
    let bits = frame_bits(config, mode, frame_index, frame_count, stream_id, payload);
    let g = symbol_geometry_spec(config, mode, bits.len())->Ok_0;
    let cap = capacity_spec(config.layout, g.width, g.height);
    let m = sym.matrix;
    assert(bits == bits_of_bytes(cw));
    lemma_bits_of_bytes_len(cw);
    lemma_write_read(m, bits);
    let zeros = Seq::new((cap - bits.len()) as nat, |k: int| false);
    assert(m.data_bits() =~= bits + zeros);
    lemma_bytes_of_bits_concat(bits, zeros);
    lemma_bytes_bits_roundtrip(cw);
    let sampled = bytes_of_bits(m.data_bits());
    assert(sampled == cw + bytes_of_bits(zeros));
    assert(sampled.subrange(0, cw.len() as int) =~= cw);
}

/// The codewords of a frame start with its wire bytes, and hold its parity.
proof fn lemma_codeword_prefix(mode: TransmissionMode, level: EccLevel, wire: Seq<u8>)
    ensures
        encode_for_mode_spec(mode, level, wire).len() >= wire.len(),
        encode_for_mode_spec(mode, level, wire).subrange(0, wire.len() as int) == wire,
        scheme_spec(mode) == EccScheme::Parity ==> encode_for_mode_spec(mode, level, wire).len()
            == wire.len() + parity_len_for(level, wire.len()),
{
    let dl = wire.len();
    let stride = stride_spec(mode) as nat;
    let base = crate::ecc::base_encode_spec(mode, level, wire);
    lemma_parity_of_len(wire, parity_len_for(level, dl));
    assert(base.subrange(0, dl as int) =~= wire);
    lemma_layout_prefix(base, dl, stride);
}

/// With stride 1, a check that passes on the codewords passes on the codewords
/// followed by padding.
proof fn lemma_print_padding_verifies(level: EccLevel, cw: Seq<u8>, sampled: Seq<u8>, dl: nat)
    requires
        verify_for_mode_spec(TransmissionMode::Print, level, cw, dl),
        sampled.len() >= cw.len(),
        sampled.subrange(0, cw.len() as int) == cw,
    ensures
        verify_for_mode_spec(TransmissionMode::Print, level, sampled, dl),
{
    assert(from_layout(sampled, dl, 1) == sampled);
    assert(from_layout(cw, dl, 1) == cw);
    let rp = rs_shards_for(level, dl);
    let pl = parity_len_for(level, dl);
    assert(sampled.subrange(0, dl as int) =~= cw.subrange(0, dl as int));
    if rs_verify_spec(rp, cw, dl) {
        assert(sampled.subrange(dl as int, (dl + rp) as int) =~= cw.subrange(
            dl as int,
            (dl + rp) as int,
        ));
        assert(rs_verify_spec(rp, sampled, dl));
    } else {
        assert(parity_verify_spec(pl, cw, dl));
        assert(sampled.subrange(dl as int, (dl + pl) as int) =~= cw.subrange(
            dl as int,
            (dl + pl) as int,
        ));
        assert(parity_verify_spec(pl, sampled, dl));
    }
}

/// A parity frame whose data bytes are intact is repaired by the tail rebuild,
/// which keeps the data bytes.
proof fn lemma_parity_tail_repairs(
    mode: TransmissionMode,
    level: EccLevel,
    sampled: Seq<u8>,
    f: (FrameHeader, Seq<u8>),
    suspects: Seq<usize>,
)
    requires
        mode != TransmissionMode::Print,
        frame_well_formed(f),
        sampled.len() >= frame_wire_bytes(f).len() + parity_len_for(level, frame_wire_bytes(f).len()),
        sampled.subrange(0, frame_wire_bytes(f).len() as int) == frame_wire_bytes(f),
    ensures
        ({
            let dl = frame_wire_bytes(f).len();
            let rec = recovery_spec(mode, level, sampled, dl, suspects, recovery_budget(suspects));
            match rec.0 {
                Some(rb) => verify_for_mode_spec(mode, level, rb, dl) && parse_frame(rb) == Ok::<
                    (FrameHeader, Seq<u8>),
                    GlyphError,
                >(f),
                None => false,
            }
        }),
{
    let wire = frame_wire_bytes(f);
    let dl = wire.len();
    let stride = stride_spec(mode) as nat;
    let pl = parity_len_for(level, dl);
    let nb = from_layout(sampled, dl, stride);
    lemma_layout_prefix(sampled, dl, stride);
    let repaired = rebuilt_tail(nb, dl, pl);
    lemma_parity_of_len(nb.subrange(0, dl as int), pl);
    assert(repaired.subrange(0, dl as int) =~= wire);
    assert(repaired.subrange(dl as int, (dl + pl) as int) =~= parity_of(
        repaired.subrange(0, dl as int),
        pl,
    ));
    lemma_prefix_parse(repaired, f);
    assert(parity_candidate_ok(pl, dl, repaired));
    let budget = recovery_budget(suspects);
    let rec = recovery_spec(mode, level, sampled, dl, suspects, budget);
    assert(rec.0 == Some(to_layout(repaired, dl, stride)));
    lemma_recovery_sound(mode, level, sampled, dl, suspects, budget);
    lemma_layout_prefix(repaired, dl, stride);
    let rb = to_layout(repaired, dl, stride);
    assert(rb.subrange(0, dl as int) == wire);
    lemma_prefix_parse(rb, f);
}

/// Decoding the matrix of an encoded symbol gives back the symbol's frame, with
/// or without suspect bytes; a print symbol verifies without any repair, and the
/// bytes it decodes from begin with the symbol's codewords.
#[verifier::spinoff_prover]
#[verifier::rlimit(40)]
pub proof fn lemma_decode_encoded(
    config: EncoderConfig,
    payload: Seq<u8>,
    frame_index: u16,
    frame_count: u16,
    stream_id: u64,
    mode: TransmissionMode,
    sym: EncodedSymbol,
    suspects: Seq<usize>,
)
    requires
        encode_frame_error(config, payload, frame_index, frame_count, stream_id, mode) is None,
        encoded_symbol_spec(config, payload, frame_index, frame_count, stream_id, mode, sym),
    ensures
        match decode_bits_spec(sym.matrix.data_bits(), suspects) {
            Ok((bytes, f, telemetry)) => {
                &&& f == sym.frame@
                &&& mode == TransmissionMode::Print ==> telemetry == initial_telemetry(suspects)
                &&& mode == TransmissionMode::Print ==> bytes.len() >= sym.codewords@.len()
                    && bytes.subrange(0, sym.codewords@.len() as int) == sym.codewords@
            },
            Err(_) => false,
        },
{
    let level = config.ecc_level;
    let f = sym.frame@;
    let wire = frame_wire_bytes(f);
    let dl = wire.len();
    let cw = sym.codewords@;
    lemma_sampled_codewords(config, payload, frame_index, frame_count, stream_id, mode, sym);
    lemma_codeword_prefix(mode, level, wire);
    let sampled = bytes_of_bits(sym.matrix.data_bits());
    assert(sampled.subrange(0, dl as int) =~= cw.subrange(0, dl as int));
    lemma_prefix_parse(sampled, f);
    assert(decoded_header_spec(sampled) == Ok::<(FrameHeader, Seq<u8>), GlyphError>((f.0, sampled)));
    assert(32 + f.0.payload_len == dl);
    if mode == TransmissionMode::Print {
        lemma_print_padding_verifies(level, cw, sampled, dl);
    } else if !verify_for_mode_spec(mode, level, sampled, dl) {
        lemma_parity_tail_repairs(mode, level, sampled, f, suspects);
    }
}

} // verus!
