//! The fixed 32-byte GlyphNet frame header and checksummed frames.
use vstd::prelude::*;

use crate::error::GlyphError;
use crate::mode::{
    ecc_from_wire, ecc_wire_id, mode_from_wire, mode_wire_id, EccLevel, TransmissionMode,
};
use crate::primitives::{crc32, crc32_checksum};
use crate::wire::{
    be16, be32, be64, bytes_equal_at, copy_range, get_be16, get_be32, get_be64, lemma_be16_roundtrip,
    lemma_be32_roundtrip, lemma_be64_roundtrip, lemma_read_be16_bytes, lemma_read_be32_bytes,
    lemma_read_be64_bytes, push_all, push_be16, push_be32, push_be64, read_be16,
    read_be32, read_be64,
};

verus! {

/// Binary frame magic (`GLYN`).
pub const MAGIC: [u8; 4] = [71u8, 76u8, 89u8, 78u8];

/// Supported binary wire version.
pub const WIRE_VERSION: u8 = 1;

/// Binary frame header length in bytes.
pub const HEADER_LEN: usize = 32;

/// The frame magic as a byte sequence.
pub open spec fn magic_bytes() -> Seq<u8> {
    seq![71u8, 76u8, 89u8, 78u8]
}

/// Binary frame header.
#[derive(Debug, Clone, Copy, PartialEq, Eq)]
pub struct FrameHeader {
    /// Transmission mode.
    pub mode: TransmissionMode,
    /// Error-correction profile.
    pub ecc_level: EccLevel,
    /// Zero-based frame index.
    pub frame_index: u16,
    /// Total frame count.
    pub frame_count: u16,
    /// Stream identifier.
    pub stream_id: u64,
    /// Payload length in bytes before ECC padding.
    pub payload_len: u32,
    /// CRC-32 of the payload bytes.
    pub payload_crc: u32,
    /// CRC-32 of the 28 header bytes before this checksum.
    pub header_crc: u32,
}

impl FrameHeader {
    /// The first 28 header bytes: every field but the header checksum.
    pub open spec fn prefix_bytes(self) -> Seq<u8> {
        magic_bytes() + seq![WIRE_VERSION, mode_wire_id(self.mode), ecc_wire_id(self.ecc_level), 0u8]
            + be16(self.frame_index) + be16(self.frame_count) + be64(self.stream_id) + be32(
            self.payload_len,
        ) + be32(self.payload_crc)
    }

    /// The checksum the header fields call for.
    pub open spec fn expected_crc(self) -> u32 {
        crc32_checksum(self.prefix_bytes())
    }

    /// The 32 wire bytes of this header, with a freshly computed header checksum.
    pub open spec fn wire_bytes(self) -> Seq<u8> {
        self.prefix_bytes() + be32(self.expected_crc())
    }

    /// A header as `new` builds it: a valid frame index and a matching checksum.
    pub open spec fn well_formed(self) -> bool {
        &&& self.frame_count > 0
        &&& self.frame_index < self.frame_count
        &&& self.header_crc == self.expected_crc()
    }
}

/// Parse and validate the leading 32 header bytes of `b`: the header checksum must be
/// the CRC-32 of bytes `0..28` as received.
pub open spec fn parse_header(b: Seq<u8>) -> Result<FrameHeader, GlyphError> {
    if b.len() < 32 {
        Err(GlyphError::Truncated { needed: 32, actual: b.len() as usize })
    } else if b.subrange(0, 4) != magic_bytes() {
        Err(GlyphError::InvalidMagic)
    } else if b[4] != WIRE_VERSION {
        Err(GlyphError::UnsupportedVersion(b[4]))
    } else {
        match mode_from_wire(b[5]) {
            None => Err(GlyphError::InvalidMode(b[5])),
            Some(mode) => match ecc_from_wire(b[6]) {
                None => Err(GlyphError::InvalidEccLevel(b[6])),
                Some(ecc_level) => {
                    let h = FrameHeader {
                        mode,
                        ecc_level,
                        frame_index: read_be16(b, 8),
                        frame_count: read_be16(b, 10),
                        stream_id: read_be64(b, 12),
                        payload_len: read_be32(b, 20),
                        payload_crc: read_be32(b, 24),
                        header_crc: read_be32(b, 28),
                    };
                    if h.frame_count == 0 || h.frame_index >= h.frame_count {
                        Err(
                            GlyphError::InvalidFrameIndex {
                                index: h.frame_index,
                                count: h.frame_count,
                            },
                        )
                    } else if crc32_checksum(b.subrange(0, 28)) != h.header_crc {
                        Err(GlyphError::HeaderChecksumMismatch)
                    } else {
                        Ok(h)
                    }
                },
            },
        }
    }
}

/// Copy a 32-byte vector into an array.
fn to_array32(v: &Vec<u8>) -> (r: [u8; 32])
    requires
        v@.len() == 32,
    ensures
        r@ == v@,
{
    let mut out = [0u8; 32];
    let mut i: usize = 0;
    while i < 32
        invariant
            v@.len() == 32,
            i <= 32,
            out@.len() == 32,
            forall|j: int| 0 <= j < i ==> out@[j] == v@[j],
        decreases 32 - i,
    {
        out[i] = v[i];
        i = i + 1;
    }
    assert(out@ =~= v@);
    out
}

impl FrameHeader {
    /// Create a validated frame header.
    pub fn new(
        mode: TransmissionMode,
        ecc_level: EccLevel,
        frame_index: u16,
        frame_count: u16,
        stream_id: u64,
        payload_len: u32,
        payload_crc: u32,
    ) -> (r: Result<FrameHeader, GlyphError>)
        ensures
            frame_count == 0 || frame_index >= frame_count ==> r == Err::<FrameHeader, GlyphError>(
                GlyphError::InvalidFrameIndex { index: frame_index, count: frame_count },
            ),
            frame_count > 0 && frame_index < frame_count ==> r is Ok,
            r matches Ok(h) ==> h == (FrameHeader {
                mode,
                ecc_level,
                frame_index,
                frame_count,
                stream_id,
                payload_len,
                payload_crc,
                header_crc: h.expected_crc(),
            }),
            r matches Ok(h) ==> h.well_formed(),
    {
        if frame_count == 0 || frame_index >= frame_count {
            return Err(GlyphError::InvalidFrameIndex { index: frame_index, count: frame_count });
        }
        let mut header = FrameHeader {
            mode,
            ecc_level,
            frame_index,
            frame_count,
            stream_id,
            payload_len,
            payload_crc,
            header_crc: 0,
        };
        header.header_crc = header.compute_header_crc();
        Ok(header)
    }

    /// Encode this header to its fixed-width binary representation.
    pub fn encode(self) -> (r: [u8; 32])
        ensures
            r@ == self.wire_bytes(),
    {
        let mut bytes = self.encode_without_header_crc();
        let crc = crc32(bytes.as_slice());
        push_be32(&mut bytes, crc);
        to_array32(&bytes)
    }

    /// Decode and validate a fixed-width binary header.
    pub fn decode(bytes: &[u8]) -> (r: Result<FrameHeader, GlyphError>)
        ensures
            r == parse_header(bytes@),
    {
        if bytes.len() < HEADER_LEN {
            return Err(GlyphError::Truncated { needed: HEADER_LEN, actual: bytes.len() });
        }
        let magic = MAGIC;
        if !bytes_equal_at(bytes, 0, &magic) {
            proof {
                assert(magic@ =~= magic_bytes());
            }
            return Err(GlyphError::InvalidMagic);
        }
        proof {
            assert(magic@ =~= magic_bytes());
        }
        if bytes[4] != WIRE_VERSION {
            return Err(GlyphError::UnsupportedVersion(bytes[4]));
        }
        let mode = match TransmissionMode::from_wire(bytes[5]) {
            Ok(m) => m,
            Err(e) => return Err(e),
        };
        let ecc_level = match EccLevel::from_wire(bytes[6]) {
            Ok(l) => l,
            Err(e) => return Err(e),
        };
        let frame_index = get_be16(bytes, 8);
        let frame_count = get_be16(bytes, 10);
        let stream_id = get_be64(bytes, 12);
        let payload_len = get_be32(bytes, 20);
        let payload_crc = get_be32(bytes, 24);
        let header_crc = get_be32(bytes, 28);
        let header = FrameHeader {
            mode,
            ecc_level,
            frame_index,
            frame_count,
            stream_id,
            payload_len,
            payload_crc,
            header_crc,
        };
        if frame_count == 0 || frame_index >= frame_count {
            return Err(GlyphError::InvalidFrameIndex { index: frame_index, count: frame_count });
        }
        let prefix = copy_range(bytes, 0, 28);
        if crc32(prefix.as_slice()) != header_crc {
            return Err(GlyphError::HeaderChecksumMismatch);
        }
        proof {
            lemma_parsed_header_bytes(bytes@);
        }
        Ok(header)
    }

    fn compute_header_crc(self) -> (r: u32)
        ensures
            r == self.expected_crc(),
    {
        let bytes = self.encode_without_header_crc();
        crc32(bytes.as_slice())
    }

    fn encode_without_header_crc(self) -> (r: Vec<u8>)
        ensures
            r@ == self.prefix_bytes(),
    {
        let mut bytes: Vec<u8> = Vec::new();
        bytes.push(71u8);
        bytes.push(76u8);
        bytes.push(89u8);
        bytes.push(78u8);
        bytes.push(WIRE_VERSION);
        bytes.push(self.mode.wire_id());
        bytes.push(self.ecc_level.wire_id());
        bytes.push(0u8);
        assert(bytes@ =~= magic_bytes() + seq![
            WIRE_VERSION,
            mode_wire_id(self.mode),
            ecc_wire_id(self.ecc_level),
            0u8,
        ]);
        push_be16(&mut bytes, self.frame_index);
        push_be16(&mut bytes, self.frame_count);
        push_be64(&mut bytes, self.stream_id);
        push_be32(&mut bytes, self.payload_len);
        push_be32(&mut bytes, self.payload_crc);
        bytes
    }
}

/// Complete binary frame.
#[derive(Debug, Clone, PartialEq, Eq)]
pub struct Frame {
    /// Parsed frame header.
    pub header: FrameHeader,
    /// Payload bytes before ECC padding.
    pub payload: Vec<u8>,
}

impl View for Frame {
    type V = (FrameHeader, Seq<u8>);

    open spec fn view(&self) -> (FrameHeader, Seq<u8>) {
        (self.header, self.payload@)
    }
}

/// A frame as `Frame::new` builds it: its header describes its payload.
pub open spec fn frame_well_formed(f: (FrameHeader, Seq<u8>)) -> bool {
    &&& f.0.well_formed()
    &&& f.0.payload_len == f.1.len()
    &&& f.0.payload_crc == crc32_checksum(f.1)
}

/// The wire bytes of a frame: header then payload.
pub open spec fn frame_wire_bytes(f: (FrameHeader, Seq<u8>)) -> Seq<u8> {
    f.0.wire_bytes() + f.1
}

/// Parse a frame from the front of `b`, ignoring trailing bytes.
pub open spec fn parse_frame(b: Seq<u8>) -> Result<(FrameHeader, Seq<u8>), GlyphError> {
    match parse_header(b) {
        Err(e) => Err(e),
        Ok(h) => {
            let required = 32 + h.payload_len;
            if b.len() < required {
                Err(GlyphError::Truncated { needed: required as usize, actual: b.len() as usize })
            } else if crc32_checksum(b.subrange(32, required)) != h.payload_crc {
                Err(GlyphError::PayloadChecksumMismatch)
            } else {
                Ok((h, b.subrange(32, required)))
            }
        },
    }
}

impl Frame {
    /// Create a new checksummed frame.
    pub fn new(
        mode: TransmissionMode,
        ecc_level: EccLevel,
        frame_index: u16,
        frame_count: u16,
        stream_id: u64,
        payload: Vec<u8>,
    ) -> (r: Result<Frame, GlyphError>)
        ensures
            payload@.len() > u32::MAX ==> r == Err::<Frame, GlyphError>(
                GlyphError::InvalidArgument("payload is too large for one frame"),
            ),
            payload@.len() <= u32::MAX && (frame_count == 0 || frame_index >= frame_count) ==> r
                == Err::<Frame, GlyphError>(
                GlyphError::InvalidFrameIndex { index: frame_index, count: frame_count },
            ),
            payload@.len() <= u32::MAX && frame_count > 0 && frame_index < frame_count ==> r is Ok,
            r matches Ok(f) ==> {
                &&& f.payload@ == payload@
                &&& f.header.mode == mode
                &&& f.header.ecc_level == ecc_level
                &&& f.header.frame_index == frame_index
                &&& f.header.frame_count == frame_count
                &&& f.header.stream_id == stream_id
                &&& frame_well_formed(f@)
            },
    {
        if payload.len() > 0xffff_ffffusize {
            return Err(GlyphError::InvalidArgument("payload is too large for one frame"));
        }
        let payload_len = payload.len() as u32;
        let payload_crc = crc32(payload.as_slice());
        let header = match FrameHeader::new(
            mode,
            ecc_level,
            frame_index,
            frame_count,
            stream_id,
            payload_len,
            payload_crc,
        ) {
            Ok(h) => h,
            Err(e) => return Err(e),
        };
        Ok(Frame { header, payload })
    }

    /// Encode this frame to binary wire bytes.
    pub fn encode(&self) -> (r: Vec<u8>)
        ensures
            r@ == frame_wire_bytes(self@),
    {
        let header = self.header.encode();
        let mut bytes: Vec<u8> = Vec::new();
        push_all(&mut bytes, &header);
        push_all(&mut bytes, self.payload.as_slice());
        bytes
    }

    /// Decode a binary frame, ignoring trailing ECC or padding bytes.
    pub fn decode(bytes: &[u8]) -> (r: Result<Frame, GlyphError>)
        ensures
            match r {
                Ok(f) => parse_frame(bytes@) == Ok::<(FrameHeader, Seq<u8>), GlyphError>(f@),
                Err(e) => parse_frame(bytes@) == Err::<(FrameHeader, Seq<u8>), GlyphError>(e),
            },
    {
        let header = match FrameHeader::decode(bytes) {
            Ok(h) => h,
            Err(e) => return Err(e),
        };
        let required: u64 = 32u64 + header.payload_len as u64;
        if (bytes.len() as u64) < required {
            return Err(
                GlyphError::Truncated { needed: required as usize, actual: bytes.len() },
            );
        }
        let end = required as usize;
        let payload = copy_range(bytes, HEADER_LEN, end);
        if crc32(payload.as_slice()) != header.payload_crc {
            return Err(GlyphError::PayloadChecksumMismatch);
        }
        Ok(Frame { header, payload })
    }
}

/// A header read from bytes whose reserved flags byte is zero writes back to the same
/// 32 bytes, and is well formed.
pub proof fn lemma_parsed_header_bytes(b: Seq<u8>)
    ensures
        b.len() >= 8 && b[7] == 0 ==> (parse_header(b) matches Ok(h) ==> h.well_formed()
            && h.wire_bytes() == b.subrange(0, 32)),
{
    if parse_header(b) is Ok && b.len() >= 8 && b[7] == 0 {
        let h = parse_header(b)->Ok_0;
        let mode = mode_from_wire(b[5])->Some_0;
        let level = ecc_from_wire(b[6])->Some_0;
        assert(mode_wire_id(mode) == b[5]);
        assert(ecc_wire_id(level) == b[6]);
        lemma_read_be16_bytes(b, 8);
        lemma_read_be16_bytes(b, 10);
        lemma_read_be64_bytes(b, 12);
        lemma_read_be32_bytes(b, 20);
        lemma_read_be32_bytes(b, 24);
        lemma_read_be32_bytes(b, 28);
        assert(h.prefix_bytes() =~= b.subrange(0, 28));
        assert(h.wire_bytes() =~= b.subrange(0, 32));
    }
}

/// Reading the wire bytes of a well-formed header, followed by anything, gives the
/// header back.
pub proof fn lemma_header_roundtrip(h: FrameHeader, rest: Seq<u8>)
    requires
        h.well_formed(),
    ensures
        parse_header(h.wire_bytes() + rest) == Ok::<FrameHeader, GlyphError>(h),
{
    let b = h.wire_bytes() + rest;
    let p = h.prefix_bytes();
    assert(p.len() == 28);
    assert(b.subrange(0, 28) =~= p);
    assert(b.subrange(0, 4) =~= magic_bytes());
    assert(b[4] == WIRE_VERSION);
    assert(b[5] == mode_wire_id(h.mode));
    assert(b[6] == ecc_wire_id(h.ecc_level));
    crate::mode::lemma_mode_wire_roundtrip(h.mode);
    crate::mode::lemma_ecc_wire_roundtrip(h.ecc_level);
    assert(b.subrange(8, 10) =~= be16(h.frame_index));
    assert(b.subrange(10, 12) =~= be16(h.frame_count));
    assert(b.subrange(12, 20) =~= be64(h.stream_id));
    assert(b.subrange(20, 24) =~= be32(h.payload_len));
    assert(b.subrange(24, 28) =~= be32(h.payload_crc));
    assert(b.subrange(28, 32) =~= be32(h.expected_crc()));
    lemma_be16_roundtrip(h.frame_index);
    lemma_be16_roundtrip(h.frame_count);
    lemma_be64_roundtrip(h.stream_id);
    lemma_be32_roundtrip(h.payload_len);
    lemma_be32_roundtrip(h.payload_crc);
    lemma_be32_roundtrip(h.expected_crc());
    assert(read_be16(b, 8) == read_be16(be16(h.frame_index), 0));
    assert(read_be16(b, 10) == read_be16(be16(h.frame_count), 0));
    assert(read_be64(b, 12) == read_be64(be64(h.stream_id), 0));
    assert(read_be32(b, 20) == read_be32(be32(h.payload_len), 0));
    assert(read_be32(b, 24) == read_be32(be32(h.payload_crc), 0));
    assert(read_be32(b, 28) == read_be32(be32(h.expected_crc()), 0));
}

/// Byte 5 of an encoded header is the mode (`0` print, `1` screen, `2` burst) and
/// byte 6 the ECC level (`0` low, `1` medium, `2` high, `3` adaptive).
pub proof fn header_mode_and_ecc_bytes(h: FrameHeader)
    ensures
        h.wire_bytes()[5] == match h.mode {
            TransmissionMode::Print => 0u8,
            TransmissionMode::Screen => 1u8,
            TransmissionMode::Burst => 2u8,
        },
        h.wire_bytes()[6] == match h.ecc_level {
            EccLevel::Low => 0u8,
            EccLevel::Medium => 1u8,
            EccLevel::High => 2u8,
            EccLevel::Adaptive => 3u8,
        },
{
    let b = h.wire_bytes();
    assert(h.prefix_bytes().len() == 28);
    assert(b[5] == mode_wire_id(h.mode));
    assert(b[6] == ecc_wire_id(h.ecc_level));
}

/// Decoding the encoding of a well-formed frame, followed by any trailing ECC or
/// padding bytes, gives the frame back.
pub proof fn lemma_frame_roundtrip(f: (FrameHeader, Seq<u8>), trailing: Seq<u8>)
    requires
        frame_well_formed(f),
    ensures
        parse_frame(frame_wire_bytes(f) + trailing) == Ok::<(FrameHeader, Seq<u8>), GlyphError>(f),
{
    let b = frame_wire_bytes(f) + trailing;
    assert(b =~= f.0.wire_bytes() + (f.1 + trailing));
    lemma_header_roundtrip(f.0, f.1 + trailing);
    assert(b.subrange(32, 32 + f.0.payload_len) =~= f.1);
}

} // verus!
