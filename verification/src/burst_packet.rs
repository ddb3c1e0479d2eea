//! Burst transport packets: a fixed 32-byte header followed by a payload.
use vstd::prelude::*;

use crate::error::GlyphError;
use crate::primitives::{crc32, crc32_checksum};
use crate::wire::{
    be16, be32, be64, bytes_equal_at, copy_range, get_be16, get_be32, get_be64, lemma_be16_roundtrip,
    lemma_be32_roundtrip, lemma_be64_roundtrip, push_all, push_be16, push_be32, push_be64, read_be16,
    read_be32, read_be64,
};

verus! {

/// Binary burst packet magic (`GBPK`).
pub const BURST_PACKET_MAGIC: [u8; 4] = [71u8, 66u8, 80u8, 75u8];

/// Supported burst packet wire version.
pub const BURST_PACKET_VERSION: u8 = 1;

/// Fixed packet header length in bytes.
pub const BURST_PACKET_HEADER_LEN: usize = 32;

/// The burst packet magic as a byte sequence.
pub open spec fn burst_magic_bytes() -> Seq<u8> {
    seq![71u8, 66u8, 80u8, 75u8]
}

/// Metadata header for burst transport packets.
#[derive(Debug, Clone, Copy, PartialEq, Eq)]
pub struct BurstPacketHeader {
    /// Zero-based packet sequence number.
    pub sequence: u16,
    /// Total number of packets in this transfer.
    pub packet_count: u16,
    /// Stream identifier that groups all packets in a transfer.
    pub stream_id: u64,
    /// Flags reserved for transport signaling.
    pub flags: u8,
    /// Original burst payload length.
    pub original_len: u32,
    /// Number of data shards in this burst shard set.
    pub data_shards: u16,
    /// Payload length in bytes.
    pub payload_len: u16,
    /// CRC-32 of payload bytes.
    pub payload_crc: u32,
}

impl BurstPacketHeader {
    /// The 32 wire bytes of this header.
    pub open spec fn wire_bytes(self) -> Seq<u8> {
        burst_magic_bytes() + seq![BURST_PACKET_VERSION, self.flags] + be16(self.sequence) + be16(
            self.packet_count,
        ) + be64(self.stream_id) + be32(self.original_len) + be16(self.data_shards) + be16(
            self.payload_len,
        ) + be32(self.payload_crc) + seq![0u8, 0u8]
    }

    /// A header with a sequence number inside its packet count.
    pub open spec fn well_formed(self) -> bool {
        self.packet_count > 0 && self.sequence < self.packet_count
    }
}

/// Parse and validate the leading 32 burst header bytes of `b`.
pub open spec fn parse_burst_header(b: Seq<u8>) -> Result<BurstPacketHeader, GlyphError> {
    if b.len() < 32 {
        Err(GlyphError::Truncated { needed: 32, actual: b.len() as usize })
    } else if b.subrange(0, 4) != burst_magic_bytes() {
        Err(GlyphError::InvalidMagic)
    } else if b[4] != BURST_PACKET_VERSION {
        Err(GlyphError::UnsupportedVersion(b[4]))
    } else {
        let h = BurstPacketHeader {
            sequence: read_be16(b, 6),
            packet_count: read_be16(b, 8),
            stream_id: read_be64(b, 10),
            flags: b[5],
            original_len: read_be32(b, 18),
            data_shards: read_be16(b, 22),
            payload_len: read_be16(b, 24),
            payload_crc: read_be32(b, 26),
        };
        if h.well_formed() {
            Ok(h)
        } else {
            Err(GlyphError::InvalidFrameIndex { index: h.sequence, count: h.packet_count })
        }
    }
}

fn burst_to_array32(v: &Vec<u8>) -> (r: [u8; 32])
    requires
        v@.len() == 32,
    ensures
        r@ == v@,
{
    let mut out = [0u8; 32];
    let mut i: usize = 0;
    while i < 32
        invariant
            v@.len() == 32,
            i <= 32,
            out@.len() == 32,
            forall|j: int| 0 <= j < i ==> out@[j] == v@[j],
        decreases 32 - i,
    {
        out[i] = v[i];
        i = i + 1;
    }
    assert(out@ =~= v@);
    out
}

impl BurstPacketHeader {
    /// Build and validate a burst packet header.
    pub fn new(
        sequence: u16,
        packet_count: u16,
        stream_id: u64,
        flags: u8,
        original_len: u32,
        data_shards: u16,
        payload_len: u16,
        payload_crc: u32,
    ) -> (r: Result<BurstPacketHeader, GlyphError>)
        ensures
            packet_count == 0 || sequence >= packet_count ==> r == Err::<
                BurstPacketHeader,
                GlyphError,
            >(GlyphError::InvalidFrameIndex { index: sequence, count: packet_count }),
            packet_count > 0 && sequence < packet_count ==> r == Ok::<
                BurstPacketHeader,
                GlyphError,
            >(
                BurstPacketHeader {
                    sequence,
                    packet_count,
                    stream_id,
                    flags,
                    original_len,
                    data_shards,
                    payload_len,
                    payload_crc,
                },
            ),
    {
        if packet_count == 0 || sequence >= packet_count {
            return Err(GlyphError::InvalidFrameIndex { index: sequence, count: packet_count });
        }
        Ok(
            BurstPacketHeader {
                sequence,
                packet_count,
                stream_id,
                flags,
                original_len,
                data_shards,
                payload_len,
                payload_crc,
            },
        )
    }

    /// Encode this header to its fixed-width wire representation.
    pub fn encode(self) -> (r: [u8; 32])
        ensures
            r@ == self.wire_bytes(),
    {
        let mut out: Vec<u8> = Vec::new();
        out.push(71u8);
        out.push(66u8);
        out.push(80u8);
        out.push(75u8);
        out.push(BURST_PACKET_VERSION);
        out.push(self.flags);
        assert(out@ =~= burst_magic_bytes() + seq![BURST_PACKET_VERSION, self.flags]);
        push_be16(&mut out, self.sequence);
        push_be16(&mut out, self.packet_count);
        push_be64(&mut out, self.stream_id);
        push_be32(&mut out, self.original_len);
        push_be16(&mut out, self.data_shards);
        push_be16(&mut out, self.payload_len);
        push_be32(&mut out, self.payload_crc);
        let ghost before = out@;
        out.push(0u8);
        out.push(0u8);
        assert(out@ =~= before + seq![0u8, 0u8]);
        burst_to_array32(&out)
    }

    /// Decode and validate a wire header.
    pub fn decode(bytes: &[u8]) -> (r: Result<BurstPacketHeader, GlyphError>)
        ensures
            r == parse_burst_header(bytes@),
    {
        if bytes.len() < BURST_PACKET_HEADER_LEN {
            return Err(
                GlyphError::Truncated { needed: BURST_PACKET_HEADER_LEN, actual: bytes.len() },
            );
        }
        let magic = BURST_PACKET_MAGIC;
        proof {
            assert(magic@ =~= burst_magic_bytes());
        }
        if !bytes_equal_at(bytes, 0, &magic) {
            return Err(GlyphError::InvalidMagic);
        }
        if bytes[4] != BURST_PACKET_VERSION {
            return Err(GlyphError::UnsupportedVersion(bytes[4]));
        }
        let sequence = get_be16(bytes, 6);
        let packet_count = get_be16(bytes, 8);
        let stream_id = get_be64(bytes, 10);
        let original_len = get_be32(bytes, 18);
        let data_shards = get_be16(bytes, 22);
        let payload_len = get_be16(bytes, 24);
        let payload_crc = get_be32(bytes, 26);
        BurstPacketHeader::new(
            sequence,
            packet_count,
            stream_id,
            bytes[5],
            original_len,
            data_shards,
            payload_len,
            payload_crc,
        )
    }
}

/// Complete burst transport packet.
#[derive(Debug, Clone, PartialEq, Eq)]
pub struct BurstPacket {
    /// Parsed packet header.
    pub header: BurstPacketHeader,
    /// Raw payload carried by this packet.
    pub payload: Vec<u8>,
}

impl View for BurstPacket {
    type V = (BurstPacketHeader, Seq<u8>);

    open spec fn view(&self) -> (BurstPacketHeader, Seq<u8>) {
        (self.header, self.payload@)
    }
}

/// A packet as `BurstPacket::new` builds it: its header describes its payload.
pub open spec fn burst_packet_well_formed(p: (BurstPacketHeader, Seq<u8>)) -> bool {
    &&& p.0.well_formed()
    &&& p.0.payload_len == p.1.len()
    &&& p.0.payload_crc == crc32_checksum(p.1)
}

/// Parse a burst packet from the front of `b`, ignoring trailing bytes.
pub open spec fn parse_burst_packet(b: Seq<u8>) -> Result<(BurstPacketHeader, Seq<u8>), GlyphError> {
    match parse_burst_header(b) {
        Err(e) => Err(e),
        Ok(h) => {
            let required = 32 + h.payload_len;
            if b.len() < required {
                Err(GlyphError::Truncated { needed: required as usize, actual: b.len() as usize })
            } else if crc32_checksum(b.subrange(32, required)) != h.payload_crc {
                Err(GlyphError::PayloadChecksumMismatch)
            } else {
                Ok((h, b.subrange(32, required)))
            }
        },
    }
}

impl BurstPacket {
    /// Create a burst packet from metadata and payload.
    pub fn new(
        sequence: u16,
        packet_count: u16,
        stream_id: u64,
        flags: u8,
        original_len: u32,
        data_shards: u16,
        payload: Vec<u8>,
    ) -> (r: Result<BurstPacket, GlyphError>)
        ensures
            payload@.len() > u16::MAX ==> r == Err::<BurstPacket, GlyphError>(
                GlyphError::InvalidArgument("burst packet payload exceeds u16::MAX"),
            ),
            payload@.len() <= u16::MAX && (packet_count == 0 || sequence >= packet_count) ==> r
                == Err::<BurstPacket, GlyphError>(
                GlyphError::InvalidFrameIndex { index: sequence, count: packet_count },
            ),
            payload@.len() <= u16::MAX && packet_count > 0 && sequence < packet_count ==> r is Ok,
            r matches Ok(p) ==> {
                &&& p.payload@ == payload@
                &&& p.header.sequence == sequence
                &&& p.header.packet_count == packet_count
                &&& p.header.stream_id == stream_id
                &&& p.header.flags == flags
                &&& p.header.original_len == original_len
                &&& p.header.data_shards == data_shards
                &&& burst_packet_well_formed(p@)
            },
    {
        if payload.len() > 0xffffusize {
            return Err(GlyphError::InvalidArgument("burst packet payload exceeds u16::MAX"));
        }
        let payload_len = payload.len() as u16;
        let payload_crc = crc32(payload.as_slice());
        let header = match BurstPacketHeader::new(
            sequence,
            packet_count,
            stream_id,
            flags,
            original_len,
            data_shards,
            payload_len,
            payload_crc,
        ) {
            Ok(h) => h,
            Err(e) => return Err(e),
        };
        Ok(BurstPacket { header, payload })
    }

    /// Encode packet bytes.
    pub fn encode(&self) -> (r: Vec<u8>)
        ensures
            r@ == self.header.wire_bytes() + self.payload@,
    {
        let header = self.header.encode();
        let mut bytes: Vec<u8> = Vec::new();
        push_all(&mut bytes, &header);
        push_all(&mut bytes, self.payload.as_slice());
        bytes
    }

    /// Decode and validate packet bytes.
    pub fn decode(bytes: &[u8]) -> (r: Result<BurstPacket, GlyphError>)
        ensures
            match r {
                Ok(p) => parse_burst_packet(bytes@) == Ok::<
                    (BurstPacketHeader, Seq<u8>),
                    GlyphError,
                >(p@),
                Err(e) => parse_burst_packet(bytes@) == Err::<
                    (BurstPacketHeader, Seq<u8>),
                    GlyphError,
                >(e),
            },
    {
        let header = match BurstPacketHeader::decode(bytes) {
            Ok(h) => h,
            Err(e) => return Err(e),
        };
        let required = BURST_PACKET_HEADER_LEN + header.payload_len as usize;
        if bytes.len() < required {
            return Err(GlyphError::Truncated { needed: required, actual: bytes.len() });
        }
        let payload = copy_range(bytes, BURST_PACKET_HEADER_LEN, required);
        if crc32(payload.as_slice()) != header.payload_crc {
            return Err(GlyphError::PayloadChecksumMismatch);
        }
        Ok(BurstPacket { header, payload })
    }
}

/// Decoding the wire bytes of a well-formed burst header, followed by anything, gives
/// the header back.
pub proof fn lemma_burst_header_roundtrip(h: BurstPacketHeader, rest: Seq<u8>)
    requires
        h.well_formed(),
    ensures
        parse_burst_header(h.wire_bytes() + rest) == Ok::<BurstPacketHeader, GlyphError>(h),
{
    let b = h.wire_bytes() + rest;
    assert(h.wire_bytes().len() == 32);
    assert(b.subrange(0, 4) =~= burst_magic_bytes());
    assert(b[4] == BURST_PACKET_VERSION);
    assert(b[5] == h.flags);
    assert(b.subrange(6, 8) =~= be16(h.sequence));
    assert(b.subrange(8, 10) =~= be16(h.packet_count));
    assert(b.subrange(10, 18) =~= be64(h.stream_id));
    assert(b.subrange(18, 22) =~= be32(h.original_len));
    assert(b.subrange(22, 24) =~= be16(h.data_shards));
    assert(b.subrange(24, 26) =~= be16(h.payload_len));
    assert(b.subrange(26, 30) =~= be32(h.payload_crc));
    lemma_be16_roundtrip(h.sequence);
    lemma_be16_roundtrip(h.packet_count);
    lemma_be64_roundtrip(h.stream_id);
    lemma_be32_roundtrip(h.original_len);
    lemma_be16_roundtrip(h.data_shards);
    lemma_be16_roundtrip(h.payload_len);
    lemma_be32_roundtrip(h.payload_crc);
    assert(read_be16(b, 6) == read_be16(be16(h.sequence), 0));
    assert(read_be16(b, 8) == read_be16(be16(h.packet_count), 0));
    assert(read_be64(b, 10) == read_be64(be64(h.stream_id), 0));
    assert(read_be32(b, 18) == read_be32(be32(h.original_len), 0));
    assert(read_be16(b, 22) == read_be16(be16(h.data_shards), 0));
    assert(read_be16(b, 24) == read_be16(be16(h.payload_len), 0));
    assert(read_be32(b, 26) == read_be32(be32(h.payload_crc), 0));
}

/// Decoding the encoding of a well-formed burst packet, followed by anything, gives
/// the packet back.
pub proof fn lemma_burst_packet_roundtrip(p: (BurstPacketHeader, Seq<u8>), trailing: Seq<u8>)
    requires
        burst_packet_well_formed(p),
    ensures
        parse_burst_packet(p.0.wire_bytes() + p.1 + trailing) == Ok::<
            (BurstPacketHeader, Seq<u8>),
            GlyphError,
        >(p),
{
    let h = p.0;
    let b = h.wire_bytes() + p.1 + trailing;
    assert(b =~= h.wire_bytes() + (p.1 + trailing));
    lemma_burst_header_roundtrip(h, p.1 + trailing);
    assert(h.wire_bytes().len() == 32);
    assert(b.subrange(32, 32 + h.payload_len) =~= p.1);
}

} // verus!
