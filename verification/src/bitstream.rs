//! Most-significant-bit-first conversion between bytes and bits.
use vstd::prelude::*;

verus! {

/// Bit `i` (0 = most significant) of a byte.
pub open spec fn byte_bit(b: u8, i: u8) -> bool {
    ((b >> (7u8 - i)) & 1u8) == 1u8
}

/// The eight bits of a byte, most significant first.
pub open spec fn byte_bits(b: u8) -> Seq<bool> {
    seq![
        byte_bit(b, 0),
        byte_bit(b, 1),
        byte_bit(b, 2),
        byte_bit(b, 3),
        byte_bit(b, 4),
        byte_bit(b, 5),
        byte_bit(b, 6),
        byte_bit(b, 7),
    ]
}

/// All bits of a byte string, each byte most significant bit first.
pub open spec fn bits_of_bytes(bytes: Seq<u8>) -> Seq<bool>
    decreases bytes.len(),
{
    if bytes.len() == 0 {
        Seq::empty()
    } else {
        byte_bits(bytes[0]) + bits_of_bytes(bytes.skip(1))
    }
}

/// `b` with bit `7 - shift` set when `c` holds.
pub open spec fn set_if(b: u8, c: bool, shift: u8) -> u8 {
    if c {
        b | (1u8 << (7u8 - shift))
    } else {
        b
    }
}

/// The byte whose leading `n` bits are `chunk[0..n]` and whose other bits are zero.
pub open spec fn pack_prefix(chunk: Seq<bool>, n: nat) -> u8
    decreases n,
{
    if n == 0 {
        0u8
    } else {
        set_if(pack_prefix(chunk, (n - 1) as nat), chunk[n - 1], (n - 1) as u8)
    }
}

/// Pack up to eight leading bits into a byte, padding with zero bits.
pub open spec fn pack_byte(chunk: Seq<bool>) -> u8 {
    pack_prefix(chunk, if chunk.len() < 8 { chunk.len() } else { 8 })
}

/// Pack bits into bytes eight at a time, padding the final byte with zero bits.
pub open spec fn bytes_of_bits(bits: Seq<bool>) -> Seq<u8>
    decreases bits.len(),
{
    if bits.len() == 0 {
        Seq::empty()
    } else if bits.len() <= 8 {
        seq![pack_byte(bits)]
    } else {
        seq![pack_byte(bits.take(8))] + bytes_of_bits(bits.skip(8))
    }
}

/// The bit string of `bytes` has eight bits per byte.
pub proof fn lemma_bits_of_bytes_len(bytes: Seq<u8>)
    ensures
        bits_of_bytes(bytes).len() == bytes.len() * 8,
    decreases bytes.len(),
{
    if bytes.len() > 0 {
        lemma_bits_of_bytes_len(bytes.skip(1));
    }
}

/// Bit strings of concatenated byte strings concatenate.
pub proof fn lemma_bits_of_bytes_concat(a: Seq<u8>, b: Seq<u8>)
    ensures
        bits_of_bytes(a + b) == bits_of_bytes(a) + bits_of_bytes(b),
    decreases a.len(),
{
    if a.len() == 0 {
        assert(a + b =~= b);
        assert(bits_of_bytes(a) =~= Seq::<bool>::empty());
        assert(bits_of_bytes(a + b) =~= bits_of_bytes(a) + bits_of_bytes(b));
    } else {
        assert((a + b).skip(1) =~= a.skip(1) + b);
        lemma_bits_of_bytes_concat(a.skip(1), b);
        assert((a + b)[0] == a[0]);
        assert(bits_of_bytes(a + b) =~= bits_of_bytes(a) + bits_of_bytes(b));
    }
}

/// Bit `k` of the bit string of `bytes` is bit `k % 8` of byte `k / 8`.
pub proof fn lemma_bits_of_bytes_index(bytes: Seq<u8>, k: int)
    requires
        0 <= k < bytes.len() * 8,
    ensures
        bits_of_bytes(bytes).len() == bytes.len() * 8,
        bits_of_bytes(bytes)[k] == byte_bit(bytes[k / 8], (k % 8) as u8),
    decreases bytes.len(),
{
    lemma_bits_of_bytes_len(bytes);
    if k >= 8 {
        lemma_bits_of_bytes_index(bytes.skip(1), k - 8);
        assert((k - 8) / 8 == k / 8 - 1);
        assert((k - 8) % 8 == k % 8);
    }
}

/// Packing the eight bits of a byte gives the byte back.
pub proof fn lemma_pack_byte_bits(b: u8)
    ensures
        pack_byte(byte_bits(b)) == b,
{
    let c = byte_bits(b);
    reveal_with_fuel(pack_prefix, 9);
    assert(set_if(
        set_if(
            set_if(
                set_if(
                    set_if(
                        set_if(
                            set_if(set_if(0u8, byte_bit(b, 0), 0), byte_bit(b, 1), 1),
                            byte_bit(b, 2),
                            2,
                        ),
                        byte_bit(b, 3),
                        3,
                    ),
                    byte_bit(b, 4),
                    4,
                ),
                byte_bit(b, 5),
                5,
            ),
            byte_bit(b, 6),
            6,
        ),
        byte_bit(b, 7),
        7,
    ) == b) by (bit_vector);
}

/// Packing the bits of a byte string gives the byte string back.
pub proof fn lemma_bytes_bits_roundtrip(bytes: Seq<u8>)
    ensures
        bytes_of_bits(bits_of_bytes(bytes)) == bytes,
    decreases bytes.len(),
{
    if bytes.len() == 0 {
        assert(bits_of_bytes(bytes) =~= Seq::<bool>::empty());
        assert(bytes_of_bits(bits_of_bytes(bytes)) =~= bytes);
    } else {
        let bits = bits_of_bytes(bytes);
        lemma_bits_of_bytes_len(bytes.skip(1));
        lemma_pack_byte_bits(bytes[0]);
        if bytes.len() == 1 {
            assert(bytes.skip(1) =~= Seq::<u8>::empty());
            assert(bits =~= byte_bits(bytes[0]));
            assert(bytes_of_bits(bits) =~= bytes);
        } else {
            assert(bits.take(8) =~= byte_bits(bytes[0]));
            assert(bits.skip(8) =~= bits_of_bytes(bytes.skip(1)));
            lemma_bytes_bits_roundtrip(bytes.skip(1));
            assert(bytes_of_bits(bits) =~= bytes);
        }
    }
}

/// Packing whole bytes' worth of bits, then more bits, packs each part on its own.
pub proof fn lemma_bytes_of_bits_concat(a: Seq<bool>, b: Seq<bool>)
    requires
        a.len() % 8 == 0,
    ensures
        bytes_of_bits(a + b) == bytes_of_bits(a) + bytes_of_bits(b),
    decreases a.len(),
{
    if a.len() == 0 {
        assert(a + b =~= b);
        assert(bytes_of_bits(a) =~= Seq::<u8>::empty());
        assert(bytes_of_bits(a) + bytes_of_bits(b) =~= bytes_of_bits(b));
    } else {
        let ab = a + b;
        assert(a.len() >= 8);
        if b.len() == 0 {
            assert(ab =~= a);
            assert(bytes_of_bits(b) =~= Seq::<u8>::empty());
            assert(bytes_of_bits(a) + bytes_of_bits(b) =~= bytes_of_bits(a));
        } else {
            assert(ab.take(8) =~= a.take(8));
            assert(ab.skip(8) =~= a.skip(8) + b);
            lemma_bytes_of_bits_concat(a.skip(8), b);
            if a.len() == 8 {
                assert(a.take(8) =~= a);
                assert(a.skip(8) =~= Seq::<bool>::empty());
                assert(bytes_of_bits(a.skip(8)) =~= Seq::<u8>::empty());
                assert(a.skip(8) + b =~= b);
            }
            assert(bytes_of_bits(ab) =~= bytes_of_bits(a) + bytes_of_bits(b));
        }
    }
}

/// Convert bytes into most-significant-bit-first bits.
pub fn bytes_to_bits(bytes: &[u8]) -> (bits: Vec<bool>)
    ensures
        bits@ == bits_of_bytes(bytes@),
{
    let mut bits: Vec<bool> = Vec::new();
    let mut i: usize = 0;
    assert(bytes@.skip(0) =~= bytes@);
    assert(bits@ + bits_of_bytes(bytes@) =~= bits_of_bytes(bytes@));
    while i < bytes.len()
        invariant
            i <= bytes@.len(),
            bits@ + bits_of_bytes(bytes@.skip(i as int)) == bits_of_bytes(bytes@),
        decreases bytes@.len() - i,
    {
        let b = bytes[i];
        let ghost before = bits@;
        bits.push(((b >> 7u8) & 1u8) == 1u8);
        bits.push(((b >> 6u8) & 1u8) == 1u8);
        bits.push(((b >> 5u8) & 1u8) == 1u8);
        bits.push(((b >> 4u8) & 1u8) == 1u8);
        bits.push(((b >> 3u8) & 1u8) == 1u8);
        bits.push(((b >> 2u8) & 1u8) == 1u8);
        bits.push(((b >> 1u8) & 1u8) == 1u8);
        bits.push((b & 1u8) == 1u8);
        proof {
            assert(b >> 0u8 == b) by (bit_vector);
            assert(bits@ =~= before + byte_bits(b));
            assert(bytes@.skip(i as int).skip(1) =~= bytes@.skip(i + 1));
            assert(bytes@.skip(i as int)[0] == b);
            assert(bits@ + bits_of_bytes(bytes@.skip(i + 1)) =~= bits_of_bytes(bytes@));
        }
        i = i + 1;
    }
    assert(bytes@.skip(i as int) =~= Seq::<u8>::empty());
    assert(bits@ =~= bits_of_bytes(bytes@));
    bits
}

/// Convert most-significant-bit-first bits into bytes, padding the final byte with zeros.
pub fn bits_to_bytes(bits: &[bool]) -> (bytes: Vec<u8>)
    ensures
        bytes@ == bytes_of_bits(bits@),
{
    let mut bytes: Vec<u8> = Vec::new();
    let n = bits.len();
    let mut start: usize = 0;
    assert(bits@.skip(0) =~= bits@);
    assert(bytes@ + bytes_of_bits(bits@) =~= bytes_of_bits(bits@));
    while start < n
        invariant
            n == bits@.len(),
            start <= n,
            bytes@ + bytes_of_bits(bits@.skip(start as int)) == bytes_of_bits(bits@),
        decreases n - start,
    {
        let end = if n - start < 8 { n } else { start + 8 };
        let ghost chunk = bits@.subrange(start as int, end as int);
        let mut byte: u8 = 0;
        let mut i: usize = start;
        while i < end
            invariant
                start <= i <= end <= n,
                end - start <= 8,
                n == bits@.len(),
                chunk == bits@.subrange(start as int, end as int),
                byte == pack_prefix(chunk, (i - start) as nat),
            decreases end - i,
        {
            let shift = (i - start) as u8;
            if bits[i] {
                byte = byte | (1u8 << (7u8 - shift));
            }
            assert(chunk[(i - start) as int] == bits@[i as int]);
            i = i + 1;
        }
        proof {
            let rest = bits@.skip(start as int);
            if rest.len() <= 8 {
                assert(chunk =~= rest);
                assert(bits@.skip(end as int) =~= Seq::<bool>::empty());
            } else {
                assert(chunk =~= rest.take(8));
                assert(rest.skip(8) =~= bits@.skip(end as int));
            }
            assert(pack_byte(chunk) == byte);
        }
        bytes.push(byte);
        proof {
            let rest = bits@.skip(start as int);
            if rest.len() <= 8 {
                assert(bytes_of_bits(bits@.skip(end as int)) =~= Seq::<u8>::empty());
            }
            assert(bytes@ + bytes_of_bits(bits@.skip(end as int)) =~= bytes_of_bits(bits@));
        }
        start = end;
    }
    assert(bits@.skip(start as int) =~= Seq::<bool>::empty());
    assert(bytes@ =~= bytes_of_bits(bits@));
    bytes
}

} // verus!
