//! Big-endian integer encoding shared by the binary wire formats.
use vstd::prelude::*;

verus! {

/// Big-endian bytes of a `u16`.
pub open spec fn be16(x: u16) -> Seq<u8> {
    seq![(x >> 8u16) as u8, (x & 0xffu16) as u8]
}

/// Big-endian bytes of a `u32`.
pub open spec fn be32(x: u32) -> Seq<u8> {
    seq![
        (x >> 24u32) as u8,
        ((x >> 16u32) & 0xffu32) as u8,
        ((x >> 8u32) & 0xffu32) as u8,
        (x & 0xffu32) as u8,
    ]
}

/// Big-endian bytes of a `u64`.
pub open spec fn be64(x: u64) -> Seq<u8> {
    seq![
        (x >> 56u64) as u8,
        ((x >> 48u64) & 0xffu64) as u8,
        ((x >> 40u64) & 0xffu64) as u8,
        ((x >> 32u64) & 0xffu64) as u8,
        ((x >> 24u64) & 0xffu64) as u8,
        ((x >> 16u64) & 0xffu64) as u8,
        ((x >> 8u64) & 0xffu64) as u8,
        (x & 0xffu64) as u8,
    ]
}

/// The `u16` stored big-endian at `off` in `s`.
pub open spec fn read_be16(s: Seq<u8>, off: int) -> u16 {
    ((s[off] as u16) << 8u16) | (s[off + 1] as u16)
}

/// The `u32` stored big-endian at `off` in `s`.
pub open spec fn read_be32(s: Seq<u8>, off: int) -> u32 {
    ((s[off] as u32) << 24u32) | ((s[off + 1] as u32) << 16u32) | ((s[off + 2] as u32) << 8u32)
        | (s[off + 3] as u32)
}

/// The `u64` stored big-endian at `off` in `s`.
pub open spec fn read_be64(s: Seq<u8>, off: int) -> u64 {
    ((s[off] as u64) << 56u64) | ((s[off + 1] as u64) << 48u64) | ((s[off + 2] as u64) << 40u64)
        | ((s[off + 3] as u64) << 32u64) | ((s[off + 4] as u64) << 24u64) | ((s[off + 5] as u64)
        << 16u64) | ((s[off + 6] as u64) << 8u64) | (s[off + 7] as u64)
}

/// Reading back the big-endian bytes of a `u16` gives the value.
pub proof fn lemma_be16_roundtrip(x: u16)
    ensures
        read_be16(be16(x), 0) == x,
{
    let b0 = (x >> 8u16) as u8;
    let b1 = (x & 0xffu16) as u8;
    assert(((b0 as u16) << 8u16) | (b1 as u16) == x) by (bit_vector)
        requires
            b0 == (x >> 8u16) as u8,
            b1 == (x & 0xffu16) as u8,
    ;
}

/// Reading back the big-endian bytes of a `u32` gives the value.
pub proof fn lemma_be32_roundtrip(x: u32)
    ensures
        read_be32(be32(x), 0) == x,
{
    let b0 = (x >> 24u32) as u8;
    let b1 = ((x >> 16u32) & 0xffu32) as u8;
    let b2 = ((x >> 8u32) & 0xffu32) as u8;
    let b3 = (x & 0xffu32) as u8;
    assert(((b0 as u32) << 24u32) | ((b1 as u32) << 16u32) | ((b2 as u32) << 8u32) | (b3 as u32)
        == x) by (bit_vector)
        requires
            b0 == (x >> 24u32) as u8,
            b1 == ((x >> 16u32) & 0xffu32) as u8,
            b2 == ((x >> 8u32) & 0xffu32) as u8,
            b3 == (x & 0xffu32) as u8,
    ;
}

/// Reading back the big-endian bytes of a `u64` gives the value.
pub proof fn lemma_be64_roundtrip(x: u64)
    ensures
        read_be64(be64(x), 0) == x,
{
    let b0 = (x >> 56u64) as u8;
    let b1 = ((x >> 48u64) & 0xffu64) as u8;
    let b2 = ((x >> 40u64) & 0xffu64) as u8;
    let b3 = ((x >> 32u64) & 0xffu64) as u8;
    let b4 = ((x >> 24u64) & 0xffu64) as u8;
    let b5 = ((x >> 16u64) & 0xffu64) as u8;
    let b6 = ((x >> 8u64) & 0xffu64) as u8;
    let b7 = (x & 0xffu64) as u8;
    assert(((b0 as u64) << 56u64) | ((b1 as u64) << 48u64) | ((b2 as u64) << 40u64) | ((b3 as u64)
        << 32u64) | ((b4 as u64) << 24u64) | ((b5 as u64) << 16u64) | ((b6 as u64) << 8u64) | (
    b7 as u64) == x) by (bit_vector)
        requires
            b0 == (x >> 56u64) as u8,
            b1 == ((x >> 48u64) & 0xffu64) as u8,
            b2 == ((x >> 40u64) & 0xffu64) as u8,
            b3 == ((x >> 32u64) & 0xffu64) as u8,
            b4 == ((x >> 24u64) & 0xffu64) as u8,
            b5 == ((x >> 16u64) & 0xffu64) as u8,
            b6 == ((x >> 8u64) & 0xffu64) as u8,
            b7 == (x & 0xffu64) as u8,
    ;
}

/// Writing back a big-endian `u16` read from `s` gives the bytes read.
pub proof fn lemma_read_be16_bytes(s: Seq<u8>, off: int)
    requires
        0 <= off,
        off + 2 <= s.len(),
    ensures
        be16(read_be16(s, off)) == s.subrange(off, off + 2),
{
    let a = s[off];
    let b = s[off + 1];
    let x = read_be16(s, off);
    assert((x >> 8u16) as u8 == a && (x & 0xffu16) as u8 == b) by (bit_vector)
        requires
            x == ((a as u16) << 8u16) | (b as u16),
    ;
    assert(be16(x) =~= s.subrange(off, off + 2));
}

/// Writing back a big-endian `u32` read from `s` gives the bytes read.
pub proof fn lemma_read_be32_bytes(s: Seq<u8>, off: int)
    requires
        0 <= off,
        off + 4 <= s.len(),
    ensures
        be32(read_be32(s, off)) == s.subrange(off, off + 4),
{
    let a = s[off];
    let b = s[off + 1];
    let c = s[off + 2];
    let d = s[off + 3];
    let x = read_be32(s, off);
    assert((x >> 24u32) as u8 == a && ((x >> 16u32) & 0xffu32) as u8 == b && ((x >> 8u32)
        & 0xffu32) as u8 == c && (x & 0xffu32) as u8 == d) by (bit_vector)
        requires
            x == ((a as u32) << 24u32) | ((b as u32) << 16u32) | ((c as u32) << 8u32) | (d as u32),
    ;
    assert(be32(x) =~= s.subrange(off, off + 4));
}

/// Writing back a big-endian `u64` read from `s` gives the bytes read.
pub proof fn lemma_read_be64_bytes(s: Seq<u8>, off: int)
    requires
        0 <= off,
        off + 8 <= s.len(),
    ensures
        be64(read_be64(s, off)) == s.subrange(off, off + 8),
{
    let b0 = s[off];
    let b1 = s[off + 1];
    let b2 = s[off + 2];
    let b3 = s[off + 3];
    let b4 = s[off + 4];
    let b5 = s[off + 5];
    let b6 = s[off + 6];
    let b7 = s[off + 7];
    let x = read_be64(s, off);
    assert((x >> 56u64) as u8 == b0 && ((x >> 48u64) & 0xffu64) as u8 == b1 && ((x >> 40u64)
        & 0xffu64) as u8 == b2 && ((x >> 32u64) & 0xffu64) as u8 == b3 && ((x >> 24u64) & 0xffu64) as u8
        == b4 && ((x >> 16u64) & 0xffu64) as u8 == b5 && ((x >> 8u64) & 0xffu64) as u8 == b6 && (x
        & 0xffu64) as u8 == b7) by (bit_vector)
        requires
            x == ((b0 as u64) << 56u64) | ((b1 as u64) << 48u64) | ((b2 as u64) << 40u64) | ((b3 as u64)
                << 32u64) | ((b4 as u64) << 24u64) | ((b5 as u64) << 16u64) | ((b6 as u64) << 8u64) | (
            b7 as u64),
    ;
    assert(be64(x) =~= s.subrange(off, off + 8));
}

/// Append the big-endian bytes of a `u16`.
pub fn push_be16(out: &mut Vec<u8>, x: u16)
    ensures
        final(out)@ == old(out)@ + be16(x),
{
    out.push((x >> 8u16) as u8);
    out.push((x & 0xffu16) as u8);
    assert(final(out)@ =~= old(out)@ + be16(x));
}

/// Append the big-endian bytes of a `u32`.
pub fn push_be32(out: &mut Vec<u8>, x: u32)
    ensures
        final(out)@ == old(out)@ + be32(x),
{
    out.push((x >> 24u32) as u8);
    out.push(((x >> 16u32) & 0xffu32) as u8);
    out.push(((x >> 8u32) & 0xffu32) as u8);
    out.push((x & 0xffu32) as u8);
    assert(final(out)@ =~= old(out)@ + be32(x));
}

/// Append the big-endian bytes of a `u64`.
pub fn push_be64(out: &mut Vec<u8>, x: u64)
    ensures
        final(out)@ == old(out)@ + be64(x),
{
    out.push((x >> 56u64) as u8);
    out.push(((x >> 48u64) & 0xffu64) as u8);
    out.push(((x >> 40u64) & 0xffu64) as u8);
    out.push(((x >> 32u64) & 0xffu64) as u8);
    out.push(((x >> 24u64) & 0xffu64) as u8);
    out.push(((x >> 16u64) & 0xffu64) as u8);
    out.push(((x >> 8u64) & 0xffu64) as u8);
    out.push((x & 0xffu64) as u8);
    assert(final(out)@ =~= old(out)@ + be64(x));
}

/// Read the big-endian `u16` at `off`.
pub fn get_be16(s: &[u8], off: usize) -> (r: u16)
    requires
        off + 2 <= s@.len(),
    ensures
        r == read_be16(s@, off as int),
{
    ((s[off] as u16) << 8u16) | (s[off + 1] as u16)
}

/// Read the big-endian `u32` at `off`.
pub fn get_be32(s: &[u8], off: usize) -> (r: u32)
    requires
        off + 4 <= s@.len(),
    ensures
        r == read_be32(s@, off as int),
{
    ((s[off] as u32) << 24u32) | ((s[off + 1] as u32) << 16u32) | ((s[off + 2] as u32) << 8u32)
        | (s[off + 3] as u32)
}

/// Read the big-endian `u64` at `off`.
pub fn get_be64(s: &[u8], off: usize) -> (r: u64)
    requires
        off + 8 <= s@.len(),
    ensures
        r == read_be64(s@, off as int),
{
    ((s[off] as u64) << 56u64) | ((s[off + 1] as u64) << 48u64) | ((s[off + 2] as u64) << 40u64)
        | ((s[off + 3] as u64) << 32u64) | ((s[off + 4] as u64) << 24u64) | ((s[off + 5] as u64)
        << 16u64) | ((s[off + 6] as u64) << 8u64) | (s[off + 7] as u64)
}

/// Append all bytes of a slice.
pub fn push_all(out: &mut Vec<u8>, bytes: &[u8])
    ensures
        final(out)@ == old(out)@ + bytes@,
{
    let mut i: usize = 0;
    while i < bytes.len()
        invariant
            i <= bytes@.len(),
            out@ == old(out)@ + bytes@.subrange(0, i as int),
        decreases bytes@.len() - i,
    {
        out.push(bytes[i]);
        assert(out@ =~= old(out)@ + bytes@.subrange(0, i + 1));
        i = i + 1;
    }
    assert(bytes@.subrange(0, bytes@.len() as int) =~= bytes@);
}

/// Copy the bytes `s[start..end]` into a new vector.
pub fn copy_range(s: &[u8], start: usize, end: usize) -> (r: Vec<u8>)
    requires
        start <= end <= s@.len(),
    ensures
        r@ == s@.subrange(start as int, end as int),
{
    let mut out: Vec<u8> = Vec::new();
    let mut i: usize = start;
    while i < end
        invariant
            start <= i <= end <= s@.len(),
            out@ == s@.subrange(start as int, i as int),
        decreases end - i,
    {
        out.push(s[i]);
        assert(out@ =~= s@.subrange(start as int, i + 1));
        i = i + 1;
    }
    out
}

/// Byte-wise equality of `s[off..off + expected.len()]` with `expected`.
pub fn bytes_equal_at(s: &[u8], off: usize, expected: &[u8]) -> (r: bool)
    requires
        off + expected@.len() <= s@.len(),
    ensures
        r == (s@.subrange(off as int, off + expected@.len()) == expected@),
{
    let n = s.len();
    let mut i: usize = 0;
    while i < expected.len()
        invariant
            n == s@.len(),
            off + expected@.len() <= s@.len(),
            i <= expected@.len(),
            forall|j: int| 0 <= j < i ==> s@[off + j] == expected@[j],
        decreases expected@.len() - i,
    {
        if s[off + i] != expected[i] {
            assert(s@.subrange(off as int, off + expected@.len())[i as int] != expected@[i as int]);
            return false;
        }
        i = i + 1;
    }
    assert(s@.subrange(off as int, off + expected@.len()) =~= expected@);
    true
}

} // verus!
