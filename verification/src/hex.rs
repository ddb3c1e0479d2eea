//! Fixed-width hexadecimal fields: keys, tags and signatures written as hex text.
use vstd::prelude::*;

verus! {

/// Errors of fixed-width hexadecimal fields.
#[derive(Debug, Clone, Copy, PartialEq, Eq, Structural)]
pub enum HexError {
    /// The text does not have two characters per byte.
    Length { expected: usize, actual: usize },
    /// The two characters starting at byte offset `at` are not a hexadecimal byte.
    Digit { at: usize },
}

/// The value of one hexadecimal digit, either case.
pub open spec fn hex_digit_spec(c: u8) -> Option<u8> {
    if 48 <= c <= 57 {
        Some((c - 48) as u8)
    } else if 97 <= c <= 102 {
        Some((c - 87) as u8)
    } else if 65 <= c <= 70 {
        Some((c - 55) as u8)
    } else {
        None
    }
}

/// A two-character byte field read in base 16 the way `u8::from_str_radix` reads
/// it: two digits, or a plus sign and one digit.
pub open spec fn hex_pair_spec(hi: u8, lo: u8) -> Option<u8> {
    match (hex_digit_spec(hi), hex_digit_spec(lo)) {
        (Some(a), Some(b)) => Some((a * 16 + b) as u8),
        (None, Some(b)) => if hi == 43 {
            Some(b)
        } else {
            None
        },
        _ => None,
    }
}

/// The first of the `n` two-character fields of `text` that does not read as a byte.
pub open spec fn first_bad_pair(text: Seq<u8>, n: nat) -> Option<nat>
    decreases n,
{
    if n == 0 {
        None
    } else {
        match first_bad_pair(text, (n - 1) as nat) {
            Some(k) => Some(k),
            None => if hex_pair_spec(text[2 * (n - 1)], text[2 * (n - 1) + 1]) is None {
                Some((n - 1) as nat)
            } else {
                None
            },
        }
    }
}

/// The `n` bytes written as `2n` hexadecimal characters in `text`: a length error, or
/// the offset of the first field that is not a byte, or the bytes.
pub open spec fn hex_field_spec(text: Seq<u8>, n: nat) -> Result<Seq<u8>, HexError> {
    if text.len() != 2 * n {
        Err(HexError::Length { expected: (2 * n) as usize, actual: text.len() as usize })
    } else {
        match first_bad_pair(text, n) {
            Some(k) => Err(HexError::Digit { at: (2 * k) as usize }),
            None => Ok(
                Seq::new(n, |k: int| hex_pair_spec(text[2 * k], text[2 * k + 1])->Some_0),
            ),
        }
    }
}

proof fn lemma_first_bad_stays(text: Seq<u8>, k: nat, m: nat)
    requires
        k < m,
        first_bad_pair(text, k) is None,
        hex_pair_spec(text[2 * k as int], text[2 * k as int + 1]) is None,
    ensures
        first_bad_pair(text, m) == Some(k),
    decreases m,
{
    if m > k + 1 {
        lemma_first_bad_stays(text, k, (m - 1) as nat);
    }
}

fn hex_digit(c: u8) -> (r: Option<u8>)
    ensures
        r == hex_digit_spec(c),
{
    if 48 <= c && c <= 57 {
        Some(c - 48)
    } else if 97 <= c && c <= 102 {
        Some(c - 87)
    } else if 65 <= c && c <= 70 {
        Some(c - 55)
    } else {
        None
    }
}

/// Read one two-character byte field.
pub fn hex_pair(hi: u8, lo: u8) -> (r: Option<u8>)
    ensures
        r == hex_pair_spec(hi, lo),
{
    match (hex_digit(hi), hex_digit(lo)) {
        (Some(a), Some(b)) => Some(a * 16 + b),
        (None, Some(b)) => if hi == 43 {
            Some(b)
        } else {
            None
        },
        _ => None,
    }
}

/// Read `n` bytes written as exactly `2n` hexadecimal characters.
pub fn decode_hex_field(text: &[u8], n: usize) -> (r: Result<Vec<u8>, HexError>)
    ensures
        r matches Ok(v) ==> hex_field_spec(text@, n as nat) == Ok::<Seq<u8>, HexError>(v@),
        r matches Err(e) ==> hex_field_spec(text@, n as nat) == Err::<Seq<u8>, HexError>(e),
{
    if text.len() / 2 != n || text.len() % 2 != 0 {
        let expected = #[verifier::truncate] ((2 * (n as u128)) as usize);
        return Err(HexError::Length { expected, actual: text.len() });
    }
    let len = text.len();
    let mut out: Vec<u8> = Vec::new();
    let mut k: usize = 0;
    while k < n
        invariant
            len == text@.len(),
            text@.len() == 2 * n,
            k <= n,
            first_bad_pair(text@, k as nat) is None,
            out@.len() == k,
            forall|j: int| 0 <= j < k ==> out@[j] == hex_pair_spec(text@[2 * j], text@[2 * j + 1])->Some_0,
        decreases n - k,
    {
        match hex_pair(text[2 * k], text[2 * k + 1]) {
            Some(b) => {
                out.push(b);
            },
            None => {
                proof {
                    lemma_first_bad_stays(text@, k as nat, n as nat);
                }
                return Err(HexError::Digit { at: 2 * k });
            },
        }
        k = k + 1;
    }
    proof {
        assert(out@ =~= Seq::new(
            n as nat,
            |k: int| hex_pair_spec(text@[2 * k], text@[2 * k + 1])->Some_0,
        ));
    }
    Ok(out)
}

fn to_array16(v: &Vec<u8>) -> (r: [u8; 16])
    requires
        v@.len() == 16,
    ensures
        r@ == v@,
{
    let mut out = [0u8; 16];
    let mut i: usize = 0;
    while i < 16
        invariant
            v@.len() == 16,
            i <= 16,
            out@.len() == 16,
            forall|j: int| 0 <= j < i ==> out@[j] == v@[j],
        decreases 16 - i,
    {
        out[i] = v[i];
        i = i + 1;
    }
    assert(out@ =~= v@);
    out
}

fn to_array32(v: &Vec<u8>) -> (r: [u8; 32])
    requires
        v@.len() == 32,
    ensures
        r@ == v@,
{
    let mut out = [0u8; 32];
    let mut i: usize = 0;
    while i < 32
        invariant
            v@.len() == 32,
            i <= 32,
            out@.len() == 32,
            forall|j: int| 0 <= j < i ==> out@[j] == v@[j],
        decreases 32 - i,
    {
        out[i] = v[i];
        i = i + 1;
    }
    assert(out@ =~= v@);
    out
}

fn to_array64(v: &Vec<u8>) -> (r: [u8; 64])
    requires
        v@.len() == 64,
    ensures
        r@ == v@,
{
    let mut out = [0u8; 64];
    let mut i: usize = 0;
    while i < 64
        invariant
            v@.len() == 64,
            i <= 64,
            out@.len() == 64,
            forall|j: int| 0 <= j < i ==> out@[j] == v@[j],
        decreases 64 - i,
    {
        out[i] = v[i];
        i = i + 1;
    }
    assert(out@ =~= v@);
    out
}

/// A 32-byte key written as 64 hexadecimal characters.
pub fn parse_key_hex(text: &[u8]) -> (r: Result<[u8; 32], HexError>)
    ensures
        r matches Ok(k) ==> hex_field_spec(text@, 32) == Ok::<Seq<u8>, HexError>(k@),
        r matches Err(e) ==> hex_field_spec(text@, 32) == Err::<Seq<u8>, HexError>(e),
{
    match decode_hex_field(text, 32) {
        Ok(v) => Ok(to_array32(&v)),
        Err(e) => Err(e),
    }
}

/// A 16-byte tag written as 32 hexadecimal characters.
pub fn parse_tag_hex(text: &[u8]) -> (r: Result<[u8; 16], HexError>)
    ensures
        r matches Ok(k) ==> hex_field_spec(text@, 16) == Ok::<Seq<u8>, HexError>(k@),
        r matches Err(e) ==> hex_field_spec(text@, 16) == Err::<Seq<u8>, HexError>(e),
{
    match decode_hex_field(text, 16) {
        Ok(v) => Ok(to_array16(&v)),
        Err(e) => Err(e),
    }
}

/// A 64-byte signature written as 128 hexadecimal characters.
pub fn parse_signature_hex(text: &[u8]) -> (r: Result<[u8; 64], HexError>)
    ensures
        r matches Ok(k) ==> hex_field_spec(text@, 64) == Ok::<Seq<u8>, HexError>(k@),
        r matches Err(e) ==> hex_field_spec(text@, 64) == Err::<Seq<u8>, HexError>(e),
{
    match decode_hex_field(text, 64) {
        Ok(v) => Ok(to_array64(&v)),
        Err(e) => Err(e),
    }
}

/// The spec value of a lowercase hexadecimal digit.
pub open spec fn lower_hex_digit(v: u8) -> u8 {
    if v < 10 {
        (48 + v) as u8
    } else {
        (87 + v) as u8
    }
}

/// The lowercase hexadecimal text of `bytes`, two characters per byte.
pub open spec fn hex_text_spec(bytes: Seq<u8>) -> Seq<u8> {
    Seq::new(
        2 * bytes.len(),
        |i: int|
            if i % 2 == 0 {
                lower_hex_digit(bytes[i / 2] / 16)
            } else {
                lower_hex_digit(bytes[i / 2] % 16)
            },
    )
}

/// Write bytes as lowercase hexadecimal text, two characters per byte.
pub fn encode_hex(bytes: &[u8]) -> (r: Vec<u8>)
    ensures
        r@ == hex_text_spec(bytes@),
{
    let mut out: Vec<u8> = Vec::new();
    let mut i: usize = 0;
    while i < bytes.len()
        invariant
            i <= bytes@.len(),
            out@.len() == 2 * i,
            forall|j: int| 0 <= j < 2 * i ==> out@[j] == hex_text_spec(bytes@)[j],
        decreases bytes@.len() - i,
    {
        let b = bytes[i];
        let hi = b / 16;
        let lo = b % 16;
        out.push(if hi < 10 { 48 + hi } else { 87 + hi });
        out.push(if lo < 10 { 48 + lo } else { 87 + lo });
        i = i + 1;
    }
    assert(out@ =~= hex_text_spec(bytes@));
    out
}

/// Reading back the hexadecimal text of any bytes gives those bytes.
pub proof fn lemma_hex_roundtrip(bytes: Seq<u8>)
    ensures
        hex_field_spec(hex_text_spec(bytes), bytes.len()) == Ok::<Seq<u8>, HexError>(bytes),
{
    let text = hex_text_spec(bytes);
    assert forall|k: int| 0 <= k < bytes.len() implies hex_pair_spec(
        #[trigger] text[2 * k],
        text[2 * k + 1],
    ) == Some(bytes[k]) by {
        assert((2 * k) % 2 == 0 && (2 * k) / 2 == k);
        assert((2 * k + 1) % 2 == 1 && (2 * k + 1) / 2 == k);
        let b = bytes[k];
        assert(b / 16 * 16 + b % 16 == b);
    }
    lemma_no_bad_pair(text, bytes);
    assert(Seq::new(bytes.len(), |k: int| hex_pair_spec(text[2 * k], text[2 * k + 1])->Some_0)
        =~= bytes);
}

/// Each hexadecimal digit reads in either case: for every `d < 16`, its lowercase
/// digit (`0`..`9` at 48.., `a`..`f` at 97..) and its uppercase digit (`0`..`9`,
/// `A`..`F` at 65..) both read as `d`, and an uppercase letter reads as its
/// lowercase form.
pub proof fn hex_digit_either_case(d: u8, c: u8)
    requires
        d < 16,
    ensures
        hex_digit_spec(if d < 10 { (48 + d) as u8 } else { (97 + d - 10) as u8 }) == Some(d),
        hex_digit_spec(if d < 10 { (48 + d) as u8 } else { (65 + d - 10) as u8 }) == Some(d),
        97 <= c <= 102 ==> hex_digit_spec((c - 32) as u8) == hex_digit_spec(c),
{
}

/// An uppercase hexadecimal digit.
pub open spec fn upper_hex_digit(v: u8) -> u8 {
    if v < 10 {
        (48 + v) as u8
    } else {
        (55 + v) as u8
    }
}

/// The uppercase hexadecimal text of `bytes`, two characters per byte.
pub open spec fn upper_hex_text(bytes: Seq<u8>) -> Seq<u8> {
    Seq::new(
        2 * bytes.len(),
        |i: int|
            if i % 2 == 0 {
                upper_hex_digit(bytes[i / 2] / 16)
            } else {
                upper_hex_digit(bytes[i / 2] % 16)
            },
    )
}

/// Reading back uppercase hexadecimal text of any bytes gives those bytes.
pub proof fn lemma_upper_hex_roundtrip(bytes: Seq<u8>)
    ensures
        hex_field_spec(upper_hex_text(bytes), bytes.len()) == Ok::<Seq<u8>, HexError>(bytes),
{
    let text = upper_hex_text(bytes);
    assert forall|k: int| 0 <= k < bytes.len() implies hex_pair_spec(
        #[trigger] text[2 * k],
        text[2 * k + 1],
    ) == Some(bytes[k]) by {
        assert((2 * k) % 2 == 0 && (2 * k) / 2 == k);
        assert((2 * k + 1) % 2 == 1 && (2 * k + 1) / 2 == k);
        let b = bytes[k];
        assert(b / 16 * 16 + b % 16 == b);
    }
    lemma_no_bad_pair(text, bytes);
    assert(Seq::new(bytes.len(), |k: int| hex_pair_spec(text[2 * k], text[2 * k + 1])->Some_0)
        =~= bytes);
}

proof fn lemma_no_bad_pair_upto(text: Seq<u8>, bytes: Seq<u8>, n: nat)
    requires
        n <= bytes.len(),
        forall|k: int| 0 <= k < bytes.len() ==> hex_pair_spec(#[trigger] text[2 * k], text[2 * k + 1]) == Some(bytes[k]),
    ensures
        first_bad_pair(text, n) is None,
    decreases n,
{
    if n > 0 {
        lemma_no_bad_pair_upto(text, bytes, (n - 1) as nat);
        let k = (n - 1) as int;
        assert(hex_pair_spec(text[2 * k], text[2 * k + 1]) == Some(bytes[k]));
    }
}

proof fn lemma_no_bad_pair(text: Seq<u8>, bytes: Seq<u8>)
    requires
        forall|k: int| 0 <= k < bytes.len() ==> hex_pair_spec(#[trigger] text[2 * k], text[2 * k + 1]) == Some(bytes[k]),
    ensures
        first_bad_pair(text, bytes.len()) is None,
{
    lemma_no_bad_pair_upto(text, bytes, bytes.len());
}

} // verus!
