//! Error-correction codes: deterministic parity, Reed-Solomon parity over
//! one-byte shards, and the per-mode choice between them.
use vstd::prelude::*;

use crate::error::GlyphError;
use crate::interleave::{
    deinterleave, deinterleave_spec, interleave, interleave_spec, lemma_deinterleave_interleave,
};
use crate::mode::{ecc_parity_ratio, EccLevel, TransmissionMode};
use crate::primitives::{
    rs_parity, rs_parity_of, rs_reconstruct, rs_reconstructed,
};
use crate::wire::{bytes_equal_at, copy_range, push_all};

verus! {

/// ECC-specific errors.
#[derive(Debug, Clone, PartialEq, Eq)]
pub enum EccError {
    /// A caller requested an impossible shard layout.
    InvalidShardConfiguration,
    /// The configured recovery code cannot recover the requested erasure set.
    TooManyErasures,
    /// Wrapped core protocol error.
    Core(GlyphError),
}

/// Block-code interface used by static encoders and decoders.
pub trait BlockCode {
    /// Append parity/redundancy bytes to a data block.
    fn encode(&self, data: &[u8]) -> Vec<u8>;

    /// Validate a data block that already includes parity bytes.
    fn verify(&self, encoded: &[u8], data_len: usize) -> bool;
}

/// Concrete ECC scheme used for a frame.
#[derive(Debug, Clone, Copy, PartialEq, Eq, Structural)]
pub enum EccScheme {
    /// Deterministic parity reference implementation.
    Parity,
    /// Reed-Solomon shard parity for print-mode robustness.
    ReedSolomon,
}

/// `a / b` rounded up.
pub open spec fn ceil_div(a: nat, b: nat) -> nat {
    if a % b == 0 {
        a / b
    } else {
        a / b + 1
    }
}

/// The parity byte count a level asks for over `data_len` bytes: its ratio of
/// the data, rounded up, and at least 4.
pub open spec fn parity_len_for(level: EccLevel, data_len: nat) -> nat {
    let ratio = ecc_parity_ratio(level);
    let n = ceil_div(data_len * ratio.0 as nat, ratio.1 as nat);
    if n < 4 {
        4
    } else {
        n
    }
}

/// The Reed-Solomon parity shard count a level asks for: its ratio of the data,
/// rounded up, and at least 8.
pub open spec fn rs_shards_for(level: EccLevel, data_len: nat) -> nat {
    let ratio = ecc_parity_ratio(level);
    let n = ceil_div(data_len * ratio.0 as nat, ratio.1 as nat);
    if n < 8 {
        8
    } else {
        n
    }
}

/// `b` rotated left by `r < 8` bits.
pub open spec fn rotl8(b: u8, r: u32) -> u8 {
    if r == 0 {
        b
    } else {
        ((b << r) | (b >> (8 - r) as u32)) as u8
    }
}

/// One step of the parity fold: byte `byte` at data index `index` is rotated
/// into lane `index % p` and added, wrapping, into lane `(7 * lane + 3) % p`.
pub open spec fn parity_step(parity: Seq<u8>, index: nat, byte: u8) -> Seq<u8> {
    let p = parity.len() as int;
    let lane = (index as int) % p;
    let xored = parity.update(lane, parity[lane] ^ rotl8(byte, (index % 8) as u32));
    let target = (lane * 7 + 3) % p;
    xored.update(target, vstd::wrapping::u8_specs::wrapping_add(xored[target], byte))
}

/// The parity lanes after folding in the first `n` data bytes.
pub open spec fn parity_after(data: Seq<u8>, n: nat, p: nat) -> Seq<u8>
    decreases n,
{
    if n == 0 {
        Seq::new(p, |i: int| 0u8)
    } else {
        parity_step(parity_after(data, (n - 1) as nat, p), (n - 1) as nat, data[n - 1])
    }
}

/// The `p` deterministic parity bytes of `data` (none when `p` is 0).
pub open spec fn parity_of(data: Seq<u8>, p: nat) -> Seq<u8> {
    if p == 0 {
        Seq::empty()
    } else {
        parity_after(data, data.len(), p)
    }
}

/// A parity codeword: the data, then its parity bytes.
pub open spec fn parity_encode_spec(p: nat, data: Seq<u8>) -> Seq<u8> {
    data + parity_of(data, p)
}

/// Whether `encoded` holds `data_len` data bytes followed by their `p` parity bytes.
pub open spec fn parity_verify_spec(p: nat, encoded: Seq<u8>, data_len: nat) -> bool {
    &&& encoded.len() >= data_len + p
    &&& encoded.subrange(data_len as int, (data_len + p) as int) == parity_of(
        encoded.subrange(0, data_len as int),
        p,
    )
}

proof fn lemma_parity_after_len(data: Seq<u8>, n: nat, p: nat)
    requires
        p > 0,
        n <= data.len(),
    ensures
        parity_after(data, n, p).len() == p,
    decreases n,
{
    if n > 0 {
        lemma_parity_after_len(data, (n - 1) as nat, p);
    }
}

/// The parity bytes of `data` number `p`.
pub proof fn lemma_parity_of_len(data: Seq<u8>, p: nat)
    ensures
        parity_of(data, p).len() == p,
{
    if p > 0 {
        lemma_parity_after_len(data, data.len(), p);
    }
}

/// The `p` Reed-Solomon parity bytes of `data`, one per parity shard.
pub open spec fn rs_parity_bytes(data: Seq<u8>, p: nat) -> Seq<u8> {
    Seq::new(p, |i: int| rs_parity_of(data, p)[i])
}

/// Reed-Solomon parity of `data` with `p` parity shards, as the code computes it:
/// none for empty data or no parity shards, and no result when data and parity
/// together exceed the field's 256 shards.
pub open spec fn rs_parity_spec(data: Seq<u8>, p: nat) -> Option<Seq<u8>> {
    if data.len() == 0 || p == 0 {
        Some(Seq::empty())
    } else if data.len() + p > 256 {
        None
    } else {
        Some(rs_parity_bytes(data, p))
    }
}

/// A Reed-Solomon codeword: the data, then its parity (none when it has none).
pub open spec fn rs_encode_spec(p: nat, data: Seq<u8>) -> Seq<u8> {
    data + match rs_parity_spec(data, p) {
        Some(v) => v,
        None => Seq::empty(),
    }
}

/// Whether `encoded` holds `data_len` data bytes followed by their `p`
/// Reed-Solomon parity bytes.
pub open spec fn rs_verify_spec(p: nat, encoded: Seq<u8>, data_len: nat) -> bool {
    &&& encoded.len() >= data_len + p
    &&& match rs_parity_spec(encoded.subrange(0, data_len as int), p) {
        Some(e) => encoded.subrange(data_len as int, (data_len + p) as int) == e,
        None => false,
    }
}

/// Whether byte-shard Reed-Solomon handles `data_len` data shards plus `p`
/// parity shards.
pub open spec fn rs_supported_spec(p: nat, data_len: nat) -> bool {
    data_len > 0 && data_len + p <= 255
}

/// The shards handed to reconstruction: the data bytes, absent at the erased
/// positions, then the parity bytes.
pub open spec fn erasure_shards(encoded: Seq<u8>, data_len: nat, p: nat, missing: Seq<usize>) -> Seq<
    Option<u8>,
> {
    Seq::new(
        data_len + p,
        |i: int|
            if i < data_len && missing.contains(i as usize) {
                None
            } else {
                Some(encoded[i])
            },
    )
}

/// Reed-Solomon repair of the erased data bytes `missing` of `encoded`: the
/// encoded bytes with each erased byte replaced by its reconstruction, or
/// nothing where the layout is unsupported or reconstruction fails.
pub open spec fn rs_recover_spec(p: nat, encoded: Seq<u8>, data_len: nat, missing: Seq<usize>) -> Option<
    Seq<u8>,
> {
    if encoded.len() < data_len + p || !rs_supported_spec(p, data_len) || p == 0 || missing.len()
        > p {
        None
    } else {
        match rs_reconstructed(erasure_shards(encoded, data_len, p, missing), data_len, p) {
            None => None,
            Some(v) => Some(
                Seq::new(
                    encoded.len(),
                    |i: int|
                        if i < data_len && missing.contains(i as usize) {
                            v[i]
                        } else {
                            encoded[i]
                        },
                ),
            ),
        }
    }
}

/// The ECC scheme of a mode.
pub open spec fn scheme_spec(mode: TransmissionMode) -> EccScheme {
    match mode {
        TransmissionMode::Print => EccScheme::ReedSolomon,
        TransmissionMode::Screen => EccScheme::Parity,
        TransmissionMode::Burst => EccScheme::Parity,
    }
}

/// The interleave stride of a mode.
pub open spec fn stride_spec(mode: TransmissionMode) -> usize {
    match mode {
        TransmissionMode::Print => 1,
        TransmissionMode::Screen => 4,
        TransmissionMode::Burst => 8,
    }
}

/// Data bytes then the interleaved ECC tail (when there is a tail and the stride
/// spreads).
pub open spec fn to_layout(encoded: Seq<u8>, data_len: nat, stride: nat) -> Seq<u8> {
    if stride > 1 && encoded.len() > data_len {
        encoded.subrange(0, data_len as int) + interleave_spec(
            encoded.subrange(data_len as int, encoded.len() as int),
            stride,
        )
    } else {
        encoded
    }
}

/// Data bytes then the deinterleaved ECC tail: the inverse of [`to_layout`].
pub open spec fn from_layout(encoded: Seq<u8>, data_len: nat, stride: nat) -> Seq<u8> {
    if stride > 1 && encoded.len() > data_len {
        encoded.subrange(0, data_len as int) + deinterleave_spec(
            encoded.subrange(data_len as int, encoded.len() as int),
            stride,
        )
    } else {
        encoded
    }
}

/// The codeword of the scheme of `mode`, before interleaving: Reed-Solomon for
/// print frames that byte shards can hold, parity otherwise.
pub open spec fn base_encode_spec(mode: TransmissionMode, level: EccLevel, wire: Seq<u8>) -> Seq<u8> {
    let dl = wire.len();
    match scheme_spec(mode) {
        EccScheme::Parity => parity_encode_spec(parity_len_for(level, dl), wire),
        EccScheme::ReedSolomon => if rs_supported_spec(rs_shards_for(level, dl), dl) {
            rs_encode_spec(rs_shards_for(level, dl), wire)
        } else {
            parity_encode_spec(parity_len_for(level, dl), wire)
        },
    }
}

/// The ECC-protected bytes that [`encode_for_mode`] emits.
pub open spec fn encode_for_mode_spec(mode: TransmissionMode, level: EccLevel, wire: Seq<u8>) -> Seq<
    u8,
> {
    to_layout(base_encode_spec(mode, level, wire), wire.len(), stride_spec(mode) as nat)
}

/// Whether [`verify_for_mode`] accepts `encoded` with `data_len` data bytes.
/// Print frames pass with Reed-Solomon or, for older fixtures, parity; parity
/// frames pass in the interleaved layout or the older plain one.
pub open spec fn verify_for_mode_spec(
    mode: TransmissionMode,
    level: EccLevel,
    encoded: Seq<u8>,
    data_len: nat,
) -> bool {
    let normalized = from_layout(encoded, data_len, stride_spec(mode) as nat);
    &&& encoded.len() >= data_len
    &&& match scheme_spec(mode) {
        EccScheme::ReedSolomon => rs_verify_spec(rs_shards_for(level, data_len), normalized, data_len)
            || parity_verify_spec(parity_len_for(level, data_len), normalized, data_len),
        EccScheme::Parity => parity_verify_spec(parity_len_for(level, data_len), normalized, data_len)
            || parity_verify_spec(parity_len_for(level, data_len), encoded, data_len),
    }
}

/// `a / b` rounded up, for `b > 0`.
fn div_ceil_usize(a: usize, b: usize) -> (r: usize)
    requires
        b > 0,
    ensures
        r == ceil_div(a as nat, b as nat),
{
    if a % b == 0 {
        a / b
    } else {
        proof {
            assert(a > 0) by {
                if a == 0 {
                    vstd::arithmetic::div_mod::lemma_small_mod(0, b as nat);
                }
            }
            assert(b != 1) by {
                if b == 1 {
                    vstd::arithmetic::div_mod::lemma_fundamental_div_mod_converse(a as int, 1, a as int, 0);
                }
            }
            vstd::arithmetic::div_mod::lemma_div_decreases(a as int, b as int);
        }
        a / b + 1
    }
}

fn rotl8_exec(b: u8, r: u32) -> (out: u8)
    requires
        r < 8,
    ensures
        out == rotl8(b, r),
{
    if r == 0 {
        b
    } else {
        (b << r) | (b >> (8 - r))
    }
}

/// Deterministic parity bytes used by the reference encoder.
#[derive(Debug, Clone, Copy, PartialEq, Eq)]
pub struct ParityCode {
    parity_len: usize,
}

impl View for ParityCode {
    type V = nat;

    /// The number of parity bytes the code appends.
    closed spec fn view(&self) -> nat {
        self.parity_len as nat
    }
}

impl ParityCode {
    /// Create a parity code with an explicit parity byte count.
    pub fn new(parity_len: usize) -> (r: Self)
        ensures
            r@ == parity_len,
    {
        ParityCode { parity_len }
    }

    /// Select a parity code from a protocol ECC level and data length.
    pub fn from_level(level: EccLevel, data_len: usize) -> (r: Self)
        ensures
            r@ == parity_len_for(level, data_len as nat),
    {
        let (num, den) = level.parity_ratio();
        let n = div_ceil_usize(data_len * num, den);
        let parity_len = if n < 4 {
            4
        } else {
            n
        };
        ParityCode { parity_len }
    }

    /// Number of parity bytes produced by this code.
    pub fn parity_len(self) -> (r: usize)
        ensures
            r == self@,
    {
        self.parity_len
    }

    /// The parity bytes of `data`.
    pub fn parity_bytes(self, data: &[u8]) -> (r: Vec<u8>)
        ensures
            r@ == parity_of(data@, self@),
    {
        let p = self.parity_len;
        let mut parity: Vec<u8> = Vec::new();
        let mut k: usize = 0;
        while k < p
            invariant
                k <= p,
                parity@ == Seq::new(k as nat, |i: int| 0u8),
            decreases p - k,
        {
            parity.push(0u8);
            assert(parity@ =~= Seq::new((k + 1) as nat, |i: int| 0u8));
            k = k + 1;
        }
        if p == 0 {
            return parity;
        }
        let mut index: usize = 0;
        while index < data.len()
            invariant
                p == self@,
                p > 0,
                index <= data@.len(),
                parity@ == parity_after(data@, index as nat, p as nat),
                parity@.len() == p,
            decreases data@.len() - index,
        {
            let ghost before = parity@;
            let lane = index % p;
            let byte = data[index];
            let rotated = rotl8_exec(byte, (index % 8) as u32);
            let x = parity[lane] ^ rotated;
            parity.set(lane, x);
            let target_wide: u128 = ((lane as u128) * 7 + 3) % (p as u128);
            let target = target_wide as usize;
            let y = parity[target].wrapping_add(byte);
            parity.set(target, y);
            assert(parity@ =~= parity_step(before, index as nat, byte));
            index = index + 1;
        }
        proof {
            lemma_parity_after_len(data@, data@.len(), p as nat);
        }
        parity
    }
}

impl BlockCode for ParityCode {
    fn encode(&self, data: &[u8]) -> (r: Vec<u8>)
        ensures
            r@ == parity_encode_spec(self@, data@),
    {
        let mut encoded = copy_range(data, 0, data.len());
        let parity = self.parity_bytes(data);
        push_all(&mut encoded, parity.as_slice());
        encoded
    }

    fn verify(&self, encoded: &[u8], data_len: usize) -> (r: bool)
        ensures
            r == parity_verify_spec(self@, encoded@, data_len as nat),
    {
        if encoded.len() < data_len || encoded.len() - data_len < self.parity_len {
            return false;
        }
        let data = copy_range(encoded, 0, data_len);
        let expected = self.parity_bytes(data.as_slice());
        proof {
            lemma_parity_of_len(data@, self@);
        }
        bytes_equal_at(encoded, data_len, expected.as_slice())
    }
}

/// Reed-Solomon parity bytes over one-byte shards.
#[derive(Debug, Clone, Copy, PartialEq, Eq)]
pub struct ReedSolomonCode {
    parity_shards: usize,
}

impl View for ReedSolomonCode {
    type V = nat;

    /// The number of parity shards the code appends.
    closed spec fn view(&self) -> nat {
        self.parity_shards as nat
    }
}

impl ReedSolomonCode {
    /// Create a Reed-Solomon code with explicit parity shard count.
    pub fn new(parity_shards: usize) -> (r: Self)
        ensures
            r@ == parity_shards,
    {
        ReedSolomonCode { parity_shards }
    }

    /// Select a parity shard count from ECC level and payload length.
    pub fn from_level(level: EccLevel, data_len: usize) -> (r: Self)
        ensures
            r@ == rs_shards_for(level, data_len as nat),
    {
        let (num, den) = level.parity_ratio();
        let n = div_ceil_usize(data_len * num, den);
        let parity_shards = if n < 8 {
            8
        } else {
            n
        };
        ReedSolomonCode { parity_shards }
    }

    /// Number of parity shards appended by this code.
    pub fn parity_shards(self) -> (r: usize)
        ensures
            r == self@,
    {
        self.parity_shards
    }

    /// Whether byte-shard Reed-Solomon handles `data_len` data bytes with this
    /// code's parity.
    pub fn is_supported(self, data_len: usize) -> (r: bool)
        ensures
            r == rs_supported_spec(self@, data_len as nat),
    {
        data_len > 0 && data_len <= 255 && self.parity_shards <= 255 - data_len
    }

    /// The Reed-Solomon parity of `data`, where the field can hold it.
    pub fn parity_bytes(self, data: &[u8]) -> (r: Option<Vec<u8>>)
        ensures
            match r {
                Some(v) => rs_parity_spec(data@, self@) == Some(v@),
                None => rs_parity_spec(data@, self@) is None,
            },
            r matches Some(v) ==> v@.len() == (if data@.len() == 0 {
                0
            } else {
                self@
            }),
    {
        if data.len() == 0 || self.parity_shards == 0 {
            return Some(Vec::new());
        }
        if data.len() > 256 || self.parity_shards > 256 - data.len() {
            return None;
        }
        let r = rs_parity(data, self.parity_shards);
        proof {
            if r is Some {
                assert(r->Some_0@ =~= rs_parity_bytes(data@, self@));
            }
        }
        r
    }

    /// Rebuild the data byte at `missing_index` from the other data bytes and the
    /// parity.
    pub fn recover_one_data_shard(self, encoded: &[u8], data_len: usize, missing_index: usize) -> (r:
        Option<Vec<u8>>)
        requires
            missing_index < data_len,
        ensures
            match r {
                Some(v) => rs_recover_spec(self@, encoded@, data_len as nat, seq![missing_index])
                    == Some(v@),
                None => rs_recover_spec(self@, encoded@, data_len as nat, seq![missing_index]) is None,
            },
    {
        let missing: [usize; 1] = [missing_index];
        assert(missing@ =~= seq![missing_index]);
        self.recover_data_shards(encoded, data_len, &missing)
    }

    /// Rebuild the data bytes at `missing_indexes` from the other data bytes and
    /// the parity.
    pub fn recover_data_shards(self, encoded: &[u8], data_len: usize, missing_indexes: &[usize]) -> (r:
        Option<Vec<u8>>)
        requires
            missing_indexes@.len() > 0,
            forall|k: int| 0 <= k < missing_indexes@.len() ==> missing_indexes@[k] < data_len,
        ensures
            match r {
                Some(v) => rs_recover_spec(self@, encoded@, data_len as nat, missing_indexes@) == Some(
                    v@,
                ),
                None => rs_recover_spec(self@, encoded@, data_len as nat, missing_indexes@) is None,
            },
    {
        let p = self.parity_shards;
        let ghost missing = missing_indexes@;
        if encoded.len() < data_len || encoded.len() - data_len < p {
            return None;
        }
        if !self.is_supported(data_len) || p == 0 || missing_indexes.len() > p {
            return None;
        }
        let total = data_len + p;
        let mut marked: Vec<bool> = Vec::new();
        let mut k: usize = 0;
        while k < data_len
            invariant
                k <= data_len,
                marked@ == Seq::new(k as nat, |i: int| false),
            decreases data_len - k,
        {
            marked.push(false);
            assert(marked@ =~= Seq::new((k + 1) as nat, |i: int| false));
            k = k + 1;
        }
        let mut m: usize = 0;
        while m < missing_indexes.len()
            invariant
                missing == missing_indexes@,
                forall|k: int| 0 <= k < missing.len() ==> missing[k] < data_len,
                m <= missing.len(),
                marked@.len() == data_len,
                forall|i: int|
                    0 <= i < data_len ==> (marked@[i] <==> exists|k: int|
                        0 <= k < m && #[trigger] missing[k] == i),
            decreases missing.len() - m,
        {
            let index = missing_indexes[m];
            marked.set(index, true);
            assert forall|i: int| 0 <= i < data_len implies (marked@[i] <==> exists|k: int|
                0 <= k < m + 1 && #[trigger] missing[k] == i) by {
                if i == index {
                    assert(missing[m as int] == i);
                }
            }
            m = m + 1;
        }
        assert forall|i: int| 0 <= i < data_len implies (marked@[i] <==> missing.contains(
            i as usize,
        )) by {
            if marked@[i] {
                let k = choose|k: int| 0 <= k < missing.len() && #[trigger] missing[k] == i;
                assert(missing[k] == i as usize);
            }
            if missing.contains(i as usize) {
                let k = choose|k: int| 0 <= k < missing.len() && missing[k] == i as usize;
                assert(missing[k] == i);
            }
        }
        let mut shards: Vec<Option<u8>> = Vec::new();
        let mut i: usize = 0;
        while i < total
            invariant
                total == data_len + p,
                total <= encoded@.len(),
                i <= total,
                marked@.len() == data_len,
                forall|j: int| 0 <= j < data_len ==> (marked@[j] <==> missing.contains(j as usize)),
                shards@ == erasure_shards(encoded@, data_len as nat, p as nat, missing).take(
                    i as int,
                ),
            decreases total - i,
        {
            if i < data_len && marked[i] {
                shards.push(None);
            } else {
                shards.push(Some(encoded[i]));
            }
            assert(shards@ =~= erasure_shards(encoded@, data_len as nat, p as nat, missing).take(
                i + 1,
            ));
            i = i + 1;
        }
        assert(shards@ =~= erasure_shards(encoded@, data_len as nat, p as nat, missing));
        let rebuilt = match rs_reconstruct(&shards, data_len, p) {
            Some(v) => v,
            None => return None,
        };
        let ghost full = Seq::new(
            encoded@.len(),
            |t: int|
                if t < data_len && missing.contains(t as usize) {
                    rebuilt@[t]
                } else {
                    encoded@[t]
                },
        );
        let mut recovered: Vec<u8> = Vec::new();
        let mut j: usize = 0;
        while j < encoded.len()
            invariant
                j <= encoded@.len(),
                rebuilt@.len() == data_len + p,
                data_len + p <= encoded@.len(),
                marked@.len() == data_len,
                forall|t: int| 0 <= t < data_len ==> (marked@[t] <==> missing.contains(t as usize)),
                full == Seq::new(
                    encoded@.len(),
                    |t: int|
                        if t < data_len && missing.contains(t as usize) {
                            rebuilt@[t]
                        } else {
                            encoded@[t]
                        },
                ),
                recovered@ == full.take(j as int),
            decreases encoded@.len() - j,
        {
            if j < data_len && marked[j] {
                recovered.push(rebuilt[j]);
            } else {
                recovered.push(encoded[j]);
            }
            assert(recovered@ =~= full.take(j + 1));
            j = j + 1;
        }
        assert(recovered@ =~= full);
        Some(recovered)
    }
}

impl BlockCode for ReedSolomonCode {
    fn encode(&self, data: &[u8]) -> (r: Vec<u8>)
        ensures
            r@ == rs_encode_spec(self@, data@),
            rs_parity_spec(data@, self@) matches Some(v) ==> v.len() == (if data@.len() == 0 {
                0
            } else {
                self@
            }),
    {
        let parity = match self.parity_bytes(data) {
            Some(v) => v,
            None => Vec::new(),
        };
        let mut encoded = copy_range(data, 0, data.len());
        push_all(&mut encoded, parity.as_slice());
        encoded
    }

    fn verify(&self, encoded: &[u8], data_len: usize) -> (r: bool)
        ensures
            r == rs_verify_spec(self@, encoded@, data_len as nat),
    {
        if encoded.len() < data_len || encoded.len() - data_len < self.parity_shards {
            return false;
        }
        let data = copy_range(encoded, 0, data_len);
        match self.parity_bytes(data.as_slice()) {
            None => false,
            Some(expected) => {
                if expected.len() != self.parity_shards {
                    assert(encoded@.subrange(data_len as int, data_len + self@).len() != expected@.len());
                    return false;
                }
                bytes_equal_at(encoded, data_len, expected.as_slice())
            },
        }
    }
}

/// Select the ECC scheme for a frame mode and level.
pub fn scheme_for_mode(mode: TransmissionMode, level: EccLevel) -> (r: EccScheme)
    ensures
        r == scheme_spec(mode),
{
    match mode {
        TransmissionMode::Print => EccScheme::ReedSolomon,
        TransmissionMode::Screen => EccScheme::Parity,
        TransmissionMode::Burst => EccScheme::Parity,
    }
}

/// Interleave stride policy by mode.
pub fn interleave_stride_for_mode(mode: TransmissionMode, level: EccLevel) -> (r: usize)
    ensures
        r == stride_spec(mode),
{
    match mode {
        TransmissionMode::Print => 1,
        TransmissionMode::Screen => 4,
        TransmissionMode::Burst => 8,
    }
}

/// Data bytes followed by the interleaved tail, as [`to_layout`] describes.
pub fn to_encoded_layout(candidate: &[u8], data_len: usize, stride: usize) -> (r: Vec<u8>)
    ensures
        r@ == to_layout(candidate@, data_len as nat, stride as nat),
{
    if stride > 1 && candidate.len() > data_len {
        let mut out = copy_range(candidate, 0, data_len);
        let tail = copy_range(candidate, data_len, candidate.len());
        let spread = interleave(tail.as_slice(), stride);
        push_all(&mut out, spread.as_slice());
        out
    } else {
        copy_range(candidate, 0, candidate.len())
    }
}

/// Data bytes followed by the deinterleaved tail, as [`from_layout`] describes.
pub fn from_encoded_layout(encoded: &[u8], data_len: usize, stride: usize) -> (r: Vec<u8>)
    ensures
        r@ == from_layout(encoded@, data_len as nat, stride as nat),
{
    if stride > 1 && encoded.len() > data_len {
        let mut out = copy_range(encoded, 0, data_len);
        let tail = copy_range(encoded, data_len, encoded.len());
        let gathered = deinterleave(tail.as_slice(), stride);
        push_all(&mut out, gathered.as_slice());
        out
    } else {
        copy_range(encoded, 0, encoded.len())
    }
}

/// Encode wire bytes with the selected ECC scheme.
///
/// What it emits always passes [`verify_for_mode`] for the same mode and level.
pub fn encode_for_mode(mode: TransmissionMode, level: EccLevel, wire: &[u8]) -> (r: Vec<u8>)
    ensures
        r@ == encode_for_mode_spec(mode, level, wire@),
        r@.len() == ecc_output_len(mode, level, wire@.len()),
        r@.subrange(0, wire@.len() as int) == wire@,
        verify_for_mode_spec(mode, level, r@, wire@.len()),
{
    let encoded = match scheme_for_mode(mode, level) {
        EccScheme::Parity => ParityCode::from_level(level, wire.len()).encode(wire),
        EccScheme::ReedSolomon => {
            let rs = ReedSolomonCode::from_level(level, wire.len());
            if rs.is_supported(wire.len()) {
                rs.encode(wire)
            } else {
                ParityCode::from_level(level, wire.len()).encode(wire)
            }
        },
    };
    let stride = interleave_stride_for_mode(mode, level);
    let out = to_encoded_layout(encoded.as_slice(), wire.len(), stride);
    proof {
        lemma_encode_verify_for_mode(mode, level, wire@);
        lemma_encode_for_mode_len(mode, level, wire@);
    }
    out
}

/// Verify wire bytes with the selected ECC scheme.
pub fn verify_for_mode(mode: TransmissionMode, level: EccLevel, encoded: &[u8], data_len: usize) -> (r:
    bool)
    ensures
        r == verify_for_mode_spec(mode, level, encoded@, data_len as nat),
{
    if encoded.len() < data_len {
        return false;
    }
    let stride = interleave_stride_for_mode(mode, level);
    let normalized = from_encoded_layout(encoded, data_len, stride);
    match scheme_for_mode(mode, level) {
        EccScheme::ReedSolomon => {
            ReedSolomonCode::from_level(level, data_len).verify(normalized.as_slice(), data_len)
                || ParityCode::from_level(level, data_len).verify(normalized.as_slice(), data_len)
        },
        EccScheme::Parity => {
            let parity = ParityCode::from_level(level, data_len);
            parity.verify(normalized.as_slice(), data_len) || parity.verify(encoded, data_len)
        },
    }
}

/// Reading back the layout of an encoding gives the encoding: the data part is
/// kept and the tail is deinterleaved to what was interleaved.
pub proof fn lemma_layout_roundtrip(encoded: Seq<u8>, data_len: nat, stride: nat)
    requires
        data_len <= encoded.len(),
    ensures
        from_layout(to_layout(encoded, data_len, stride), data_len, stride) == encoded,
{
    if stride > 1 && encoded.len() > data_len {
        let head = encoded.subrange(0, data_len as int);
        let tail = encoded.subrange(data_len as int, encoded.len() as int);
        lemma_deinterleave_interleave(tail, stride);
        let laid = to_layout(encoded, data_len, stride);
        let spread = interleave_spec(tail, stride);
        assert(deinterleave_spec(spread, stride) == tail);
        assert(spread.len() == tail.len()) by {
            if spread.len() != tail.len() {
                assert(deinterleave_spec(spread, stride).len() == spread.len());
            }
        }
        assert(laid.subrange(0, data_len as int) =~= head);
        assert(laid.subrange(data_len as int, laid.len() as int) =~= spread);
        assert(head + tail =~= encoded);
    }
}

/// How many bytes [`encode_for_mode`] emits for `n` wire bytes: the data, then its
/// Reed-Solomon parity shards (print frames the code can hold) or its parity bytes.
pub open spec fn ecc_output_len(mode: TransmissionMode, level: EccLevel, n: nat) -> nat {
    if scheme_spec(mode) == EccScheme::ReedSolomon && rs_supported_spec(rs_shards_for(level, n), n) {
        n + rs_shards_for(level, n)
    } else {
        n + parity_len_for(level, n)
    }
}

/// The encoding of `wire` is as long as [`ecc_output_len`] says, and begins with
/// `wire` itself.
pub proof fn lemma_encode_for_mode_len(mode: TransmissionMode, level: EccLevel, wire: Seq<u8>)
    ensures
        encode_for_mode_spec(mode, level, wire).len() == ecc_output_len(mode, level, wire.len()),
        encode_for_mode_spec(mode, level, wire).subrange(0, wire.len() as int) == wire,
{
    let dl = wire.len();
    let base = base_encode_spec(mode, level, wire);
    lemma_parity_of_len(wire, parity_len_for(level, dl));
    assert(base.len() == ecc_output_len(mode, level, dl));
    assert(base.subrange(0, dl as int) =~= wire);
    let stride = stride_spec(mode) as nat;
    let enc = encode_for_mode_spec(mode, level, wire);
    if stride > 1 && base.len() > dl {
        let tail = base.subrange(dl as int, base.len() as int);
        crate::interleave::lemma_interleave_len(tail, stride);
        assert(enc.subrange(0, dl as int) =~= wire);
    }
}

proof fn lemma_encode_verify_for_mode(mode: TransmissionMode, level: EccLevel, wire: Seq<u8>)
    ensures
        verify_for_mode_spec(
            mode,
            level,
            encode_for_mode_spec(mode, level, wire),
            wire.len(),
        ),
{
    let dl = wire.len();
    let base = base_encode_spec(mode, level, wire);
    let pl = parity_len_for(level, dl);
    let rp = rs_shards_for(level, dl);
    lemma_parity_of_len(wire, pl);
    assert(base.subrange(0, dl as int) =~= wire);
    lemma_layout_roundtrip(base, dl, stride_spec(mode) as nat);
    let enc = encode_for_mode_spec(mode, level, wire);
    assert(from_layout(enc, dl, stride_spec(mode) as nat) == base);
    assert(enc.len() >= dl) by {
        if enc.len() < dl {
            assert(from_layout(enc, dl, stride_spec(mode) as nat) == enc);
        }
    }
    if scheme_spec(mode) == EccScheme::ReedSolomon && rs_supported_spec(rp, dl) {
        assert(base == rs_encode_spec(rp, wire));
        assert(base.subrange(dl as int, (dl + rp) as int) =~= rs_parity_bytes(wire, rp));
    } else {
        assert(base == parity_encode_spec(pl, wire));
        assert(base.subrange(dl as int, (dl + pl) as int) =~= parity_of(wire, pl));
    }
}

} // verus!
