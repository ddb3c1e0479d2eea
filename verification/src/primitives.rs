//! Checksums, hashes, signatures and Reed-Solomon parity computed by outside
//! crates. Each function here is trusted: its contract is what the outside
//! crate's source shows, and is not proved.
use vstd::prelude::*;

use ed25519_dalek::Signer;
use ed25519_dalek::Verifier;
use reed_solomon_erasure::galois_8::ReedSolomon;

verus! {

/// The reflected CRC-32 register `c` shifted `n` bits through the IEEE polynomial
/// `0xEDB88320`.
pub open spec fn crc32_shift(c: u32, n: nat) -> u32
    decreases n,
{
    if n == 0 {
        c
    } else {
        crc32_step(crc32_shift(c, (n - 1) as nat))
    }
}

/// The CRC-32 register after the bytes `bytes`, starting from all ones.
pub open spec fn crc32_register(bytes: Seq<u8>) -> u32
    decreases bytes.len(),
{
    if bytes.len() == 0 {
        0xFFFF_FFFFu32
    } else {
        crc32_shift(crc32_register(bytes.drop_last()) ^ (bytes.last() as u32), 8)
    }
}

/// The CRC-32 (IEEE, reflected, polynomial `0xEDB88320`, initial value and final
/// mask all ones) of a byte string.
pub closed spec fn crc32_checksum(bytes: Seq<u8>) -> u32 {
    crc32_register(bytes) ^ 0xFFFF_FFFFu32
}

/// One step of the CRC-32 register: shift right, folding in the polynomial when the
/// low bit was set.
pub open spec fn crc32_step(d: u32) -> u32 {
    if d & 1u32 == 1u32 {
        (d >> 1u32) ^ 0xEDB8_8320u32
    } else {
        d >> 1u32
    }
}

proof fn lemma_crc32_step_injective(a: u32, b: u32)
    ensures
        a != b ==> crc32_step(a) != crc32_step(b),
{
    assert(a != b ==> crc32_step(a) != crc32_step(b)) by (bit_vector);
}

proof fn lemma_crc32_shift_injective(a: u32, b: u32, n: nat)
    ensures
        a != b ==> crc32_shift(a, n) != crc32_shift(b, n),
    decreases n,
{
    if n > 0 {
        lemma_crc32_shift_injective(a, b, (n - 1) as nat);
        lemma_crc32_step_injective(crc32_shift(a, (n - 1) as nat), crc32_shift(b, (n - 1) as nat));
        assert(crc32_shift(a, n) == crc32_step(crc32_shift(a, (n - 1) as nat)));
        assert(crc32_shift(b, n) == crc32_step(crc32_shift(b, (n - 1) as nat)));
    }
}

proof fn lemma_register_prefix(s: Seq<u8>, n: int)
    requires
        0 < n <= s.len(),
    ensures
        crc32_register(s.take(n)) == crc32_shift(crc32_register(s.take(n - 1)) ^ (s[n - 1] as u32), 8),
{
    assert(s.take(n).drop_last() =~= s.take(n - 1));
}

proof fn lemma_registers_differ(s: Seq<u8>, t: Seq<u8>, i: int, n: int)
    requires
        0 <= i,
        i + 1 <= n <= s.len(),
        t.len() == s.len(),
        forall|k: int| 0 <= k < s.len() && k != i ==> t[k] == s[k],
        crc32_register(s.take(i + 1)) != crc32_register(t.take(i + 1)),
    ensures
        crc32_register(s.take(n)) != crc32_register(t.take(n)),
    decreases n,
{
    if n > i + 1 {
        lemma_registers_differ(s, t, i, n - 1);
        lemma_register_prefix(s, n);
        lemma_register_prefix(t, n);
        let x = crc32_register(s.take(n - 1));
        let y = crc32_register(t.take(n - 1));
        let c = s[n - 1];
        assert(t[n - 1] == c);
        assert((x ^ (c as u32)) != (y ^ (c as u32))) by (bit_vector)
            requires
                x != y,
        ;
        lemma_crc32_shift_injective(x ^ (c as u32), y ^ (c as u32), 8);
    }
}

/// CRC-32 detects every single-bit change: flipping one bit of a byte string changes
/// its checksum.
pub proof fn crc32_detects_bit_flip(s: Seq<u8>, i: int, bit: u8)
    requires
        0 <= i < s.len(),
        bit < 8,
    ensures
        crc32_checksum(s) != crc32_checksum(s.update(i, s[i] ^ (1u8 << bit))),
{
    let t = s.update(i, s[i] ^ (1u8 << bit));
    assert(s.take(i) =~= t.take(i));
    lemma_register_prefix(s, i + 1);
    lemma_register_prefix(t, i + 1);
    let r = crc32_register(s.take(i));
    let a = s[i];
    let b = t[i];
    assert(b == a ^ (1u8 << bit));
    assert((r ^ (a as u32)) != (r ^ (b as u32))) by (bit_vector)
        requires
            b == a ^ (1u8 << bit),
            bit < 8,
    ;
    lemma_crc32_shift_injective(r ^ (a as u32), r ^ (b as u32), 8);
    lemma_registers_differ(s, t, i, s.len() as int);
    assert(s.take(s.len() as int) =~= s);
    assert(t.take(t.len() as int) =~= t);
    let x = crc32_register(s);
    let y = crc32_register(t);
    assert((x ^ 0xFFFF_FFFFu32) != (y ^ 0xFFFF_FFFFu32)) by (bit_vector)
        requires
            x != y,
    ;
}

/// Compute CRC-32 with `crc32fast::Hasher` (`new`, `update`, `finalize`).
///
/// Trusted: `crc32fast` computes the standard IEEE CRC-32 (the one stated by
/// `crc32_checksum`); its table-driven and SIMD code paths are not proved against
/// that statement.
#[verifier::external_body]
pub fn crc32(bytes: &[u8]) -> (r: u32)
    ensures
        r == crc32_checksum(bytes@),
{
    let mut hasher = crc32fast::Hasher::new();
    hasher.update(bytes);
    hasher.finalize()
}

/// The 32-byte BLAKE3 hash of a byte string.
pub uninterp spec fn blake3_digest(input: Seq<u8>) -> Seq<u8>;

/// Hash bytes with `blake3::hash`.
///
/// Trusted: the 32 output bytes are claimed to be a function of the input alone.
#[verifier::external_body]
pub fn blake3_hash(input: &[u8]) -> (r: [u8; 32])
    ensures
        r@ == blake3_digest(input@),
{
    *blake3::hash(input).as_bytes()
}

/// The 32-byte keyed BLAKE3 hash of a byte string under a 32-byte key.
pub uninterp spec fn blake3_keyed_digest(key: Seq<u8>, input: Seq<u8>) -> Seq<u8>;

/// Hash bytes with `blake3::keyed_hash`.
///
/// Trusted: the 32 output bytes are claimed to be a function of key and input alone.
#[verifier::external_body]
pub fn blake3_keyed_hash(key: &[u8; 32], input: &[u8]) -> (r: [u8; 32])
    ensures
        r@ == blake3_keyed_digest(key@, input@),
{
    *blake3::keyed_hash(key, input).as_bytes()
}

/// The 64-byte Ed25519 signature of a message under a 32-byte secret key.
pub uninterp spec fn ed25519_signature_of(secret: Seq<u8>, message: Seq<u8>) -> Seq<u8>;

/// Sign with `ed25519_dalek::SigningKey::from_bytes(secret).sign(message)`.
///
/// Trusted: Ed25519 signing is deterministic, so the signature is claimed to be a
/// function of the secret key and message alone.
#[verifier::external_body]
pub fn ed25519_sign(secret: &[u8; 32], message: &[u8]) -> (r: [u8; 64])
    ensures
        r@ == ed25519_signature_of(secret@, message@),
{
    ed25519_dalek::SigningKey::from_bytes(secret).sign(message).to_bytes()
}

/// Whether 32 bytes decode to an Ed25519 verifying key.
pub uninterp spec fn ed25519_public_key_valid(public: Seq<u8>) -> bool;

/// Test whether `ed25519_dalek::VerifyingKey::from_bytes` accepts the bytes.
///
/// Trusted: the answer is claimed to depend on the key bytes alone.
#[verifier::external_body]
pub fn ed25519_key_decodes(public: &[u8; 32]) -> (r: bool)
    ensures
        r == ed25519_public_key_valid(public@),
{
    ed25519_dalek::VerifyingKey::from_bytes(public).is_ok()
}

/// Whether an Ed25519 signature over a message verifies under a public key.
pub uninterp spec fn ed25519_accepts(public: Seq<u8>, message: Seq<u8>, signature: Seq<u8>) -> bool;

/// Verify with `ed25519_dalek::VerifyingKey::from_bytes(public)` and `verify`.
///
/// Trusted: the verdict is claimed to depend on key, message and signature alone.
#[verifier::external_body]
pub fn ed25519_verify(public: &[u8; 32], message: &[u8], signature: &[u8; 64]) -> (r: bool)
    requires
        ed25519_public_key_valid(public@),
    ensures
        r == ed25519_accepts(public@, message@, signature@),
{
    match ed25519_dalek::VerifyingKey::from_bytes(public) {
        Ok(key) => key.verify(message, &ed25519_dalek::Signature::from_bytes(signature)).is_ok(),
        Err(_) => false,
    }
}

/// The Reed-Solomon (GF(2^8)) parity bytes of `data`, one byte per shard.
pub uninterp spec fn rs_parity_of(data: Seq<u8>, parity_shards: nat) -> Seq<u8>;

/// Compute Reed-Solomon parity with `reed_solomon_erasure::galois_8::ReedSolomon`,
/// treating each data byte as a one-byte shard.
///
/// Trusted: `ReedSolomon::new` accepts any shard counts with both counts non-zero
/// and a total of at most 256, and `encode` succeeds on equal-length shards of the
/// right count, so a parity shard byte is produced for each parity shard; their
/// values are claimed to be a function of the data and parity count alone.
#[verifier::external_body]
pub fn rs_parity(data: &[u8], parity_shards: usize) -> (r: Option<Vec<u8>>)
    requires
        0 < data@.len(),
        0 < parity_shards,
        data@.len() + parity_shards <= 256,
    ensures
        r is Some,
        r matches Some(v) ==> v@ == rs_parity_of(data@, parity_shards as nat),
        r matches Some(v) ==> v@.len() == parity_shards,
{
    let rs = ReedSolomon::new(data.len(), parity_shards).ok()?;
    let mut shards: Vec<Vec<u8>> = data.iter().map(|byte| vec![*byte]).collect();
    shards.extend((0..parity_shards).map(|_| vec![0u8]));
    rs.encode(&mut shards).ok()?;
    Some(shards[data.len()..].iter().map(|shard| shard[0]).collect())
}

/// The one-byte shards that Reed-Solomon reconstruction restores from the present
/// shards, if it succeeds.
pub uninterp spec fn rs_reconstructed(
    shards: Seq<Option<u8>>,
    data_shards: nat,
    parity_shards: nat,
) -> Option<Seq<u8>>;

/// How many shards are present.
pub open spec fn present_count(shards: Seq<Option<u8>>) -> nat
    decreases shards.len(),
{
    if shards.len() == 0 {
        0
    } else {
        present_count(shards.drop_last()) + if shards.last() is Some {
            1nat
        } else {
            0nat
        }
    }
}

/// Whether every present shard holds the byte of `codeword` at its position.
pub open spec fn shards_agree(shards: Seq<Option<u8>>, codeword: Seq<u8>) -> bool {
    &&& shards.len() == codeword.len()
    &&& forall|i: int| 0 <= i < shards.len() && (#[trigger] shards[i]) is Some ==> shards[i]->Some_0
        == codeword[i]
}

/// Reconstruct missing one-byte shards with
/// `reed_solomon_erasure::galois_8::ReedSolomon::reconstruct`.
///
/// Trusted: reconstruction succeeds exactly when at least `data_shards` shards are
/// present (`reconstruct_internal` refuses fewer with `TooFewShardsPresent`); present
/// shards are left as they are; and when the present shards agree with a codeword
/// (data followed by its parity), the codeword is what comes back. Otherwise the
/// outcome is only claimed to be a function of the shards and counts.
#[verifier::external_body]
pub fn rs_reconstruct(shards: &Vec<Option<u8>>, data_shards: usize, parity_shards: usize) -> (r:
    Option<Vec<u8>>)
    requires
        0 < data_shards,
        0 < parity_shards,
        data_shards + parity_shards <= 256,
        shards@.len() == data_shards + parity_shards,
    ensures
        match r {
            Some(v) => rs_reconstructed(shards@, data_shards as nat, parity_shards as nat) == Some(
                v@,
            ) && v@.len() == shards@.len(),
            None => rs_reconstructed(shards@, data_shards as nat, parity_shards as nat) is None,
        },
        r is Some <==> present_count(shards@) >= data_shards,
        r matches Some(v) ==> forall|i: int|
            0 <= i < shards@.len() && (#[trigger] shards@[i]) is Some ==> v@[i] == shards@[i]->Some_0,
        r matches Some(v) ==> forall|data: Seq<u8>|
            data.len() == data_shards && shards_agree(
                shards@,
                #[trigger] (data + rs_parity_of(data, parity_shards as nat)),
            ) ==> v@ == data + rs_parity_of(data, parity_shards as nat),
{
    let rs = ReedSolomon::new(data_shards, parity_shards).ok()?;
    let mut work: Vec<Option<Vec<u8>>> = shards.iter().map(|s| s.map(|b| vec![b])).collect();
    rs.reconstruct(&mut work).ok()?;
    work.into_iter().map(|s| s.map(|v| v[0])).collect()
}

} // verus!
