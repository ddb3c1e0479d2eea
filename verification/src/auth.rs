//! Payload authenticity: embedded keyed-BLAKE3 envelopes and detached signatures.
use vstd::prelude::*;

use crate::error::GlyphError;
use crate::primitives::{
    blake3_keyed_digest, blake3_keyed_hash, ed25519_accepts, ed25519_key_decodes,
    ed25519_public_key_valid, ed25519_sign, ed25519_signature_of, ed25519_verify,
};
use crate::wire::{be32, bytes_equal_at, copy_range, get_be32, push_all, push_be32, read_be32};

verus! {

/// Envelope magic (`GAUT`).
pub open spec fn auth_magic() -> Seq<u8> {
    seq![71u8, 65u8, 85u8, 84u8]
}

/// Detached keyed signature magic (`GDSG`).
pub open spec fn detached_magic() -> Seq<u8> {
    seq![71u8, 68u8, 83u8, 71u8]
}

/// Detached Ed25519 signature magic (`GDE2`).
pub open spec fn detached_ed25519_magic() -> Seq<u8> {
    seq![71u8, 68u8, 69u8, 50u8]
}

/// Shared reason codes for authentication verification outcomes.
#[derive(Debug, Clone, Copy, PartialEq, Eq, Structural)]
pub enum AuthVerifyReason {
    UnknownKeyId,
    KeyNotYetValid,
    KeyExpired,
    MissingVerificationKey,
    AuthMismatch,
    InvalidEnvelope,
    VerifyFailed,
    UnsignedPayload,
}

/// The stable snake_case code of a reason.
pub open spec fn reason_code(r: AuthVerifyReason) -> &'static str {
    match r {
        AuthVerifyReason::UnknownKeyId => "unknown_key_id",
        AuthVerifyReason::KeyNotYetValid => "key_not_yet_valid",
        AuthVerifyReason::KeyExpired => "key_expired",
        AuthVerifyReason::MissingVerificationKey => "missing_verification_key",
        AuthVerifyReason::AuthMismatch => "auth_mismatch",
        AuthVerifyReason::InvalidEnvelope => "invalid_envelope",
        AuthVerifyReason::VerifyFailed => "verify_failed",
        AuthVerifyReason::UnsignedPayload => "unsigned_payload",
    }
}

impl AuthVerifyReason {
    /// Stable snake_case code for JSON outputs.
    pub fn as_str(self) -> (r: &'static str)
        ensures
            r == reason_code(self),
    {
        match self {
            AuthVerifyReason::UnknownKeyId => "unknown_key_id",
            AuthVerifyReason::KeyNotYetValid => "key_not_yet_valid",
            AuthVerifyReason::KeyExpired => "key_expired",
            AuthVerifyReason::MissingVerificationKey => "missing_verification_key",
            AuthVerifyReason::AuthMismatch => "auth_mismatch",
            AuthVerifyReason::InvalidEnvelope => "invalid_envelope",
            AuthVerifyReason::VerifyFailed => "verify_failed",
            AuthVerifyReason::UnsignedPayload => "unsigned_payload",
        }
    }
}

/// Map core auth verification errors to stable reason codes.
pub fn reason_from_glyph_error(error: GlyphError) -> (r: AuthVerifyReason)
    ensures
        r == match error {
            GlyphError::UnknownAuthenticityKey(_) => AuthVerifyReason::UnknownKeyId,
            GlyphError::AuthenticityMismatch => AuthVerifyReason::AuthMismatch,
            GlyphError::InvalidAuthenticityEnvelope => AuthVerifyReason::InvalidEnvelope,
            _ => AuthVerifyReason::VerifyFailed,
        },
{
    match error {
        GlyphError::UnknownAuthenticityKey(_) => AuthVerifyReason::UnknownKeyId,
        GlyphError::AuthenticityMismatch => AuthVerifyReason::AuthMismatch,
        GlyphError::InvalidAuthenticityEnvelope => AuthVerifyReason::InvalidEnvelope,
        _ => AuthVerifyReason::VerifyFailed,
    }
}

/// The key id of an embedded envelope header, if `payload` starts with one.
pub open spec fn envelope_key_id_spec(payload: Seq<u8>) -> Option<u32> {
    if payload.len() < 10 || payload.subrange(0, 4) != auth_magic() || payload[4] != 1u8 {
        None
    } else {
        Some(read_be32(payload, 6))
    }
}

/// Extract `key_id` from an embedded authenticity envelope header, if present.
pub fn extract_auth_envelope_key_id(payload: &[u8]) -> (r: Option<u32>)
    ensures
        r == envelope_key_id_spec(payload@),
{
    if payload.len() < 10 {
        return None;
    }
    let magic: [u8; 4] = [71u8, 65u8, 85u8, 84u8];
    proof {
        assert(magic@ =~= auth_magic());
    }
    if !bytes_equal_at(payload, 0, &magic) || payload[4] != 1u8 {
        return None;
    }
    Some(get_be32(payload, 6))
}

/// Embedded authenticity envelope metadata.
#[derive(Debug, Clone, Copy, PartialEq, Eq, Structural)]
pub struct AuthEnvelopeHeader {
    /// Key identifier used by sender to select verification key.
    pub key_id: u32,
    /// Raw payload length before envelope/tag.
    pub payload_len: u32,
}

/// Detached authenticity signature metadata and tag.
#[derive(Debug, Clone, Copy, PartialEq, Eq)]
pub struct DetachedAuthSignature {
    /// Key identifier used by sender to select verification key.
    pub key_id: u32,
    /// Raw payload length covered by this signature.
    pub payload_len: u32,
    /// Truncated keyed BLAKE3 tag.
    pub tag: [u8; 16],
}

/// Detached Ed25519 authenticity signature metadata and tag.
#[derive(Debug, Clone, Copy, PartialEq, Eq)]
pub struct DetachedEd25519Signature {
    /// Key identifier used by sender to select verification key.
    pub key_id: u32,
    /// Raw payload length covered by this signature.
    pub payload_len: u32,
    /// Ed25519 signature bytes.
    pub signature: [u8; 64],
}

/// The 16-byte truncated keyed BLAKE3 tag of `bytes`.
pub open spec fn auth_tag_spec(bytes: Seq<u8>, key: Seq<u8>) -> Seq<u8> {
    Seq::new(16, |i: int| blake3_keyed_digest(key, bytes)[i])
}

/// The 16-byte envelope header of a payload of `len` bytes signed under `key_id`.
pub open spec fn envelope_header_bytes(key_id: u32, len: u32) -> Seq<u8> {
    auth_magic() + seq![1u8, 0u8] + be32(key_id) + be32(len) + seq![0u8, 0u8]
}

/// The sealed envelope of `payload`: header, payload, tag.
pub open spec fn sealed_spec(payload: Seq<u8>, key: Seq<u8>, key_id: u32) -> Seq<u8> {
    let signed = envelope_header_bytes(key_id, payload.len() as u32) + payload;
    signed + auth_tag_spec(signed, key)
}

/// Opening an envelope once the verification key (if any) for its key id is known.
pub open spec fn open_with_key_spec(bytes: Seq<u8>, key: Option<Seq<u8>>) -> Result<
    (AuthEnvelopeHeader, Seq<u8>),
    GlyphError,
> {
    let key_id = read_be32(bytes, 6);
    let payload_len = read_be32(bytes, 10) as int;
    let signed_end = 16 + payload_len;
    if bytes.len() < 32 || bytes.subrange(0, 4) != auth_magic() || bytes[4] != 1u8 {
        Err(GlyphError::InvalidAuthenticityEnvelope)
    } else if bytes.len() < signed_end + 16 {
        Err(GlyphError::InvalidAuthenticityEnvelope)
    } else {
        match key {
            None => Err(GlyphError::UnknownAuthenticityKey(key_id)),
            Some(k) => if bytes.subrange(signed_end, signed_end + 16) != auth_tag_spec(
                bytes.subrange(0, signed_end),
                k,
            ) {
                Err(GlyphError::AuthenticityMismatch)
            } else {
                Ok(
                    (
                        AuthEnvelopeHeader { key_id, payload_len: payload_len as u32 },
                        bytes.subrange(16, signed_end),
                    ),
                )
            },
        }
    }
}

/// Whether `bytes` passes the structural envelope checks (magic, version, length).
pub open spec fn envelope_structurally_valid(bytes: Seq<u8>) -> bool {
    &&& bytes.len() >= 32
    &&& bytes.subrange(0, 4) == auth_magic()
    &&& bytes[4] == 1u8
    &&& bytes.len() >= 32 + read_be32(bytes, 10)
}

fn auth_tag(bytes: &[u8], key: &[u8; 32]) -> (r: [u8; 16])
    ensures
        r@ == auth_tag_spec(bytes@, key@),
{
    let hash = blake3_keyed_hash(key, bytes);
    let mut out = [0u8; 16];
    let mut i: usize = 0;
    while i < 16
        invariant
            i <= 16,
            out@.len() == 16,
            hash@ == blake3_keyed_digest(key@, bytes@),
            hash@.len() == 32,
            forall|j: int| 0 <= j < i ==> out@[j] == hash@[j],
        decreases 16 - i,
    {
        out[i] = hash[i];
        i = i + 1;
    }
    assert(out@ =~= auth_tag_spec(bytes@, key@));
    out
}

/// Build an embedded authenticity envelope using BLAKE3 keyed MAC.
pub fn seal_payload(payload: &[u8], key: &[u8; 32], key_id: u32) -> (r: Vec<u8>)
    ensures
        r@ == sealed_spec(payload@, key@, key_id),
{
    let mut out: Vec<u8> = Vec::new();
    out.push(71u8);
    out.push(65u8);
    out.push(85u8);
    out.push(84u8);
    out.push(1u8);
    out.push(0u8);
    assert(out@ =~= auth_magic() + seq![1u8, 0u8]);
    push_be32(&mut out, key_id);
    #[verifier::truncate]
    let len32 = payload.len() as u32;
    push_be32(&mut out, len32);
    let ghost before = out@;
    out.push(0u8);
    out.push(0u8);
    assert(out@ =~= before + seq![0u8, 0u8]);
    assert(out@ == envelope_header_bytes(key_id, payload@.len() as u32));
    push_all(&mut out, payload);
    let tag = auth_tag(out.as_slice(), key);
    push_all(&mut out, &tag);
    out
}

/// Parse and verify an embedded authenticity envelope given the verification key for
/// its key id, or `None` when no key is known.
pub fn open_payload_with_key(bytes: &[u8], key: Option<[u8; 32]>) -> (r: Result<
    (AuthEnvelopeHeader, Vec<u8>),
    GlyphError,
>)
    ensures
        match r {
            Ok((h, p)) => open_with_key_spec(
                bytes@,
                match key {
                    Some(k) => Some(k@),
                    None => None,
                },
            ) == Ok::<(AuthEnvelopeHeader, Seq<u8>), GlyphError>((h, p@)),
            Err(e) => open_with_key_spec(
                bytes@,
                match key {
                    Some(k) => Some(k@),
                    None => None,
                },
            ) == Err::<(AuthEnvelopeHeader, Seq<u8>), GlyphError>(e),
        },
{
    if bytes.len() < 32 {
        return Err(GlyphError::InvalidAuthenticityEnvelope);
    }
    let magic: [u8; 4] = [71u8, 65u8, 85u8, 84u8];
    proof {
        assert(magic@ =~= auth_magic());
    }
    if !bytes_equal_at(bytes, 0, &magic) || bytes[4] != 1u8 {
        return Err(GlyphError::InvalidAuthenticityEnvelope);
    }
    let key_id = get_be32(bytes, 6);
    let payload_len = get_be32(bytes, 10);
    if (bytes.len() as u64) < 32u64 + payload_len as u64 {
        return Err(GlyphError::InvalidAuthenticityEnvelope);
    }
    let signed_end = 16 + payload_len as usize;
    let k = match key {
        Some(k) => k,
        None => return Err(GlyphError::UnknownAuthenticityKey(key_id)),
    };
    let signed = copy_range(bytes, 0, signed_end);
    let expected = auth_tag(signed.as_slice(), &k);
    if !bytes_equal_at(bytes, signed_end, &expected) {
        return Err(GlyphError::AuthenticityMismatch);
    }
    let payload = copy_range(bytes, 16, signed_end);
    Ok((AuthEnvelopeHeader { key_id, payload_len }, payload))
}

/// Parse and verify an embedded authenticity envelope, asking `key_lookup` for the
/// verification key of its key id.
pub fn open_payload<F: Fn(u32) -> Option<[u8; 32]>>(bytes: &[u8], key_lookup: F) -> (r: Result<
    (AuthEnvelopeHeader, Vec<u8>),
    GlyphError,
>)
    requires
        forall|id: u32| call_requires(key_lookup, (id,)),
    ensures
        !envelope_structurally_valid(bytes@) ==> r == Err::<(AuthEnvelopeHeader, Vec<u8>), GlyphError>(
            GlyphError::InvalidAuthenticityEnvelope,
        ),
        envelope_structurally_valid(bytes@) ==> exists|key: Option<[u8; 32]>|
            call_ensures(key_lookup, (read_be32(bytes@, 6),), key) && match r {
                Ok((h, p)) => open_with_key_spec(
                    bytes@,
                    match key {
                        Some(k) => Some(k@),
                        None => None,
                    },
                ) == Ok::<(AuthEnvelopeHeader, Seq<u8>), GlyphError>((h, p@)),
                Err(e) => open_with_key_spec(
                    bytes@,
                    match key {
                        Some(k) => Some(k@),
                        None => None,
                    },
                ) == Err::<(AuthEnvelopeHeader, Seq<u8>), GlyphError>(e),
            },
{
    match extract_auth_envelope_key_id(bytes) {
        None => {
            return Err(GlyphError::InvalidAuthenticityEnvelope);
        },
        Some(key_id) => {
            if bytes.len() < 32 {
                return Err(GlyphError::InvalidAuthenticityEnvelope);
            }
            let payload_len = get_be32(bytes, 10);
            if (bytes.len() as u64) < 32u64 + payload_len as u64 {
                return Err(GlyphError::InvalidAuthenticityEnvelope);
            }
            let key = key_lookup(key_id);
            open_payload_with_key(bytes, key)
        },
    }
}

/// The bytes a detached keyed signature covers.
pub open spec fn detached_message(payload: Seq<u8>, key_id: u32) -> Seq<u8> {
    detached_magic() + seq![1u8, 0u8] + be32(key_id) + be32(payload.len() as u32) + payload
}

/// The detached keyed signature of `payload`.
pub open spec fn detached_signature_spec(payload: Seq<u8>, key: Seq<u8>, key_id: u32) -> (
    u32,
    u32,
    Seq<u8>,
) {
    (key_id, payload.len() as u32, auth_tag_spec(detached_message(payload, key_id), key))
}

/// Create a detached authenticity signature over the raw payload.
pub fn sign_detached_payload(payload: &[u8], key: &[u8; 32], key_id: u32) -> (r: DetachedAuthSignature)
    ensures
        (r.key_id, r.payload_len, r.tag@) == detached_signature_spec(payload@, key@, key_id),
{
    let mut to_sign: Vec<u8> = Vec::new();
    to_sign.push(71u8);
    to_sign.push(68u8);
    to_sign.push(83u8);
    to_sign.push(71u8);
    to_sign.push(1u8);
    to_sign.push(0u8);
    assert(to_sign@ =~= detached_magic() + seq![1u8, 0u8]);
    push_be32(&mut to_sign, key_id);
    #[verifier::truncate]
    let len32 = payload.len() as u32;
    push_be32(&mut to_sign, len32);
    push_all(&mut to_sign, payload);
    DetachedAuthSignature { key_id, payload_len: len32, tag: auth_tag(to_sign.as_slice(), key) }
}

/// Verifying a detached keyed signature once the verification key (if any) is known.
pub open spec fn verify_detached_with_key_spec(
    payload: Seq<u8>,
    signature: (u32, u32, Seq<u8>),
    key: Option<Seq<u8>>,
) -> Result<(), GlyphError> {
    if signature.1 != payload.len() as u32 {
        Err(GlyphError::AuthenticityMismatch)
    } else {
        match key {
            None => Err(GlyphError::UnknownAuthenticityKey(signature.0)),
            Some(k) => if detached_signature_spec(payload, k, signature.0).2 != signature.2 {
                Err(GlyphError::AuthenticityMismatch)
            } else {
                Ok(())
            },
        }
    }
}

/// Verify a detached authenticity signature once the verification key (if any) for
/// its key id is known.
pub fn verify_detached_payload_with_key(
    payload: &[u8],
    signature: &DetachedAuthSignature,
    key: Option<[u8; 32]>,
) -> (r: Result<(), GlyphError>)
    ensures
        r == verify_detached_with_key_spec(
            payload@,
            (signature.key_id, signature.payload_len, signature.tag@),
            match key {
                Some(k) => Some(k@),
                None => None,
            },
        ),
{
    #[verifier::truncate]
    let len32 = payload.len() as u32;
    if signature.payload_len != len32 {
        return Err(GlyphError::AuthenticityMismatch);
    }
    let k = match key {
        Some(k) => k,
        None => return Err(GlyphError::UnknownAuthenticityKey(signature.key_id)),
    };
    let expected = sign_detached_payload(payload, &k, signature.key_id);
    let provided = signature.tag;
    if !bytes_equal_at(&expected.tag, 0, &provided) {
        proof {
            assert(expected.tag@.subrange(0, 16) =~= expected.tag@);
        }
        return Err(GlyphError::AuthenticityMismatch);
    }
    proof {
        assert(expected.tag@.subrange(0, 16) =~= expected.tag@);
    }
    Ok(())
}

/// Verify a detached authenticity signature over the raw payload, asking `key_lookup`
/// for the verification key of its key id.
pub fn verify_detached_payload<F: Fn(u32) -> Option<[u8; 32]>>(
    payload: &[u8],
    signature: &DetachedAuthSignature,
    key_lookup: F,
) -> (r: Result<(), GlyphError>)
    requires
        forall|id: u32| call_requires(key_lookup, (id,)),
    ensures
        signature.payload_len != payload@.len() as u32 ==> r == Err::<(), GlyphError>(
            GlyphError::AuthenticityMismatch,
        ),
        signature.payload_len == payload@.len() as u32 ==> exists|key: Option<[u8; 32]>|
            call_ensures(key_lookup, (signature.key_id,), key) && r
                == verify_detached_with_key_spec(
                payload@,
                (signature.key_id, signature.payload_len, signature.tag@),
                match key {
                    Some(k) => Some(k@),
                    None => None,
                },
            ),
{
    #[verifier::truncate]
    let len32 = payload.len() as u32;
    if signature.payload_len != len32 {
        return Err(GlyphError::AuthenticityMismatch);
    }
    let key = key_lookup(signature.key_id);
    verify_detached_payload_with_key(payload, signature, key)
}

/// The bytes a detached Ed25519 signature covers.
pub open spec fn detached_ed25519_message_spec(payload: Seq<u8>, key_id: u32) -> Seq<u8> {
    detached_ed25519_magic() + seq![1u8, 0u8] + be32(key_id) + be32(payload.len() as u32) + payload
}

fn detached_ed25519_message(payload: &[u8], key_id: u32) -> (r: Vec<u8>)
    ensures
        r@ == detached_ed25519_message_spec(payload@, key_id),
{
    let mut message: Vec<u8> = Vec::new();
    message.push(71u8);
    message.push(68u8);
    message.push(69u8);
    message.push(50u8);
    message.push(1u8);
    message.push(0u8);
    assert(message@ =~= detached_ed25519_magic() + seq![1u8, 0u8]);
    push_be32(&mut message, key_id);
    #[verifier::truncate]
    let len32 = payload.len() as u32;
    push_be32(&mut message, len32);
    push_all(&mut message, payload);
    message
}

/// Create a detached Ed25519 signature over the raw payload with a 32-byte signing key.
pub fn sign_detached_payload_ed25519(payload: &[u8], signing_key: &[u8; 32], key_id: u32) -> (r:
    DetachedEd25519Signature)
    ensures
        r.key_id == key_id,
        r.payload_len == payload@.len() as u32,
        r.signature@ == ed25519_signature_of(
            signing_key@,
            detached_ed25519_message_spec(payload@, key_id),
        ),
{
    let message = detached_ed25519_message(payload, key_id);
    let signature = ed25519_sign(signing_key, message.as_slice());
    #[verifier::truncate]
    let len32 = payload.len() as u32;
    DetachedEd25519Signature { key_id, payload_len: len32, signature }
}

/// Verifying a detached Ed25519 signature once the public key (if any) is known.
pub open spec fn verify_ed25519_with_key_spec(
    payload: Seq<u8>,
    signature: (u32, u32, Seq<u8>),
    public_key: Option<Seq<u8>>,
) -> Result<(), GlyphError> {
    if signature.1 != payload.len() as u32 {
        Err(GlyphError::AuthenticityMismatch)
    } else {
        match public_key {
            None => Err(GlyphError::UnknownAuthenticityKey(signature.0)),
            Some(k) => if !ed25519_public_key_valid(k) {
                Err(GlyphError::InvalidAuthenticityKeyMaterial)
            } else if !ed25519_accepts(
                k,
                detached_ed25519_message_spec(payload, signature.0),
                signature.2,
            ) {
                Err(GlyphError::AuthenticityMismatch)
            } else {
                Ok(())
            },
        }
    }
}

/// Verify a detached Ed25519 signature once the public key (if any) for its key id is
/// known.
pub fn verify_detached_payload_ed25519_with_key(
    payload: &[u8],
    signature: &DetachedEd25519Signature,
    public_key: Option<[u8; 32]>,
) -> (r: Result<(), GlyphError>)
    ensures
        r == verify_ed25519_with_key_spec(
            payload@,
            (signature.key_id, signature.payload_len, signature.signature@),
            match public_key {
                Some(k) => Some(k@),
                None => None,
            },
        ),
{
    #[verifier::truncate]
    let len32 = payload.len() as u32;
    if signature.payload_len != len32 {
        return Err(GlyphError::AuthenticityMismatch);
    }
    let pk = match public_key {
        Some(k) => k,
        None => return Err(GlyphError::UnknownAuthenticityKey(signature.key_id)),
    };
    if !ed25519_key_decodes(&pk) {
        return Err(GlyphError::InvalidAuthenticityKeyMaterial);
    }
    let message = detached_ed25519_message(payload, signature.key_id);
    if !ed25519_verify(&pk, message.as_slice(), &signature.signature) {
        return Err(GlyphError::AuthenticityMismatch);
    }
    Ok(())
}

/// Verify a detached Ed25519 signature over the raw payload, asking `key_lookup` for the
/// public key of its key id.
pub fn verify_detached_payload_ed25519<F: Fn(u32) -> Option<[u8; 32]>>(
    payload: &[u8],
    signature: &DetachedEd25519Signature,
    key_lookup: F,
) -> (r: Result<(), GlyphError>)
    requires
        forall|id: u32| call_requires(key_lookup, (id,)),
    ensures
        signature.payload_len != payload@.len() as u32 ==> r == Err::<(), GlyphError>(
            GlyphError::AuthenticityMismatch,
        ),
        signature.payload_len == payload@.len() as u32 ==> exists|key: Option<[u8; 32]>|
            call_ensures(key_lookup, (signature.key_id,), key) && r
                == verify_ed25519_with_key_spec(
                payload@,
                (signature.key_id, signature.payload_len, signature.signature@),
                match key {
                    Some(k) => Some(k@),
                    None => None,
                },
            ),
{
    #[verifier::truncate]
    let len32 = payload.len() as u32;
    if signature.payload_len != len32 {
        return Err(GlyphError::AuthenticityMismatch);
    }
    let key = key_lookup(signature.key_id);
    verify_detached_payload_ed25519_with_key(payload, signature, key)
}

/// Opening a sealed envelope with the sealing key gives back the key id, the payload
/// length and the payload.
pub proof fn lemma_seal_open_roundtrip(payload: Seq<u8>, key: Seq<u8>, key_id: u32)
    requires
        payload.len() <= u32::MAX,
    ensures
        open_with_key_spec(sealed_spec(payload, key, key_id), Some(key)) == Ok::<
            (AuthEnvelopeHeader, Seq<u8>),
            GlyphError,
        >((AuthEnvelopeHeader { key_id, payload_len: payload.len() as u32 }, payload)),
        envelope_key_id_spec(sealed_spec(payload, key, key_id)) == Some(key_id),
        envelope_structurally_valid(sealed_spec(payload, key, key_id)),
{
    let signed = envelope_header_bytes(key_id, payload.len() as u32) + payload;
    let b = sealed_spec(payload, key, key_id);
    let n = payload.len() as u32;
    assert(n == payload.len());
    assert(b.subrange(0, 4) =~= auth_magic());
    assert(b.subrange(6, 10) =~= be32(key_id));
    assert(b.subrange(10, 14) =~= be32(n));
    crate::wire::lemma_be32_roundtrip(key_id);
    crate::wire::lemma_be32_roundtrip(n);
    assert(read_be32(b, 6) == read_be32(be32(key_id), 0));
    assert(read_be32(b, 10) == read_be32(be32(n), 0));
    let end = (16 + payload.len()) as int;
    assert(b.subrange(0, end) =~= signed);
    assert(b.subrange(end, end + 16) =~= auth_tag_spec(signed, key));
    assert(b.subrange(16, end) =~= payload);
}

/// A detached keyed signature verifies under the key it was made with.
pub proof fn lemma_detached_roundtrip(payload: Seq<u8>, key: Seq<u8>, key_id: u32)
    ensures
        verify_detached_with_key_spec(
            payload,
            detached_signature_spec(payload, key, key_id),
            Some(key),
        ) == Ok::<(), GlyphError>(()),
{
}

} // verus!
