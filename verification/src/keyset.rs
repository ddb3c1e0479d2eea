//! Keyset documents: issuer-signed lists of verification keys with a validity window.
use vstd::prelude::*;
use vstd::utf8::encode_utf8;

use crate::auth::{
    verify_detached_payload_ed25519_with_key, verify_ed25519_with_key_spec,
    DetachedEd25519Signature,
};
use crate::error::GlyphError;
use crate::hex::{hex_field_spec, parse_key_hex, parse_signature_hex, HexError};
use crate::mode::str_equal;

verus! {

/// Why a keyset document is refused.
#[derive(Debug, Clone, PartialEq, Eq)]
pub enum KeysetError {
    /// No numeric `version`.
    MissingVersion,
    /// A `version` other than 1.
    UnsupportedVersion(u64),
    /// No string `issuer`.
    MissingIssuer,
    /// No string `created_at`.
    MissingCreatedAt,
    /// No string `expires_at`.
    MissingExpiresAt,
    /// `created_at` is not an RFC 3339 timestamp.
    InvalidCreatedAt,
    /// `expires_at` is not an RFC 3339 timestamp.
    InvalidExpiresAt,
    /// `expires_at` is not after `created_at`.
    ExpiresNotAfterCreated,
    /// No `keys` array.
    MissingKeys,
    /// An empty `keys` array.
    EmptyKeys,
    /// A key without a numeric `key_id`.
    MissingKeyId,
    /// A key without a string `alg`.
    MissingAlgorithm,
    /// A `mac-blake3` key without a string `key_hex`.
    MissingMacKeyHex,
    /// An `ed25519` key without a string `public_key_hex`.
    MissingPublicKeyHex,
    /// Key material that is not 32 bytes of hex.
    InvalidKeyHex(HexError),
    /// A key algorithm other than `mac-blake3` and `ed25519`.
    UnsupportedAlgorithm(String),
    /// The current time is before `created_at`.
    NotYetValid,
    /// The current time is after `expires_at`.
    Expired,
    /// No `signature` object.
    MissingSignature,
    /// No string `signature_alg` in the signature.
    MissingSignatureAlgorithm,
    /// A signature algorithm other than `ed25519`.
    UnsupportedSignatureAlgorithm(String),
    /// No string `signature_hex` in the signature.
    MissingSignatureHex,
    /// Signature material that is not 64 bytes of hex.
    InvalidSignatureHex(HexError),
    /// The signature does not verify.
    Signature(GlyphError),
}

/// One entry of a keyset's `keys` array, as far as it holds the fields validation
/// reads.
#[derive(Debug, Clone)]
pub struct KeysetKey {
    /// Numeric `key_id`.
    pub key_id: Option<u64>,
    /// String `alg`.
    pub alg: Option<String>,
    /// String `key_hex` (MAC keys).
    pub key_hex: Option<String>,
    /// String `public_key_hex` (Ed25519 keys).
    pub public_key_hex: Option<String>,
}

/// The fields of a keyset document that validation reads.
#[derive(Debug, Clone)]
pub struct KeysetDocument {
    /// Numeric `version`.
    pub version: Option<u64>,
    /// String `issuer`.
    pub issuer: Option<String>,
    /// String `created_at`.
    pub created_at: Option<String>,
    /// String `expires_at`.
    pub expires_at: Option<String>,
    /// The `keys` array.
    pub keys: Option<Vec<KeysetKey>>,
}

/// A keyset's `signature` object, as far as verification reads it.
#[derive(Debug, Clone)]
pub struct KeysetSignature {
    /// String `signature_alg`.
    pub signature_alg: Option<String>,
    /// String `signature_hex`.
    pub signature_hex: Option<String>,
}

/// Whether `c` has Unicode's `White_Space` property, the whitespace that
/// `char::is_whitespace` and `str::trim` go by.
pub open spec fn is_white_space(c: char) -> bool {
    let v = c as u32;
    ||| 0x09 <= v <= 0x0D
    ||| v == 0x20
    ||| v == 0x85
    ||| v == 0xA0
    ||| v == 0x1680
    ||| 0x2000 <= v <= 0x200A
    ||| v == 0x2028
    ||| v == 0x2029
    ||| v == 0x202F
    ||| v == 0x205F
    ||| v == 0x3000
}

/// The text without its leading whitespace.
pub open spec fn trim_start_spec(text: Seq<char>) -> Seq<char>
    decreases text.len(),
{
    if text.len() > 0 && is_white_space(text[0]) {
        trim_start_spec(text.drop_first())
    } else {
        text
    }
}

/// The text without its trailing whitespace.
pub open spec fn trim_end_spec(text: Seq<char>) -> Seq<char>
    decreases text.len(),
{
    if text.len() > 0 && is_white_space(text.last()) {
        trim_end_spec(text.drop_last())
    } else {
        text
    }
}

/// The text with leading and trailing whitespace removed, as `str::trim` gives it.
pub open spec fn trimmed(text: Seq<char>) -> Seq<char> {
    trim_end_spec(trim_start_spec(text))
}

/// The instant, in nanoseconds since the Unix epoch, that an RFC 3339 timestamp
/// names, as the `time` crate parses it; `None` when it is not one.
pub uninterp spec fn rfc3339_nanos(text: Seq<char>) -> Option<int>;

/// `str::trim`: the text without leading and trailing whitespace.
///
/// Trusted: std documents `trim` as removing leading and trailing characters of
/// Unicode's `White_Space` property, which `trimmed` states.
#[verifier::external_body]
fn trim_text(text: &str) -> (r: &str)
    ensures
        r@ == trimmed(text@),
{
    text.trim()
}

/// `time::OffsetDateTime::parse` with the RFC 3339 format: the instant named, in
/// nanoseconds since the Unix epoch; `None` when the text is not an RFC 3339
/// timestamp. Nothing is stated of which texts parse.
#[verifier::external_body]
fn parse_rfc3339(text: &str) -> (r: Option<i128>)
    ensures
        r matches Some(n) ==> rfc3339_nanos(text@) == Some(n as int),
        r is None ==> rfc3339_nanos(text@) is None,
{
    match time::OffsetDateTime::parse(text, &time::format_description::well_known::Rfc3339) {
        Ok(t) => Some(t.unix_timestamp_nanos()),
        Err(_) => None,
    }
}

/// Key material written as hex, read the way keys are: trimmed, then 32 bytes.
pub open spec fn key_material_spec(text: Seq<char>) -> Result<Seq<u8>, HexError> {
    hex_field_spec(encode_utf8(trimmed(text)), 32)
}

/// Read 32-byte key material written as hex, ignoring surrounding whitespace.
pub fn parse_auth_key_hex(text: &str) -> (r: Result<[u8; 32], HexError>)
    ensures
        r matches Ok(k) ==> key_material_spec(text@) == Ok::<Seq<u8>, HexError>(k@),
        r matches Err(e) ==> key_material_spec(text@) == Err::<Seq<u8>, HexError>(e),
{
    let normalized = trim_text(text);
    parse_key_hex(normalized.as_bytes())
}

/// Why one key entry is refused, if it is.
pub open spec fn key_error_spec(key: KeysetKey) -> Option<KeysetError> {
    if key.key_id is None {
        Some(KeysetError::MissingKeyId)
    } else {
        match key.alg {
            None => Some(KeysetError::MissingAlgorithm),
            Some(alg) => if alg@ == "mac-blake3"@ {
                match key.key_hex {
                    None => Some(KeysetError::MissingMacKeyHex),
                    Some(h) => match key_material_spec(h@) {
                        Err(e) => Some(KeysetError::InvalidKeyHex(e)),
                        Ok(_) => None,
                    },
                }
            } else if alg@ == "ed25519"@ {
                match key.public_key_hex {
                    None => Some(KeysetError::MissingPublicKeyHex),
                    Some(h) => match key_material_spec(h@) {
                        Err(e) => Some(KeysetError::InvalidKeyHex(e)),
                        Ok(_) => None,
                    },
                }
            } else {
                Some(KeysetError::UnsupportedAlgorithm(alg))
            },
        }
    }
}

/// The first refused key among the first `n`.
pub open spec fn first_key_error(keys: Seq<KeysetKey>, n: int) -> Option<KeysetError>
    decreases n,
{
    if n <= 0 {
        None
    } else {
        match first_key_error(keys, n - 1) {
            Some(e) => Some(e),
            None => key_error_spec(keys[n - 1]),
        }
    }
}

/// The validity window of a keyset: its creation and expiry instants.
pub open spec fn keyset_window_spec(doc: KeysetDocument) -> Result<(int, int), KeysetError> {
    match doc.version {
        None => Err(KeysetError::MissingVersion),
        Some(v) => if v != 1 {
            Err(KeysetError::UnsupportedVersion(v))
        } else if doc.issuer is None {
            Err(KeysetError::MissingIssuer)
        } else {
            match (doc.created_at, doc.expires_at) {
                (None, _) => Err(KeysetError::MissingCreatedAt),
                (Some(_), None) => Err(KeysetError::MissingExpiresAt),
                (Some(c), Some(x)) => match rfc3339_nanos(c@) {
                    None => Err(KeysetError::InvalidCreatedAt),
                    Some(created) => match rfc3339_nanos(x@) {
                        None => Err(KeysetError::InvalidExpiresAt),
                        Some(expires) => if expires <= created {
                            Err(KeysetError::ExpiresNotAfterCreated)
                        } else {
                            Ok((created, expires))
                        },
                    },
                },
            }
        },
    }
}

/// The outcome of validating a keyset document: the first rule it breaks, in the
/// order version, issuer, timestamps, window, keys array, each key in order.
pub open spec fn keyset_spec(doc: KeysetDocument) -> Result<(), KeysetError> {
    match keyset_window_spec(doc) {
        Err(e) => Err(e),
        Ok(_) => match doc.keys {
            None => Err(KeysetError::MissingKeys),
            Some(keys) => if keys@.len() == 0 {
                Err(KeysetError::EmptyKeys)
            } else {
                match first_key_error(keys@, keys@.len() as int) {
                    Some(e) => Err(e),
                    None => Ok(()),
                }
            },
        },
    }
}

fn check_key(key: &KeysetKey) -> (r: Option<KeysetError>)
    ensures
        r == key_error_spec(*key),
{
    if key.key_id.is_none() {
        return Some(KeysetError::MissingKeyId);
    }
    let alg = match &key.alg {
        None => return Some(KeysetError::MissingAlgorithm),
        Some(a) => a,
    };
    let mac = "mac-blake3";
    let ed = "ed25519";
    proof {
        reveal_strlit("mac-blake3");
        reveal_strlit("ed25519");
    }
    if str_equal(alg.as_str(), mac) {
        match &key.key_hex {
            None => Some(KeysetError::MissingMacKeyHex),
            Some(h) => match parse_auth_key_hex(h.as_str()) {
                Err(e) => Some(KeysetError::InvalidKeyHex(e)),
                Ok(_) => None,
            },
        }
    } else if str_equal(alg.as_str(), ed) {
        match &key.public_key_hex {
            None => Some(KeysetError::MissingPublicKeyHex),
            Some(h) => match parse_auth_key_hex(h.as_str()) {
                Err(e) => Some(KeysetError::InvalidKeyHex(e)),
                Ok(_) => None,
            },
        }
    } else {
        Some(KeysetError::UnsupportedAlgorithm(alg.clone()))
    }
}

/// The creation and expiry instants of a keyset, once its header fields check out.
pub fn keyset_window(doc: &KeysetDocument) -> (r: Result<(i128, i128), KeysetError>)
    ensures
        r matches Ok((c, x)) ==> keyset_window_spec(*doc) == Ok::<(int, int), KeysetError>(
            (c as int, x as int),
        ),
        r matches Err(e) ==> keyset_window_spec(*doc) == Err::<(int, int), KeysetError>(e),
{
    let version = match doc.version {
        None => return Err(KeysetError::MissingVersion),
        Some(v) => v,
    };
    if version != 1 {
        return Err(KeysetError::UnsupportedVersion(version));
    }
    if doc.issuer.is_none() {
        return Err(KeysetError::MissingIssuer);
    }
    let created_at = match &doc.created_at {
        None => return Err(KeysetError::MissingCreatedAt),
        Some(c) => c,
    };
    let expires_at = match &doc.expires_at {
        None => return Err(KeysetError::MissingExpiresAt),
        Some(x) => x,
    };
    let created = match parse_rfc3339(created_at.as_str()) {
        None => return Err(KeysetError::InvalidCreatedAt),
        Some(c) => c,
    };
    let expires = match parse_rfc3339(expires_at.as_str()) {
        None => return Err(KeysetError::InvalidExpiresAt),
        Some(x) => x,
    };
    if expires <= created {
        return Err(KeysetError::ExpiresNotAfterCreated);
    }
    Ok((created, expires))
}

/// Validate a keyset document: version 1, an issuer, RFC 3339 timestamps with expiry
/// after creation, and a non-empty list of keys each with an id, a supported
/// algorithm and 32 bytes of hex key material.
pub fn validate_keyset(doc: &KeysetDocument) -> (r: Result<(), KeysetError>)
    ensures
        r == keyset_spec(*doc),
{
    match keyset_window(doc) {
        Err(e) => return Err(e),
        Ok(_) => {},
    }
    let keys = match &doc.keys {
        None => return Err(KeysetError::MissingKeys),
        Some(k) => k,
    };
    if keys.len() == 0 {
        return Err(KeysetError::EmptyKeys);
    }
    let mut i: usize = 0;
    while i < keys.len()
        invariant
            i <= keys@.len(),
            keys@.len() > 0,
            keyset_window_spec(*doc) is Ok,
            doc.keys == Some(*keys),
            first_key_error(keys@, i as int) is None,
        decreases keys@.len() - i,
    {
        match check_key(&keys[i]) {
            Some(e) => {
                proof {
                    lemma_first_key_error_stays(keys@, i as int, keys@.len() as int);
                }
                return Err(e);
            },
            None => {},
        }
        i = i + 1;
    }
    Ok(())
}

proof fn lemma_first_key_error_stays(keys: Seq<KeysetKey>, i: int, n: int)
    requires
        0 <= i < n,
        first_key_error(keys, i) is None,
        key_error_spec(keys[i]) is Some,
    ensures
        first_key_error(keys, n) == key_error_spec(keys[i]),
    decreases n,
{
    if n > i + 1 {
        lemma_first_key_error_stays(keys, i, n - 1);
    }
}

/// Check that `now` (nanoseconds since the Unix epoch) lies within a valid keyset's
/// window: not before its creation and not after its expiry.
pub fn check_keyset_window(doc: &KeysetDocument, now: i128) -> (r: Result<(), KeysetError>)
    ensures
        match keyset_window_spec(*doc) {
            Err(e) => r == Err::<(), KeysetError>(e),
            Ok((created, expires)) => if now < created {
                r == Err::<(), KeysetError>(KeysetError::NotYetValid)
            } else if now > expires {
                r == Err::<(), KeysetError>(KeysetError::Expired)
            } else {
                r == Ok::<(), KeysetError>(())
            },
        },
{
    let (created, expires) = match keyset_window(doc) {
        Err(e) => return Err(e),
        Ok(w) => w,
    };
    if now < created {
        return Err(KeysetError::NotYetValid);
    }
    if now > expires {
        return Err(KeysetError::Expired);
    }
    Ok(())
}

/// The outcome of checking a keyset's root signature over its canonical `payload`
/// with the root public key written as `root_key_hex`.
pub open spec fn keyset_signature_spec(
    sig: KeysetSignature,
    root_key_hex: Seq<char>,
    payload: Seq<u8>,
) -> Result<(), KeysetError> {
    match sig.signature_alg {
        None => Err(KeysetError::MissingSignatureAlgorithm),
        Some(alg) => if alg@ != "ed25519"@ {
            Err(KeysetError::UnsupportedSignatureAlgorithm(alg))
        } else {
            match sig.signature_hex {
                None => Err(KeysetError::MissingSignatureHex),
                Some(h) => match hex_field_spec(encode_utf8(h@), 64) {
                    Err(e) => Err(KeysetError::InvalidSignatureHex(e)),
                    Ok(signature) => match key_material_spec(root_key_hex) {
                        Err(e) => Err(KeysetError::InvalidKeyHex(e)),
                        Ok(key) => match verify_ed25519_with_key_spec(
                            payload,
                            (0u32, payload.len() as u32, signature),
                            Some(key),
                        ) {
                            Err(e) => Err(KeysetError::Signature(e)),
                            Ok(()) => Ok(()),
                        },
                    },
                },
            }
        },
    }
}

/// Check a keyset's root signature over its canonical payload bytes: an `ed25519`
/// signature under key id 0, verified with the root public key.
pub fn verify_keyset_signature(
    signature: &Option<KeysetSignature>,
    root_key_hex: &str,
    payload: &[u8],
) -> (r: Result<(), KeysetError>)
    ensures
        match signature {
            None => r == Err::<(), KeysetError>(KeysetError::MissingSignature),
            Some(sig) => r == keyset_signature_spec(*sig, root_key_hex@, payload@),
        },
{
    let sig = match signature {
        None => return Err(KeysetError::MissingSignature),
        Some(s) => s,
    };
    let alg = match &sig.signature_alg {
        None => return Err(KeysetError::MissingSignatureAlgorithm),
        Some(a) => a,
    };
    let ed = "ed25519";
    proof {
        reveal_strlit("ed25519");
    }
    if !str_equal(alg.as_str(), ed) {
        return Err(KeysetError::UnsupportedSignatureAlgorithm(alg.clone()));
    }
    let signature_hex = match &sig.signature_hex {
        None => return Err(KeysetError::MissingSignatureHex),
        Some(h) => h,
    };
    let signature_bytes = match parse_signature_hex(signature_hex.as_str().as_bytes()) {
        Err(e) => return Err(KeysetError::InvalidSignatureHex(e)),
        Ok(s) => s,
    };
    let public_key = match parse_auth_key_hex(root_key_hex) {
        Err(e) => return Err(KeysetError::InvalidKeyHex(e)),
        Ok(k) => k,
    };
    #[verifier::truncate]
    let payload_len = payload.len() as u32;
    let detached = DetachedEd25519Signature { key_id: 0, payload_len, signature: signature_bytes };
    match verify_detached_payload_ed25519_with_key(payload, &detached, Some(public_key)) {
        Err(e) => Err(KeysetError::Signature(e)),
        Ok(()) => Ok(()),
    }
}

} // verus!
