//! Verification keyrings and the authenticity report of a decoded payload.
use vstd::prelude::*;

use crate::auth::{
    extract_auth_envelope_key_id, open_payload_with_key, open_with_key_spec,
    verify_detached_payload_ed25519_with_key, verify_detached_payload_with_key,
    verify_detached_with_key_spec, verify_ed25519_with_key_spec, DetachedAuthSignature,
    DetachedEd25519Signature,
};
use crate::error::GlyphError;

verus! {

/// The key stored under `id` among the first `n` entries: the last one stored.
pub open spec fn key_in(entries: Seq<(u32, [u8; 32])>, id: u32, n: int) -> Option<[u8; 32]>
    decreases n,
{
    if n <= 0 {
        None
    } else if entries[n - 1].0 == id {
        Some(entries[n - 1].1)
    } else {
        key_in(entries, id, n - 1)
    }
}

/// Verification keys by key id: MAC keys and Ed25519 public keys. Storing a key under
/// an id that already has one replaces it.
#[derive(Debug, Clone, Default)]
pub struct VerificationKeyring {
    mac_keys: Vec<(u32, [u8; 32])>,
    ed25519_public_keys: Vec<(u32, [u8; 32])>,
}

/// The spec view of an optional key.
pub open spec fn key_view(k: Option<[u8; 32]>) -> Option<Seq<u8>> {
    match k {
        Some(k) => Some(k@),
        None => None,
    }
}

fn find_key(entries: &Vec<(u32, [u8; 32])>, id: u32) -> (r: Option<[u8; 32]>)
    ensures
        r == key_in(entries@, id, entries@.len() as int),
{
    let mut found: Option<[u8; 32]> = None;
    let mut i: usize = 0;
    while i < entries.len()
        invariant
            i <= entries@.len(),
            found == key_in(entries@, id, i as int),
        decreases entries@.len() - i,
    {
        if entries[i].0 == id {
            found = Some(entries[i].1);
        }
        i = i + 1;
    }
    found
}

impl VerificationKeyring {
    /// The MAC key stored under `id`.
    pub closed spec fn mac_lookup(&self, id: u32) -> Option<[u8; 32]> {
        key_in(self.mac_keys@, id, self.mac_keys@.len() as int)
    }

    /// The Ed25519 public key stored under `id`.
    pub closed spec fn ed25519_lookup(&self, id: u32) -> Option<[u8; 32]> {
        key_in(self.ed25519_public_keys@, id, self.ed25519_public_keys@.len() as int)
    }

    /// No MAC key is stored.
    pub closed spec fn no_mac_keys(&self) -> bool {
        self.mac_keys@.len() == 0
    }

    /// An empty keyring.
    pub fn new() -> (r: Self)
        ensures
            r.no_mac_keys(),
            forall|id: u32| r.mac_lookup(id) is None && r.ed25519_lookup(id) is None,
    {
        VerificationKeyring { mac_keys: Vec::new(), ed25519_public_keys: Vec::new() }
    }

    /// Store a MAC key under `id`, replacing any earlier one.
    pub fn insert_mac_key(&mut self, id: u32, key: [u8; 32])
        ensures
            !final(self).no_mac_keys(),
            final(self).mac_lookup(id) == Some(key),
            forall|k: u32| k != id ==> final(self).mac_lookup(k) == old(self).mac_lookup(k),
            forall|k: u32| final(self).ed25519_lookup(k) == old(self).ed25519_lookup(k),
    {
        let ghost before = self.mac_keys@;
        self.mac_keys.push((id, key));
        proof {
            assert forall|k: u32| k != id implies key_in(self.mac_keys@, k, self.mac_keys@.len() as int)
                == key_in(before, k, before.len() as int) by {
                lemma_key_in_prefix(before, (id, key), k, before.len() as int);
            }
        }
    }

    /// Store an Ed25519 public key under `id`, replacing any earlier one.
    pub fn insert_ed25519_public_key(&mut self, id: u32, key: [u8; 32])
        ensures
            final(self).no_mac_keys() == old(self).no_mac_keys(),
            final(self).ed25519_lookup(id) == Some(key),
            forall|k: u32| k != id ==> final(self).ed25519_lookup(k) == old(self).ed25519_lookup(k),
            forall|k: u32| final(self).mac_lookup(k) == old(self).mac_lookup(k),
    {
        let ghost before = self.ed25519_public_keys@;
        self.ed25519_public_keys.push((id, key));
        proof {
            assert forall|k: u32| k != id implies key_in(
                self.ed25519_public_keys@,
                k,
                self.ed25519_public_keys@.len() as int,
            ) == key_in(before, k, before.len() as int) by {
                lemma_key_in_prefix(before, (id, key), k, before.len() as int);
            }
        }
    }

    /// The MAC key stored under `id`.
    pub fn mac_key(&self, id: u32) -> (r: Option<[u8; 32]>)
        ensures
            r == self.mac_lookup(id),
    {
        find_key(&self.mac_keys, id)
    }

    /// The Ed25519 public key stored under `id`.
    pub fn ed25519_public_key(&self, id: u32) -> (r: Option<[u8; 32]>)
        ensures
            r == self.ed25519_lookup(id),
    {
        find_key(&self.ed25519_public_keys, id)
    }

    /// Whether any MAC key is stored.
    pub fn has_mac_keys(&self) -> (r: bool)
        ensures
            r == !self.no_mac_keys(),
    {
        self.mac_keys.len() > 0
    }
}

proof fn lemma_key_in_prefix(s: Seq<(u32, [u8; 32])>, e: (u32, [u8; 32]), id: u32, n: int)
    requires
        0 <= n <= s.len(),
    ensures
        key_in(s.push(e), id, n) == key_in(s, id, n),
    decreases n,
{
    if n > 0 {
        lemma_key_in_prefix(s, e, id, n - 1);
    }
}

/// A detached signature offered alongside a payload.
#[derive(Debug, Clone, Copy, PartialEq, Eq)]
pub enum DetachedVerificationInput {
    /// Keyed BLAKE3 tag.
    Mac(DetachedAuthSignature),
    /// Ed25519 signature.
    Ed25519(DetachedEd25519Signature),
}

/// Why an authenticity check failed.
#[derive(Debug, Clone, PartialEq, Eq)]
pub enum AuthFailure {
    /// Verification reported this error.
    Glyph(GlyphError),
    /// No verification key was configured.
    MissingVerificationKey,
}

/// The authenticity report of a payload: verified or not, under which key id, and why
/// not.
#[derive(Debug, Clone, PartialEq, Eq)]
pub struct AuthCheck {
    /// The signature or envelope verified.
    pub verified: bool,
    /// Key id the check was made for.
    pub key_id: u32,
    /// Why verification failed.
    pub error: Option<AuthFailure>,
}

/// The report of a verification outcome for key id `key_id`.
pub open spec fn check_of(outcome: Result<(), GlyphError>, key_id: u32) -> AuthCheck {
    match outcome {
        Ok(()) => AuthCheck { verified: true, key_id, error: None },
        Err(e) => AuthCheck { verified: false, key_id, error: Some(AuthFailure::Glyph(e)) },
    }
}

/// What the authenticity report of `payload` is: the detached signature's check when one
/// is offered, with the keyring's key for its key id; otherwise no report, for an
/// embedded envelope is first opened without any key, which never succeeds.
pub open spec fn auth_report_spec(
    payload: Seq<u8>,
    keyring: VerificationKeyring,
    detached: Option<DetachedVerificationInput>,
) -> Option<AuthCheck> {
    match detached {
        Some(DetachedVerificationInput::Mac(sig)) => Some(
            check_of(
                verify_detached_with_key_spec(
                    payload,
                    (sig.key_id, sig.payload_len, sig.tag@),
                    key_view(keyring.mac_lookup(sig.key_id)),
                ),
                sig.key_id,
            ),
        ),
        Some(DetachedVerificationInput::Ed25519(sig)) => Some(
            check_of(
                verify_ed25519_with_key_spec(
                    payload,
                    (sig.key_id, sig.payload_len, sig.signature@),
                    key_view(keyring.ed25519_lookup(sig.key_id)),
                ),
                sig.key_id,
            ),
        ),
        None => None,
    }
}

fn report(outcome: Result<(), GlyphError>, key_id: u32) -> (r: AuthCheck)
    ensures
        r == check_of(outcome, key_id),
{
    match outcome {
        Ok(()) => AuthCheck { verified: true, key_id, error: None },
        Err(e) => AuthCheck { verified: false, key_id, error: Some(AuthFailure::Glyph(e)) },
    }
}

/// The authenticity report of a decoded payload, if any: a detached signature is
/// checked with the keyring's key for its key id; without one, an embedded envelope is
/// checked with the keyring's MAC keys, reported under `verify_key_id`.
pub fn verify_auth_payload(
    payload: &[u8],
    keyring: &VerificationKeyring,
    verify_key_id: u32,
    detached: Option<&DetachedVerificationInput>,
) -> (r: Option<AuthCheck>)
    ensures
        r == auth_report_spec(
            payload@,
            *keyring,
            match detached {
                Some(d) => Some(*d),
                None => None,
            },
        ),
{
    match detached {
        Some(DetachedVerificationInput::Mac(signature)) => {
            let key = keyring.mac_key(signature.key_id);
            let outcome = verify_detached_payload_with_key(payload, signature, key);
            Some(report(outcome, signature.key_id))
        },
        Some(DetachedVerificationInput::Ed25519(signature)) => {
            let key = keyring.ed25519_public_key(signature.key_id);
            let outcome = verify_detached_payload_ed25519_with_key(payload, signature, key);
            Some(report(outcome, signature.key_id))
        },
        None => {
            if open_payload_with_key(payload, None).is_err() {
                return None;
            }
            if !keyring.has_mac_keys() {
                return Some(
                    AuthCheck {
                        verified: false,
                        key_id: verify_key_id,
                        error: Some(AuthFailure::MissingVerificationKey),
                    },
                );
            }
            let key = match extract_auth_envelope_key_id(payload) {
                Some(id) => keyring.mac_key(id),
                None => None,
            };
            match open_payload_with_key(payload, key) {
                Ok(_) => Some(AuthCheck { verified: true, key_id: verify_key_id, error: None }),
                Err(e) => Some(
                    AuthCheck {
                        verified: false,
                        key_id: verify_key_id,
                        error: Some(AuthFailure::Glyph(e)),
                    },
                ),
            }
        },
    }
}

} // verus!
