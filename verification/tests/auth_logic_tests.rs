use glyphnet::auth::{sign_detached_payload, sign_detached_payload_ed25519, seal_payload};
use glyphnet::error::GlyphError;
use glyphnet::hex::{decode_hex_field, encode_hex, hex_pair, parse_key_hex, parse_signature_hex, parse_tag_hex, HexError};
use glyphnet::keyring::{verify_auth_payload, AuthFailure, DetachedVerificationInput, VerificationKeyring};
use glyphnet::keyset::{
    check_keyset_window, parse_auth_key_hex, validate_keyset, verify_keyset_signature, KeysetDocument,
    KeysetError, KeysetKey, KeysetSignature,
};
use glyphnet::scanner::{CandidateDetector, ScanTimings};
use glyphnet::testkit::fixture_payloads;

const KEY_HEX: &str = "000102030405060708090a0b0c0d0e0f101112131415161718191a1b1c1d1e1f";

fn key() -> [u8; 32] {
    let mut k = [0u8; 32];
    for (i, b) in k.iter_mut().enumerate() {
        *b = i as u8;
    }
    k
}

#[test]
fn hex_fields_read_like_from_str_radix() {
    assert_eq!(hex_pair(b'f', b'F'), Some(0xff));
    assert_eq!(hex_pair(b'+', b'a'), Some(0x0a));
    assert_eq!(hex_pair(b'-', b'1'), None);
    assert_eq!(hex_pair(b'g', b'0'), None);
    assert_eq!(decode_hex_field(b"00ff7a", 3).unwrap(), vec![0, 255, 0x7a]);
    assert_eq!(decode_hex_field(b"00ff7", 3), Err(HexError::Length { expected: 6, actual: 5 }));
    assert_eq!(decode_hex_field(b"00fz7a", 3), Err(HexError::Digit { at: 2 }));
    assert_eq!(parse_key_hex(KEY_HEX.as_bytes()).unwrap(), key());
    assert_eq!(parse_tag_hex(&[b'a'; 32]).unwrap(), [0xaa; 16]);
    assert_eq!(parse_signature_hex(&[b'1'; 128]).unwrap(), [0x11; 64]);
    assert_eq!(encode_hex(&[0x00, 0xab, 0x7f]), b"00ab7f".to_vec());
    assert_eq!(parse_key_hex(&encode_hex(&key())).unwrap(), key());
}

#[test]
fn auth_key_hex_is_trimmed() {
    let padded = format!("  {}\n", KEY_HEX);
    assert_eq!(parse_auth_key_hex(&padded).unwrap(), key());
    assert_eq!(parse_auth_key_hex("abcd"), Err(HexError::Length { expected: 64, actual: 4 }));
}

#[test]
fn detached_reports_use_keyring() {
    let payload = b"report me";
    let sig = sign_detached_payload(payload, &key(), 3);
    let mut keyring = VerificationKeyring::new();
    let input = DetachedVerificationInput::Mac(sig);
    let missing = verify_auth_payload(payload, &keyring, 9, Some(&input)).unwrap();
    assert!(!missing.verified);
    assert_eq!(missing.key_id, 3);
    assert_eq!(missing.error, Some(AuthFailure::Glyph(GlyphError::UnknownAuthenticityKey(3))));
    keyring.insert_mac_key(3, [9u8; 32]);
    keyring.insert_mac_key(3, key());
    let ok = verify_auth_payload(payload, &keyring, 9, Some(&input)).unwrap();
    assert!(ok.verified);
    assert_eq!(ok.error, None);
    let tampered = verify_auth_payload(b"report mE", &keyring, 9, Some(&input)).unwrap();
    assert_eq!(tampered.error, Some(AuthFailure::Glyph(GlyphError::AuthenticityMismatch)));

    let secret = [7u8; 32];
    let ed = sign_detached_payload_ed25519(payload, &secret, 5);
    let public = ed25519_dalek::SigningKey::from_bytes(&secret).verifying_key().to_bytes();
    keyring.insert_ed25519_public_key(5, public);
    let ed_ok = verify_auth_payload(payload, &keyring, 9, Some(&DetachedVerificationInput::Ed25519(ed))).unwrap();
    assert!(ed_ok.verified);
    assert_eq!(ed_ok.key_id, 5);
}

#[test]
fn embedded_envelopes_are_not_reported() {
    let sealed = seal_payload(b"inner", &key(), 1);
    let mut keyring = VerificationKeyring::new();
    keyring.insert_mac_key(1, key());
    assert_eq!(verify_auth_payload(&sealed, &keyring, 1, None), None);
    assert_eq!(verify_auth_payload(b"plain", &keyring, 1, None), None);
}

fn keyset(alg: &str) -> KeysetDocument {
    KeysetDocument {
        version: Some(1),
        issuer: Some("issuer".to_string()),
        created_at: Some("2024-01-01T00:00:00Z".to_string()),
        expires_at: Some("2030-01-01T00:00:00Z".to_string()),
        keys: Some(vec![KeysetKey {
            key_id: Some(1),
            alg: Some(alg.to_string()),
            key_hex: Some(KEY_HEX.to_string()),
            public_key_hex: Some(KEY_HEX.to_string()),
        }]),
    }
}

#[test]
fn keyset_rules() {
    assert_eq!(validate_keyset(&keyset("mac-blake3")), Ok(()));
    assert_eq!(validate_keyset(&keyset("ed25519")), Ok(()));
    assert_eq!(
        validate_keyset(&keyset("rsa")),
        Err(KeysetError::UnsupportedAlgorithm("rsa".to_string()))
    );
    let mut doc = keyset("mac-blake3");
    doc.version = Some(2);
    assert_eq!(validate_keyset(&doc), Err(KeysetError::UnsupportedVersion(2)));
    let mut doc = keyset("mac-blake3");
    doc.expires_at = Some("2023-01-01T00:00:00Z".to_string());
    assert_eq!(validate_keyset(&doc), Err(KeysetError::ExpiresNotAfterCreated));
    let mut doc = keyset("mac-blake3");
    doc.created_at = Some("yesterday".to_string());
    assert_eq!(validate_keyset(&doc), Err(KeysetError::InvalidCreatedAt));
    let mut doc = keyset("mac-blake3");
    doc.keys = Some(Vec::new());
    assert_eq!(validate_keyset(&doc), Err(KeysetError::EmptyKeys));
    let mut doc = keyset("mac-blake3");
    doc.issuer = None;
    assert_eq!(validate_keyset(&doc), Err(KeysetError::MissingIssuer));
    let doc = keyset("mac-blake3");
    let in_2025: i128 = 1_735_689_600 * 1_000_000_000;
    assert_eq!(check_keyset_window(&doc, in_2025), Ok(()));
    assert_eq!(check_keyset_window(&doc, 0), Err(KeysetError::NotYetValid));
    assert_eq!(check_keyset_window(&doc, i128::MAX), Err(KeysetError::Expired));
}

#[test]
fn keyset_signature_checks() {
    let secret = [3u8; 32];
    let public = ed25519_dalek::SigningKey::from_bytes(&secret).verifying_key().to_bytes();
    let public_hex = String::from_utf8(encode_hex(&public)).unwrap();
    let payload = b"{\"version\":1}";
    let detached = sign_detached_payload_ed25519(payload, &secret, 0);
    let sig_hex = String::from_utf8(encode_hex(&detached.signature)).unwrap();
    let signature = Some(KeysetSignature {
        signature_alg: Some("ed25519".to_string()),
        signature_hex: Some(sig_hex.clone()),
    });
    assert_eq!(verify_keyset_signature(&signature, &public_hex, payload), Ok(()));
    assert_eq!(
        verify_keyset_signature(&signature, &public_hex, b"{\"version\":2}"),
        Err(KeysetError::Signature(GlyphError::AuthenticityMismatch))
    );
    assert_eq!(verify_keyset_signature(&None, &public_hex, payload), Err(KeysetError::MissingSignature));
    let wrong_alg = Some(KeysetSignature {
        signature_alg: Some("rsa".to_string()),
        signature_hex: Some(sig_hex),
    });
    assert_eq!(
        verify_keyset_signature(&wrong_alg, &public_hex, payload),
        Err(KeysetError::UnsupportedSignatureAlgorithm("rsa".to_string()))
    );
}

#[test]
fn still_scan_vocabulary() {
    assert_eq!(CandidateDetector::GeneratedContent.as_str(), "generated-content");
    assert_eq!(CandidateDetector::RibbonWeave.as_str(), "ribbon-weave");
    assert_eq!(ScanTimings::default().total_micros, 0);
}

#[test]
fn fixtures_are_canonical() {
    let fixtures = fixture_payloads();
    assert_eq!(fixtures.len(), 4);
    assert!(fixtures[0].is_empty());
    assert_eq!(fixtures[1], b"hello glyphnet".to_vec());
    assert_eq!(fixtures[2], (0u8..=255).collect::<Vec<u8>>());
    assert_eq!(fixtures[3], vec![0x55; 1024]);
}

#[test]
fn key_hex_ignores_unicode_whitespace_around_it() {
    let hex = "11".repeat(32);
    let padded = format!("\u{3000}\t {hex}\u{2028}\n");
    assert_eq!(glyphnet::keyset::parse_auth_key_hex(&padded).unwrap(), [0x11u8; 32]);
    let inner = format!("{}\u{3000}{}", &hex[..2], &hex[2..]);
    assert!(glyphnet::keyset::parse_auth_key_hex(&inner).is_err());
}
