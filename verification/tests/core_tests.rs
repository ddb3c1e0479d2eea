use glyphnet::auth::{
    extract_auth_envelope_key_id, open_payload, reason_from_glyph_error, seal_payload,
    sign_detached_payload, sign_detached_payload_ed25519, verify_detached_payload,
    verify_detached_payload_ed25519,
};
use glyphnet::bitstream::{bits_to_bytes, bytes_to_bits};
use glyphnet::burst_packet::{BurstPacket, BurstPacketHeader};
use glyphnet::cell::Cell;
use glyphnet::descriptor::LayoutFamily;
use glyphnet::error::GlyphError;
use glyphnet::frame::{Frame, FrameHeader};
use glyphnet::primitives::crc32;
use glyphnet::geometry::choose_symbol_geometry;
use glyphnet::layout::{data_capacity_bits, function_cell, function_cell_for};
use glyphnet::matrix::SymbolMatrix;
use glyphnet::mode::{EccLevel, TransmissionMode};

const KEY_A: [u8; 32] = [0x11; 32];
const KEY_B: [u8; 32] = [0x22; 32];
const HALO_MARGIN: u16 = 7;

#[test]
fn auth_envelope_roundtrip() {
    let sealed = seal_payload(b"glyphnet-auth", &KEY_A, 7);
    let (header, payload) =
        open_payload(&sealed, |id| if id == 7 { Some(KEY_A) } else { None }).unwrap();
    assert_eq!(header.key_id, 7);
    assert_eq!(payload, b"glyphnet-auth");
}

#[test]
fn auth_envelope_rejects_wrong_key() {
    let sealed = seal_payload(b"glyphnet-auth", &KEY_A, 7);
    let err = open_payload(&sealed, |id| if id == 7 { Some(KEY_B) } else { None }).unwrap_err();
    assert!(matches!(err, GlyphError::AuthenticityMismatch));
}

#[test]
fn auth_envelope_rejects_unknown_key() {
    let sealed = seal_payload(b"glyphnet-auth", &KEY_A, 9);
    let err = open_payload(&sealed, |_id| None).unwrap_err();
    assert!(matches!(err, GlyphError::UnknownAuthenticityKey(9)));
}

#[test]
fn detached_signature_roundtrip() {
    let sig = sign_detached_payload(b"glyphnet-detached", &KEY_A, 5);
    verify_detached_payload(b"glyphnet-detached", &sig, |id| {
        if id == 5 { Some(KEY_A) } else { None }
    })
    .unwrap();
}

#[test]
fn detached_signature_rejects_wrong_key() {
    let sig = sign_detached_payload(b"glyphnet-detached", &KEY_A, 5);
    let err = verify_detached_payload(b"glyphnet-detached", &sig, |id| {
        if id == 5 { Some(KEY_B) } else { None }
    })
    .unwrap_err();
    assert!(matches!(err, GlyphError::AuthenticityMismatch));
}

#[test]
fn detached_ed25519_signature_roundtrip() {
    let signing = ed25519_dalek::SigningKey::from_bytes(&[0x2Au8; 32]);
    let verifying = signing.verifying_key().to_bytes();
    let sig = sign_detached_payload_ed25519(b"glyphnet-ed25519", &[0x2Au8; 32], 12);
    verify_detached_payload_ed25519(b"glyphnet-ed25519", &sig, |id| {
        if id == 12 { Some(verifying) } else { None }
    })
    .unwrap();
}

#[test]
fn detached_ed25519_signature_rejects_wrong_key() {
    let wrong_signing = ed25519_dalek::SigningKey::from_bytes(&[0x7Bu8; 32]);
    let wrong_verifying = wrong_signing.verifying_key().to_bytes();
    let sig = sign_detached_payload_ed25519(b"glyphnet-ed25519", &[0x2Au8; 32], 12);
    let err = verify_detached_payload_ed25519(b"glyphnet-ed25519", &sig, |id| {
        if id == 12 { Some(wrong_verifying) } else { None }
    })
    .unwrap_err();
    assert!(matches!(err, GlyphError::AuthenticityMismatch));
}

#[test]
fn reason_mapping_is_stable() {
    assert_eq!(
        reason_from_glyph_error(GlyphError::UnknownAuthenticityKey(9)).as_str(),
        "unknown_key_id"
    );
    assert_eq!(
        reason_from_glyph_error(GlyphError::AuthenticityMismatch).as_str(),
        "auth_mismatch"
    );
    assert_eq!(
        reason_from_glyph_error(GlyphError::InvalidAuthenticityEnvelope).as_str(),
        "invalid_envelope"
    );
}

#[test]
fn extract_key_id_from_auth_envelope_header() {
    let sealed = seal_payload(b"glyphnet-auth", &KEY_A, 42);
    assert_eq!(extract_auth_envelope_key_id(&sealed), Some(42));
    assert_eq!(extract_auth_envelope_key_id(b"plain"), None);
}

#[test]
fn bit_roundtrip_preserves_bytes() {
    let bytes = [0x00, 0x01, 0x80, 0xff, 0xa5];
    assert_eq!(bits_to_bytes(&bytes_to_bits(&bytes)), bytes);
}

#[test]
fn burst_packet_roundtrip_is_stable() {
    let packet = BurstPacket::new(1, 3, 9, 0b0000_0011, 5, 2, b"hello".to_vec()).unwrap();
    assert_eq!(BurstPacket::decode(&packet.encode()).unwrap(), packet);
}

#[test]
fn burst_packet_decode_rejects_truncated_header() {
    let err = BurstPacket::decode(&[0u8; 7]).unwrap_err();
    assert!(matches!(err, GlyphError::Truncated { .. }));
}

#[test]
fn burst_packet_decode_rejects_payload_crc_mismatch() {
    let mut encoded = BurstPacket::new(0, 1, 42, 0, 4, 1, vec![1, 2, 3, 4])
        .unwrap()
        .encode();
    let last = encoded.last_mut().unwrap();
    *last ^= 0b0000_0001;
    assert!(matches!(
        BurstPacket::decode(&encoded),
        Err(GlyphError::PayloadChecksumMismatch)
    ));
}

#[test]
fn burst_packet_header_rejects_invalid_sequence() {
    let err = BurstPacketHeader::new(2, 2, 5, 0, 8, 2, 1, 7).unwrap_err();
    assert!(matches!(err, GlyphError::InvalidFrameIndex { .. }));
}

#[test]
fn frame_roundtrip_is_stable() {
    let frame = Frame::new(
        TransmissionMode::Print,
        EccLevel::High,
        0,
        1,
        42,
        b"hello glyphnet".to_vec(),
    )
    .unwrap();
    assert_eq!(Frame::decode(&frame.encode()).unwrap(), frame);
}

#[test]
fn detects_payload_corruption() {
    let frame = Frame::new(
        TransmissionMode::Screen,
        EccLevel::Medium,
        0,
        1,
        1,
        b"payload".to_vec(),
    )
    .unwrap();
    let mut encoded = frame.encode();
    let last = encoded.last_mut().unwrap();
    *last ^= 0b0000_0001;
    assert!(matches!(
        Frame::decode(&encoded),
        Err(GlyphError::PayloadChecksumMismatch)
    ));
}

#[test]
fn ignores_trailing_padding() {
    let frame = Frame::new(TransmissionMode::Burst, EccLevel::Low, 0, 2, 99, vec![1, 2, 3]).unwrap();
    let mut encoded = frame.encode();
    encoded.extend_from_slice(&[0xff; 16]);
    assert_eq!(Frame::decode(&encoded).unwrap(), frame);
}

#[test]
fn default_geometry_is_wide_ribbon() {
    let print = choose_symbol_geometry(TransmissionMode::Print, LayoutFamily::RibbonWeave, 1).unwrap();
    let screen =
        choose_symbol_geometry(TransmissionMode::Screen, LayoutFamily::RibbonWeave, 1).unwrap();
    let burst = choose_symbol_geometry(TransmissionMode::Burst, LayoutFamily::RibbonWeave, 1).unwrap();

    assert_ne!(print.width, print.height);
    assert_ne!(screen.width, screen.height);
    assert_ne!(burst.width, burst.height);
    assert!(burst.width > print.width);
}

#[test]
fn matrix_layout_remains_square_when_requested() {
    let geometry = choose_symbol_geometry(TransmissionMode::Print, LayoutFamily::Matrix, 1).unwrap();
    assert_eq!(geometry.width, geometry.height);
}

#[test]
fn reserves_three_finder_patterns() {
    assert!(matches!(function_cell(45, 45, 0, 0), Some(Cell::Finder(true))));
    assert!(matches!(function_cell(45, 45, 44, 0), Some(Cell::Finder(true))));
    assert!(matches!(function_cell(45, 45, 0, 44), Some(Cell::Finder(true))));
}

#[test]
fn capacity_excludes_function_patterns() {
    let capacity = data_capacity_bits(45, 45);
    assert!(capacity < 45 * 45);
    assert!(capacity > 1_700);
}

#[test]
fn constellation_has_no_corner_markers() {
    assert!(function_cell_for(LayoutFamily::Constellation, 64, 40, 0, 0).is_none());
    assert!(function_cell_for(LayoutFamily::Constellation, 64, 40, 63, 0).is_none());
    assert!(function_cell_for(LayoutFamily::Constellation, 64, 40, 0, 39).is_none());
    assert!(matches!(
        function_cell_for(LayoutFamily::Constellation, 64, 40, 10, 20),
        Some(Cell::Anchor(true))
    ));
}

#[test]
fn constellation_reserves_signature_rail() {
    assert!(matches!(
        function_cell_for(LayoutFamily::Constellation, 68, 42, HALO_MARGIN, 37),
        Some(Cell::Signature(true))
    ));
    assert!(matches!(
        function_cell_for(LayoutFamily::Constellation, 68, 42, HALO_MARGIN + 2, 37),
        Some(Cell::Signature(false))
    ));
}

#[test]
fn ribbon_weave_has_totems_and_chevrons_without_corner_boxes() {
    assert!(function_cell_for(LayoutFamily::RibbonWeave, 96, 36, 0, 0).is_none());
    assert!(matches!(
        function_cell_for(LayoutFamily::RibbonWeave, 96, 36, 5, 3),
        Some(Cell::Anchor(true))
    ));
    assert!(matches!(
        function_cell_for(LayoutFamily::RibbonWeave, 96, 36, 14, 3),
        Some(Cell::Signature(true))
    ));
}

#[test]
fn write_and_read_data_bits_are_stable() {
    let mut matrix = SymbolMatrix::new(45, 45);
    let input = [true, false, true, true, false];
    matrix.write_data_bits(&input);
    assert_eq!(&matrix.read_data_bits()[..input.len()], input);
}

#[test]
fn bounds_check_coordinates() {
    let matrix = SymbolMatrix::new(9, 9);
    assert!(matches!(matrix.get(9, 0), Err(GlyphError::MatrixBounds { .. })));
}

#[test]
fn header_checksum_covers_the_received_bytes() {
    let header = FrameHeader::new(TransmissionMode::Print, EccLevel::Medium, 0, 1, 42, 5, 7).unwrap();
    let bytes = header.encode();
    assert_eq!(FrameHeader::decode(&bytes), Ok(header));
    assert_eq!(u32::from_be_bytes([bytes[28], bytes[29], bytes[30], bytes[31]]), crc32(&bytes[0..28]));
    // A set flags byte under the old checksum no longer passes.
    let mut flagged = bytes;
    flagged[7] = 1;
    assert_eq!(FrameHeader::decode(&flagged), Err(GlyphError::HeaderChecksumMismatch));
    // With the checksum of the bytes as received it does.
    let crc = crc32(&flagged[0..28]).to_be_bytes();
    flagged[28..32].copy_from_slice(&crc);
    let decoded = FrameHeader::decode(&flagged).unwrap();
    assert_eq!(decoded.stream_id, 42);
    assert_eq!(decoded.header_crc, crc32(&flagged[0..28]));
}
