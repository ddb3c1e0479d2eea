use glyphnet::ecc::{
    encode_for_mode, interleave_stride_for_mode, scheme_for_mode, verify_for_mode, BlockCode,
    EccScheme, ParityCode, ReedSolomonCode,
};
use glyphnet::frame::Frame;
use glyphnet::interleave::{deinterleave, interleave};
use glyphnet::mode::{EccLevel, TransmissionMode};
use glyphnet::recovery::{
    try_recover_for_mode, try_recover_for_mode_with_suspects,
    try_recover_for_mode_with_suspects_and_telemetry, RecoveryMethod,
};
use glyphnet::shards::XorShardCode;

#[test]
fn parity_code_verifies_clean_blocks() {
    let code = ParityCode::new(8);
    let encoded = code.encode(b"glyphnet");
    assert!(code.verify(&encoded, b"glyphnet".len()));
}

#[test]
fn parity_code_detects_corruption() {
    let code = ParityCode::new(8);
    let mut encoded = code.encode(b"glyphnet");
    encoded[2] ^= 0x44;
    assert!(!code.verify(&encoded, b"glyphnet".len()));
}

#[test]
fn reed_solomon_code_verifies_clean_blocks() {
    let code = ReedSolomonCode::from_level(EccLevel::High, b"glyphnet".len());
    let encoded = code.encode(b"glyphnet");
    assert!(code.verify(&encoded, b"glyphnet".len()));
}

#[test]
fn reed_solomon_code_detects_corruption() {
    let code = ReedSolomonCode::from_level(EccLevel::High, b"glyphnet".len());
    let mut encoded = code.encode(b"glyphnet");
    encoded[1] ^= 0x55;
    assert!(!code.verify(&encoded, b"glyphnet".len()));
}

#[test]
fn encode_verify_for_mode_roundtrip() {
    let wire = b"glyphnet wire bytes";
    for mode in [
        TransmissionMode::Print,
        TransmissionMode::Screen,
        TransmissionMode::Burst,
    ] {
        let encoded = encode_for_mode(mode, EccLevel::High, wire);
        assert!(verify_for_mode(mode, EccLevel::High, &encoded, wire.len()));
    }
}

#[test]
fn interleave_policy_is_mode_specific() {
    assert_eq!(interleave_stride_for_mode(TransmissionMode::Print, EccLevel::High), 1);
    assert_eq!(interleave_stride_for_mode(TransmissionMode::Screen, EccLevel::High), 4);
    assert_eq!(interleave_stride_for_mode(TransmissionMode::Burst, EccLevel::High), 8);
}

#[test]
fn screen_scheme_matches_feature_gate() {
    assert_eq!(
        scheme_for_mode(TransmissionMode::Screen, EccLevel::High),
        EccScheme::Parity
    );
}

#[test]
fn verify_for_mode_accepts_legacy_non_interleaved_screen_payloads() {
    let wire = b"legacy-screen-wire";
    let legacy = ParityCode::from_level(EccLevel::High, wire.len()).encode(wire);
    assert!(verify_for_mode(TransmissionMode::Screen, EccLevel::High, &legacy, wire.len()));
}

#[test]
fn print_mode_large_frames_fallback_to_parity_and_verify() {
    let wire = vec![0x5a; 1100];
    let encoded = glyphnet::ecc::encode_for_mode(TransmissionMode::Print, EccLevel::High, &wire);
    assert!(encoded.len() > wire.len());
    assert!(verify_for_mode(TransmissionMode::Print, EccLevel::High, &encoded, wire.len()));
}

#[test]
fn parity_recovery_fixes_single_data_byte_corruption() {
    let frame = Frame::new(
        TransmissionMode::Screen,
        EccLevel::High,
        0,
        1,
        42,
        b"glyphnet wire bytes".to_vec(),
    )
    .unwrap();
    let wire = frame.encode();
    let mut encoded = glyphnet::ecc::encode_for_mode(TransmissionMode::Screen, EccLevel::High, &wire);
    encoded[6] ^= 0x31;
    assert!(!verify_for_mode(TransmissionMode::Screen, EccLevel::High, &encoded, wire.len()));
    let recovered =
        try_recover_for_mode(TransmissionMode::Screen, EccLevel::High, &encoded, wire.len()).unwrap();
    assert!(verify_for_mode(TransmissionMode::Screen, EccLevel::High, &recovered, wire.len()));
    assert_eq!(&recovered[..wire.len()], wire.as_slice());
}

#[test]
fn prioritized_recovery_respects_attempt_budget() {
    let frame = Frame::new(
        TransmissionMode::Screen,
        EccLevel::High,
        0,
        1,
        77,
        b"budgeted-recovery".to_vec(),
    )
    .unwrap();
    let wire = frame.encode();
    let mut encoded = glyphnet::ecc::encode_for_mode(TransmissionMode::Screen, EccLevel::High, &wire);
    encoded[10] ^= 0x44;
    let no_hit = try_recover_for_mode_with_suspects(
        TransmissionMode::Screen,
        EccLevel::High,
        &encoded,
        wire.len(),
        &[0],
        32,
    );
    assert!(no_hit.is_none());
    let hit = try_recover_for_mode_with_suspects(
        TransmissionMode::Screen,
        EccLevel::High,
        &encoded,
        wire.len(),
        &[10],
        512,
    );
    assert!(hit.is_some());
}

#[test]
fn print_mode_rs_recovery_fixes_single_data_byte_corruption() {
    let frame =
        Frame::new(TransmissionMode::Print, EccLevel::High, 0, 1, 91, b"print-rs".to_vec()).unwrap();
    let wire = frame.encode();
    let mut encoded = glyphnet::ecc::encode_for_mode(TransmissionMode::Print, EccLevel::High, &wire);
    encoded[8] ^= 0x66;
    assert!(!verify_for_mode(TransmissionMode::Print, EccLevel::High, &encoded, wire.len()));
    let recovered = try_recover_for_mode_with_suspects(
        TransmissionMode::Print,
        EccLevel::High,
        &encoded,
        wire.len(),
        &[8],
        16,
    )
    .unwrap();
    assert!(verify_for_mode(TransmissionMode::Print, EccLevel::High, &recovered, wire.len()));
    assert_eq!(&recovered[..wire.len()], wire.as_slice());
}

#[test]
fn print_mode_rs_recovery_fixes_two_data_byte_corruptions() {
    let frame = Frame::new(
        TransmissionMode::Print,
        EccLevel::High,
        0,
        1,
        99,
        b"print-rs-two".to_vec(),
    )
    .unwrap();
    let wire = frame.encode();
    let mut encoded = glyphnet::ecc::encode_for_mode(TransmissionMode::Print, EccLevel::High, &wire);
    encoded[8] ^= 0x66;
    encoded[12] ^= 0x3a;
    assert!(!verify_for_mode(TransmissionMode::Print, EccLevel::High, &encoded, wire.len()));
    let recovered = try_recover_for_mode_with_suspects(
        TransmissionMode::Print,
        EccLevel::High,
        &encoded,
        wire.len(),
        &[8, 12],
        128,
    )
    .unwrap();
    assert!(verify_for_mode(TransmissionMode::Print, EccLevel::High, &recovered, wire.len()));
    assert_eq!(&recovered[..wire.len()], wire.as_slice());
}

#[test]
fn xor_code_recovers_one_missing_data_shard() {
    let code = XorShardCode::new(4);
    let set = code.encode_shards(b"abcdefghijklmnopqrstuvwxyz").unwrap();
    let recovered = code.recover_one(&set, 1).unwrap();
    assert_eq!(recovered, set.shards[1]);
}

#[test]
fn interleave_roundtrip() {
    let mut bytes = Vec::new();
    for i in 0..300u32 {
        bytes.push((i * 37 % 251) as u8);
    }
    for len in [0usize, 1, 7, 64, 300] {
        for stride in 1usize..32 {
            let part = &bytes[..len];
            assert_eq!(deinterleave(&interleave(part, stride), stride), part);
            assert_eq!(interleave(&deinterleave(part, stride), stride), part);
        }
    }
}

#[test]
fn interleave_orders_bytes_lane_by_lane() {
    assert_eq!(interleave(&[0, 1, 2, 3, 4, 5, 6], 3), vec![0, 3, 6, 1, 4, 2, 5]);
    assert_eq!(deinterleave(&[0, 3, 6, 1, 4, 2, 5], 3), vec![0, 1, 2, 3, 4, 5, 6]);
    assert_eq!(interleave(&[9, 8, 7], 1), vec![9, 8, 7]);
}

#[test]
fn parity_len_follows_level_ratio_with_floor() {
    assert_eq!(ParityCode::from_level(EccLevel::High, 19).parity_len(), 5);
    assert_eq!(ParityCode::from_level(EccLevel::Low, 10).parity_len(), 4);
    assert_eq!(ParityCode::from_level(EccLevel::Adaptive, 30).parity_len(), 10);
    assert_eq!(ReedSolomonCode::from_level(EccLevel::High, 19).parity_shards(), 8);
    assert_eq!(ReedSolomonCode::from_level(EccLevel::High, 100).parity_shards(), 25);
}

#[test]
fn reed_solomon_support_is_bounded_by_byte_shards() {
    assert!(ReedSolomonCode::new(8).is_supported(247));
    assert!(!ReedSolomonCode::new(8).is_supported(248));
    assert!(!ReedSolomonCode::new(8).is_supported(0));
}

#[test]
fn parity_tail_rebuild_is_reported() {
    let frame = Frame::new(TransmissionMode::Screen, EccLevel::High, 0, 1, 5, b"tail".to_vec()).unwrap();
    let wire = frame.encode();
    let mut encoded = glyphnet::ecc::encode_for_mode(TransmissionMode::Screen, EccLevel::High, &wire);
    let last = encoded.len() - 1;
    encoded[last] ^= 0x80;
    let (recovered, telemetry) = try_recover_for_mode_with_suspects_and_telemetry(
        TransmissionMode::Screen,
        EccLevel::High,
        &encoded,
        wire.len(),
        &[],
        usize::MAX,
    );
    assert_eq!(recovered.unwrap(), glyphnet::ecc::encode_for_mode(TransmissionMode::Screen, EccLevel::High, &wire));
    assert_eq!(telemetry.method, RecoveryMethod::ParityTailRebuild);
    assert_eq!(telemetry.attempts, 0);
    assert!(telemetry.attempted && telemetry.recovered);
}

#[test]
fn exhausted_budget_is_reported() {
    let frame = Frame::new(TransmissionMode::Screen, EccLevel::High, 0, 1, 5, b"budget".to_vec()).unwrap();
    let wire = frame.encode();
    let mut encoded = glyphnet::ecc::encode_for_mode(TransmissionMode::Screen, EccLevel::High, &wire);
    encoded[35] ^= 0x01;
    let (recovered, telemetry) = try_recover_for_mode_with_suspects_and_telemetry(
        TransmissionMode::Screen,
        EccLevel::High,
        &encoded,
        wire.len(),
        &[0],
        10,
    );
    assert!(recovered.is_none());
    assert!(telemetry.max_attempts_exceeded);
    assert_eq!(telemetry.attempts, 11);
    assert_eq!(telemetry.suspect_count, 1);
    assert_eq!(telemetry.method, RecoveryMethod::NoRepair);
}

#[test]
fn short_input_is_not_repaired() {
    let (recovered, telemetry) = try_recover_for_mode_with_suspects_and_telemetry(
        TransmissionMode::Screen,
        EccLevel::High,
        &[1, 2, 3],
        8,
        &[],
        100,
    );
    assert!(recovered.is_none());
    assert!(!telemetry.attempted);
}

#[test]
fn xor_code_recovers_parity_and_reassembles() {
    let code = XorShardCode::new(3);
    let set = code.encode_shards(b"hello shards").unwrap();
    assert_eq!(set.shard_len, 4);
    assert_eq!(set.shards.len(), 4);
    for missing in 0..4 {
        assert_eq!(code.recover_one(&set, missing).unwrap(), set.shards[missing]);
    }
    assert_eq!(set.reassemble(), b"hello shards".to_vec());
    assert!(code.recover_one(&set, 4).is_err());
    assert!(XorShardCode::new(0).encode_shards(b"x").is_err());
    assert!(XorShardCode::new(2).recover_one(&set, 0).is_err());
}

#[test]
fn encode_for_mode_output_length_follows_the_scheme() {
    let small = glyphnet::ecc::encode_for_mode(TransmissionMode::Print, EccLevel::High, &[0u8; 19]);
    assert_eq!(small.len(), 27);
    assert_eq!(&small[..19], &[0u8; 19]);
    let big = glyphnet::ecc::encode_for_mode(TransmissionMode::Print, EccLevel::High, &[0x5au8; 1100]);
    assert_eq!(big.len(), 1375);
    assert_eq!(&big[..1100], &[0x5au8; 1100][..]);
}
