use glyphnet::bitstream::bytes_to_bits;
use glyphnet::decode::{decode_matrix, decode_matrix_with_suspects, decode_wire_prefix, DecodeError};
use glyphnet::descriptor::{Capability, ColorEncoding, LayoutFamily};
use glyphnet::encode::{BurstScheduleConfig, EncodeError, Encoder, EncoderConfig};
use glyphnet::error::GlyphError;
use glyphnet::frame::{Frame, HEADER_LEN};
use glyphnet::geometry::SymbolGeometry;
use glyphnet::matrix::SymbolMatrix;
use glyphnet::mode::TransmissionMode;
use glyphnet::profile::ProfileId;
use glyphnet::recovery::RecoveryMethod;
use glyphnet::render::{Color, ModuleShape, RasterRenderer, RenderError, RenderOptions};
use glyphnet::svg::SvgRenderer;

#[test]
fn static_encoder_produces_decodable_wire_prefix() {
    let encoded = Encoder::default().encode_static(b"hello").unwrap();
    assert_eq!(Frame::decode(&encoded.codewords).unwrap().payload, b"hello".to_vec());
    assert_ne!(encoded.descriptor.width, encoded.descriptor.height);
    assert!(encoded.descriptor.data_capacity_bits >= encoded.codewords.len() * 8);
}

#[test]
fn burst_encoder_chunks_payload() {
    let encoder = Encoder::new(EncoderConfig {
        mode: TransmissionMode::Burst,
        max_frame_payload: 3,
        ..EncoderConfig::default()
    });
    let frames = encoder.encode_burst(b"abcdefg").unwrap();
    assert_eq!(frames.len(), 3);
    assert_eq!(frames[0].descriptor.frame_count, 3);
    assert_eq!(frames[2].frame.payload, b"g");
}

#[test]
fn custom_geometry_overrides_default() {
    let encoder = Encoder::new(EncoderConfig {
        geometry: Some(SymbolGeometry::new(80, 80)),
        ..EncoderConfig::default()
    });
    let encoded = encoder.encode_static(b"hello").unwrap();
    assert_eq!(encoded.descriptor.width, 80);
    assert_eq!(encoded.descriptor.height, 80);
}

#[test]
fn burst_schedule_round_robin_repeats_all_frames() {
    let encoder = Encoder::new(EncoderConfig {
        mode: TransmissionMode::Burst,
        max_frame_payload: 2,
        ..EncoderConfig::default()
    });
    let schedule = encoder
        .encode_burst_schedule(b"abcdef", BurstScheduleConfig { passes: 2 })
        .unwrap();

    assert_eq!(schedule.len(), 6);
    assert_eq!(schedule[0].pass, 0);
    assert_eq!(schedule[0].frame_index, 0);
    assert_eq!(schedule[1].frame_index, 1);
    assert_eq!(schedule[2].frame_index, 2);
    assert_eq!(schedule[3].pass, 1);
    assert_eq!(schedule[3].frame_index, 0);
    assert_eq!(schedule[5].frame_index, 2);
}

#[test]
fn burst_schedule_rejects_zero_passes() {
    let encoder = Encoder::new(EncoderConfig {
        mode: TransmissionMode::Burst,
        ..EncoderConfig::default()
    });
    let err = encoder
        .encode_burst_schedule(b"abc", BurstScheduleConfig { passes: 0 })
        .unwrap_err();
    assert!(matches!(err, EncodeError::Core(GlyphError::InvalidArgument(_))));
}

#[test]
fn decode_matrix_recovers_parity_tail_corruption_with_parity_mode() {
    let encoded = Encoder::new(EncoderConfig {
        mode: TransmissionMode::Screen,
        ..EncoderConfig::default()
    })
    .encode_static(b"recover-me")
    .unwrap();
    let mut matrix = encoded.matrix.clone();
    let mut bytes = encoded.codewords.clone();
    let corrupt_index = bytes.len() - 1;
    bytes[corrupt_index] ^= 0x01;
    let bits = bytes_to_bits(&bytes);
    matrix.write_data_bits(&bits);

    let decoded = decode_matrix(&matrix).unwrap();
    assert_eq!(decoded.frame.payload, b"recover-me");
    assert_eq!(decoded.recovery.method, RecoveryMethod::ParityTailRebuild);
    assert!(decoded.recovery.recovered);
}

#[test]
fn decode_matrix_recovers_single_byte_corruption_with_print_rs() {
    let encoded = Encoder::new(EncoderConfig {
        mode: TransmissionMode::Print,
        ..EncoderConfig::default()
    })
    .encode_static(b"recover-print-rs")
    .unwrap();
    let mut matrix = encoded.matrix.clone();
    let mut bits = bytes_to_bits(&encoded.codewords);
    bits[HEADER_LEN * 8 + 13] = !bits[HEADER_LEN * 8 + 13];
    matrix.write_data_bits(&bits);

    let decoded = decode_matrix(&matrix).unwrap();
    assert_eq!(decoded.frame.payload, b"recover-print-rs");
    assert_eq!(decoded.recovery.method, RecoveryMethod::ReedSolomonSingle);
    assert!(decoded.recovery.recovered);
}

#[test]
fn decode_matrix_recovers_two_byte_corruption_with_print_rs() {
    let encoded = Encoder::new(EncoderConfig {
        mode: TransmissionMode::Print,
        ..EncoderConfig::default()
    })
    .encode_static(b"recover-print-rs-two")
    .unwrap();
    let mut matrix = encoded.matrix.clone();
    let mut bits = bytes_to_bits(&encoded.codewords);
    let bit_a = HEADER_LEN * 8 + 9;
    let bit_b = HEADER_LEN * 8 + 21;
    bits[bit_a] = !bits[bit_a];
    bits[bit_b] = !bits[bit_b];
    matrix.write_data_bits(&bits);

    let decoded = decode_matrix_with_suspects(&matrix, &[bit_a / 8, bit_b / 8]).unwrap();
    assert_eq!(decoded.frame.payload, b"recover-print-rs-two");
    assert_eq!(decoded.recovery.method, RecoveryMethod::ReedSolomonPair);
    assert!(decoded.recovery.recovered);
}

#[test]
fn decode_matrix_recovers_screen_ldpc_parity_tail_corruption() {
    let encoded = Encoder::new(EncoderConfig {
        mode: TransmissionMode::Screen,
        ..EncoderConfig::default()
    })
    .encode_static(b"recover-screen-ldpc-tail")
    .unwrap();
    let mut matrix = encoded.matrix.clone();
    let mut bytes = encoded.codewords.clone();
    let corrupt_index = bytes.len() - 1;
    bytes[corrupt_index] ^= 0x01;
    let bits = bytes_to_bits(&bytes);
    matrix.write_data_bits(&bits);

    let decoded = decode_matrix(&matrix).unwrap();
    assert_eq!(decoded.frame.payload, b"recover-screen-ldpc-tail");
    assert_eq!(decoded.recovery.method, RecoveryMethod::ParityTailRebuild);
    assert!(decoded.recovery.recovered);
}

#[test]
fn decode_matrix_rejects_unrecoverable_screen_ldpc_single_byte_corruption() {
    let encoded = Encoder::new(EncoderConfig {
        mode: TransmissionMode::Screen,
        ..EncoderConfig::default()
    })
    .encode_static(b"recover-screen-ldpc-byte")
    .unwrap();
    let mut matrix = encoded.matrix.clone();
    let mut bits = bytes_to_bits(&encoded.codewords);
    let bit_index = HEADER_LEN * 8 + 15;
    bits[bit_index] = !bits[bit_index];
    matrix.write_data_bits(&bits);

    let err = decode_matrix_with_suspects(&matrix, &[bit_index / 8]).unwrap_err();
    assert!(matches!(err, DecodeError::EccMismatch));
}

#[test]
fn encoded_symbols_decode_in_every_mode() {
    for mode in [
        TransmissionMode::Print,
        TransmissionMode::Screen,
        TransmissionMode::Burst,
    ] {
        let encoder = Encoder::new(EncoderConfig { mode, ..EncoderConfig::default() });
        let encoded = encoder.encode_static(b"roundtrip").unwrap();
        let decoded = decode_matrix(&encoded.matrix).unwrap();
        assert_eq!(decoded.frame, encoded.frame);
        assert_eq!(decoded.frame.payload, b"roundtrip");
        if mode == TransmissionMode::Print {
            assert_eq!(decoded.recovery.method, RecoveryMethod::NoRepair);
            assert!(!decoded.recovery.attempted);
        }
    }
}

#[test]
fn matrix_profile_symbol_decodes() {
    let encoder = Encoder::new(EncoderConfig::for_profile(ProfileId::MatrixCompat));
    let encoded = encoder.encode_static(b"matrix").unwrap();
    assert_eq!(encoded.descriptor.layout, LayoutFamily::Matrix);
    assert_eq!(encoded.descriptor.width, encoded.descriptor.height);
    let decoded = decode_matrix(&encoded.matrix).unwrap();
    assert_eq!(decoded.frame.payload, b"matrix");
}

#[test]
fn blank_matrix_fails_to_decode() {
    let matrix = SymbolMatrix::new(96, 36);
    let err = decode_matrix(&matrix).unwrap_err();
    assert!(matches!(err, DecodeError::Core(GlyphError::InvalidMagic)));
}

#[test]
fn unrecoverable_damage_reports_ecc_mismatch() {
    let encoded = Encoder::new(EncoderConfig {
        mode: TransmissionMode::Screen,
        ..EncoderConfig::default()
    })
    .encode_static(b"two-bytes-broken")
    .unwrap();
    let mut matrix = encoded.matrix.clone();
    let mut bytes = encoded.codewords.clone();
    bytes[HEADER_LEN] ^= 0x01;
    bytes[HEADER_LEN + 1] ^= 0x01;
    matrix.write_data_bits(&bytes_to_bits(&bytes));
    let err = decode_matrix_with_suspects(&matrix, &[HEADER_LEN]).unwrap_err();
    assert!(matches!(err, DecodeError::EccMismatch));
}

#[test]
fn wire_prefix_decodes_frame() {
    let frame = Frame::new(TransmissionMode::Print, glyphnet::mode::EccLevel::Low, 0, 1, 3, vec![9, 8]).unwrap();
    assert_eq!(decode_wire_prefix(&frame.encode()).unwrap(), frame);
    assert!(matches!(decode_wire_prefix(&[1, 2, 3]), Err(GlyphError::Truncated { .. })));
}

#[test]
fn descriptor_capabilities_follow_mode_and_color() {
    let encoder = Encoder::new(EncoderConfig {
        mode: TransmissionMode::Burst,
        color: ColorEncoding::Rgb,
        ..EncoderConfig::default()
    });
    let frames = encoder.encode_burst(b"caps").unwrap();
    assert_eq!(
        frames[0].descriptor.capabilities.iter(),
        vec![Capability::BurstMode, Capability::Color, Capability::FountainRecovery]
    );
}

#[test]
fn too_small_geometry_is_rejected() {
    let encoder = Encoder::new(EncoderConfig {
        geometry: Some(SymbolGeometry::new(20, 20)),
        ..EncoderConfig::default()
    });
    let err = encoder.encode_static(&[7u8; 400]).unwrap_err();
    assert!(matches!(err, EncodeError::Core(GlyphError::CapacityExceeded { .. })));
    let empty = Encoder::new(EncoderConfig {
        geometry: Some(SymbolGeometry::new(0, 40)),
        ..EncoderConfig::default()
    });
    assert!(matches!(
        empty.encode_static(b"x").unwrap_err(),
        EncodeError::Core(GlyphError::InvalidArgument(_))
    ));
}

#[test]
fn stream_id_is_hash_prefix() {
    let a = glyphnet::encode::stream_id(b"abc");
    let b = glyphnet::encode::stream_id(b"abc");
    let c = glyphnet::encode::stream_id(b"abd");
    assert_eq!(a, b);
    assert_ne!(a, c);
    let hash = blake3::hash(b"abc");
    let mut prefix = [0u8; 8];
    prefix.copy_from_slice(&hash.as_bytes()[..8]);
    assert_eq!(a, u64::from_be_bytes(prefix));
}

#[test]
fn svg_contains_ribbon_weave_primitives() {
    let mut matrix = SymbolMatrix::new(96, 36);
    let bits = vec![true; matrix.data_capacity_bits()];
    matrix.write_data_bits(&bits);
    let svg = SvgRenderer::default().render(&matrix).unwrap();
    assert!(svg.contains("glyphnet-ribbon"));
    assert!(svg.contains("<polygon"));
}

#[test]
fn svg_spectral_mesh_uses_multicolor_ribbons() {
    let mut matrix = SymbolMatrix::with_layout(128, 36, LayoutFamily::SpectralMesh);
    let bits = vec![true; matrix.data_capacity_bits()];
    matrix.write_data_bits(&bits);
    let svg = SvgRenderer::default().render(&matrix).unwrap();
    assert!(svg.contains("#081860"));
    assert!(svg.contains("#003840"));
    assert!(svg.contains("#341864"));
}

#[test]
fn svg_document_header_and_module_text() {
    let matrix = SymbolMatrix::with_layout(45, 45, LayoutFamily::Matrix);
    let svg = SvgRenderer::default().render(&matrix).unwrap();
    assert!(svg.starts_with(
        "<svg xmlns=\"http://www.w3.org/2000/svg\" viewBox=\"0 0 424 424\" width=\"424\" height=\"424\" shape-rendering=\"geometricPrecision\"><rect width=\"100%\" height=\"100%\" fill=\"#ffffff\"/>"
    ));
    assert!(svg.ends_with("</svg>"));
    assert!(svg.contains("<rect class=\"glyphnet-stroke\" x=\"32\" y=\"33\" width=\"8\" height=\"6\" rx=\"3.00\" ry=\"3.00\" fill=\"#"));
    let stroke = SvgRenderer::new(RenderOptions { module_px: 10, ..RenderOptions::default() });
    let mut ribbon = SymbolMatrix::new(96, 36);
    let bits = vec![true; ribbon.data_capacity_bits()];
    ribbon.write_data_bits(&bits);
    let text = stroke.render(&ribbon).unwrap();
    assert!(text.contains("height=\"8\" rx=\"4.00\" ry=\"4.00\""));
    let zero = SvgRenderer::new(RenderOptions { module_px: 0, ..RenderOptions::default() });
    assert_eq!(zero.render(&ribbon), Err(RenderError::ZeroModuleSize));
}

#[test]
fn raster_dimensions_include_quiet_zone() {
    let matrix = SymbolMatrix::new(45, 45);
    let plan = RasterRenderer::default().render(&matrix).unwrap();
    assert_eq!(plan.width, (45 + 8) * 8);
    assert_eq!(plan.height, (45 + 8) * 8);
    let huge = RasterRenderer::new(RenderOptions { module_px: u32::MAX, ..RenderOptions::default() });
    assert_eq!(huge.render(&matrix).unwrap_err(), RenderError::DimensionOverflow);
}

#[test]
fn render_options_follow_descriptor() {
    let encoded = Encoder::new(EncoderConfig::for_profile(ProfileId::SpectralScreen))
        .encode_static(b"spectral")
        .unwrap();
    let options = RenderOptions::for_descriptor(&encoded.descriptor);
    assert_eq!(options.anchor, Color::tracking_blue());
    assert_eq!(options.data_shape, ModuleShape::Ribbon);
    assert_eq!(glyphnet::svg::hex(Color::lane_teal()), "#003840");
}

#[test]
fn authenticated_decode_opens_what_was_sealed() {
    let key = [0x5au8; 32];
    let sealed = glyphnet::auth::seal_payload(b"auth-payload", &key, 77);
    let opened = glyphnet::decode::decode_authenticated_payload(&sealed, |id| if id == 77 { Some(key) } else { None });
    assert_eq!(opened.unwrap(), b"auth-payload".to_vec());
    let missing = glyphnet::decode::decode_authenticated_payload(&sealed, |_| None);
    assert!(matches!(missing, Err(DecodeError::Core(GlyphError::UnknownAuthenticityKey(77)))));
    let mut tampered = sealed.clone();
    let last = tampered.len() - 1;
    tampered[last] ^= 1;
    let bad = glyphnet::decode::decode_authenticated_payload(&tampered, |_| Some(key));
    assert!(matches!(bad, Err(DecodeError::Core(GlyphError::AuthenticityMismatch))));
}
