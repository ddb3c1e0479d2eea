use glyphnet::assembler::{BurstAssembler, ScannerError};
use rand::{RngCore, SeedableRng};
use glyphnet::decode::{DecodeError, DecodeOptions, RasterDecoder};
use glyphnet::descriptor::LayoutFamily;
use glyphnet::encode::{Encoder, EncoderConfig};
use glyphnet::frame::Frame;
use glyphnet::matrix::SymbolMatrix;
use glyphnet::mode::{EccLevel, TransmissionMode};
use glyphnet::profile::{profile_catalog, profile_spec, ProfileId};
use glyphnet::raster::{
    average_module_luma, divisors_desc, gcd_u32, layout_candidates, module_candidates,
    plausible_symbol_geometry, quiet_zone_candidates, reference_sized_geometry,
    suspect_bytes_from_bit_confidence, threshold_candidates, LumaImage,
};
use glyphnet::recovery::RecoveryMethod;
use glyphnet::render::{ModuleShape, RasterPlan, RasterRenderer, RenderOptions};
use glyphnet::scanner::{CameraFrame, FrameSource, Scanner, ScannerConfig};

// Paint a raster plan the way the renderer's painter does, then convert to luma.
fn paint(plan: &RasterPlan) -> LumaImage {
    let w = plan.width as usize;
    let h = plan.height as usize;
    let mut rgba = vec![plan.light.0; w * h];
    let size = plan.module_px;
    for op in &plan.ops {
        let color = op.color.0;
        match op.shape {
            ModuleShape::Square => {
                for y in op.start_y..op.start_y + size {
                    for x in op.start_x..op.start_x + size {
                        rgba[y as usize * w + x as usize] = color;
                    }
                }
            }
            ModuleShape::Capsule | ModuleShape::Ribbon => {
                let pad_y = (size as f32 * 0.14).round() as u32;
                let height = size.saturating_sub(pad_y * 2).max(1);
                let radius = height as f32 / 2.0;
                let center_left = op.start_x as f32 + radius;
                let center_right = op.start_x as f32 + op.width.saturating_sub(1) as f32 - radius;
                let center_y = op.start_y as f32 + pad_y as f32 + radius;
                let end_x = op.start_x + op.width.max(1);
                let end_y = op.start_y + pad_y + height;
                for y in op.start_y..op.start_y + size {
                    if y < op.start_y + pad_y || y >= end_y {
                        continue;
                    }
                    for x in op.start_x..end_x {
                        let px = x as f32 + 0.5;
                        let py = y as f32 + 0.5;
                        let inside = px >= center_left && px <= center_right;
                        let dx = if px < center_left {
                            px - center_left
                        } else if px > center_right {
                            px - center_right
                        } else {
                            0.0
                        };
                        let dy = py - center_y;
                        if inside || dx * dx + dy * dy <= radius * radius {
                            rgba[y as usize * w + x as usize] = color;
                        }
                    }
                }
            }
            ModuleShape::Diamond => {
                let center = size as i32 / 2;
                let radius = center.max(1);
                for y in 0..size {
                    for x in 0..size {
                        let dx = x as i32 - center;
                        let dy = y as i32 - center;
                        if dx.abs() + dy.abs() <= radius {
                            rgba[(op.start_y + y) as usize * w + (op.start_x + x) as usize] = color;
                        }
                    }
                }
            }
        }
    }
    let luma: Vec<u8> = rgba
        .iter()
        .map(|p| ((2126 * p[0] as u32 + 7152 * p[1] as u32 + 722 * p[2] as u32) / 10000) as u8)
        .collect();
    LumaImage::from_raw(plan.width, plan.height, luma).unwrap()
}

fn otsu(image: &LumaImage) -> u8 {
    let mut histogram = [0u32; 256];
    for p in image.pixels() {
        histogram[*p as usize] += 1;
    }
    let total = image.width() as u64 * image.height() as u64;
    if total == 0 {
        return 0;
    }
    let mut sum_total = 0u64;
    for (i, count) in histogram.iter().enumerate() {
        sum_total += i as u64 * *count as u64;
    }
    let mut sum_background = 0u64;
    let mut weight_background = 0u64;
    let mut max_variance = -1.0f64;
    let mut threshold = 0u8;
    for (i, count) in histogram.iter().enumerate() {
        weight_background += *count as u64;
        if weight_background == 0 {
            continue;
        }
        let weight_foreground = total - weight_background;
        if weight_foreground == 0 {
            break;
        }
        sum_background += i as u64 * *count as u64;
        let mb = sum_background as f64 / weight_background as f64;
        let mf = (sum_total - sum_background) as f64 / weight_foreground as f64;
        let diff = mb - mf;
        let variance = weight_background as f64 * weight_foreground as f64 * diff * diff;
        if variance > max_variance {
            max_variance = variance;
            threshold = i as u8;
        }
    }
    threshold
}

#[test]
fn rendered_symbol_roundtrips() {
    let encoded = Encoder::default().encode_static(b"roundtrip").unwrap();
    let image = paint(&RasterRenderer::default().render(&encoded.matrix).unwrap());
    let decoded = RasterDecoder::default().decode(&image).unwrap();
    assert_eq!(decoded.frame.payload, b"roundtrip");
    assert_eq!(decoded.recovery.method, RecoveryMethod::NoRepair);
}

#[test]
fn rendered_symbol_roundtrips_with_auto_sampling() {
    let encoded = Encoder::default().encode_static(b"roundtrip").unwrap();
    let image = paint(&RasterRenderer::default().render(&encoded.matrix).unwrap());
    let decoded = RasterDecoder::default().decode_auto(&image, otsu(&image)).unwrap();
    assert_eq!(decoded.frame.payload, b"roundtrip");
}

#[test]
fn matrix_layout_roundtrips_with_auto_layout() {
    let encoder = Encoder::new(EncoderConfig::for_profile(ProfileId::MatrixCompat));
    let encoded = encoder.encode_static(b"matrix").unwrap();
    let image = paint(&RasterRenderer::default().render(&encoded.matrix).unwrap());
    let decoded = RasterDecoder::default().decode_auto(&image, otsu(&image)).unwrap();
    assert_eq!(decoded.frame.payload, b"matrix");
}

#[test]
fn auto_threshold_overrides_bad_config() {
    let encoded = Encoder::default().encode_static(b"threshold").unwrap();
    let image = paint(&RasterRenderer::default().render(&encoded.matrix).unwrap());
    let decoder = RasterDecoder::new(DecodeOptions { threshold: 0, ..DecodeOptions::default() });
    let decoded = decoder.decode_auto(&image, otsu(&image)).unwrap();
    assert_eq!(decoded.frame.payload, b"threshold");
}

#[test]
fn spectral_screen_rendering_roundtrips_through_luma_sampler() {
    let encoder = Encoder::new(EncoderConfig::for_profile(ProfileId::SpectralScreen));
    let encoded = encoder.encode_static(b"spectral").unwrap();
    let plan = RasterRenderer::new(RenderOptions::for_descriptor(&encoded.descriptor))
        .render(&encoded.matrix)
        .unwrap();
    let image = paint(&plan);
    let decoded = RasterDecoder::default().decode(&image).unwrap();
    assert_eq!(decoded.frame.payload, b"spectral");
}

#[test]
fn auto_decode_reports_inferred_parameters() {
    let encoded = Encoder::default().encode_static(b"info").unwrap();
    let plan = RasterRenderer::new(RenderOptions { module_px: 5, ..RenderOptions::default() })
        .render(&encoded.matrix)
        .unwrap();
    let image = paint(&plan);
    let auto = RasterDecoder::default().decode_auto_with_info(&image, otsu(&image)).unwrap();
    assert_eq!(auto.decoded.frame.payload, b"info");
    assert_eq!(auto.info.module_px, 5);
    assert_eq!(auto.info.quiet_zone_modules, 4);
    assert_eq!(auto.info.layout, LayoutFamily::RibbonWeave);
    let fixed = RasterDecoder::default().decode(&image);
    assert!(fixed.is_err());
}

#[test]
fn blank_images_fail_detection() {
    let blank = LumaImage::from_raw(64, 48, vec![255; 64 * 48]).unwrap();
    assert!(matches!(
        RasterDecoder::default().decode_auto_with_info(&blank, 128),
        Err(DecodeError::AutoDetectFailed)
    ));
    let empty = LumaImage::from_raw(0, 10, Vec::new()).unwrap();
    assert!(matches!(
        RasterDecoder::default().decode_auto(&empty, 128),
        Err(DecodeError::InvalidImageDimensions)
    ));
    assert!(matches!(
        RasterDecoder::default().decode(&blank),
        Err(DecodeError::InvalidImageDimensions)
    ));
    assert!(LumaImage::from_raw(3, 3, vec![0; 8]).is_none());
}

#[test]
fn sample_matrix_requires_whole_modules() {
    let encoded = Encoder::default().encode_static(b"sample").unwrap();
    let image = paint(&RasterRenderer::default().render(&encoded.matrix).unwrap());
    let sampled = RasterDecoder::default().sample_matrix(&image).unwrap();
    assert_eq!(sampled.width(), encoded.matrix.width());
    assert_eq!(sampled.read_data_bits()[..256], encoded.matrix.read_data_bits()[..256]);
    let ragged = LumaImage::from_raw(
        image.width() - 1,
        image.height(),
        vec![255; (image.width() as usize - 1) * image.height() as usize],
    )
    .unwrap();
    assert!(matches!(
        RasterDecoder::default().sample_matrix(&ragged),
        Err(DecodeError::InvalidImageDimensions)
    ));
    let auto = RasterDecoder::default().sample_matrix_auto(&image, otsu(&image)).unwrap();
    assert_eq!(auto.height(), encoded.matrix.height());
}

#[test]
fn module_luma_averages_block() {
    let mut pixels = vec![255u8; 16];
    pixels[5] = 0;
    pixels[6] = 100;
    let image = LumaImage::from_raw(4, 4, pixels).unwrap();
    assert_eq!(average_module_luma(&image, 0, 0, 2, 0, 0), 191);
    assert_eq!(average_module_luma(&image, 0, 0, 2, 1, 0), 216);
    assert_eq!(average_module_luma(&image, 1, 1, 2, 0, 0), 255);
}

#[test]
fn divisor_and_candidate_orders() {
    assert_eq!(gcd_u32(424, 200), 8);
    assert_eq!(gcd_u32(7, 0), 7);
    assert_eq!(divisors_desc(36), vec![36, 18, 12, 9, 6, 4, 3, 2, 1]);
    assert_eq!(divisors_desc(0), Vec::<u32>::new());
    assert_eq!(divisors_desc(1), vec![1]);
    assert_eq!(module_candidates(12, 4), vec![4, 12, 6, 3, 2, 1]);
    assert_eq!(module_candidates(12, 5), vec![12, 6, 4, 3, 2, 1]);
    assert_eq!(module_candidates(12, 0), vec![12, 6, 4, 3, 2, 1]);
    assert_eq!(threshold_candidates(192, 128), vec![128, 192]);
    assert_eq!(threshold_candidates(128, 128), vec![128]);
    assert_eq!(threshold_candidates(128, 0), vec![0, 128]);
    assert_eq!(threshold_candidates(7, 255), vec![255, 128, 7]);
    let layouts = layout_candidates(LayoutFamily::Matrix);
    assert_eq!(layouts.len(), 8);
    assert_eq!(layouts[0], LayoutFamily::Matrix);
    assert_eq!(layouts[1], LayoutFamily::RibbonWeave);
    assert_eq!(layouts[6], LayoutFamily::Hexagonal);
}

#[test]
fn geometry_predicates_follow_reference_shapes() {
    assert!(reference_sized_geometry(45, 45));
    assert!(!reference_sized_geometry(28, 28));
    assert!(reference_sized_geometry(96, 36));
    assert!(reference_sized_geometry(96, 48));
    assert!(!reference_sized_geometry(100, 12));
    assert!(reference_sized_geometry(64, 40));
    assert!(reference_sized_geometry(64, 42));
    assert!(!reference_sized_geometry(64, 70));
    assert!(plausible_symbol_geometry(96, 36));
    assert!(!plausible_symbol_geometry(19, 40));
    assert!(!plausible_symbol_geometry(512, 200));
    assert!(!plausible_symbol_geometry(20, 41));
    let quiets = quiet_zone_candidates(104, 44);
    assert_eq!(quiets[0], (0, 0));
    assert_eq!(quiets[1], (1, 1));
    assert!(quiets.contains(&(4, 4)));
    assert!(quiets.iter().all(|&(x, y)| 104 > 2 * x && 44 > 2 * y));
}

#[test]
fn suspects_are_weakest_bytes_first() {
    let matrix = SymbolMatrix::new(96, 36);
    let mut conf = vec![50u8; 40];
    conf[9] = 3;
    conf[17] = 3;
    conf[30] = 1;
    assert_eq!(suspect_bytes_from_bit_confidence(&matrix, &conf, 2), vec![3, 1]);
    assert_eq!(suspect_bytes_from_bit_confidence(&matrix, &conf, 16), vec![3, 1, 2, 0, 4]);
    assert_eq!(suspect_bytes_from_bit_confidence(&matrix, &conf, 0), Vec::<usize>::new());
    assert_eq!(suspect_bytes_from_bit_confidence(&matrix, &[], 4), Vec::<usize>::new());
}

#[test]
fn burst_assembler_returns_payload_when_complete() {
    let mut assembler = BurstAssembler::new(2);
    let first = Frame::new(TransmissionMode::Burst, EccLevel::Low, 0, 2, 7, b"ab".to_vec()).unwrap();
    let second = Frame::new(TransmissionMode::Burst, EccLevel::Low, 1, 2, 7, b"cd".to_vec()).unwrap();
    assert!(assembler.push(&second).unwrap().is_none());
    assert_eq!(assembler.push(&first).unwrap(), Some(b"abcd".to_vec()));
}

#[test]
fn burst_assembler_keeps_first_chunk_and_rejects_other_counts() {
    let mut assembler = BurstAssembler::new(3);
    let a = Frame::new(TransmissionMode::Burst, EccLevel::Low, 1, 3, 9, b"xy".to_vec()).unwrap();
    let b = Frame::new(TransmissionMode::Burst, EccLevel::Low, 1, 3, 9, b"zz".to_vec()).unwrap();
    let other = Frame::new(TransmissionMode::Burst, EccLevel::Low, 0, 2, 9, b"q".to_vec()).unwrap();
    assert!(assembler.push(&a).unwrap().is_none());
    assert!(assembler.push(&b).unwrap().is_none());
    assert!(matches!(assembler.push(&other), Err(ScannerError::InconsistentBurst(9))));
    let c = Frame::new(TransmissionMode::Burst, EccLevel::Low, 2, 3, 9, b"!".to_vec()).unwrap();
    let d = Frame::new(TransmissionMode::Burst, EccLevel::Low, 0, 3, 9, b"<".to_vec()).unwrap();
    assert!(assembler.push(&c).unwrap().is_none());
    assert_eq!(assembler.push(&d).unwrap(), Some(b"<xy!".to_vec()));
}

#[test]
fn encoded_burst_reassembles_in_any_order() {
    let encoder = Encoder::new(EncoderConfig {
        mode: TransmissionMode::Burst,
        max_frame_payload: 4,
        ..EncoderConfig::default()
    });
    let payload = b"burst payload spread over frames";
    let frames = encoder.encode_burst(payload).unwrap();
    let count = frames.len() as u16;
    let mut assembler = BurstAssembler::new(count);
    let mut result = None;
    for symbol in frames.iter().rev() {
        result = assembler.push(&symbol.frame).unwrap();
    }
    assert_eq!(result, Some(payload.to_vec()));
}

struct Frames(Vec<CameraFrame>);

impl FrameSource for Frames {
    fn next_frame(&mut self) -> Option<CameraFrame> {
        if self.0.is_empty() {
            None
        } else {
            Some(self.0.remove(0))
        }
    }
}

#[test]
fn scanner_collects_burst_frames() {
    let encoder = Encoder::new(EncoderConfig {
        mode: TransmissionMode::Burst,
        max_frame_payload: 6,
        ..EncoderConfig::default()
    });
    let frames = encoder.encode_burst(b"scanner burst").unwrap();
    let images: Vec<CameraFrame> = frames
        .iter()
        .enumerate()
        .map(|(i, symbol)| CameraFrame {
            image: paint(&RasterRenderer::default().render(&symbol.matrix).unwrap()),
            timestamp_micros: i as u64 * 1000,
        })
        .collect();
    let mut scanner = Scanner::new(ScannerConfig::default());
    let first = scanner.scan_frame(images[0].clone()).unwrap();
    assert_eq!(first.timestamp_micros, 0);
    assert!(first.complete_payload.is_none());
    let mut source = Frames(images);
    let mut fresh = Scanner::default();
    assert_eq!(fresh.scan_source(&mut source).unwrap(), Some(b"scanner burst".to_vec()));

    let single = Encoder::default().encode_static(b"one").unwrap();
    let frame = CameraFrame {
        image: paint(&RasterRenderer::default().render(&single.matrix).unwrap()),
        timestamp_micros: 5,
    };
    let event = scanner.scan_frame(frame).unwrap();
    assert_eq!(event.complete_payload, Some(b"one".to_vec()));
    let blank = CameraFrame { image: LumaImage::from_raw(8, 8, vec![255; 64]).unwrap(), timestamp_micros: 6 };
    assert!(matches!(
        scanner.scan_frame(blank),
        Err(ScannerError::Decode(DecodeError::InvalidImageDimensions))
    ));
}

#[test]
fn profile_ids_parse_from_catalog_names() {
    for profile in profile_catalog() {
        assert_eq!(ProfileId::parse_name(profile.id.as_str()).unwrap(), profile.id);
    }
}

#[test]
fn burst_profile_has_throughput_target() {
    let profile = profile_spec(ProfileId::PulseBurst);
    assert_eq!(profile.mode, TransmissionMode::Burst);
    assert!(profile.target_fps.unwrap() >= 60);
    assert!(profile.benchmark.target_bytes_per_second > 0);
}

fn render_roundtrip(payload: &[u8]) -> Frame {
    let encoded = Encoder::default().encode_static(payload).unwrap();
    let image = paint(&RasterRenderer::default().render(&encoded.matrix).unwrap());
    RasterDecoder::default().decode(&image).unwrap().frame
}

#[test]
fn fixtures_roundtrip() {
    for payload in glyphnet::testkit::fixture_payloads() {
        let frame = render_roundtrip(&payload);
        assert_eq!(frame.payload, payload);
    }
}

#[test]
fn short_payloads_roundtrip() {
    let mut rng = rand::rngs::StdRng::seed_from_u64(0x6759_7068_6e65_7473);
    let lengths = [0usize, 1, 2, 3, 7, 15, 31, 63, 95, 127, 191, 255];
    for len in lengths {
        let mut payload = vec![0u8; len];
        rng.fill_bytes(&mut payload);
        let frame = render_roundtrip(&payload);
        assert_eq!(frame.payload, payload);
    }
}

#[test]
fn scan_source_stops_at_the_limit_a_dry_source_or_an_error() {
    let encoder = Encoder::new(EncoderConfig {
        mode: TransmissionMode::Burst,
        max_frame_payload: 6,
        ..EncoderConfig::default()
    });
    let frames = encoder.encode_burst(b"scanner burst").unwrap();
    let images: Vec<CameraFrame> = frames
        .iter()
        .enumerate()
        .map(|(i, symbol)| CameraFrame {
            image: paint(&RasterRenderer::default().render(&symbol.matrix).unwrap()),
            timestamp_micros: i as u64,
        })
        .collect();
    assert!(images.len() > 1);
    // Too few frames allowed: nothing complete.
    let mut limited = Scanner::new(ScannerConfig { max_frames: 1, ..ScannerConfig::default() });
    let mut source = Frames(images.clone());
    assert_eq!(limited.scan_source(&mut source).unwrap(), None);
    assert_eq!(source.0.len(), images.len() - 1);
    // No frames allowed: the source is not read.
    let mut none = Scanner::new(ScannerConfig { max_frames: 0, ..ScannerConfig::default() });
    let mut source = Frames(images.clone());
    assert_eq!(none.scan_source(&mut source).unwrap(), None);
    assert_eq!(source.0.len(), images.len());
    // A dry source ends the scan.
    let mut dry = Scanner::default();
    assert_eq!(dry.scan_source(&mut Frames(Vec::new())).unwrap(), None);
    // A frame that does not decode ends the scan with its error.
    let blank = CameraFrame { image: LumaImage::from_raw(8, 8, vec![255; 64]).unwrap(), timestamp_micros: 0 };
    let mut failing = Scanner::default();
    assert!(matches!(
        failing.scan_source(&mut Frames(vec![blank])),
        Err(ScannerError::Decode(DecodeError::InvalidImageDimensions))
    ));
}
