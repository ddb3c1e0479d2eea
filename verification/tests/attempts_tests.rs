use glyphnet::candidates::attempts::{
    adjust_candidate_for_full_resolution, decode_steps, downscaled_size, map_candidate_to_full_resolution,
    map_region_to_full_resolution,
    still_scan_regions, within_attempt_area, DecodeStep,
};
use glyphnet::candidates::crops::{crop_image, padded_size, white_pad_image};
use glyphnet::candidates::still::{still_scan_candidates, ColorImage};
use glyphnet::candidates::{CandidateStage, ScanCandidate};
use glyphnet::cv::{adaptive_threshold, VisionProfile};
use glyphnet::descriptor::LayoutFamily;
use glyphnet::mode::TransmissionMode;
use glyphnet::raster::LumaImage;
use glyphnet::scanner::{CandidateDetector, ScanRegion};

fn region(x: u32, y: u32, width: u32, height: u32) -> ScanRegion {
    ScanRegion { x, y, width, height }
}

fn candidate(stage: CandidateStage, hint: Option<LayoutFamily>, r: ScanRegion) -> ScanCandidate {
    ScanCandidate { detector: CandidateDetector::RibbonWeave, layout_hint: hint, stage, region: r }
}

fn pixels(image: &LumaImage) -> Vec<u8> {
    image.pixels().to_vec()
}

#[test]
fn downscaled_size_rounds_each_side() {
    assert_eq!(downscaled_size(2048, 1024, 1024), Some((1024, 512)));
    assert_eq!(downscaled_size(1500, 1001, 1280), Some((1280, 854)));
    assert_eq!(downscaled_size(3000, 1, 1280), Some((1280, 1)));
    assert_eq!(downscaled_size(1000, 500, 1024), None);
    assert_eq!(downscaled_size(1024, 1024, 1024), None);
}

#[test]
fn regions_map_back_with_padding() {
    assert_eq!(map_region_to_full_resolution(region(100, 50, 200, 100), 2048, 1024, 1024, 2048), region(168, 84, 464, 232));
    // Clamped to the full picture.
    assert_eq!(map_region_to_full_resolution(region(0, 0, 1024, 512), 2048, 1024, 1024, 2048), region(0, 0, 2048, 1024));
    // A scale under a hundredth counts as one hundredth.
    assert_eq!(map_region_to_full_resolution(region(1, 1, 1, 1), 100_000, 100_000, 1, 1000), region(100, 100, 100, 100));
}

#[test]
fn candidates_are_adjusted_only_when_scaled() {
    let c = candidate(CandidateStage::Component, None, region(10, 10, 50, 20));
    assert_eq!(adjust_candidate_for_full_resolution(c, 500, 400, 1, 1), c);
    let scaled = adjust_candidate_for_full_resolution(c, 1000, 800, 1, 2);
    assert_eq!(scaled.region, region(12, 16, 116, 48));
    assert_eq!(scaled.stage, CandidateStage::Component);
}

#[test]
fn quick_scans_skip_huge_candidates() {
    assert!(within_attempt_area(region(0, 0, 2000, 4000), false));
    assert!(!within_attempt_area(region(0, 0, 4000, 2001), false));
    assert!(within_attempt_area(region(0, 0, 4000, 2001), true));
}

#[test]
fn decode_plans_follow_the_stage() {
    let ribbon = candidate(CandidateStage::SignatureWindow, Some(LayoutFamily::RibbonWeave), region(0, 0, 104, 44));
    assert_eq!(
        decode_steps(&ribbon),
        vec![
            DecodeStep::ExactRibbon,
            DecodeStep::ForcedNormalizedRibbon,
            DecodeStep::FractionalRibbon,
            DecodeStep::PaddedVariants,
            DecodeStep::NormalizedRibbon
        ]
    );
    let wide = candidate(CandidateStage::CoarseGrid, Some(LayoutFamily::RibbonWeave), region(0, 0, 1040, 700));
    assert_eq!(
        decode_steps(&wide),
        vec![DecodeStep::ExactRibbon, DecodeStep::ForcedNormalizedRibbon, DecodeStep::PaddedVariants, DecodeStep::NormalizedRibbon]
    );
    let matrix = candidate(CandidateStage::MatrixFinders, Some(LayoutFamily::Matrix), region(0, 0, 64, 64));
    assert_eq!(decode_steps(&matrix), vec![DecodeStep::ExactMatrix, DecodeStep::AutoDetect, DecodeStep::PaddedVariants]);
    let dark = candidate(CandidateStage::DarkBounds, None, region(0, 0, 64, 64));
    assert_eq!(
        decode_steps(&dark),
        vec![
            DecodeStep::ExactRibbon,
            DecodeStep::FractionalRibbon,
            DecodeStep::PaddedVariants,
            DecodeStep::AutoDetect,
            DecodeStep::PaddedVariants
        ]
    );
    let band = candidate(CandidateStage::HorizontalBand, None, region(0, 0, 64, 64));
    assert_eq!(decode_steps(&band), vec![DecodeStep::AutoDetect, DecodeStep::PaddedVariants]);
}

#[test]
fn crops_are_cut_at_the_edges() {
    let image = LumaImage::from_raw(4, 3, (0u8..12).collect()).unwrap();
    let inner = crop_image(&image, region(1, 1, 2, 5));
    assert_eq!((inner.width(), inner.height()), (2, 2));
    assert_eq!(pixels(&inner), vec![5, 6, 9, 10]);
    let outside = crop_image(&image, region(10, 0, 3, 3));
    assert_eq!((outside.width(), outside.height()), (0, 3));
    assert!(pixels(&outside).is_empty());
}

#[test]
fn white_margins_surround_the_picture() {
    let image = LumaImage::from_raw(2, 1, vec![10, 20]).unwrap();
    assert_eq!(padded_size(2, 1, 4), (6, 5));
    let padded = white_pad_image(&image, 4);
    assert_eq!((padded.width(), padded.height()), (6, 5));
    let mut expected = vec![255u8; 30];
    expected[14] = 10;
    expected[15] = 20;
    assert_eq!(pixels(&padded), expected);
    assert_eq!(padded_size(100, 50, 12), (124, 62));
}

#[test]
fn scan_regions_keep_the_first_candidates() {
    let (w, h) = (320u32, 160u32);
    let mut rgba = Vec::new();
    let mut luma = Vec::new();
    for y in 0..h {
        for x in 0..w {
            let dark = (40..280).contains(&x) && (40..120).contains(&y) && (x / 8 + y / 8) % 2 == 0;
            let v = if dark { 0 } else { 255 };
            rgba.extend_from_slice(&[v, v, v, 255]);
            luma.push(v);
        }
    }
    let image = ColorImage::from_raw(w, h, rgba).unwrap();
    let gray = LumaImage::from_raw(w, h, luma).unwrap();
    let profile = VisionProfile::for_mode(TransmissionMode::Print);
    let binary = adaptive_threshold(&gray, profile.threshold_radius, profile.threshold_bias).unwrap();
    let all = still_scan_candidates(&image, &binary, profile, 18, false);
    let quick = still_scan_regions(&image, &binary, profile, false);
    assert!(!all.is_empty());
    assert_eq!(quick.len(), all.len().min(24));
    assert_eq!(quick[..], all[..quick.len()]);
    let robust = still_scan_regions(&image, &binary, profile, true);
    assert_eq!(robust, still_scan_candidates(&image, &binary, profile, 18, true));
}

#[test]
fn cropping_the_margins_gives_the_picture_back() {
    let image = LumaImage::from_raw(5, 3, (0u8..15).collect()).unwrap();
    for pct in [4, 8, 12, 16] {
        let padded = white_pad_image(&image, pct);
        let px = (padded.width() - 5) / 2;
        let py = (padded.height() - 3) / 2;
        let back = crop_image(&padded, region(px, py, 5, 3));
        assert_eq!((back.width(), back.height()), (5, 3));
        assert_eq!(pixels(&back), pixels(&image));
    }
}

#[test]
fn mapped_candidates_keep_their_stage_and_stay_inside() {
    let c = candidate(CandidateStage::SignatureWindow, Some(LayoutFamily::RibbonWeave), region(900, 400, 124, 60));
    let mapped = map_candidate_to_full_resolution(c, 2000, 1000, 1024, 2000);
    assert_eq!(mapped.stage, CandidateStage::SignatureWindow);
    assert_eq!(mapped.layout_hint, Some(LayoutFamily::RibbonWeave));
    assert!(mapped.region.x + mapped.region.width <= 2000);
    assert!(mapped.region.y + mapped.region.height <= 1000);
}
