use glyphnet::candidates::bands::horizontal_band_regions;
use glyphnet::candidates::components::{dark_components, DarkComponent};
use glyphnet::candidates::exact::{decode_exact_matrix_candidate, decode_exact_ribbon_candidate, matrix_module_px_candidates};
use glyphnet::candidates::matrix::{matrix_candidates, matrix_finders};
use glyphnet::candidates::rails::{rail_groups, rail_row, ribbon_rail_regions, RailRow};
use glyphnet::candidates::still::{
    content_bounds, dark_bounds, expand_edge_clipped_signature_region, fallback_ribbon_region_from_bounds,
    has_wide_ui_band, should_try_full_frame_decode, should_try_quad_rectification, still_scan_candidates, ColorImage,
};
use glyphnet::candidates::{
    centered_region, clamp_region, coarse_ribbon_grid_candidates, content_symbol_regions, expand_region, median3,
    plausible_region, push_unique_candidate, reference_generated_geometry, reference_ribbon_geometry, region_fits,
    ribbon_aspect_region, ribbon_dark_bounds_candidates, union_region, CandidateStage, ScanCandidate,
};
use glyphnet::cv::{adaptive_threshold, VisionProfile};
use glyphnet::decode::DecodeError;
use glyphnet::descriptor::LayoutFamily;
use glyphnet::encode::{Encoder, EncoderConfig};
use glyphnet::mode::TransmissionMode;
use glyphnet::raster::LumaImage;
use glyphnet::render::{ModuleShape, RasterPlan, RasterRenderer};
use glyphnet::scanner::{CandidateDetector, ScanRegion};

fn region(x: u32, y: u32, width: u32, height: u32) -> ScanRegion {
    ScanRegion { x, y, width, height }
}

fn luma_from(width: u32, height: u32, dark: &dyn Fn(u32, u32) -> bool) -> LumaImage {
    let mut pixels = Vec::new();
    for y in 0..height {
        for x in 0..width {
            pixels.push(if dark(x, y) { 0 } else { 255 });
        }
    }
    LumaImage::from_raw(width, height, pixels).unwrap()
}

// Paint a raster plan the way the renderer's painter does, as RGBA.
fn paint_rgba(plan: &RasterPlan) -> Vec<[u8; 4]> {
    let w = plan.width as usize;
    let h = plan.height as usize;
    let mut rgba = vec![plan.light.0; w * h];
    let size = plan.module_px;
    for op in &plan.ops {
        let color = op.color.0;
        match op.shape {
            ModuleShape::Square => {
                for y in op.start_y..op.start_y + size {
                    for x in op.start_x..op.start_x + size {
                        rgba[y as usize * w + x as usize] = color;
                    }
                }
            }
            ModuleShape::Capsule | ModuleShape::Ribbon => {
                let pad_y = (size as f32 * 0.14).round() as u32;
                let height = size.saturating_sub(pad_y * 2).max(1);
                let radius = height as f32 / 2.0;
                let center_left = op.start_x as f32 + radius;
                let center_right = op.start_x as f32 + op.width.saturating_sub(1) as f32 - radius;
                let center_y = op.start_y as f32 + pad_y as f32 + radius;
                let end_x = op.start_x + op.width.max(1);
                let end_y = op.start_y + pad_y + height;
                for y in op.start_y..op.start_y + size {
                    if y < op.start_y + pad_y || y >= end_y {
                        continue;
                    }
                    for x in op.start_x..end_x {
                        let px = x as f32 + 0.5;
                        let py = y as f32 + 0.5;
                        let inside = px >= center_left && px <= center_right;
                        let dx = if px < center_left {
                            px - center_left
                        } else if px > center_right {
                            px - center_right
                        } else {
                            0.0
                        };
                        let dy = py - center_y;
                        if inside || dx * dx + dy * dy <= radius * radius {
                            rgba[y as usize * w + x as usize] = color;
                        }
                    }
                }
            }
            ModuleShape::Diamond => {
                let center = size as i32 / 2;
                let radius = center.max(1);
                for y in 0..size {
                    for x in 0..size {
                        let dx = x as i32 - center;
                        let dy = y as i32 - center;
                        if dx.abs() + dy.abs() <= radius {
                            rgba[(op.start_y + y) as usize * w + (op.start_x + x) as usize] = color;
                        }
                    }
                }
            }
        }
    }
    let _ = h;
    rgba
}

fn to_luma(rgba: &[[u8; 4]]) -> Vec<u8> {
    rgba.iter()
        .map(|p| ((2126 * p[0] as u32 + 7152 * p[1] as u32 + 722 * p[2] as u32) / 10000) as u8)
        .collect()
}

fn rendered(payload: &[u8], layout: LayoutFamily) -> (u32, u32, Vec<[u8; 4]>) {
    let encoder = Encoder::new(EncoderConfig { layout, ..EncoderConfig::default() });
    let encoded = encoder.encode_static(payload).unwrap();
    let plan = RasterRenderer::default().render(&encoded.matrix).unwrap();
    let rgba = paint_rgba(&plan);
    (plan.width, plan.height, rgba)
}

fn on_canvas(width: u32, height: u32, rgba: &[[u8; 4]], margin: u32) -> (u32, u32, Vec<[u8; 4]>) {
    let cw = width + 2 * margin;
    let ch = height + 2 * margin;
    let mut canvas = vec![[255u8, 255, 255, 255]; (cw * ch) as usize];
    for y in 0..height {
        for x in 0..width {
            canvas[((y + margin) * cw + x + margin) as usize] = rgba[(y * width + x) as usize];
        }
    }
    (cw, ch, canvas)
}

fn crop(image: &LumaImage, r: ScanRegion) -> LumaImage {
    let mut pixels = Vec::new();
    for y in r.y..r.y + r.height {
        for x in r.x..r.x + r.width {
            pixels.push(image.luma(x, y));
        }
    }
    LumaImage::from_raw(r.width, r.height, pixels).unwrap()
}

#[test]
fn region_helpers_compute_exact_regions() {
    assert_eq!(union_region(region(10, 20, 5, 5), region(0, 0, 3, 3)), region(0, 0, 15, 25));
    assert_eq!(expand_region(region(10, 10, 20, 20), 5, 100, 100), region(5, 5, 30, 30));
    assert_eq!(expand_region(region(0, 0, 10, 10), 5, 12, 12), region(0, 0, 12, 12));
    assert_eq!(clamp_region(region(90, 90, 50, 50), 100, 100), region(90, 90, 10, 10));
    assert_eq!(centered_region(region(10, 10, 20, 20), 40, 10, 100, 100), Some(region(0, 15, 40, 10)));
    assert_eq!(centered_region(region(10, 10, 20, 20), 140, 10, 100, 100), None);
    assert_eq!(median3(5, 1, 3), 3);
    assert_eq!(median3(1, 1, 2), 1);
}

#[test]
fn plausibility_and_fit_follow_the_aspect_bounds() {
    assert!(plausible_region(region(0, 0, 80, 28)));
    assert!(!plausible_region(region(0, 0, 100, 100)));
    assert!(!plausible_region(region(0, 0, 79, 28)));
    assert!(plausible_region(region(0, 0, 360, 30)));
    assert!(!plausible_region(region(0, 0, 361, 30)));
    assert!(plausible_region(region(0, 0, 120, 100)));
    assert!(region_fits(region(10, 10, 104, 44), 114, 54));
    assert!(!region_fits(region(10, 10, 104, 44), 113, 54));
    assert!(!region_fits(region(0, 0, 103, 44), 500, 500));
    assert!(reference_generated_geometry(29, 29));
    assert!(reference_generated_geometry(96, 36));
    assert!(!reference_generated_geometry(97, 36));
    assert!(reference_ribbon_geometry(96, 36));
    assert!(!reference_ribbon_geometry(96, 50));
}

#[test]
fn push_unique_candidate_skips_repeated_regions() {
    let mut list: Vec<ScanCandidate> = Vec::new();
    push_unique_candidate(&mut list, CandidateDetector::Matrix, None, CandidateStage::MatrixFinders, region(1, 2, 3, 4));
    push_unique_candidate(&mut list, CandidateDetector::RibbonWeave, None, CandidateStage::CoarseGrid, region(1, 2, 3, 4));
    push_unique_candidate(&mut list, CandidateDetector::RibbonWeave, None, CandidateStage::CoarseGrid, region(1, 2, 3, 5));
    assert_eq!(list.len(), 2);
    assert_eq!(list[0].detector, CandidateDetector::Matrix);
    assert_eq!(list[1].region, region(1, 2, 3, 5));
}

#[test]
fn ribbon_aspect_windows_grow_to_ribbon_proportions() {
    // A square is implausible as is; widened about its centre it is a ribbon.
    assert_eq!(ribbon_aspect_region(region(100, 100, 100, 100), 1000, 1000), Some(region(32, 100, 236, 100)));
    // A region already plausible keeps its size.
    assert_eq!(ribbon_aspect_region(region(100, 100, 208, 44), 1000, 1000), Some(region(100, 100, 208, 44)));
    let cands = ribbon_dark_bounds_candidates(region(100, 100, 96, 36), 4, 1000, 1000);
    assert_eq!(cands.len(), 3);
    assert_eq!(cands[0].stage, CandidateStage::DarkRibbon);
    assert_eq!(cands[0].region, region(96, 96, 104, 44));
    assert_eq!(cands[1].stage, CandidateStage::DarkBounds);
    assert_eq!(cands[1].region, region(96, 96, 104, 44));
    assert_eq!(cands[2].stage, CandidateStage::SignatureWindow);
}

#[test]
fn coarse_grid_needs_room_for_a_symbol() {
    assert!(coarse_ribbon_grid_candidates(239, 500).is_empty());
    assert!(coarse_ribbon_grid_candidates(300, 300).is_empty());
    let grid = coarse_ribbon_grid_candidates(1000, 500);
    assert!(!grid.is_empty());
    // The first window: four-pixel modules at 6% and 8% of the image.
    assert_eq!(grid[0].region, region(60, 40, 416, 176));
    assert!(grid.iter().all(|c| c.region.x + c.region.width <= 1000 && c.region.y + c.region.height <= 500));
    assert!(grid.iter().any(|c| c.region == region(292, 162, 416, 176)));
}

#[test]
fn content_regions_frame_exact_content_bounds() {
    // Bounds of 96 x 36 four-pixel modules: the ribbon of the generated pass and the
    // reference pass.
    let cands = content_symbol_regions(region(48, 48, 384, 144), 1000, 1000, 18);
    assert!(cands.iter().any(|c| c.region == region(32, 32, 416, 176) && c.stage == CandidateStage::ContentBounds));
    assert!(cands.iter().any(|c| c.region == region(32, 32, 416, 176) && c.stage == CandidateStage::ContentReference));
    assert!(cands.iter().all(|c| c.detector == CandidateDetector::GeneratedContent));
}

#[test]
fn dark_components_join_diagonal_neighbours_largest_first() {
    let dark = |x: u32, y: u32| {
        (x, y) == (0, 0) || (x, y) == (1, 1) || (x, y) == (4, 0) || (x, y) == (4, 1) || (x, y) == (5, 1) || (x, y) == (0, 3)
    };
    let img = luma_from(6, 4, &dark);
    let comps = dark_components(&img);
    assert_eq!(
        comps,
        vec![
            DarkComponent { pixels: 3, bounds: region(4, 0, 2, 2) },
            DarkComponent { pixels: 2, bounds: region(0, 0, 2, 2) },
            DarkComponent { pixels: 1, bounds: region(0, 3, 1, 1) },
        ]
    );
}

#[test]
fn dark_components_keep_first_pixel_order_between_equals() {
    let dark = |x: u32, y: u32| (x == 5 && y == 0) || (x == 1 && y == 2);
    let comps = dark_components(&luma_from(7, 3, &dark));
    assert_eq!(comps[0].bounds, region(5, 0, 1, 1));
    assert_eq!(comps[1].bounds, region(1, 2, 1, 1));
    assert!(dark_components(&luma_from(0, 0, &dark)).is_empty());
}

#[test]
fn dark_bounds_unite_significant_components() {
    let blocks = |x: u32, y: u32| (x < 4 && y < 4) || (x >= 10 && x < 15 && y >= 6 && y < 11) || (x == 19 && y == 19);
    assert_eq!(dark_bounds(&luma_from(20, 20, &blocks)), Some(region(0, 0, 15, 11)));
    let small = |x: u32, y: u32| (x < 2 && y < 2) || (x == 9 && y == 9);
    assert_eq!(dark_bounds(&luma_from(10, 10, &small)), Some(region(0, 0, 2, 2)));
    assert_eq!(dark_bounds(&luma_from(10, 10, &|_, _| false)), None);
}

fn rail_pattern(x: u32) -> bool {
    x >= 20 && x < 120 && ((x - 20) / 5) % 2 == 0
}

#[test]
fn rail_row_finds_the_alternating_run() {
    let img = luma_from(200, 3, &|x, y| y == 1 && rail_pattern(x));
    assert_eq!(rail_row(&img, 1), Some(RailRow { y: 1, min_x: 8, max_x: 127, transitions: 20, dark: 50 }));
    assert_eq!(rail_row(&img, 0), None);
}

#[test]
fn rail_rows_merge_into_windows() {
    let img = luma_from(600, 300, &|x, y| (100..104).contains(&y) && rail_pattern(x));
    let groups = rail_groups(&img);
    assert_eq!(groups.len(), 1);
    assert_eq!((groups[0].y, groups[0].min_x, groups[0].max_x, groups[0].rows), (100, 8, 127, 4));
    let windows = ribbon_rail_regions(&img);
    assert!(windows.iter().any(|c| c.region == region(2, 83, 208, 88)));
    assert!(windows.iter().all(|c| c.stage == CandidateStage::SignatureWindow));
    assert!(windows.len() <= 32);
}

fn finder_at(fx: u32, fy: u32, m: u32, x: u32, y: u32) -> bool {
    if x < fx || y < fy || x >= fx + 7 * m || y >= fy + 7 * m {
        return false;
    }
    let mx = (x - fx) / m;
    let my = (y - fy) / m;
    mx == 0 || my == 0 || mx == 6 || my == 6 || ((2..=4).contains(&mx) && (2..=4).contains(&my))
}

#[test]
fn matrix_finders_and_frames_are_found() {
    let dark = |x: u32, y: u32| finder_at(40, 40, 4, x, y) || finder_at(128, 40, 4, x, y) || finder_at(40, 128, 4, x, y);
    let img = luma_from(240, 240, &dark);
    let finders = matrix_finders(&img);
    let near = |fx: u32, fy: u32| finders.iter().any(|f| f.module_px == 4 && f.x.abs_diff(fx) <= 2 && f.y.abs_diff(fy) <= 2);
    assert!(near(40, 40) && near(128, 40) && near(40, 128));
    let cands = matrix_candidates(&img);
    assert!(cands.iter().any(|c| {
        c.region.width == 148 && c.region.height == 148 && c.region.x.abs_diff(24) <= 2 && c.region.y.abs_diff(24) <= 2
            && c.layout_hint == Some(LayoutFamily::Matrix)
    }));
}

#[test]
fn horizontal_bands_are_padded() {
    let img = luma_from(300, 100, &|x, y| (40..60).contains(&y) && (50..250).contains(&x));
    let bands = horizontal_band_regions(&img, 8);
    assert!(bands.iter().any(|c| c.region == region(30, 20, 240, 60) && c.stage == CandidateStage::HorizontalBand));
    assert!(bands.len() <= 48);
}

#[test]
fn edge_clipped_windows_grow_against_the_edge() {
    let grown = expand_edge_clipped_signature_region(region(0, 10, 150, 60), CandidateStage::SignatureWindow, 1000, 500);
    assert_eq!(grown, region(0, 0, 200, 85));
    let kept = expand_edge_clipped_signature_region(region(0, 10, 150, 60), CandidateStage::DarkBounds, 1000, 500);
    assert_eq!(kept, region(0, 10, 150, 60));
    let inside = expand_edge_clipped_signature_region(region(5, 10, 150, 60), CandidateStage::CoarseGrid, 1000, 500);
    assert_eq!(inside, region(5, 10, 150, 60));
}

#[test]
fn fallback_window_grows_dark_bounds() {
    assert_eq!(fallback_ribbon_region_from_bounds(region(100, 90, 100, 60), 1000, 500), Some(region(75, 70, 150, 90)));
    assert_eq!(fallback_ribbon_region_from_bounds(region(0, 0, 40, 20), 1000, 500), None);
    assert_eq!(fallback_ribbon_region_from_bounds(region(0, 0, 400, 200), 100, 40), None);
}

#[test]
fn full_frame_decode_is_for_small_clean_frames() {
    let white = luma_from(200, 100, &|_, _| false);
    assert!(!has_wide_ui_band(&white));
    assert!(should_try_full_frame_decode(&white));
    let banded = luma_from(200, 100, &|_, y| y == 5);
    assert!(has_wide_ui_band(&banded));
    assert!(!should_try_full_frame_decode(&banded));
    assert!(!should_try_full_frame_decode(&luma_from(200, 10, &|_, _| false)));
    assert!(should_try_quad_rectification(700, 700, true));
    assert!(!should_try_quad_rectification(800, 700, true));
    assert!(!should_try_quad_rectification(10, 10, false));
}

#[test]
fn exact_ribbon_candidate_decodes_rendered_symbol() {
    let (w, h, rgba) = rendered(b"exact", LayoutFamily::RibbonWeave);
    let luma = LumaImage::from_raw(w, h, to_luma(&rgba)).unwrap();
    let decoded = decode_exact_ribbon_candidate(&luma, region(0, 0, w, h)).unwrap();
    assert_eq!(decoded.decoded.frame.payload, b"exact");
    assert_eq!(decoded.info.module_px, w / 104);
    assert_eq!(decoded.info.quiet_zone_modules, 4);
    assert!(matches!(decode_exact_ribbon_candidate(&luma, region(0, 0, w - 1, h)), Err(DecodeError::AutoDetectFailed)));
}

#[test]
fn exact_matrix_candidate_decodes_rendered_symbol() {
    let (w, h, rgba) = rendered(b"grid", LayoutFamily::Matrix);
    let luma = LumaImage::from_raw(w, h, to_luma(&rgba)).unwrap();
    assert_eq!(w, h);
    let modules = matrix_module_px_candidates(region(0, 0, w, h));
    assert!(!modules.is_empty());
    assert!(modules.windows(2).all(|p| p[0] > p[1]));
    let decoded = decode_exact_matrix_candidate(&luma, region(0, 0, w, h)).unwrap();
    assert_eq!(decoded.decoded.frame.payload, b"grid");
    assert_eq!(decoded.info.layout, LayoutFamily::Matrix);
    assert!(matrix_module_px_candidates(region(0, 0, 63, 63)).is_empty());
}

#[test]
fn content_bounds_find_the_symbol_on_a_clean_canvas() {
    let (w, h, rgba) = rendered(b"bounds", LayoutFamily::RibbonWeave);
    let (cw, ch, canvas) = on_canvas(w, h, &rgba, 40);
    let bytes: Vec<u8> = canvas.iter().flat_map(|p| p.iter().copied()).collect();
    let image = ColorImage::from_raw(cw, ch, bytes).unwrap();
    let bounds = content_bounds(&image).unwrap();
    let quiet = 4 * (w / 104);
    assert!(bounds.x >= 40 + quiet && bounds.y >= 40 + quiet);
    assert!(bounds.x + bounds.width <= 40 + w - quiet);
    let white = ColorImage::from_raw(2, 1, vec![255; 8]).unwrap();
    assert_eq!(content_bounds(&white), None);
    assert!(ColorImage::from_raw(2, 1, vec![255; 7]).is_none());
}

#[test]
fn still_scan_candidates_lead_to_the_symbol() {
    let (w, h, rgba) = rendered(b"still", LayoutFamily::RibbonWeave);
    let (cw, ch, canvas) = on_canvas(w, h, &rgba, 32);
    let bytes: Vec<u8> = canvas.iter().flat_map(|p| p.iter().copied()).collect();
    let image = ColorImage::from_raw(cw, ch, bytes).unwrap();
    let gray = LumaImage::from_raw(cw, ch, to_luma(&canvas)).unwrap();
    let profile = VisionProfile::for_mode(TransmissionMode::Print);
    let binary = adaptive_threshold(&gray, profile.threshold_radius, profile.threshold_bias).unwrap();
    let candidates = still_scan_candidates(&image, &binary, profile, profile.min_anchor_px.max(8), false);
    assert!(!candidates.is_empty());
    assert!(candidates.len() <= 28);
    let decoded = candidates.iter().find_map(|c| {
        let r = c.region;
        decode_exact_ribbon_candidate(&crop(&gray, r), r).ok()
    });
    assert_eq!(decoded.unwrap().decoded.frame.payload, b"still");
}

fn distinct(list: &[ScanCandidate]) -> bool {
    list.iter().enumerate().all(|(i, a)| list[i + 1..].iter().all(|b| a.region != b.region))
}

#[test]
fn candidate_lists_name_each_region_once() {
    let (w, h, rgba) = rendered(b"once", LayoutFamily::RibbonWeave);
    let (cw, ch, canvas) = on_canvas(w, h, &rgba, 48);
    let gray = LumaImage::from_raw(cw, ch, to_luma(&canvas)).unwrap();
    let profile = VisionProfile::for_mode(TransmissionMode::Print);
    let binary = adaptive_threshold(&gray, profile.threshold_radius, profile.threshold_bias).unwrap();
    let fits = |c: &ScanCandidate| region_fits(c.region, cw, ch);
    let rails = ribbon_rail_regions(&binary);
    assert!(distinct(&rails) && rails.iter().all(fits));
    let totems = glyphnet::candidates::totems::ribbon_totem_regions(&binary);
    assert!(distinct(&totems) && totems.iter().all(fits));
    let frames = matrix_candidates(&binary);
    assert!(distinct(&frames) && frames.iter().all(fits));
    let grid = coarse_ribbon_grid_candidates(cw, ch);
    assert!(!grid.is_empty());
    assert!(distinct(&grid) && grid.iter().all(fits));
    let bands = horizontal_band_regions(&binary, 18);
    assert!(distinct(&bands) && bands.iter().all(|c| plausible_region(c.region)));
    let generic = glyphnet::candidates::still::generic_binary_candidates(&binary, 18);
    assert!(distinct(&generic) && generic.iter().all(|c| plausible_region(c.region)));
}
