//! The decode attempts of a still scan: which candidates are tried, how a candidate
//! found on a downscaled copy maps back to the full picture, and which decoders a
//! candidate is offered to, in order.
use vstd::prelude::*;

use crate::candidates::still::{
    dark_bounds, dark_bounds_spec, edge_clipped_spec, expand_edge_clipped_signature_region,
    fallback_ribbon_region_from_bounds, fallback_ribbon_spec, large_image, still_candidates_spec,
    still_scan_candidates, ColorImage,
};
use crate::candidates::{
    at_most, cand, clamp_u32, max_u32, min_u32, region_of, round_ratio, sat_mul, CandidateStage,
    ScanCandidate,
};
use crate::cv::VisionProfile;
use crate::descriptor::LayoutFamily;
use crate::raster::LumaImage;
use crate::scanner::{CandidateDetector, ScanRegion};

verus! {

/// The most candidates a quick (not robust) scan offers to the decoders.
pub const MAX_QUICK_ATTEMPTS: usize = 24;

/// The largest candidate area, in pixels, that a quick scan crops and decodes.
pub const MAX_QUICK_CANDIDATE_AREA: u32 = 8_000_000;

/// `v` rounded to a whole number, halves up, for `v == p / q`.
pub open spec fn rounded(p: int, q: int) -> u32 {
    clamp_u32(round_ratio(p, q))
}

/// The size of a picture scaled down so that its longest side is `max_dim`, each side
/// rounded and at least one pixel; `None` when it already fits.
pub open spec fn downscale_spec(width: u32, height: u32, max_dim: u32) -> Option<(u32, u32)> {
    let longest = max_u32(width, height);
    if longest <= max_dim {
        None
    } else {
        Some(
            (
                max_u32(rounded(width * max_dim, longest as int), 1),
                max_u32(rounded(height * max_dim, longest as int), 1),
            ),
        )
    }
}

/// `p / q` rounded, halves up, clamped to `u32`.
fn rounded_ratio(p: u64, q: u64) -> (r: u32)
    requires
        q > 0,
    ensures
        r == rounded(p as int, q as int),
{
    let v = (2 * (p as u128) + (q as u128)) / (2 * (q as u128));
    if v > u32::MAX as u128 {
        u32::MAX
    } else {
        v as u32
    }
}

/// The size of a picture scaled down so that its longest side is `max_dim`, or `None`
/// when it fits already.
pub fn downscaled_size(width: u32, height: u32, max_dim: u32) -> (r: Option<(u32, u32)>)
    ensures
        r == downscale_spec(width, height, max_dim),
{
    let longest = if width >= height {
        width
    } else {
        height
    };
    if longest <= max_dim {
        return None;
    }
    proof {
        assert((width as int) * (max_dim as int) <= 0xffff_ffff * 0xffff_ffffint) by (nonlinear_arith)
            requires
                width <= 0xffff_ffff,
                max_dim <= 0xffff_ffff,
        ;
        assert((height as int) * (max_dim as int) <= 0xffff_ffff * 0xffff_ffffint) by (nonlinear_arith)
            requires
                height <= 0xffff_ffff,
                max_dim <= 0xffff_ffff,
        ;
    }
    let sw = rounded_ratio((width as u64) * (max_dim as u64), longest as u64);
    let sh = rounded_ratio((height as u64) * (max_dim as u64), longest as u64);
    Some((if sw >= 1 { sw } else { 1 }, if sh >= 1 { sh } else { 1 }))
}

/// `a / b` rounded down, clamped to `u32`.
pub open spec fn floor_u32(a: int, b: int) -> u32 {
    clamp_u32(a / b)
}

/// `a / b` rounded up, clamped to `u32`.
pub open spec fn ceil_u32(a: int, b: int) -> u32 {
    clamp_u32((a + b - 1) / b)
}

/// The scale `num / den` as used to map back: at least one hundredth.
pub open spec fn effective_scale(num: u32, den: u32) -> (u32, u32) {
    if 100 * num < den {
        (1, 100)
    } else {
        (num, den)
    }
}

/// A region found on a copy scaled by `num / den` mapped back onto the full picture:
/// padded by 8 % of its size on each side, divided by the scale (the start rounded
/// down, the end up), and kept inside the picture with at least one pixel.
pub open spec fn full_resolution_spec(
    region: ScanRegion,
    full_width: u32,
    full_height: u32,
    num: u32,
    den: u32,
) -> ScanRegion {
    let (n, d) = effective_scale(num, den);
    let pad_x = rounded(8 * region.width, 100);
    let pad_y = rounded(8 * region.height, 100);
    let x0 = floor_u32(region.x.saturating_sub(pad_x) * d, n as int);
    let y0 = floor_u32(region.y.saturating_sub(pad_y) * d, n as int);
    let x1 = ceil_u32((region.x + region.width + pad_x) * d, n as int);
    let y1 = ceil_u32((region.y + region.height + pad_y) * d, n as int);
    let x = min_u32(x0, full_width.saturating_sub(1));
    let y = min_u32(y0, full_height.saturating_sub(1));
    let max_x = max_u32(min_u32(x1, full_width), x.saturating_add(1));
    let max_y = max_u32(min_u32(y1, full_height), y.saturating_add(1));
    region_of(x, y, max_u32(max_x.saturating_sub(x), 1), max_u32(max_y.saturating_sub(y), 1))
}

/// `a * d / n` rounded down or up, clamped to `u32`.
fn scale_back(a: u64, d: u32, n: u32, up: bool) -> (r: u32)
    requires
        n > 0,
        a <= 0x3_0000_0000,
    ensures
        up ==> r == ceil_u32(a * d, n as int),
        !up ==> r == floor_u32(a * d, n as int),
{
    proof {
        assert((a as int) * (d as int) <= 0x3_0000_0000 * 0xffff_ffffint) by (nonlinear_arith)
            requires
                a <= 0x3_0000_0000,
                d <= 0xffff_ffff,
        ;
    }
    let p = (a as u128) * (d as u128);
    let v = if up {
        (p + n as u128 - 1) / n as u128
    } else {
        p / n as u128
    };
    if v > u32::MAX as u128 {
        u32::MAX
    } else {
        v as u32
    }
}

/// A region found on a copy of the picture scaled by `num / den` mapped back onto the
/// full picture of `full_width` x `full_height` pixels.
pub fn map_region_to_full_resolution(
    region: ScanRegion,
    full_width: u32,
    full_height: u32,
    num: u32,
    den: u32,
) -> (r: ScanRegion)
    requires
        num > 0,
    ensures
        r == full_resolution_spec(region, full_width, full_height, num, den),
        r.width >= 1 && r.height >= 1,
        full_width >= 1 ==> r.x + r.width <= full_width,
        full_height >= 1 ==> r.y + r.height <= full_height,
{
    let (n, d) = if (num as u64) * 100 < den as u64 {
        (1u32, 100u32)
    } else {
        (num, den)
    };
    let pad_x = rounded_ratio(8 * (region.width as u64), 100);
    let pad_y = rounded_ratio(8 * (region.height as u64), 100);
    let x0 = scale_back(region.x.saturating_sub(pad_x) as u64, d, n, false);
    let y0 = scale_back(region.y.saturating_sub(pad_y) as u64, d, n, false);
    let x1 = scale_back((region.x as u64) + (region.width as u64) + (pad_x as u64), d, n, true);
    let y1 = scale_back((region.y as u64) + (region.height as u64) + (pad_y as u64), d, n, true);
    let lx = full_width.saturating_sub(1);
    let ly = full_height.saturating_sub(1);
    let x = if x0 <= lx {
        x0
    } else {
        lx
    };
    let y = if y0 <= ly {
        y0
    } else {
        ly
    };
    let cx = if x1 <= full_width {
        x1
    } else {
        full_width
    };
    let cy = if y1 <= full_height {
        y1
    } else {
        full_height
    };
    let max_x = if cx >= x.saturating_add(1) {
        cx
    } else {
        x.saturating_add(1)
    };
    let max_y = if cy >= y.saturating_add(1) {
        cy
    } else {
        y.saturating_add(1)
    };
    let w = max_x.saturating_sub(x);
    let h = max_y.saturating_sub(y);
    ScanRegion { x, y, width: if w >= 1 { w } else { 1 }, height: if h >= 1 { h } else { 1 } }
}

/// A candidate found on a copy of the picture scaled by `num / den`, its region mapped
/// back onto the full picture of `full_width` x `full_height` pixels.
pub fn map_candidate_to_full_resolution(
    candidate: ScanCandidate,
    full_width: u32,
    full_height: u32,
    num: u32,
    den: u32,
) -> (r: ScanCandidate)
    requires
        num > 0,
    ensures
        r == cand(
            candidate.detector,
            candidate.layout_hint,
            candidate.stage,
            full_resolution_spec(candidate.region, full_width, full_height, num, den),
        ),
{
    ScanCandidate {
        detector: candidate.detector,
        layout_hint: candidate.layout_hint,
        stage: candidate.stage,
        region: map_region_to_full_resolution(candidate.region, full_width, full_height, num, den),
    }
}

/// A candidate found on a copy scaled by `num / den` made ready for the full picture:
/// mapped back when the copy was smaller, then grown to a whole ribbon where a
/// signature or coarse-grid window touches the edge.
pub open spec fn full_resolution_candidate_spec(
    c: ScanCandidate,
    full_width: u32,
    full_height: u32,
    num: u32,
    den: u32,
) -> ScanCandidate {
    let region = if num < den {
        full_resolution_spec(c.region, full_width, full_height, num, den)
    } else {
        c.region
    };
    cand(
        c.detector,
        c.layout_hint,
        c.stage,
        edge_clipped_spec(region, c.stage, full_width, full_height),
    )
}

/// A candidate found on a copy of the picture scaled by `num / den` made ready for the
/// full picture of `full_width` x `full_height` pixels.
pub fn adjust_candidate_for_full_resolution(
    candidate: ScanCandidate,
    full_width: u32,
    full_height: u32,
    num: u32,
    den: u32,
) -> (r: ScanCandidate)
    requires
        num > 0,
    ensures
        r == full_resolution_candidate_spec(candidate, full_width, full_height, num, den),
{
    let mapped = if num < den {
        map_candidate_to_full_resolution(candidate, full_width, full_height, num, den)
    } else {
        candidate
    };
    ScanCandidate {
        region: expand_edge_clipped_signature_region(mapped.region, mapped.stage, full_width, full_height),
        ..mapped
    }
}

/// Whether a candidate is small enough to crop and decode: always in a robust scan,
/// else up to the quick-scan area.
pub open spec fn attempt_area_spec(region: ScanRegion, robust: bool) -> bool {
    robust || sat_mul(region.width, region.height) <= MAX_QUICK_CANDIDATE_AREA
}

/// Whether a candidate is small enough to crop and decode.
pub fn within_attempt_area(region: ScanRegion, robust: bool) -> (r: bool)
    ensures
        r == attempt_area_spec(region, robust),
{
    robust || crate::candidates::saturating_mul_u32(region.width, region.height)
        <= MAX_QUICK_CANDIDATE_AREA
}

/// The padding around generic candidates: the profile's anchor size, at least 8.
pub open spec fn scan_padding(profile: VisionProfile) -> u32 {
    max_u32(profile.min_anchor_px, 8)
}

/// The candidates a still scan offers to the decoders, in order: the still-image
/// candidates; when a quick scan finds none, the ribbon window grown from the dark
/// bounds; a quick scan keeps the first 24.
pub open spec fn scan_regions_spec(
    image: ColorImage,
    binary: LumaImage,
    profile: VisionProfile,
    robust: bool,
) -> Seq<ScanCandidate> {
    let base = still_candidates_spec(image, binary, profile, scan_padding(profile), robust);
    let listed = if base.len() == 0 && !robust {
        match dark_bounds_spec(binary) {
            Some(bounds) => match fallback_ribbon_spec(bounds, image.spec_width(), image.spec_height()) {
                Some(region) => seq![
                    cand(
                        CandidateDetector::RibbonWeave,
                        Some(LayoutFamily::RibbonWeave),
                        CandidateStage::BinaryDarkBoundsFallback,
                        region,
                    ),
                ],
                None => base,
            },
            None => base,
        }
    } else {
        base
    };
    if robust {
        listed
    } else {
        at_most(listed, MAX_QUICK_ATTEMPTS as int)
    }
}

/// The candidates a still scan offers to the decoders, in order.
pub fn still_scan_regions(image: &ColorImage, binary: &LumaImage, profile: VisionProfile, robust: bool) -> (r: Vec<
    ScanCandidate,
>)
    requires
        binary.spec_width() == image.spec_width(),
        binary.spec_height() == image.spec_height(),
        robust && !large_image(image.spec_width(), image.spec_height()) ==> 2 * scan_padding(profile)
            <= u32::MAX,
    ensures
        r@ == scan_regions_spec(*image, *binary, profile, robust),
        !robust ==> r@.len() <= MAX_QUICK_ATTEMPTS,
{
    let padding = if profile.min_anchor_px >= 8 {
        profile.min_anchor_px
    } else {
        8
    };
    let mut regions = still_scan_candidates(image, binary, profile, padding, robust);
    if regions.len() == 0 && !robust {
        match dark_bounds(binary) {
            Some(bounds) => match fallback_ribbon_region_from_bounds(bounds, image.width(), image.height()) {
                Some(region) => {
                    regions.push(
                        ScanCandidate {
                            detector: CandidateDetector::RibbonWeave,
                            layout_hint: Some(LayoutFamily::RibbonWeave),
                            stage: CandidateStage::BinaryDarkBoundsFallback,
                            region,
                        },
                    );
                    assert(regions@ =~= seq![
                        cand(
                            CandidateDetector::RibbonWeave,
                            Some(LayoutFamily::RibbonWeave),
                            CandidateStage::BinaryDarkBoundsFallback,
                            region,
                        ),
                    ]);
                },
                None => {},
            },
            None => {},
        }
    }
    if !robust {
        regions.truncate(MAX_QUICK_ATTEMPTS);
    }
    regions
}

/// The largest ribbon-window area, in pixels, sampled on a fractional grid.
pub const MAX_FRACTIONAL_AREA: u32 = 700_000;

/// One way of decoding a candidate crop.
#[derive(Debug, Clone, Copy, PartialEq, Eq, Structural)]
pub enum DecodeStep {
    /// Fixed-size matrix decoding: the module size from the crop size.
    ExactMatrix,
    /// Fixed-size ribbon decoding: the module size from the crop size.
    ExactRibbon,
    /// The window trimmed, shifted and resized onto whole modules, binarized, and
    /// decoded on a clean canvas.
    ForcedNormalizedRibbon,
    /// Sampling on a fractional module grid that fills the crop.
    FractionalRibbon,
    /// The crop on white margins of 4, 8, 12 and 16 %, each auto-detected, sampled on
    /// a fractional grid, then decoded as an exact ribbon.
    PaddedVariants,
    /// The crop resized to a ribbon of 4-pixel modules, decoded as an exact ribbon,
    /// then through the padded variants.
    NormalizedRibbon,
    /// Auto-detection of module size, quiet zone, threshold and layout.
    AutoDetect,
}

/// The decoders tried for a candidate's stage, in order: ribbon windows go to the
/// exact ribbon decoder, a forced normalization, a fractional grid (windows of at most
/// 700 000 pixels), then padded and normalized copies; dark bounds and dark ribbons
/// to the exact ribbon decoder, a fractional grid and padded copies before
/// auto-detection; the rest to auto-detection, then padded copies.
pub open spec fn stage_steps(c: ScanCandidate) -> Seq<DecodeStep> {
    match c.stage {
        CandidateStage::SignatureWindow | CandidateStage::CoarseGrid => seq![
            DecodeStep::ExactRibbon,
            DecodeStep::ForcedNormalizedRibbon,
        ] + (if sat_mul(c.region.width, c.region.height) <= MAX_FRACTIONAL_AREA {
            seq![DecodeStep::FractionalRibbon]
        } else {
            Seq::empty()
        }) + seq![DecodeStep::PaddedVariants, DecodeStep::NormalizedRibbon],
        CandidateStage::DarkBounds | CandidateStage::DarkRibbon => seq![
            DecodeStep::ExactRibbon,
            DecodeStep::FractionalRibbon,
            DecodeStep::PaddedVariants,
            DecodeStep::AutoDetect,
            DecodeStep::PaddedVariants,
        ],
        _ => seq![DecodeStep::AutoDetect, DecodeStep::PaddedVariants],
    }
}

/// The decoders tried on a candidate, in order: a matrix hint first tries exact
/// matrix decoding, then the steps of its stage.
pub open spec fn decode_steps_spec(c: ScanCandidate) -> Seq<DecodeStep> {
    if c.layout_hint == Some(LayoutFamily::Matrix) {
        seq![DecodeStep::ExactMatrix] + stage_steps(c)
    } else {
        stage_steps(c)
    }
}

/// The decoders tried on a candidate, in order; the first success is the result.
pub fn decode_steps(candidate: &ScanCandidate) -> (r: Vec<DecodeStep>)
    ensures
        r@ == decode_steps_spec(*candidate),
{
    let mut steps: Vec<DecodeStep> = Vec::new();
    let matrix = match candidate.layout_hint {
        Some(LayoutFamily::Matrix) => true,
        _ => false,
    };
    if matrix {
        steps.push(DecodeStep::ExactMatrix);
    }
    let ghost before = steps@;
    match candidate.stage {
        CandidateStage::SignatureWindow | CandidateStage::CoarseGrid => {
            steps.push(DecodeStep::ExactRibbon);
            steps.push(DecodeStep::ForcedNormalizedRibbon);
            let area = crate::candidates::saturating_mul_u32(candidate.region.width, candidate.region.height);
            if area <= MAX_FRACTIONAL_AREA {
                steps.push(DecodeStep::FractionalRibbon);
            }
            steps.push(DecodeStep::PaddedVariants);
            steps.push(DecodeStep::NormalizedRibbon);
        },
        CandidateStage::DarkBounds | CandidateStage::DarkRibbon => {
            steps.push(DecodeStep::ExactRibbon);
            steps.push(DecodeStep::FractionalRibbon);
            steps.push(DecodeStep::PaddedVariants);
            steps.push(DecodeStep::AutoDetect);
            steps.push(DecodeStep::PaddedVariants);
        },
        _ => {
            steps.push(DecodeStep::AutoDetect);
            steps.push(DecodeStep::PaddedVariants);
        },
    }
    assert(steps@ =~= before + stage_steps(*candidate));
    steps
}

} // verus!
