//! Candidate regions for still-image scanning: where in a picture, and in its
//! thresholded copy, a symbol may stand.
use vstd::prelude::*;

use crate::descriptor::LayoutFamily;
use crate::raster::{luma_at, LumaImage};
use crate::scanner::{CandidateDetector, ScanRegion};

pub mod attempts;
pub mod bands;
pub mod components;
pub mod crops;
pub mod exact;
pub mod luma_bounds;
pub mod matrix;
pub mod rails;
pub mod still;
pub mod totems;
pub mod uniqueness;

verus! {
/// The detector stage that proposed a candidate.
#[derive(Debug, Clone, Copy, PartialEq, Eq, Structural)]
pub enum CandidateStage {
    /// A generated symbol that clean content bounds fill.
    ContentBounds,
    /// A reference ribbon around 96-module content.
    ContentReference,
    /// A window of the coarse ribbon grid.
    CoarseGrid,
    /// A ribbon symbol around dark bounds.
    DarkRibbon,
    /// Dark bounds, padded.
    DarkBounds,
    /// A ribbon window from rails or totems.
    SignatureWindow,
    /// A matrix symbol framed by finder patterns.
    MatrixFinders,
    /// A band of dark rows, padded.
    HorizontalBand,
    /// A window over a band at a ribbon's proportions.
    HorizontalAspect,
    /// A dark component, padded.
    Component,
    /// The last-resort ribbon window grown from dark bounds.
    BinaryDarkBoundsFallback,
}

/// The stable name of a stage.
pub open spec fn stage_name(s: CandidateStage) -> &'static str {
    match s {
        CandidateStage::ContentBounds => "content-bounds",
        CandidateStage::ContentReference => "content-reference",
        CandidateStage::CoarseGrid => "coarse-grid",
        CandidateStage::DarkRibbon => "dark-ribbon",
        CandidateStage::DarkBounds => "dark-bounds",
        CandidateStage::SignatureWindow => "signature-window",
        CandidateStage::MatrixFinders => "matrix-finders",
        CandidateStage::HorizontalBand => "horizontal-band",
        CandidateStage::HorizontalAspect => "horizontal-aspect",
        CandidateStage::Component => "component",
        CandidateStage::BinaryDarkBoundsFallback => "binary-dark-bounds-fallback",
    }
}

impl CandidateStage {
    /// The stable name of this stage, for diagnostics.
    pub fn as_str(self) -> (r: &'static str)
        ensures
            r == stage_name(self),
    {
        match self {
            CandidateStage::ContentBounds => "content-bounds",
            CandidateStage::ContentReference => "content-reference",
            CandidateStage::CoarseGrid => "coarse-grid",
            CandidateStage::DarkRibbon => "dark-ribbon",
            CandidateStage::DarkBounds => "dark-bounds",
            CandidateStage::SignatureWindow => "signature-window",
            CandidateStage::MatrixFinders => "matrix-finders",
            CandidateStage::HorizontalBand => "horizontal-band",
            CandidateStage::HorizontalAspect => "horizontal-aspect",
            CandidateStage::Component => "component",
            CandidateStage::BinaryDarkBoundsFallback => "binary-dark-bounds-fallback",
        }
    }
}

/// A region worth a decode attempt, with the detector that proposed it.
#[derive(Debug, Clone, Copy, PartialEq, Eq)]
pub struct ScanCandidate {
    /// Detector family that proposed the region.
    pub detector: CandidateDetector,
    /// Layout the detector expects there, if any.
    pub layout_hint: Option<LayoutFamily>,
    /// Detector stage, for diagnostics.
    pub stage: CandidateStage,
    /// The region, in image pixels.
    pub region: ScanRegion,
}

/// A region from its corner and size.
pub open spec fn region_of(x: u32, y: u32, width: u32, height: u32) -> ScanRegion {
    ScanRegion { x, y, width, height }
}

/// A candidate from its parts.
pub open spec fn cand(
    detector: CandidateDetector,
    layout_hint: Option<LayoutFamily>,
    stage: CandidateStage,
    region: ScanRegion,
) -> ScanCandidate {
    ScanCandidate { detector, layout_hint, stage, region }
}

/// Whether some candidate of `list` covers exactly `region`.
pub open spec fn has_region(list: Seq<ScanCandidate>, region: ScanRegion) -> bool {
    exists|i: int| 0 <= i < list.len() && #[trigger] list[i].region == region
}

/// `list` with `c` appended, unless a candidate of the same region is there already.
pub open spec fn push_unique(list: Seq<ScanCandidate>, c: ScanCandidate) -> Seq<ScanCandidate> {
    if has_region(list, c.region) {
        list
    } else {
        list.push(c)
    }
}

/// `list` after offering each candidate of `cs` in turn: those whose region `keep`
/// accepts are appended unless their region is there already.
pub open spec fn push_when(
    list: Seq<ScanCandidate>,
    cs: Seq<ScanCandidate>,
    keep: spec_fn(ScanRegion) -> bool,
) -> Seq<ScanCandidate>
    decreases cs.len(),
{
    if cs.len() == 0 {
        list
    } else {
        let before = push_when(list, cs.drop_last(), keep);
        if keep(cs.last().region) {
            push_unique(before, cs.last())
        } else {
            before
        }
    }
}

/// `a * b`, or `u32::MAX` where the product does not fit.
pub open spec fn sat_mul(a: u32, b: u32) -> u32 {
    if a * b > u32::MAX {
        u32::MAX
    } else {
        (a * b) as u32
    }
}

/// `v` as a float-to-integer cast gives it: clamped to `0..=u32::MAX`.
pub open spec fn clamp_u32(v: int) -> u32 {
    if v < 0 {
        0
    } else if v > u32::MAX {
        u32::MAX
    } else {
        v as u32
    }
}

/// `p / q` rounded to the nearest integer, halves away from zero (`p >= 0`, `q > 0`).
pub open spec fn round_ratio(p: int, q: int) -> int {
    (2 * p + q) / (2 * q)
}

/// The smaller of two.
pub open spec fn min_u32(a: u32, b: u32) -> u32 {
    if a <= b {
        a
    } else {
        b
    }
}

/// The larger of two.
pub open spec fn max_u32(a: u32, b: u32) -> u32 {
    if a >= b {
        a
    } else {
        b
    }
}

/// Saturating product of two `u32`.
pub fn saturating_mul_u32(a: u32, b: u32) -> (r: u32)
    ensures
        r == sat_mul(a, b),
{
    proof {
        assert((a as int) * (b as int) <= 0xffff_ffff * 0xffff_ffffint) by (nonlinear_arith)
            requires
                a <= 0xffff_ffff,
                b <= 0xffff_ffff,
        ;
    }
    let p = (a as u64) * (b as u64);
    if p > u32::MAX as u64 {
        u32::MAX
    } else {
        p as u32
    }
}

/// `p / q` rounded to the nearest integer, halves up, clamped to `u32`.
pub(crate) fn round_ratio_u32(p: u64, q: u64) -> (r: u32)
    requires
        q > 0,
        p <= 0x1_0000_0000_0000_0000,
        q <= 0x1_0000,
    ensures
        r == clamp_u32(round_ratio(p as int, q as int)),
{
    let v = (2 * (p as u128) + (q as u128)) / (2 * (q as u128));
    if v > u32::MAX as u128 {
        u32::MAX
    } else {
        v as u32
    }
}

/// Append a candidate unless one with the same region is listed already.
pub fn push_unique_candidate(
    regions: &mut Vec<ScanCandidate>,
    detector: CandidateDetector,
    layout_hint: Option<LayoutFamily>,
    stage: CandidateStage,
    region: ScanRegion,
)
    ensures
        final(regions)@ == push_unique(old(regions)@, cand(detector, layout_hint, stage, region)),
{
    let mut i: usize = 0;
    while i < regions.len()
        invariant
            i <= regions@.len(),
            forall|k: int| 0 <= k < i ==> regions@[k].region != region,
        decreases regions@.len() - i,
    {
        if regions[i].region == region {
            assert(has_region(regions@, region));
            return;
        }
        i = i + 1;
    }
    assert(!has_region(regions@, region));
    regions.push(ScanCandidate { detector, layout_hint, stage, region });
}

/// Whether a region is at least one symbol of one-pixel modules and lies inside the
/// image.
pub open spec fn fits_spec(region: ScanRegion, image_width: u32, image_height: u32) -> bool {
    &&& region.width >= 104
    &&& region.height >= 44
    &&& region.x.saturating_add(region.width) <= image_width
    &&& region.y.saturating_add(region.height) <= image_height
}

/// Whether a region is at least one symbol of one-pixel modules and lies inside the
/// image.
pub fn region_fits(region: ScanRegion, image_width: u32, image_height: u32) -> (r: bool)
    ensures
        r == fits_spec(region, image_width, image_height),
{
    region.width >= 104 && region.height >= 44 && region.x.saturating_add(region.width)
        <= image_width && region.y.saturating_add(region.height) <= image_height
}

/// A plausible symbol region: at least 80 x 28 pixels, 1.2 to 12 times as wide as high.
pub open spec fn plausible_spec(region: ScanRegion) -> bool {
    let h = max_u32(region.height, 1);
    &&& region.width >= 80
    &&& region.height >= 28
    &&& 5 * region.width >= 6 * h
    &&& region.width <= 12 * h
}

/// A plausible symbol region: at least 80 x 28 pixels, 1.2 to 12 times as wide as high.
pub fn plausible_region(region: ScanRegion) -> (r: bool)
    ensures
        r == plausible_spec(region),
{
    if region.width < 80 || region.height < 28 {
        return false;
    }
    let h = if region.height >= 1 {
        region.height as u64
    } else {
        1
    };
    5 * (region.width as u64) >= 6 * h && (region.width as u64) <= 12 * h
}

/// Offer each of `attempts` that fits the image.
pub(crate) fn offer_fitting(
    regions: &mut Vec<ScanCandidate>,
    attempts: &Vec<ScanCandidate>,
    image_width: u32,
    image_height: u32,
)
    ensures
        final(regions)@ == push_when(
            old(regions)@,
            attempts@,
            |r: ScanRegion| fits_spec(r, image_width, image_height),
        ),
{
    let ghost keep = |r: ScanRegion| fits_spec(r, image_width, image_height);
    let ghost start = regions@;
    let mut i: usize = 0;
    while i < attempts.len()
        invariant
            i <= attempts@.len(),
            regions@ == push_when(start, attempts@.take(i as int), keep),
            keep == (|r: ScanRegion| fits_spec(r, image_width, image_height)),
        decreases attempts@.len() - i,
    {
        let c = attempts[i];
        assert(attempts@.take(i + 1).drop_last() =~= attempts@.take(i as int));
        if region_fits(c.region, image_width, image_height) {
            push_unique_candidate(regions, c.detector, c.layout_hint, c.stage, c.region);
        }
        i = i + 1;
    }
    assert(attempts@.take(attempts@.len() as int) =~= attempts@);
}

/// Offer each of `attempts` that is plausible.
pub(crate) fn offer_plausible(regions: &mut Vec<ScanCandidate>, attempts: &Vec<ScanCandidate>)
    ensures
        final(regions)@ == push_when(old(regions)@, attempts@, |r: ScanRegion| plausible_spec(r)),
{
    let ghost keep = |r: ScanRegion| plausible_spec(r);
    let ghost start = regions@;
    let mut i: usize = 0;
    while i < attempts.len()
        invariant
            i <= attempts@.len(),
            regions@ == push_when(start, attempts@.take(i as int), keep),
            keep == (|r: ScanRegion| plausible_spec(r)),
        decreases attempts@.len() - i,
    {
        let c = attempts[i];
        assert(attempts@.take(i + 1).drop_last() =~= attempts@.take(i as int));
        if plausible_region(c.region) {
            push_unique_candidate(regions, c.detector, c.layout_hint, c.stage, c.region);
        }
        i = i + 1;
    }
    assert(attempts@.take(attempts@.len() as int) =~= attempts@);
}

/// The smallest region covering both.
pub open spec fn union_spec(a: ScanRegion, b: ScanRegion) -> ScanRegion {
    let min_x = min_u32(a.x, b.x);
    let min_y = min_u32(a.y, b.y);
    let max_x = max_u32(a.x.saturating_add(a.width), b.x.saturating_add(b.width));
    let max_y = max_u32(a.y.saturating_add(a.height), b.y.saturating_add(b.height));
    region_of(
        min_x,
        min_y,
        max_u32(max_x.saturating_sub(min_x), 1),
        max_u32(max_y.saturating_sub(min_y), 1),
    )
}

/// The smallest region covering both.
pub fn union_region(a: ScanRegion, b: ScanRegion) -> (r: ScanRegion)
    ensures
        r == union_spec(a, b),
{
    let min_x = if a.x <= b.x {
        a.x
    } else {
        b.x
    };
    let min_y = if a.y <= b.y {
        a.y
    } else {
        b.y
    };
    let ax = a.x.saturating_add(a.width);
    let bx = b.x.saturating_add(b.width);
    let max_x = if ax >= bx {
        ax
    } else {
        bx
    };
    let ay = a.y.saturating_add(a.height);
    let by = b.y.saturating_add(b.height);
    let max_y = if ay >= by {
        ay
    } else {
        by
    };
    let w = max_x.saturating_sub(min_x);
    let h = max_y.saturating_sub(min_y);
    ScanRegion {
        x: min_x,
        y: min_y,
        width: if w >= 1 {
            w
        } else {
            1
        },
        height: if h >= 1 {
            h
        } else {
            1
        },
    }
}

/// The region grown by `padding` on every side, within a `width` x `height` image.
pub open spec fn expand_spec(region: ScanRegion, padding: u32, width: u32, height: u32) -> ScanRegion {
    let max_x = min_u32(region.x.saturating_add(region.width), width);
    let max_y = min_u32(region.y.saturating_add(region.height), height);
    let x = region.x.saturating_sub(padding);
    let y = region.y.saturating_sub(padding);
    let expanded_max_x = min_u32(max_x.saturating_add(padding), width);
    let expanded_max_y = min_u32(max_y.saturating_add(padding), height);
    region_of(
        x,
        y,
        max_u32(expanded_max_x.saturating_sub(x), 1),
        max_u32(expanded_max_y.saturating_sub(y), 1),
    )
}

/// The region grown by `padding` on every side, within a `width` x `height` image.
pub fn expand_region(region: ScanRegion, padding: u32, width: u32, height: u32) -> (r: ScanRegion)
    ensures
        r == expand_spec(region, padding, width, height),
{
    let end_x = region.x.saturating_add(region.width);
    let max_x = if end_x <= width {
        end_x
    } else {
        width
    };
    let end_y = region.y.saturating_add(region.height);
    let max_y = if end_y <= height {
        end_y
    } else {
        height
    };
    let x = region.x.saturating_sub(padding);
    let y = region.y.saturating_sub(padding);
    let grown_x = max_x.saturating_add(padding);
    let expanded_max_x = if grown_x <= width {
        grown_x
    } else {
        width
    };
    let grown_y = max_y.saturating_add(padding);
    let expanded_max_y = if grown_y <= height {
        grown_y
    } else {
        height
    };
    let w = expanded_max_x.saturating_sub(x);
    let h = expanded_max_y.saturating_sub(y);
    ScanRegion {
        x,
        y,
        width: if w >= 1 {
            w
        } else {
            1
        },
        height: if h >= 1 {
            h
        } else {
            1
        },
    }
}

/// The part of a region inside the image, at least one pixel each way.
pub open spec fn clamp_spec(region: ScanRegion, image_width: u32, image_height: u32) -> ScanRegion {
    let x = min_u32(region.x, image_width.saturating_sub(1));
    let y = min_u32(region.y, image_height.saturating_sub(1));
    let max_x = min_u32(region.x.saturating_add(region.width), image_width);
    let max_y = min_u32(region.y.saturating_add(region.height), image_height);
    region_of(x, y, max_u32(max_x.saturating_sub(x), 1), max_u32(max_y.saturating_sub(y), 1))
}

/// The part of a region inside the image, at least one pixel each way.
pub fn clamp_region(region: ScanRegion, image_width: u32, image_height: u32) -> (r: ScanRegion)
    ensures
        r == clamp_spec(region, image_width, image_height),
{
    let last_x = image_width.saturating_sub(1);
    let last_y = image_height.saturating_sub(1);
    let x = if region.x <= last_x {
        region.x
    } else {
        last_x
    };
    let y = if region.y <= last_y {
        region.y
    } else {
        last_y
    };
    let end_x = region.x.saturating_add(region.width);
    let max_x = if end_x <= image_width {
        end_x
    } else {
        image_width
    };
    let end_y = region.y.saturating_add(region.height);
    let max_y = if end_y <= image_height {
        end_y
    } else {
        image_height
    };
    let w = max_x.saturating_sub(x);
    let h = max_y.saturating_sub(y);
    ScanRegion {
        x,
        y,
        width: if w >= 1 {
            w
        } else {
            1
        },
        height: if h >= 1 {
            h
        } else {
            1
        },
    }
}

/// A `width` x `height` region centred on `region`, moved inside the image; none when
/// it is larger than the image.
pub open spec fn centered_spec(
    region: ScanRegion,
    width: u32,
    height: u32,
    image_width: u32,
    image_height: u32,
) -> Option<ScanRegion> {
    if width > image_width || height > image_height {
        None
    } else {
        let center_x = region.x.saturating_add(region.width / 2);
        let center_y = region.y.saturating_add(region.height / 2);
        let x = min_u32(center_x.saturating_sub(width / 2), image_width.saturating_sub(width));
        let y = min_u32(center_y.saturating_sub(height / 2), image_height.saturating_sub(height));
        Some(region_of(x, y, width, height))
    }
}

/// A `width` x `height` region centred on `region`, moved inside the image; none when
/// it is larger than the image.
pub fn centered_region(
    region: ScanRegion,
    width: u32,
    height: u32,
    image_width: u32,
    image_height: u32,
) -> (r: Option<ScanRegion>)
    ensures
        r == centered_spec(region, width, height, image_width, image_height),
{
    if width > image_width || height > image_height {
        return None;
    }
    let center_x = region.x.saturating_add(region.width / 2);
    let center_y = region.y.saturating_add(region.height / 2);
    let ax = center_x.saturating_sub(width / 2);
    let bx = image_width.saturating_sub(width);
    let ay = center_y.saturating_sub(height / 2);
    let by = image_height.saturating_sub(height);
    Some(
        ScanRegion {
            x: if ax <= bx {
                ax
            } else {
                bx
            },
            y: if ay <= by {
                ay
            } else {
                by
            },
            width,
            height,
        },
    )
}

/// The middle one of three values.
pub open spec fn median3_spec(a: u32, b: u32, c: u32) -> u32 {
    if (a <= b && b <= c) || (c <= b && b <= a) {
        b
    } else if (b <= a && a <= c) || (c <= a && a <= b) {
        a
    } else {
        c
    }
}

/// The middle one of three values.
pub fn median3(a: u32, b: u32, c: u32) -> (r: u32)
    ensures
        r == median3_spec(a, b, c),
{
    if (a <= b && b <= c) || (c <= b && b <= a) {
        b
    } else if (b <= a && a <= c) || (c <= a && a <= b) {
        a
    } else {
        c
    }
}

/// A module grid the generator draws: square of at least 29, or even sides of at
/// least 48 x 28 with width 1 to 8 times the height.
pub open spec fn generated_geometry_spec(width: u32, height: u32) -> bool {
    ||| width == height && width >= 29
    ||| width >= 48 && height >= 28 && width % 2 == 0 && height % 2 == 0 && height <= width
        && width <= 8 * height
}

/// A module grid the generator draws.
pub fn reference_generated_geometry(width: u32, height: u32) -> (r: bool)
    ensures
        r == generated_geometry_spec(width, height),
{
    if width == height && width >= 29 {
        return true;
    }
    width >= 48 && height >= 28 && width % 2 == 0 && height % 2 == 0 && height <= width
        && (width as u64) <= 8 * (height as u64)
}

/// A ribbon module grid: sides multiples of four, at least 96 x 28, width 2 to 8 times
/// the height.
pub open spec fn ribbon_geometry_spec(width: u32, height: u32) -> bool {
    &&& width >= 96
    &&& height >= 28
    &&& width % 4 == 0
    &&& height % 4 == 0
    &&& 2 * height <= width
    &&& width <= 8 * height
}

/// A ribbon module grid.
pub fn reference_ribbon_geometry(width: u32, height: u32) -> (r: bool)
    ensures
        r == ribbon_geometry_spec(width, height),
{
    width >= 96 && height >= 28 && width % 4 == 0 && height % 4 == 0 && 2 * (height as u64)
        <= width as u64 && (width as u64) <= 8 * (height as u64)
}

/// Whether the dark-bounds fallback is worth trying: small images, or no candidate yet.
pub open spec fn dark_bounds_fallback_spec(image_width: u32, image_height: u32, count: usize) -> bool {
    sat_mul(image_width, image_height) <= 900_000 || count == 0
}

/// Whether the dark-bounds fallback is worth trying: small images, or no candidate yet.
pub fn should_try_dark_bounds_fallback(image_width: u32, image_height: u32, candidate_count: usize) -> (r: bool)
    ensures
        r == dark_bounds_fallback_spec(image_width, image_height, candidate_count),
{
    saturating_mul_u32(image_width, image_height) <= 900_000 || candidate_count == 0
}

/// The extra area of `candidate` over `region`, saturating.
pub open spec fn area_excess(candidate: ScanRegion, region: ScanRegion) -> u32 {
    sat_mul(candidate.width, candidate.height).saturating_sub(sat_mul(region.width, region.height))
}

/// The plausible one of two optional regions, or of both the one of smaller extra
/// area over `region` (the first on ties).
pub open spec fn pick_smaller(a: Option<ScanRegion>, b: Option<ScanRegion>, region: ScanRegion) -> Option<ScanRegion> {
    let a = match a {
        Some(x) => if plausible_spec(x) {
            Some(x)
        } else {
            None
        },
        None => None,
    };
    let b = match b {
        Some(x) => if plausible_spec(x) {
            Some(x)
        } else {
            None
        },
        None => None,
    };
    match (a, b) {
        (Some(x), Some(y)) => if area_excess(y, region) < area_excess(x, region) {
            Some(y)
        } else {
            Some(x)
        },
        (Some(x), None) => Some(x),
        (None, Some(y)) => Some(y),
        (None, None) => None,
    }
}

/// The region widened or heightened, about its centre, to the 104 : 44 proportions of
/// a ribbon symbol: of the plausible ones, the one that adds the least area.
pub open spec fn ribbon_aspect_spec(region: ScanRegion, image_width: u32, image_height: u32) -> Option<ScanRegion> {
    let target_height = max_u32(clamp_u32(round_ratio(region.width * 44, 104)), region.height);
    let target_width = max_u32(clamp_u32(round_ratio(region.height * 104, 44)), region.width);
    pick_smaller(
        centered_spec(region, region.width, target_height, image_width, image_height),
        centered_spec(region, target_width, region.height, image_width, image_height),
        region,
    )
}

fn plausible_option(r: Option<ScanRegion>) -> (o: Option<ScanRegion>)
    ensures
        o == (match r {
            Some(x) => if plausible_spec(x) {
                Some(x)
            } else {
                None
            },
            None => None,
        }),
{
    match r {
        Some(x) => if plausible_region(x) {
            Some(x)
        } else {
            None
        },
        None => None,
    }
}

/// The region widened or heightened, about its centre, to the 104 : 44 proportions of
/// a ribbon symbol: of the plausible ones, the one that adds the least area.
pub fn ribbon_aspect_region(region: ScanRegion, image_width: u32, image_height: u32) -> (r: Option<ScanRegion>)
    ensures
        r == ribbon_aspect_spec(region, image_width, image_height),
{
    let th = round_ratio_u32(region.width as u64 * 44, 104);
    let target_height = if th >= region.height {
        th
    } else {
        region.height
    };
    let tw = round_ratio_u32(region.height as u64 * 104, 44);
    let target_width = if tw >= region.width {
        tw
    } else {
        region.width
    };
    let a = plausible_option(centered_region(region, region.width, target_height, image_width, image_height));
    let b = plausible_option(centered_region(region, target_width, region.height, image_width, image_height));
    let base = saturating_mul_u32(region.width, region.height);
    match (a, b) {
        (Some(x), Some(y)) => {
            let ex = saturating_mul_u32(x.width, x.height).saturating_sub(base);
            let ey = saturating_mul_u32(y.width, y.height).saturating_sub(base);
            if ey < ex {
                Some(y)
            } else {
                Some(x)
            }
        },
        (Some(x), None) => Some(x),
        (None, Some(y)) => Some(y),
        (None, None) => None,
    }
}

/// The ribbon symbol around dark bounds taken for its 96-module content: 104/96 as
/// wide, 44/104 of that high, centred, when plausible.
pub open spec fn ribbon_from_dark_spec(bounds: ScanRegion, image_width: u32, image_height: u32) -> Option<ScanRegion> {
    if bounds.width < 48 || bounds.height < 24 {
        None
    } else {
        let total_width = max_u32(clamp_u32(round_ratio(bounds.width * 104, 96)), bounds.width);
        let total_height = max_u32(clamp_u32(round_ratio(total_width * 44, 104)), bounds.height);
        match centered_spec(bounds, total_width, total_height, image_width, image_height) {
            Some(c) => if plausible_spec(c) {
                Some(c)
            } else {
                None
            },
            None => None,
        }
    }
}

/// The ribbon symbol around dark bounds taken for its 96-module content.
pub fn ribbon_region_from_dark_bounds(bounds: ScanRegion, image_width: u32, image_height: u32) -> (r: Option<ScanRegion>)
    ensures
        r == ribbon_from_dark_spec(bounds, image_width, image_height),
{
    if bounds.width < 48 || bounds.height < 24 {
        return None;
    }
    let tw = round_ratio_u32(bounds.width as u64 * 104, 96);
    let total_width = if tw >= bounds.width {
        tw
    } else {
        bounds.width
    };
    let th = round_ratio_u32(total_width as u64 * 44, 104);
    let total_height = if th >= bounds.height {
        th
    } else {
        bounds.height
    };
    plausible_option(centered_region(bounds, total_width, total_height, image_width, image_height))
}

/// The ribbon candidates of dark bounds: the symbol around them, the bounds padded,
/// and the padded bounds brought to ribbon proportions.
#[verifier::opaque]
pub open spec fn dark_bounds_candidates_spec(
    bounds: ScanRegion,
    padding: u32,
    image_width: u32,
    image_height: u32,
) -> Seq<ScanCandidate> {
    let hint = Some(LayoutFamily::RibbonWeave);
    let first = match ribbon_from_dark_spec(bounds, image_width, image_height) {
        Some(r) => seq![cand(CandidateDetector::RibbonWeave, hint, CandidateStage::DarkRibbon, r)],
        None => Seq::empty(),
    };
    let expanded = expand_spec(bounds, padding, image_width, image_height);
    let third = match ribbon_aspect_spec(expanded, image_width, image_height) {
        Some(r) => seq![cand(CandidateDetector::RibbonWeave, hint, CandidateStage::SignatureWindow, r)],
        None => Seq::empty(),
    };
    first + seq![cand(CandidateDetector::RibbonWeave, hint, CandidateStage::DarkBounds, expanded)] + third
}

/// The ribbon candidates of dark bounds.
pub fn ribbon_dark_bounds_candidates(
    bounds: ScanRegion,
    padding: u32,
    image_width: u32,
    image_height: u32,
) -> (r: Vec<ScanCandidate>)
    ensures
        r@ == dark_bounds_candidates_spec(bounds, padding, image_width, image_height),
{
    reveal(dark_bounds_candidates_spec);
    let hint = Some(LayoutFamily::RibbonWeave);
    let mut candidates: Vec<ScanCandidate> = Vec::new();
    match ribbon_region_from_dark_bounds(bounds, image_width, image_height) {
        Some(region) => {
            candidates.push(
                ScanCandidate {
                    detector: CandidateDetector::RibbonWeave,
                    layout_hint: hint,
                    stage: CandidateStage::DarkRibbon,
                    region,
                },
            );
        },
        None => {},
    }
    let expanded = expand_region(bounds, padding, image_width, image_height);
    candidates.push(
        ScanCandidate {
            detector: CandidateDetector::RibbonWeave,
            layout_hint: hint,
            stage: CandidateStage::DarkBounds,
            region: expanded,
        },
    );
    match ribbon_aspect_region(expanded, image_width, image_height) {
        Some(region) => {
            candidates.push(
                ScanCandidate {
                    detector: CandidateDetector::RibbonWeave,
                    layout_hint: hint,
                    stage: CandidateStage::SignatureWindow,
                    region,
                },
            );
        },
        None => {},
    }
    assert(candidates@ =~= dark_bounds_candidates_spec(bounds, padding, image_width, image_height));
    candidates
}

/// The smallest module size a content pass tries.
pub open spec fn content_lo(min_module_px: u32) -> u32 {
    max_u32(min_module_px / 8, 1)
}

/// The symbol of `m`-pixel modules whose content exactly fills `bounds`, with its
/// four-module quiet zone, inside the image.
pub open spec fn framed_bounds(bounds: ScanRegion, m: u32, image_width: u32, image_height: u32) -> ScanRegion {
    let quiet = (4 * m) as u32;
    clamp_spec(
        region_of(
            bounds.x.saturating_sub(quiet),
            bounds.y.saturating_sub(quiet),
            bounds.width.saturating_add((2 * quiet) as u32),
            bounds.height.saturating_add((2 * quiet) as u32),
        ),
        image_width,
        image_height,
    )
}

/// The reference ribbon symbol of `m`-pixel modules whose content starts at `bounds`,
/// `extra_top` pixels higher, inside the image.
pub open spec fn reference_window(bounds: ScanRegion, m: u32, extra_top: u32, image_width: u32, image_height: u32) -> ScanRegion {
    let quiet = (4 * m) as u32;
    clamp_spec(
        region_of(
            bounds.x.saturating_sub(quiet),
            bounds.y.saturating_sub(quiet.saturating_add(extra_top)),
            (104 * m) as u32,
            (44 * m) as u32,
        ),
        image_width,
        image_height,
    )
}

/// What content pass `pass` proposes for module size `m`: pass 0 the generated symbol
/// the bounds fill, pass 1 reference ribbons of 96-module content, pass 2 the ribbon
/// symbol the bounds fill.
pub open spec fn content_at(pass: int, bounds: ScanRegion, m: u32, image_width: u32, image_height: u32) -> Seq<ScanCandidate> {
    if pass == 1 {
        let expected = 96 * m;
        let diff = if bounds.width >= expected {
            bounds.width - expected
        } else {
            expected - bounds.width
        };
        if diff > m {
            Seq::empty()
        } else {
            let hint = Some(LayoutFamily::RibbonWeave);
            let d = CandidateDetector::GeneratedContent;
            seq![
                cand(d, hint, CandidateStage::ContentReference, reference_window(bounds, m, 0, image_width, image_height)),
                cand(d, hint, CandidateStage::ContentReference, reference_window(bounds, m, 1, image_width, image_height)),
                cand(d, hint, CandidateStage::ContentReference, reference_window(bounds, m, m / 2, image_width, image_height)),
                cand(d, hint, CandidateStage::ContentReference, reference_window(bounds, m, m, image_width, image_height)),
            ]
        }
    } else if bounds.width % m != 0 || bounds.height % m != 0 {
        Seq::empty()
    } else if pass == 0 {
        if generated_geometry_spec(bounds.width / m, bounds.height / m) {
            seq![cand(CandidateDetector::GeneratedContent, None, CandidateStage::ContentBounds, framed_bounds(bounds, m, image_width, image_height))]
        } else {
            Seq::empty()
        }
    } else {
        if ribbon_geometry_spec(bounds.width / m, bounds.height / m) {
            seq![
                cand(
                    CandidateDetector::GeneratedContent,
                    Some(LayoutFamily::RibbonWeave),
                    CandidateStage::ContentBounds,
                    framed_bounds(bounds, m, image_width, image_height),
                ),
            ]
        } else {
            Seq::empty()
        }
    }
}

/// Content pass `pass` over module sizes `1..=n` (those at least `lo`).
pub open spec fn content_pass(pass: int, bounds: ScanRegion, lo: u32, n: u32, image_width: u32, image_height: u32) -> Seq<ScanCandidate>
    decreases n,
{
    if n == 0 {
        Seq::empty()
    } else {
        let before = content_pass(pass, bounds, lo, (n - 1) as u32, image_width, image_height);
        if n < lo {
            before
        } else {
            before + content_at(pass, bounds, n, image_width, image_height)
        }
    }
}

/// The candidates of clean content bounds: the three passes over module sizes 1 to 16.
#[verifier::opaque]
pub open spec fn content_regions_spec(bounds: ScanRegion, image_width: u32, image_height: u32, min_module_px: u32) -> Seq<ScanCandidate> {
    let lo = content_lo(min_module_px);
    content_pass(0, bounds, lo, 16, image_width, image_height) + content_pass(1, bounds, lo, 16, image_width, image_height)
        + content_pass(2, bounds, lo, 16, image_width, image_height)
}

fn push_content_at(
    out: &mut Vec<ScanCandidate>,
    pass: u8,
    bounds: ScanRegion,
    m: u32,
    image_width: u32,
    image_height: u32,
)
    requires
        pass <= 2,
        1 <= m <= 16,
    ensures
        final(out)@ == old(out)@ + content_at(pass as int, bounds, m, image_width, image_height),
{
    let ghost start = out@;
    if pass == 1 {
        let expected = 96 * m;
        let diff = if bounds.width >= expected {
            bounds.width - expected
        } else {
            expected - bounds.width
        };
        if diff > m {
            assert(out@ =~= start + content_at(pass as int, bounds, m, image_width, image_height));
            return;
        }
        let quiet = 4 * m;
        let hint = Some(LayoutFamily::RibbonWeave);
        let extras: [u32; 4] = [0, 1, m / 2, m];
        let mut k: usize = 0;
        while k < 4
            invariant
                k <= 4,
                extras@ == seq![0u32, 1u32, m / 2, m],
                quiet == 4 * m,
                1 <= m <= 16,
                out@ == start + Seq::new(
                    k as nat,
                    |i: int|
                        cand(
                            CandidateDetector::GeneratedContent,
                            hint,
                            CandidateStage::ContentReference,
                            reference_window(bounds, m, extras@[i], image_width, image_height),
                        ),
                ),
            decreases 4 - k,
        {
            let region = ScanRegion {
                x: bounds.x.saturating_sub(quiet),
                y: bounds.y.saturating_sub(quiet.saturating_add(extras[k])),
                width: 104 * m,
                height: 44 * m,
            };
            out.push(
                ScanCandidate {
                    detector: CandidateDetector::GeneratedContent,
                    layout_hint: hint,
                    stage: CandidateStage::ContentReference,
                    region: clamp_region(region, image_width, image_height),
                },
            );
            k = k + 1;
        }
        assert(out@ =~= start + content_at(pass as int, bounds, m, image_width, image_height));
        return;
    }
    if bounds.width % m != 0 || bounds.height % m != 0 {
        assert(out@ =~= start + content_at(pass as int, bounds, m, image_width, image_height));
        return;
    }
    let sw = bounds.width / m;
    let sh = bounds.height / m;
    let fits = if pass == 0 {
        reference_generated_geometry(sw, sh)
    } else {
        reference_ribbon_geometry(sw, sh)
    };
    if fits {
        let quiet = 4 * m;
        let region = ScanRegion {
            x: bounds.x.saturating_sub(quiet),
            y: bounds.y.saturating_sub(quiet),
            width: bounds.width.saturating_add(2 * quiet),
            height: bounds.height.saturating_add(2 * quiet),
        };
        out.push(
            ScanCandidate {
                detector: CandidateDetector::GeneratedContent,
                layout_hint: if pass == 0 {
                    None
                } else {
                    Some(LayoutFamily::RibbonWeave)
                },
                stage: CandidateStage::ContentBounds,
                region: clamp_region(region, image_width, image_height),
            },
        );
    }
    assert(out@ =~= start + content_at(pass as int, bounds, m, image_width, image_height));
}

/// The symbols that clean content bounds may be the content of, for module sizes 1 to
/// 16 (from an eighth of the minimum anchor size): generated symbols the bounds fill,
/// reference ribbons of 96-module content, and ribbon symbols the bounds fill.
pub fn content_symbol_regions(
    bounds: ScanRegion,
    image_width: u32,
    image_height: u32,
    min_module_px: u32,
) -> (r: Vec<ScanCandidate>)
    ensures
        r@ == content_regions_spec(bounds, image_width, image_height, min_module_px),
{
    reveal(content_regions_spec);
    let eighth = min_module_px / 8;
    let lo = if eighth >= 1 {
        eighth
    } else {
        1
    };
    let mut regions: Vec<ScanCandidate> = Vec::new();
    let mut pass: u8 = 0;
    let ghost mut done: Seq<ScanCandidate> = Seq::empty();
    while pass < 3
        invariant
            pass <= 3,
            lo == content_lo(min_module_px),
            done == (if pass == 0 {
                Seq::<ScanCandidate>::empty()
            } else if pass == 1 {
                content_pass(0, bounds, lo, 16, image_width, image_height)
            } else if pass == 2 {
                content_pass(0, bounds, lo, 16, image_width, image_height) + content_pass(1, bounds, lo, 16, image_width, image_height)
            } else {
                content_regions_spec(bounds, image_width, image_height, min_module_px)
            }),
            regions@ == done,
        decreases 3 - pass,
    {
        let mut m: u32 = 1;
        while m <= 16
            invariant
                1 <= m <= 17,
                pass < 3,
                regions@ == done + content_pass(pass as int, bounds, lo, (m - 1) as u32, image_width, image_height),
            decreases 17 - m,
        {
            if m >= lo {
                push_content_at(&mut regions, pass, bounds, m, image_width, image_height);
            }
            proof {
                assert(content_pass(pass as int, bounds, lo, m, image_width, image_height) == (if m < lo {
                    content_pass(pass as int, bounds, lo, (m - 1) as u32, image_width, image_height)
                } else {
                    content_pass(pass as int, bounds, lo, (m - 1) as u32, image_width, image_height) + content_at(pass as int, bounds, m, image_width, image_height)
                }));
                assert(regions@ =~= done + content_pass(pass as int, bounds, lo, m, image_width, image_height));
            }
            m = m + 1;
        }
        proof {
            reveal(content_regions_spec);
            done = done + content_pass(pass as int, bounds, lo, 16, image_width, image_height);
        }
        pass = pass + 1;
    }
    regions
}

/// The horizontal fractions of a coarse grid, in thousandths.
pub open spec fn x_frac(i: int) -> int {
    if i == 0 {
        60
    } else if i == 1 {
        115
    } else if i == 2 {
        160
    } else if i == 3 {
        220
    } else if i == 4 {
        300
    } else {
        380
    }
}

/// The vertical fractions of a coarse grid, in thousandths.
pub open spec fn y_frac(i: int) -> int {
    if i == 0 {
        80
    } else if i == 1 {
        140
    } else if i == 2 {
        200
    } else if i == 3 {
        233
    } else if i == 4 {
        280
    } else {
        320
    }
}

/// The module sizes of the coarse grid, in the order tried.
pub open spec fn coarse_module(i: int) -> u32 {
    if i == 0 {
        4
    } else if i == 1 {
        5
    } else if i == 2 {
        3
    } else if i == 3 {
        6
    } else if i == 4 {
        7
    } else {
        8
    }
}

/// The offset at fraction `frac` thousandths of `dim`, rounded, kept one pixel short of
/// leaving room for `size`.
pub open spec fn grid_offset(dim: u32, frac: int, size: u32) -> u32 {
    min_u32(clamp_u32(round_ratio(dim * frac, 1000)), dim.saturating_sub((size + 1) as u32))
}

/// A coarse-grid ribbon candidate.
pub open spec fn coarse_cand(x: u32, y: u32, m: u32) -> ScanCandidate {
    cand(
        CandidateDetector::RibbonWeave,
        Some(LayoutFamily::RibbonWeave),
        CandidateStage::CoarseGrid,
        region_of(x, y, (104 * m) as u32, (44 * m) as u32),
    )
}

/// The coarse-grid windows of `m`-pixel modules: six by six fractions of the image, and
/// for four-pixel modules three centred placements.
pub open spec fn coarse_attempts(image_width: u32, image_height: u32, m: u32) -> Seq<ScanCandidate> {
    let width = (104 * m) as u32;
    let height = (44 * m) as u32;
    let grid = Seq::new(
        36,
        |k: int|
            coarse_cand(
                grid_offset(image_width, x_frac(k / 6), width),
                grid_offset(image_height, y_frac(k % 6), height),
                m,
            ),
    );
    if m == 4 {
        let cx = image_width.saturating_sub(width) / 2;
        let cy = image_height.saturating_sub(height) / 2;
        grid + seq![coarse_cand(cx, cy, m), coarse_cand(cx / 2, cy, m), coarse_cand(cx / 3, cy / 2, m)]
    } else {
        grid
    }
}

/// The coarse-grid windows of the first `n` module sizes that fit the image.
pub open spec fn coarse_all(image_width: u32, image_height: u32, n: int) -> Seq<ScanCandidate>
    decreases n,
{
    if n <= 0 {
        Seq::empty()
    } else {
        let m = coarse_module(n - 1);
        let before = coarse_all(image_width, image_height, n - 1);
        if 104 * m > image_width || 44 * m > image_height {
            before
        } else {
            before + coarse_attempts(image_width, image_height, m)
        }
    }
}

/// The coarse ribbon grid of an image of at least 240 x 120 pixels: its windows that
/// fit, each region once.
#[verifier::opaque]
pub open spec fn coarse_grid_spec(image_width: u32, image_height: u32) -> Seq<ScanCandidate> {
    if image_width < 240 || image_height < 120 {
        Seq::empty()
    } else {
        push_when(
            Seq::empty(),
            coarse_all(image_width, image_height, 6),
            |r: ScanRegion| fits_spec(r, image_width, image_height),
        )
    }
}

fn grid_offset_of(dim: u32, frac: u64, size: u32) -> (r: u32)
    requires
        frac <= 1000,
        size < 1000,
    ensures
        r == grid_offset(dim, frac as int, size),
{
    proof {
        assert((dim as int) * (frac as int) <= 0xffff_ffff * 1000) by (nonlinear_arith)
            requires
                dim <= 0xffff_ffff,
                frac <= 1000,
        ;
    }
    let v = round_ratio_u32(dim as u64 * frac, 1000);
    let limit = dim.saturating_sub(size + 1);
    if v <= limit {
        v
    } else {
        limit
    }
}

fn push_coarse_attempts(attempts: &mut Vec<ScanCandidate>, image_width: u32, image_height: u32, m: u32)
    requires
        3 <= m <= 8,
    ensures
        final(attempts)@ == old(attempts)@ + coarse_attempts(image_width, image_height, m),
{
    let ghost start = attempts@;
    let width = 104 * m;
    let height = 44 * m;
    let xs: [u64; 6] = [60, 115, 160, 220, 300, 380];
    let ys: [u64; 6] = [80, 140, 200, 233, 280, 320];
    let ghost grid = Seq::new(
        36,
        |k: int|
            coarse_cand(
                grid_offset(image_width, x_frac(k / 6), width),
                grid_offset(image_height, y_frac(k % 6), height),
                m,
            ),
    );
    let mut i: usize = 0;
    while i < 6
        invariant
            i <= 6,
            3 <= m <= 8,
            width == 104 * m,
            height == 44 * m,
            xs@ == seq![60u64, 115, 160, 220, 300, 380],
            ys@ == seq![80u64, 140, 200, 233, 280, 320],
            grid == Seq::new(
                36,
                |k: int|
                    coarse_cand(
                        grid_offset(image_width, x_frac(k / 6), width),
                        grid_offset(image_height, y_frac(k % 6), height),
                        m,
                    ),
            ),
            attempts@ == start + grid.take(6 * i),
        decreases 6 - i,
    {
        let x = grid_offset_of(image_width, xs[i], width);
        let mut j: usize = 0;
        while j < 6
            invariant
                i < 6,
                j <= 6,
                3 <= m <= 8,
                width == 104 * m,
                height == 44 * m,
                xs@ == seq![60u64, 115, 160, 220, 300, 380],
                ys@ == seq![80u64, 140, 200, 233, 280, 320],
                x == grid_offset(image_width, x_frac(i as int), width),
                grid == Seq::new(
                    36,
                    |k: int|
                        coarse_cand(
                            grid_offset(image_width, x_frac(k / 6), width),
                            grid_offset(image_height, y_frac(k % 6), height),
                            m,
                        ),
                ),
                attempts@ == start + grid.take(6 * i + j),
            decreases 6 - j,
        {
            let y = grid_offset_of(image_height, ys[j], height);
            attempts.push(
                ScanCandidate {
                    detector: CandidateDetector::RibbonWeave,
                    layout_hint: Some(LayoutFamily::RibbonWeave),
                    stage: CandidateStage::CoarseGrid,
                    region: ScanRegion { x, y, width, height },
                },
            );
            proof {
                let k = 6 * i + j;
                assert(k / 6 == i && k % 6 == j) by (nonlinear_arith)
                    requires
                        k == 6 * i + j,
                        0 <= j < 6,
                        0 <= i,
                ;
                assert(grid.take(k + 1) =~= grid.take(k).push(grid[k]));
            }
            j = j + 1;
        }
        i = i + 1;
    }
    assert(grid.take(36) =~= grid);
    if m == 4 {
        let cx = image_width.saturating_sub(width) / 2;
        let cy = image_height.saturating_sub(height) / 2;
        let hint = Some(LayoutFamily::RibbonWeave);
        attempts.push(
            ScanCandidate {
                detector: CandidateDetector::RibbonWeave,
                layout_hint: hint,
                stage: CandidateStage::CoarseGrid,
                region: ScanRegion { x: cx, y: cy, width, height },
            },
        );
        attempts.push(
            ScanCandidate {
                detector: CandidateDetector::RibbonWeave,
                layout_hint: hint,
                stage: CandidateStage::CoarseGrid,
                region: ScanRegion { x: cx / 2, y: cy, width, height },
            },
        );
        attempts.push(
            ScanCandidate {
                detector: CandidateDetector::RibbonWeave,
                layout_hint: hint,
                stage: CandidateStage::CoarseGrid,
                region: ScanRegion { x: cx / 3, y: cy / 2, width, height },
            },
        );
    }
    assert(attempts@ =~= start + coarse_attempts(image_width, image_height, m));
}

/// The coarse ribbon grid of an image of at least 240 x 120 pixels: for module sizes
/// 4, 5, 3, 6, 7 and 8 pixels, windows at six by six fractions of the image (and, for
/// four-pixel modules, three centred ones), those that fit, each region once.
pub fn coarse_ribbon_grid_candidates(image_width: u32, image_height: u32) -> (r: Vec<ScanCandidate>)
    ensures
        r@ == coarse_grid_spec(image_width, image_height),
{
    reveal(coarse_grid_spec);
    let mut candidates: Vec<ScanCandidate> = Vec::new();
    if image_width < 240 || image_height < 120 {
        return candidates;
    }
    let modules: [u32; 6] = [4, 5, 3, 6, 7, 8];
    let mut attempts: Vec<ScanCandidate> = Vec::new();
    let mut i: usize = 0;
    while i < 6
        invariant
            i <= 6,
            modules@ == seq![4u32, 5, 3, 6, 7, 8],
            attempts@ == coarse_all(image_width, image_height, i as int),
        decreases 6 - i,
    {
        let m = modules[i];
        assert(m == coarse_module(i as int));
        if 104 * m <= image_width && 44 * m <= image_height {
            push_coarse_attempts(&mut attempts, image_width, image_height, m);
        }
        i = i + 1;
    }
    offer_fitting(&mut candidates, &attempts, image_width, image_height);
    candidates
}

/// Whether pixel `(x, y)` of a thresholded image is dark.
pub open spec fn dark_at(img: LumaImage, x: int, y: int) -> bool {
    luma_at(img, x, y) == 0
}

/// `x` inserted into the sorted `s` after every element it does not precede.
pub open spec fn insert_sorted<T>(s: Seq<T>, x: T, less: spec_fn(T, T) -> bool) -> Seq<T>
    decreases s.len(),
{
    if s.len() == 0 {
        seq![x]
    } else if less(x, s.last()) {
        insert_sorted(s.drop_last(), x, less).push(s.last())
    } else {
        s.push(x)
    }
}

/// `s` sorted by `less`, equal elements in their first order.
pub open spec fn sort_seq<T>(s: Seq<T>, less: spec_fn(T, T) -> bool) -> Seq<T>
    decreases s.len(),
{
    if s.len() == 0 {
        Seq::empty()
    } else {
        insert_sorted(sort_seq(s.drop_last(), less), s.last(), less)
    }
}

pub(crate) proof fn lemma_insert_sorted_split<T>(s: Seq<T>, x: T, less: spec_fn(T, T) -> bool, j: int)
    requires
        0 < j <= s.len(),
        less(x, s[j - 1]),
    ensures
        insert_sorted(s.take(j), x, less) + s.skip(j) == insert_sorted(s.take(j - 1), x, less) + s.skip(j - 1),
{
    let t = s.take(j);
    assert(t.drop_last() =~= s.take(j - 1));
    assert(t.last() == s[j - 1]);
    assert(insert_sorted(s.take(j - 1), x, less).push(s[j - 1]) + s.skip(j) =~= insert_sorted(s.take(j - 1), x, less) + s.skip(j - 1));
}

pub(crate) proof fn lemma_insert_sorted_at<T>(s: Seq<T>, x: T, less: spec_fn(T, T) -> bool, j: int)
    requires
        0 <= j <= s.len(),
        j == 0 || !less(x, s[j - 1]),
        insert_sorted(s, x, less) == insert_sorted(s.take(j), x, less) + s.skip(j),
    ensures
        insert_sorted(s, x, less) == s.insert(j, x),
{
    let t = s.take(j);
    if j > 0 {
        assert(t.drop_last() =~= s.take(j - 1));
        assert(t.last() == s[j - 1]);
        assert(insert_sorted(t, x, less) == t.push(x));
    } else {
        assert(t =~= Seq::<T>::empty());
    }
    assert(insert_sorted(s, x, less) =~= s.insert(j, x));
}


/// No two candidates of `list` cover the same region.
pub open spec fn distinct_regions(list: Seq<ScanCandidate>) -> bool {
    forall|i: int, j: int|
        0 <= i < j < list.len() ==> (#[trigger] list[i]).region != (#[trigger] list[j]).region
}

/// Every candidate of `list` has a region that `keep` accepts.
pub open spec fn all_kept(list: Seq<ScanCandidate>, keep: spec_fn(ScanRegion) -> bool) -> bool {
    forall|i: int| 0 <= i < list.len() ==> keep((#[trigger] list[i]).region)
}

/// Offering candidates one by one lists each region at most once, and only regions
/// that the filter accepts, when the starting list does.
pub proof fn push_when_lists_each_region_once(
    list: Seq<ScanCandidate>,
    cs: Seq<ScanCandidate>,
    keep: spec_fn(ScanRegion) -> bool,
)
    requires
        distinct_regions(list),
        all_kept(list, keep),
    ensures
        distinct_regions(push_when(list, cs, keep)),
        all_kept(push_when(list, cs, keep), keep),
    decreases cs.len(),
{
    if cs.len() > 0 {
        push_when_lists_each_region_once(list, cs.drop_last(), keep);
        let before = push_when(list, cs.drop_last(), keep);
        let c = cs.last();
        if keep(c.region) && !has_region(before, c.region) {
            let after = before.push(c);
            assert forall|i: int, j: int| 0 <= i < j < after.len() implies (#[trigger] after[i]).region
                != (#[trigger] after[j]).region by {
                if j == before.len() {
                    assert(after[i] == before[i]);
                    if before[i].region == c.region {
                        assert(has_region(before, c.region));
                    }
                } else {
                    assert(after[i] == before[i] && after[j] == before[j]);
                }
            }
            assert forall|i: int| 0 <= i < after.len() implies keep((#[trigger] after[i]).region) by {
                if i < before.len() {
                    assert(after[i] == before[i]);
                }
            }
        }
    }
}

/// Keeping the first `n` of a list keeps its regions distinct and accepted.
pub proof fn at_most_keeps_regions(list: Seq<ScanCandidate>, n: int, keep: spec_fn(ScanRegion) -> bool)
    requires
        0 <= n,
        distinct_regions(list),
        all_kept(list, keep),
    ensures
        distinct_regions(at_most(list, n)),
        all_kept(at_most(list, n), keep),
{
    let r = at_most(list, n);
    assert forall|i: int, j: int| 0 <= i < j < r.len() implies (#[trigger] r[i]).region != (#[trigger] r[j]).region by {
        assert(r[i] == list[i] && r[j] == list[j]);
    }
    assert forall|i: int| 0 <= i < r.len() implies keep((#[trigger] r[i]).region) by {
        assert(r[i] == list[i]);
    }
}

/// Each candidate of `insert_sorted(s, x)` is `x` or one of `s`.
pub proof fn lemma_insert_sorted_members(s: Seq<ScanCandidate>, x: ScanCandidate, less: spec_fn(ScanCandidate, ScanCandidate) -> bool)
    ensures
        insert_sorted(s, x, less).len() == s.len() + 1,
        forall|i: int|
            0 <= i < insert_sorted(s, x, less).len() ==> #[trigger] insert_sorted(s, x, less)[i] == x
                || s.contains(insert_sorted(s, x, less)[i]),
    decreases s.len(),
{
    if s.len() > 0 && less(x, s.last()) {
        lemma_insert_sorted_members(s.drop_last(), x, less);
        let inner = insert_sorted(s.drop_last(), x, less);
        let r = inner.push(s.last());
        assert forall|i: int| 0 <= i < r.len() implies #[trigger] r[i] == x || s.contains(r[i]) by {
            if i < inner.len() {
                assert(r[i] == inner[i]);
                if inner[i] != x {
                    let k = choose|k: int| 0 <= k < s.drop_last().len() && s.drop_last()[k] == inner[i];
                    assert(s[k] == inner[i]);
                }
            } else {
                assert(r[i] == s[s.len() - 1]);
            }
        }
    } else if s.len() > 0 {
        let r = s.push(x);
        assert forall|i: int| 0 <= i < r.len() implies #[trigger] r[i] == x || s.contains(r[i]) by {
            if i < s.len() {
                assert(r[i] == s[i]);
            }
        }
    }
}

proof fn lemma_insert_sorted_distinct(s: Seq<ScanCandidate>, x: ScanCandidate, less: spec_fn(ScanCandidate, ScanCandidate) -> bool)
    requires
        distinct_regions(s),
        !has_region(s, x.region),
    ensures
        distinct_regions(insert_sorted(s, x, less)),
    decreases s.len(),
{
    if s.len() > 0 && less(x, s.last()) {
        let d = s.drop_last();
        assert(distinct_regions(d)) by {
            assert forall|i: int, j: int| 0 <= i < j < d.len() implies (#[trigger] d[i]).region != (#[trigger] d[j]).region by {
                assert(d[i] == s[i] && d[j] == s[j]);
            }
        }
        assert(!has_region(d, x.region)) by {
            if has_region(d, x.region) {
                let k = choose|k: int| 0 <= k < d.len() && #[trigger] d[k].region == x.region;
                assert(s[k] == d[k]);
            }
        }
        lemma_insert_sorted_distinct(d, x, less);
        lemma_insert_sorted_members(d, x, less);
        let inner = insert_sorted(d, x, less);
        let last = s.last();
        let r = inner.push(last);
        assert forall|i: int, j: int| 0 <= i < j < r.len() implies (#[trigger] r[i]).region != (#[trigger] r[j]).region by {
            if j == inner.len() {
                assert(r[i] == inner[i] && r[j] == last);
                if inner[i] == x {
                    assert(s[s.len() - 1] == last);
                    if last.region == x.region {
                        assert(has_region(s, x.region));
                    }
                } else {
                    assert(d.contains(inner[i]));
                    let k = choose|k: int| 0 <= k < d.len() && d[k] == inner[i];
                    assert(s[k] == d[k]);
                    assert(s[k].region != s[s.len() - 1].region);
                }
            } else {
                assert(r[i] == inner[i] && r[j] == inner[j]);
            }
        }
    } else if s.len() > 0 {
        let r = s.push(x);
        assert forall|i: int, j: int| 0 <= i < j < r.len() implies (#[trigger] r[i]).region != (#[trigger] r[j]).region by {
            if j == s.len() {
                assert(r[i] == s[i]);
                if s[i].region == x.region {
                    assert(has_region(s, x.region));
                }
            } else {
                assert(r[i] == s[i] && r[j] == s[j]);
            }
        }
    }
}

/// Sorting a list keeps its candidates: each of the sorted list is one of the list,
/// the length stays, and distinct regions stay distinct.
pub proof fn sort_keeps_candidates(s: Seq<ScanCandidate>, less: spec_fn(ScanCandidate, ScanCandidate) -> bool)
    ensures
        sort_seq(s, less).len() == s.len(),
        forall|i: int| 0 <= i < sort_seq(s, less).len() ==> s.contains(#[trigger] sort_seq(s, less)[i]),
        distinct_regions(s) ==> distinct_regions(sort_seq(s, less)),
    decreases s.len(),
{
    if s.len() > 0 {
        let d = s.drop_last();
        let x = s.last();
        sort_keeps_candidates(d, less);
        let sd = sort_seq(d, less);
        lemma_insert_sorted_members(sd, x, less);
        let r = insert_sorted(sd, x, less);
        assert forall|i: int| 0 <= i < r.len() implies s.contains(#[trigger] r[i]) by {
            if r[i] == x {
                assert(s[s.len() - 1] == x);
            } else {
                let k = choose|k: int| 0 <= k < sd.len() && sd[k] == r[i];
                assert(d.contains(sd[k]));
                let m = choose|m: int| 0 <= m < d.len() && d[m] == sd[k];
                assert(s[m] == d[m]);
            }
        }
        if distinct_regions(s) {
            assert(distinct_regions(d)) by {
                assert forall|i: int, j: int| 0 <= i < j < d.len() implies (#[trigger] d[i]).region != (#[trigger] d[j]).region by {
                    assert(d[i] == s[i] && d[j] == s[j]);
                }
            }
            assert(!has_region(sd, x.region)) by {
                if has_region(sd, x.region) {
                    let k = choose|k: int| 0 <= k < sd.len() && #[trigger] sd[k].region == x.region;
                    assert(d.contains(sd[k]));
                    let m = choose|m: int| 0 <= m < d.len() && d[m] == sd[k];
                    assert(s[m] == d[m]);
                    assert(s[m].region != s[s.len() - 1].region);
                }
            }
            lemma_insert_sorted_distinct(sd, x, less);
        }
    }
}

/// The first `n` of `s`, or all of it.
pub open spec fn at_most<T>(s: Seq<T>, n: int) -> Seq<T> {
    if s.len() > n {
        s.take(n)
    } else {
        s
    }
}


/// Absolute value.
pub open spec fn abs_int(v: int) -> int {
    if v < 0 {
        -v
    } else {
        v
    }
}

} // verus!
