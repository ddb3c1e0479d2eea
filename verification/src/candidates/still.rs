//! The candidate list of a still image: content bounds, matrix finders, ribbon rails
//! and totems, dark bands and components, and a coarse grid, within budgets.
use vstd::prelude::*;

use crate::candidates::bands::{band_spec, horizontal_band_regions};
use crate::candidates::components::{dark_components, dark_components_spec, DarkComponent};
use crate::candidates::matrix::{matrix_candidates, matrix_candidates_spec};
use crate::candidates::rails::{ribbon_rail_regions, ribbon_rail_spec};
use crate::candidates::totems::{ribbon_totem_regions, ribbon_totem_spec};
use crate::candidates::{CandidateStage, 
    at_most, cand, coarse_grid_spec, coarse_ribbon_grid_candidates, content_regions_spec,
    content_symbol_regions, dark_bounds_candidates_spec, dark_bounds_fallback_spec, expand_region,
    expand_spec, max_u32, min_u32, offer_plausible, plausible_spec, push_when, region_of,
    ribbon_dark_bounds_candidates, sat_mul, saturating_mul_u32, should_try_dark_bounds_fallback,
    union_region, union_spec, ScanCandidate,
};
use crate::cv::VisionProfile;
use crate::raster::{luma_at, LumaImage};
use crate::scanner::{CandidateDetector, ScanRegion};

verus! {

/// A colour raster: four bytes (red, green, blue, alpha) per pixel, row-major.
#[derive(Debug, PartialEq, Eq)]
pub struct ColorImage {
    width: u32,
    height: u32,
    pixels: Vec<u8>,
}

impl View for ColorImage {
    type V = Seq<u8>;

    /// The row-major RGBA bytes.
    closed spec fn view(&self) -> Seq<u8> {
        self.pixels@
    }
}

impl ColorImage {
    /// Width in pixels.
    pub closed spec fn spec_width(&self) -> u32 {
        self.width
    }

    /// Height in pixels.
    pub closed spec fn spec_height(&self) -> u32 {
        self.height
    }

    /// Four bytes per pixel: every image has them.
    #[verifier::type_invariant]
    pub open spec fn well_formed(&self) -> bool {
        self@.len() == 4 * (self.spec_width() as int) * (self.spec_height() as int)
    }

    /// An image of `width` x `height` pixels over the row-major RGBA bytes `pixels`,
    /// when there are exactly four bytes per pixel.
    pub fn from_raw(width: u32, height: u32, pixels: Vec<u8>) -> (r: Option<ColorImage>)
        ensures
            r is Some <==> pixels@.len() == 4 * (width as int) * (height as int),
            r matches Some(img) ==> img.spec_width() == width && img.spec_height() == height && img@ == pixels@,
    {
        proof {
            assert(4 * (width as int) * (height as int) <= 4 * 0xffff_ffff * 0xffff_ffffint) by (nonlinear_arith)
                requires
                    width <= 0xffff_ffff,
                    height <= 0xffff_ffff,
            ;
        }
        if (pixels.len() as u128) == 4 * (width as u128) * (height as u128) {
            Some(ColorImage { width, height, pixels })
        } else {
            None
        }
    }

    /// Width in pixels.
    pub fn width(&self) -> (r: u32)
        ensures
            r == self.spec_width(),
    {
        self.width
    }

    /// Height in pixels.
    pub fn height(&self) -> (r: u32)
        ensures
            r == self.spec_height(),
    {
        self.height
    }

    /// Channel `c` (0 red, 1 green, 2 blue, 3 alpha) of pixel `(x, y)`.
    pub fn channel(&self, x: u32, y: u32, c: u32) -> (r: u8)
        requires
            x < self.spec_width(),
            y < self.spec_height(),
            c < 4,
        ensures
            r == channel_at(*self, x as int, y as int, c as int),
    {
        let n = self.pixels.len();
        proof {
            use_type_invariant(self);
            let w = self.width as int;
            let h = self.height as int;
            assert(0 <= 4 * ((y as int) * w + (x as int)) + c < 4 * w * h) by (nonlinear_arith)
                requires
                    0 <= x < w,
                    0 <= y < h,
                    0 <= c < 4,
            ;
            assert(4 * w * h == n);
        }
        let i = 4 * ((y as usize) * (self.width as usize) + (x as usize)) + (c as usize);
        self.pixels[i]
    }
}

/// Channel `c` of pixel `(x, y)`.
pub open spec fn channel_at(img: ColorImage, x: int, y: int, c: int) -> u8 {
    img@[4 * (y * (img.spec_width() as int) + x) + c]
}

/// Whether pixel `(x, y)` is content: not transparent and not near-white.
pub open spec fn content_px(img: ColorImage, x: int, y: int) -> bool {
    &&& channel_at(img, x, y, 3) > 0
    &&& (channel_at(img, x, y, 0) < 245 || channel_at(img, x, y, 1) < 245 || channel_at(img, x, y, 2) < 245)
}

/// Whether any content was seen, and its least and greatest columns and rows.
pub type ContentScan = (bool, u32, u32, u32, u32);

/// The scan state after pixel `(x, y)`.
pub open spec fn content_step(img: ColorImage, s: ContentScan, x: int, y: int) -> ContentScan {
    if content_px(img, x, y) {
        (true, min_u32(s.1, x as u32), min_u32(s.2, y as u32), max_u32(s.3, x as u32), max_u32(s.4, y as u32))
    } else {
        s
    }
}

/// The scan state after the first `n` pixels of row `y`.
pub open spec fn content_row(img: ColorImage, s: ContentScan, y: int, n: int) -> ContentScan
    decreases n,
{
    if n <= 0 {
        s
    } else {
        content_step(img, content_row(img, s, y, n - 1), n - 1, y)
    }
}

/// The scan state after the first `n` rows.
pub open spec fn content_rows(img: ColorImage, n: int) -> ContentScan
    decreases n,
{
    if n <= 0 {
        (false, img.spec_width(), img.spec_height(), 0, 0)
    } else {
        content_row(img, content_rows(img, n - 1), n - 1, img.spec_width() as int)
    }
}

/// The bounds of the content of a clean image, unless there is none or it covers 85%
/// of the image or more.
#[verifier::opaque]
pub open spec fn content_bounds_spec(img: ColorImage) -> Option<ScanRegion> {
    let (found, min_x, min_y, max_x, max_y) = content_rows(img, img.spec_height() as int);
    if !found {
        None
    } else {
        let region = region_of(
            min_x,
            min_y,
            max_x.saturating_sub(min_x).saturating_add(1),
            max_y.saturating_sub(min_y).saturating_add(1),
        );
        let image_area = (img.spec_width() as int) * (img.spec_height() as int);
        let image_area = if image_area >= 1 {
            image_area
        } else {
            1
        };
        let region_area = (region.width as int) * (region.height as int);
        let scaled = if region_area * 100 > u64::MAX {
            u64::MAX as int
        } else {
            region_area * 100
        };
        if scaled / image_area >= 85 {
            None
        } else {
            Some(region)
        }
    }
}

/// The bounds of the content of a clean image (pixels neither transparent nor
/// near-white), unless there is none or it covers 85% of the image or more.
pub fn content_bounds(image: &ColorImage) -> (r: Option<ScanRegion>)
    ensures
        r == content_bounds_spec(*image),
{
    reveal(content_bounds_spec);
    let ghost img = *image;
    let w = image.width();
    let h = image.height();
    let mut found = false;
    let mut min_x = w;
    let mut min_y = h;
    let mut max_x: u32 = 0;
    let mut max_y: u32 = 0;
    let mut y: u32 = 0;
    while y < h
        invariant
            img == *image,
            w == img.spec_width(),
            h == img.spec_height(),
            y <= h,
            (found, min_x, min_y, max_x, max_y) == content_rows(img, y as int),
        decreases h - y,
    {
        let ghost row_start = (found, min_x, min_y, max_x, max_y);
        let mut x: u32 = 0;
        while x < w
            invariant
                img == *image,
                w == img.spec_width(),
                h == img.spec_height(),
                y < h,
                x <= w,
                row_start == content_rows(img, y as int),
                (found, min_x, min_y, max_x, max_y) == content_row(img, row_start, y as int, x as int),
            decreases w - x,
        {
            let alpha = image.channel(x, y, 3);
            let red = image.channel(x, y, 0);
            let green = image.channel(x, y, 1);
            let blue = image.channel(x, y, 2);
            if alpha > 0 && (red < 245 || green < 245 || blue < 245) {
                if x < min_x {
                    min_x = x;
                }
                if y < min_y {
                    min_y = y;
                }
                if x > max_x {
                    max_x = x;
                }
                if y > max_y {
                    max_y = y;
                }
                found = true;
            }
            x = x + 1;
        }
        y = y + 1;
    }
    if !found {
        return None;
    }
    let region = ScanRegion {
        x: min_x,
        y: min_y,
        width: max_x.saturating_sub(min_x).saturating_add(1),
        height: max_y.saturating_sub(min_y).saturating_add(1),
    };
    proof {
        assert((w as int) * (h as int) <= 0xffff_ffff * 0xffff_ffffint) by (nonlinear_arith)
            requires
                w <= 0xffff_ffff,
                h <= 0xffff_ffff,
        ;
        assert((region.width as int) * (region.height as int) <= 0xffff_ffff * 0xffff_ffffint) by (nonlinear_arith)
            requires
                region.width <= 0xffff_ffff,
                region.height <= 0xffff_ffff,
        ;
    }
    let ia = (w as u64) * (h as u64);
    let image_area = if ia >= 1 {
        ia
    } else {
        1
    };
    let region_area = (region.width as u64) * (region.height as u64);
    let scaled: u64 = if region_area > u64::MAX / 100 {
        u64::MAX
    } else {
        region_area * 100
    };
    if scaled / image_area >= 85 {
        return None;
    }
    Some(region)
}

/// The largest dark component so far and the union of the significant ones (at least
/// 16 pixels), after the first `n` components.
pub open spec fn bounds_fold(cs: Seq<DarkComponent>, n: int) -> (Option<(u32, ScanRegion)>, Option<ScanRegion>)
    decreases n,
{
    if n <= 0 {
        (None, None)
    } else {
        let (best, significant) = bounds_fold(cs, n - 1);
        let c = cs[n - 1];
        let significant = if c.pixels >= 16 {
            match significant {
                Some(existing) => Some(union_spec(existing, c.bounds)),
                None => Some(c.bounds),
            }
        } else {
            significant
        };
        let best = match best {
            Some((count, _)) => if c.pixels > count {
                Some((c.pixels, c.bounds))
            } else {
                best
            },
            None => Some((c.pixels, c.bounds)),
        };
        (best, significant)
    }
}

/// The dark bounds of a thresholded image: the union of its dark components of at
/// least 16 pixels, or else the largest one.
#[verifier::opaque]
pub open spec fn dark_bounds_spec(img: LumaImage) -> Option<ScanRegion> {
    let cs = dark_components_spec(img);
    let (best, significant) = bounds_fold(cs, cs.len() as int);
    match significant {
        Some(r) => Some(r),
        None => match best {
            Some((_, r)) => Some(r),
            None => None,
        },
    }
}

/// The dark bounds of a thresholded image: the union of its dark components of at
/// least 16 pixels, or else the largest one.
pub fn dark_bounds(binary: &LumaImage) -> (r: Option<ScanRegion>)
    ensures
        r == dark_bounds_spec(*binary),
{
    reveal(dark_bounds_spec);
    let comps = dark_components(binary);
    let ghost cs = comps@;
    let mut best: Option<(u32, ScanRegion)> = None;
    let mut significant: Option<ScanRegion> = None;
    let mut i: usize = 0;
    while i < comps.len()
        invariant
            comps@ == cs,
            i <= cs.len(),
            (best, significant) == bounds_fold(cs, i as int),
        decreases cs.len() - i,
    {
        let c = comps[i];
        if c.pixels >= 16 {
            significant = match significant {
                Some(existing) => Some(union_region(existing, c.bounds)),
                None => Some(c.bounds),
            };
        }
        best = match best {
            Some((count, region)) => if c.pixels > count {
                Some((c.pixels, c.bounds))
            } else {
                Some((count, region))
            },
            None => Some((c.pixels, c.bounds)),
        };
        i = i + 1;
    }
    match significant {
        Some(r) => Some(r),
        None => match best {
            Some((_, r)) => Some(r),
            None => None,
        },
    }
}

/// The component windows of the first `n` dark components with at least 16 pixels:
/// each grown by twice the padding.
pub open spec fn component_windows(img: LumaImage, cs: Seq<DarkComponent>, padding: u32, n: int) -> Seq<ScanCandidate>
    decreases n,
{
    if n <= 0 {
        Seq::empty()
    } else {
        let before = component_windows(img, cs, padding, n - 1);
        let c = cs[n - 1];
        if c.pixels < 16 {
            before
        } else {
            before.push(
                cand(
                    CandidateDetector::GenericBinary,
                    None,
                    CandidateStage::Component,
                    expand_spec(c.bounds, (2 * padding) as u32, img.spec_width(), img.spec_height()),
                ),
            )
        }
    }
}

/// The layout-agnostic candidates of a thresholded image: its bands, then the
/// plausible windows of its 64 largest dark components, each region once, at most 96.
#[verifier::opaque]
pub open spec fn generic_spec(img: LumaImage, padding: u32) -> Seq<ScanCandidate> {
    let cs = dark_components_spec(img);
    at_most(
        push_when(
            band_spec(img, padding),
            component_windows(img, cs, padding, if cs.len() > 64 { 64 } else { cs.len() as int }),
            |r: ScanRegion| plausible_spec(r),
        ),
        96,
    )
}

/// The layout-agnostic candidates of a thresholded image: its bands, then the
/// plausible windows of its 64 largest dark components, each region once, at most 96.
pub fn generic_binary_candidates(binary: &LumaImage, padding: u32) -> (r: Vec<ScanCandidate>)
    requires
        2 * padding <= u32::MAX,
    ensures
        r@ == generic_spec(*binary, padding),
{
    reveal(generic_spec);
    let ghost img = *binary;
    let mut regions = horizontal_band_regions(binary, padding);
    let comps = dark_components(binary);
    let ghost cs = comps@;
    let limit = if comps.len() > 64 {
        64
    } else {
        comps.len()
    };
    let w = binary.width();
    let h = binary.height();
    let mut attempts: Vec<ScanCandidate> = Vec::new();
    let mut i: usize = 0;
    while i < limit
        invariant
            img == *binary,
            w == img.spec_width(),
            h == img.spec_height(),
            comps@ == cs,
            limit <= cs.len(),
            i <= limit,
            2 * padding <= u32::MAX,
            attempts@ == component_windows(img, cs, padding, i as int),
        decreases limit - i,
    {
        let c = comps[i];
        if c.pixels >= 16 {
            let expanded = expand_region(c.bounds, padding * 2, w, h);
            attempts.push(ScanCandidate { detector: CandidateDetector::GenericBinary, layout_hint: None, stage: CandidateStage::Component, region: expanded });
        }
        i = i + 1;
    }
    offer_plausible(&mut regions, &attempts);
    regions.truncate(96);
    regions
}

/// The ribbon candidates of a thresholded image: from totems, then from rails, at
/// most 96.
#[verifier::opaque]
pub open spec fn ribbon_weave_spec(img: LumaImage) -> Seq<ScanCandidate> {
    at_most(ribbon_totem_spec(img) + ribbon_rail_spec(img), 96)
}

/// The ribbon candidates of a thresholded image: from totems, then from rails, at
/// most 96.
pub fn ribbon_weave_candidates(binary: &LumaImage) -> (r: Vec<ScanCandidate>)
    ensures
        r@ == ribbon_weave_spec(*binary),
{
    reveal(ribbon_weave_spec);
    let mut regions = ribbon_totem_regions(binary);
    let mut rails = ribbon_rail_regions(binary);
    regions.append(&mut rails);
    regions.truncate(96);
    regions
}

/// The candidate budgets of a still scan: total, content, matrix, ribbon, generic and
/// dark-bounds candidates, for robust or quick scans of large or small images.
pub open spec fn budgets(robust: bool, large: bool) -> (int, int, int, int, int, int) {
    (
        if robust {
            if large {
                28
            } else {
                96
            }
        } else if large {
            12
        } else {
            28
        },
        if robust && large {
            8
        } else if robust {
            24
        } else if large {
            0
        } else {
            4
        },
        if robust && large {
            8
        } else if robust {
            16
        } else if large {
            3
        } else {
            4
        },
        if robust && large {
            10
        } else if robust {
            24
        } else if large {
            8
        } else {
            12
        },
        if !robust || large {
            0
        } else {
            16
        },
        if !robust {
            1
        } else if large {
            4
        } else {
            8
        },
    )
}

/// Whether an image of this size is large for a still scan: more than 900 000 pixels.
pub open spec fn large_image(w: u32, h: u32) -> bool {
    sat_mul(w, h) > 900_000
}

/// The primary candidates of a still image: content-bounds symbols (small images),
/// matrix finders, ribbon totems and rails, and generic bands and components (robust
/// scans of small images), each within its budget.
pub open spec fn primary_spec(image: ColorImage, binary: LumaImage, profile: VisionProfile, padding: u32, robust: bool) -> Seq<ScanCandidate> {
    let w = image.spec_width();
    let h = image.spec_height();
    let large = large_image(w, h);
    let (_max_total, max_content, max_matrix, max_ribbon, max_generic, _max_dark) = budgets(robust, large);
    let c1: Seq<ScanCandidate> = if !large {
        match content_bounds_spec(image) {
            Some(b) => at_most(content_regions_spec(b, w, h, profile.min_anchor_px), max_content),
            None => Seq::empty(),
        }
    } else {
        Seq::empty()
    };
    let c3 = c1 + at_most(matrix_candidates_spec(binary), max_matrix) + at_most(ribbon_weave_spec(binary), max_ribbon);
    if max_generic > 0 {
        c3 + at_most(generic_spec(binary, padding), max_generic)
    } else {
        c3
    }
}

/// The primary candidates followed, while under the total budget, by dark-bounds
/// candidates (within their budget) and then a coarse ribbon grid; at most the total.
pub open spec fn with_fallbacks(primary: Seq<ScanCandidate>, binary: LumaImage, w: u32, h: u32, padding: u32, robust: bool) -> Seq<ScanCandidate> {
    let (max_total, _c, _m, _r, _g, max_dark) = budgets(robust, large_image(w, h));
    let c5 = if primary.len() < max_total && dark_bounds_fallback_spec(w, h, primary.len() as usize) {
        match dark_bounds_spec(binary) {
            Some(b) => primary + at_most(
                dark_bounds_candidates_spec(b, padding, w, h),
                if max_dark <= max_total - primary.len() {
                    max_dark
                } else {
                    max_total - primary.len()
                },
            ),
            None => primary,
        }
    } else {
        primary
    };
    let c6 = if c5.len() < max_total {
        c5 + at_most(coarse_grid_spec(w, h), max_total - c5.len())
    } else {
        c5
    };
    at_most(c6, max_total)
}

/// The candidates of a still image and its thresholded copy, in the order tried.
pub open spec fn still_candidates_spec(image: ColorImage, binary: LumaImage, profile: VisionProfile, padding: u32, robust: bool) -> Seq<ScanCandidate> {
    with_fallbacks(primary_spec(image, binary, profile, padding, robust), binary, image.spec_width(), image.spec_height(), padding, robust)
}

/// The candidate budgets of a still scan, as executable sizes.
fn budgets_of(robust: bool, large: bool) -> (r: (usize, usize, usize, usize, usize, usize))
    ensures
        (r.0 as int, r.1 as int, r.2 as int, r.3 as int, r.4 as int, r.5 as int) == budgets(robust, large),
{
    (
        if robust {
            if large {
                28
            } else {
                96
            }
        } else if large {
            12
        } else {
            28
        },
        if robust && large {
            8
        } else if robust {
            24
        } else if large {
            0
        } else {
            4
        },
        if robust && large {
            8
        } else if robust {
            16
        } else if large {
            3
        } else {
            4
        },
        if robust && large {
            10
        } else if robust {
            24
        } else if large {
            8
        } else {
            12
        },
        if !robust || large {
            0
        } else {
            16
        },
        if !robust {
            1
        } else if large {
            4
        } else {
            8
        },
    )
}

#[verifier::rlimit(50)]
fn primary_candidates(image: &ColorImage, binary: &LumaImage, profile: VisionProfile, padding: u32, robust: bool) -> (r: Vec<ScanCandidate>)
    requires
        binary.spec_width() == image.spec_width(),
        binary.spec_height() == image.spec_height(),
        robust && !large_image(image.spec_width(), image.spec_height()) ==> 2 * padding <= u32::MAX,
    ensures
        r@ == primary_spec(*image, *binary, profile, padding, robust),
{
    let w = image.width();
    let h = image.height();
    let large = saturating_mul_u32(w, h) > 900_000;
    let (_max_total, max_content, max_matrix, max_ribbon, max_generic, _max_dark) = budgets_of(robust, large);
    let mut candidates: Vec<ScanCandidate> = Vec::new();
    if !large {
        match content_bounds(image) {
            Some(bounds) => {
                let mut content = content_symbol_regions(bounds, w, h, profile.min_anchor_px);
                content.truncate(max_content);
                candidates.append(&mut content);
            },
            None => {},
        }
    }
    let mut matrix = matrix_candidates(binary);
    matrix.truncate(max_matrix);
    candidates.append(&mut matrix);
    let mut ribbon = ribbon_weave_candidates(binary);
    ribbon.truncate(max_ribbon);
    candidates.append(&mut ribbon);
    if max_generic > 0 {
        let mut generic = generic_binary_candidates(binary, padding);
        generic.truncate(max_generic);
        candidates.append(&mut generic);
    }
    candidates
}

/// The candidates of a still image and its thresholded copy, in the order tried:
/// content-bounds symbols (small images), matrix finders, ribbon totems and rails,
/// generic bands and components (robust scans of small images), dark bounds while
/// under budget, then a coarse ribbon grid; each group within its budget.
#[verifier::rlimit(50)]
pub fn still_scan_candidates(image: &ColorImage, binary: &LumaImage, profile: VisionProfile, padding: u32, robust: bool) -> (r: Vec<ScanCandidate>)
    requires
        binary.spec_width() == image.spec_width(),
        binary.spec_height() == image.spec_height(),
        robust && !large_image(image.spec_width(), image.spec_height()) ==> 2 * padding <= u32::MAX,
    ensures
        r@ == still_candidates_spec(*image, *binary, profile, padding, robust),
{
    let w = image.width();
    let h = image.height();
    let large = saturating_mul_u32(w, h) > 900_000;
    let (max_total, _max_content, _max_matrix, _max_ribbon, _max_generic, max_dark) = budgets_of(robust, large);
    let mut candidates = primary_candidates(image, binary, profile, padding, robust);
    let ghost primary = candidates@;
    let ghost c5: Seq<ScanCandidate> = primary;
    if candidates.len() < max_total && should_try_dark_bounds_fallback(w, h, candidates.len()) {
        match dark_bounds(binary) {
            Some(bounds) => {
                let mut dark = ribbon_dark_bounds_candidates(bounds, padding, w, h);
                let room = max_total - candidates.len();
                let budget = if max_dark <= room {
                    max_dark
                } else {
                    room
                };
                let ghost full = dark@;
                dark.truncate(budget);
                assert(dark@ == at_most(full, budget as int));
                candidates.append(&mut dark);
                proof {
                    c5 = primary + at_most(full, budget as int);
                }
            },
            None => {},
        }
    }
    assert(candidates@ == c5);
    let ghost c6: Seq<ScanCandidate> = c5;
    if candidates.len() < max_total {
        let mut fallback = coarse_ribbon_grid_candidates(w, h);
        let ghost full = fallback@;
        let room = max_total - candidates.len();
        fallback.truncate(room);
        assert(fallback@ == at_most(full, room as int));
        candidates.append(&mut fallback);
        proof {
            c6 = c5 + at_most(full, room as int);
        }
    }
    assert(candidates@ == c6);
    candidates.truncate(max_total);
    assert(candidates@ == at_most(c6, max_total as int));
    candidates
}

/// The ribbon window grown from dark bounds when nothing else was found: a quarter of
/// the width left, a third of the height up, one and a half times the size, inside
/// the image and at least one symbol of one-pixel modules.
pub open spec fn fallback_ribbon_spec(bounds: ScanRegion, image_width: u32, image_height: u32) -> Option<ScanRegion> {
    if image_width < 104 || image_height < 44 {
        None
    } else {
        let ex = bounds.x.saturating_sub(bounds.width / 4);
        let ey = bounds.y.saturating_sub(bounds.height / 3);
        let ew = bounds.width.saturating_add(bounds.width / 2);
        let eh = bounds.height.saturating_add(bounds.height / 2);
        let x = min_u32(ex, image_width.saturating_sub(1));
        let y = min_u32(ey, image_height.saturating_sub(1));
        let max_x = max_u32(min_u32(ex.saturating_add(ew), image_width), x.saturating_add(1));
        let max_y = max_u32(min_u32(ey.saturating_add(eh), image_height), y.saturating_add(1));
        let width = max_u32(max_x.saturating_sub(x), 1);
        let height = max_u32(max_y.saturating_sub(y), 1);
        if width < 104 || height < 44 {
            None
        } else {
            Some(region_of(x, y, width, height))
        }
    }
}

/// The ribbon window grown from dark bounds when nothing else was found.
pub fn fallback_ribbon_region_from_bounds(bounds: ScanRegion, image_width: u32, image_height: u32) -> (r: Option<ScanRegion>)
    ensures
        r == fallback_ribbon_spec(bounds, image_width, image_height),
{
    if image_width < 104 || image_height < 44 {
        return None;
    }
    let ex = bounds.x.saturating_sub(bounds.width / 4);
    let ey = bounds.y.saturating_sub(bounds.height / 3);
    let ew = bounds.width.saturating_add(bounds.width / 2);
    let eh = bounds.height.saturating_add(bounds.height / 2);
    let lx = image_width.saturating_sub(1);
    let ly = image_height.saturating_sub(1);
    let x = if ex <= lx {
        ex
    } else {
        lx
    };
    let y = if ey <= ly {
        ey
    } else {
        ly
    };
    let ax = ex.saturating_add(ew);
    let cx = if ax <= image_width {
        ax
    } else {
        image_width
    };
    let x1 = x.saturating_add(1);
    let max_x = if cx >= x1 {
        cx
    } else {
        x1
    };
    let ay = ey.saturating_add(eh);
    let cy = if ay <= image_height {
        ay
    } else {
        image_height
    };
    let y1 = y.saturating_add(1);
    let max_y = if cy >= y1 {
        cy
    } else {
        y1
    };
    let wd = max_x.saturating_sub(x);
    let width = if wd >= 1 {
        wd
    } else {
        1
    };
    let hd = max_y.saturating_sub(y);
    let height = if hd >= 1 {
        hd
    } else {
        1
    };
    if width < 104 || height < 44 {
        return None;
    }
    Some(ScanRegion { x, y, width, height })
}

/// `a / b` rounded up.
pub open spec fn ceil_div(a: int, b: int) -> int {
    (a + b - 1) / b
}

/// A signature or coarse-grid window clipped by the image edge, grown to a whole
/// ribbon: a third wider (higher) across the clipped axis, then to the 104 : 44
/// proportions, kept against the edges it touches (centred otherwise); other windows,
/// windows away from the edges, and images smaller than a one-pixel symbol unchanged.
pub open spec fn edge_clipped_spec(region: ScanRegion, stage: CandidateStage, image_width: u32, image_height: u32) -> ScanRegion {
    let right = region.x.saturating_add(region.width);
    let bottom = region.y.saturating_add(region.height);
    let touches_left = region.x == 0;
    let touches_top = region.y == 0;
    let touches_right = right >= image_width;
    let touches_bottom = bottom >= image_height;
    if !(stage == CandidateStage::SignatureWindow || stage == CandidateStage::CoarseGrid) || image_width < 104
        || image_height < 44 || !(touches_left || touches_top || touches_right || touches_bottom) {
        region
    } else {
        let w1 = if touches_left || touches_right {
            min_u32(ceil_div(sat_mul(region.width, 4) as int, 3) as u32, image_width)
        } else {
            region.width
        };
        let h1 = if touches_top || touches_bottom {
            min_u32(ceil_div(sat_mul(region.height, 4) as int, 3) as u32, image_height)
        } else {
            region.height
        };
        let width = min_u32(max_u32(w1, ceil_div(sat_mul(h1, 104) as int, 44) as u32), image_width);
        let height = min_u32(max_u32(h1, ceil_div(sat_mul(width, 44) as int, 104) as u32), image_height);
        let x = if touches_left {
            0
        } else if touches_right {
            image_width.saturating_sub(width)
        } else {
            min_u32(region.x.saturating_add(region.width / 2).saturating_sub(width / 2), image_width.saturating_sub(width))
        };
        let y = if touches_top {
            0
        } else if touches_bottom {
            image_height.saturating_sub(height)
        } else {
            min_u32(region.y.saturating_add(region.height / 2).saturating_sub(height / 2), image_height.saturating_sub(height))
        };
        region_of(x, y, width, height)
    }
}

/// `a` times `b`, saturating, divided by `d` rounded up.
fn sat_mul_ceil_div(a: u32, b: u32, d: u32) -> (r: u32)
    requires
        1 <= d <= 104,
    ensures
        r == ceil_div(sat_mul(a, b) as int, d as int) as u32,
{
    let p = saturating_mul_u32(a, b) as u64;
    ((p + d as u64 - 1) / d as u64) as u32
}

/// A signature or coarse-grid window clipped by the image edge, grown to a whole
/// ribbon against the edges it touches.
pub fn expand_edge_clipped_signature_region(region: ScanRegion, stage: CandidateStage, image_width: u32, image_height: u32) -> (r: ScanRegion)
    ensures
        r == edge_clipped_spec(region, stage, image_width, image_height),
{
    let right = region.x.saturating_add(region.width);
    let bottom = region.y.saturating_add(region.height);
    let touches_left = region.x == 0;
    let touches_top = region.y == 0;
    let touches_right = right >= image_width;
    let touches_bottom = bottom >= image_height;
    let wanted = match stage {
        CandidateStage::SignatureWindow => true,
        CandidateStage::CoarseGrid => true,
        _ => false,
    };
    if !wanted || image_width < 104 || image_height < 44 || !(touches_left || touches_top || touches_right || touches_bottom) {
        return region;
    }
    let mut width = region.width;
    let mut height = region.height;
    if touches_left || touches_right {
        let g = sat_mul_ceil_div(width, 4, 3);
        width = if g <= image_width {
            g
        } else {
            image_width
        };
    }
    if touches_top || touches_bottom {
        let g = sat_mul_ceil_div(height, 4, 3);
        height = if g <= image_height {
            g
        } else {
            image_height
        };
    }
    let aspect_width = sat_mul_ceil_div(height, 104, 44);
    let wider = if width >= aspect_width {
        width
    } else {
        aspect_width
    };
    width = if wider <= image_width {
        wider
    } else {
        image_width
    };
    let aspect_height = sat_mul_ceil_div(width, 44, 104);
    let taller = if height >= aspect_height {
        height
    } else {
        aspect_height
    };
    height = if taller <= image_height {
        taller
    } else {
        image_height
    };
    let x = if touches_left {
        0
    } else if touches_right {
        image_width.saturating_sub(width)
    } else {
        let c = region.x.saturating_add(region.width / 2).saturating_sub(width / 2);
        let limit = image_width.saturating_sub(width);
        if c <= limit {
            c
        } else {
            limit
        }
    };
    let y = if touches_top {
        0
    } else if touches_bottom {
        image_height.saturating_sub(height)
    } else {
        let c = region.y.saturating_add(region.height / 2).saturating_sub(height / 2);
        let limit = image_height.saturating_sub(height);
        if c <= limit {
            c
        } else {
            limit
        }
    };
    ScanRegion { x, y, width, height }
}

/// Whether rectifying a quadrilateral is worth trying: robust scans of images of at
/// most 500 000 pixels.
pub open spec fn quad_rectification_spec(image_width: u32, image_height: u32, robust: bool) -> bool {
    robust && sat_mul(image_width, image_height) <= 500_000
}

/// Whether rectifying a quadrilateral is worth trying.
pub fn should_try_quad_rectification(image_width: u32, image_height: u32, robust: bool) -> (r: bool)
    ensures
        r == quad_rectification_spec(image_width, image_height, robust),
{
    robust && saturating_mul_u32(image_width, image_height) <= 500_000
}

/// The pixels of the first `n` columns of row `y` darker than 245.
pub open spec fn row_non_white(img: LumaImage, y: int, n: int) -> nat
    decreases n,
{
    if n <= 0 {
        0
    } else {
        row_non_white(img, y, n - 1) + if luma_at(img, n - 1, y) < 245 {
            1nat
        } else {
            0nat
        }
    }
}

/// Whether some row of an image of at least 64 x 32 pixels is at least 90% non-white:
/// a user-interface band rather than a symbol.
pub open spec fn wide_band_spec(img: LumaImage) -> bool {
    let w = img.spec_width();
    let h = img.spec_height();
    &&& w >= 64
    &&& h >= 32
    &&& exists|y: int| 0 <= y < h && #[trigger] row_non_white(img, y, w as int) >= sat_mul(w, 9) / 10
}

proof fn lemma_row_non_white_bound(img: LumaImage, y: int, n: int)
    ensures
        row_non_white(img, y, n) <= if n >= 0 {
            n
        } else {
            0
        },
    decreases n,
{
    if n > 0 {
        lemma_row_non_white_bound(img, y, n - 1);
    }
}

/// Whether some row of an image of at least 64 x 32 pixels is at least 90% non-white.
pub fn has_wide_ui_band(luma: &LumaImage) -> (r: bool)
    ensures
        r == wide_band_spec(*luma),
{
    let ghost img = *luma;
    let w = luma.width();
    let h = luma.height();
    if w < 64 || h < 32 {
        return false;
    }
    let band_threshold = saturating_mul_u32(w, 9) / 10;
    let mut y: u32 = 0;
    while y < h
        invariant
            img == *luma,
            w == img.spec_width(),
            h == img.spec_height(),
            band_threshold == sat_mul(w, 9) / 10,
            w >= 64,
            h >= 32,
            y <= h,
            forall|yy: int| 0 <= yy < y ==> row_non_white(img, yy, w as int) < band_threshold,
        decreases h - y,
    {
        let mut non_white: u32 = 0;
        let mut x: u32 = 0;
        while x < w
            invariant
                img == *luma,
                w == img.spec_width(),
                y < img.spec_height(),
                x <= w,
                non_white == row_non_white(img, y as int, x as int),
            decreases w - x,
        {
            proof {
                lemma_row_non_white_bound(img, y as int, x as int);
            }
            if luma.luma(x, y) < 245 {
                non_white = non_white + 1;
            }
            x = x + 1;
        }
        if non_white >= band_threshold {
            assert(row_non_white(img, y as int, w as int) >= sat_mul(w, 9) / 10);
            assert(wide_band_spec(img));
            return true;
        }
        y = y + 1;
    }
    false
}

/// Whether decoding the whole frame is worth trying first: at most 300 000 pixels,
/// 1 to 8 times as wide as high, with no user-interface band.
pub open spec fn full_frame_spec(luma: LumaImage) -> bool {
    let w = luma.spec_width();
    let h = max_u32(luma.spec_height(), 1);
    sat_mul(luma.spec_width(), luma.spec_height()) <= 300_000 && h <= w && w <= 8 * h && !wide_band_spec(luma)
}

/// Whether decoding the whole frame is worth trying first.
pub fn should_try_full_frame_decode(luma: &LumaImage) -> (r: bool)
    ensures
        r == full_frame_spec(*luma),
{
    let w = luma.width();
    let hh = luma.height();
    if saturating_mul_u32(w, hh) > 300_000 {
        return false;
    }
    let h = if hh >= 1 {
        hh
    } else {
        1
    };
    if !(h <= w && (w as u64) <= 8 * (h as u64)) {
        return false;
    }
    !has_wide_ui_band(luma)
}

} // verus!
