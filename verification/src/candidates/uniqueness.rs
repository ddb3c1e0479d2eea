//! What every candidate list promises: each region at most once, and only regions
//! that pass the list's own filter (inside the image, or of plausible proportions).
use vstd::prelude::*;

use crate::candidates::bands::{band_spec, region_order};
use crate::candidates::matrix::matrix_candidates_spec;
use crate::candidates::rails::ribbon_rail_spec;
use crate::candidates::still::generic_spec;
use crate::candidates::totems::ribbon_totem_spec;
use crate::candidates::{
    all_kept, at_most, at_most_keeps_regions, coarse_grid_spec, distinct_regions, fits_spec, plausible_spec,
    push_when, push_when_lists_each_region_once, sort_keeps_candidates, ScanCandidate,
};
use crate::candidates::components::dark_components_spec;
use crate::candidates::still::component_windows;
use crate::raster::LumaImage;
use crate::scanner::ScanRegion;

verus! {

/// Each region of `list` lies inside a `w` x `h` image and holds a symbol of
/// one-pixel modules.
pub open spec fn all_fit(list: Seq<ScanCandidate>, w: u32, h: u32) -> bool {
    forall|i: int| 0 <= i < list.len() ==> fits_spec((#[trigger] list[i]).region, w, h)
}

/// Each region of `list` has a plausible symbol's size and proportions.
pub open spec fn all_plausible(list: Seq<ScanCandidate>) -> bool {
    forall|i: int| 0 <= i < list.len() ==> plausible_spec((#[trigger] list[i]).region)
}

proof fn lemma_fitting(list: Seq<ScanCandidate>, cs: Seq<ScanCandidate>, w: u32, h: u32, n: int)
    requires
        list.len() == 0,
        0 <= n,
    ensures
        distinct_regions(at_most(push_when(list, cs, |r: ScanRegion| fits_spec(r, w, h)), n)),
        all_fit(at_most(push_when(list, cs, |r: ScanRegion| fits_spec(r, w, h)), n), w, h),
{
    let keep = |r: ScanRegion| fits_spec(r, w, h);
    push_when_lists_each_region_once(list, cs, keep);
    at_most_keeps_regions(push_when(list, cs, keep), n, keep);
    let out = at_most(push_when(list, cs, keep), n);
    assert forall|i: int| 0 <= i < out.len() implies fits_spec((#[trigger] out[i]).region, w, h) by {
        assert(keep(out[i].region));
    }
}


/// The ribbon windows that rails suggest list each region once, each inside the
/// image.
pub proof fn rail_windows_fit_once(img: LumaImage)
    ensures
        distinct_regions(ribbon_rail_spec(img)),
        all_fit(ribbon_rail_spec(img), img.spec_width(), img.spec_height()),
{
    let w = img.spec_width();
    let h = img.spec_height();
    if w >= 160 && h >= 80 {
        let gs = crate::candidates::rails::rail_groups_spec(img);
        let cs = crate::candidates::rails::groups_windows(gs, gs.len() as int)
            + crate::candidates::rails::all_pairs(gs, gs.len() as int);
        lemma_fitting(Seq::empty(), cs, w, h, 32);
    }
}

/// The ribbon windows that pairs of totems suggest list each region once, each inside
/// the image.
pub proof fn totem_windows_fit_once(img: LumaImage)
    ensures
        distinct_regions(ribbon_totem_spec(img)),
        all_fit(ribbon_totem_spec(img), img.spec_width(), img.spec_height()),
{
    let w = img.spec_width();
    let h = img.spec_height();
    if w >= 160 && h >= 80 {
        let gs = crate::candidates::totems::totem_groups_spec(img);
        lemma_fitting(Seq::empty(), crate::candidates::totems::all_totem_pairs(gs, gs.len() as int), w, h, 12);
    }
}

/// The matrix symbols that finders frame list each region once, each inside the image.
pub proof fn matrix_frames_fit_once(img: LumaImage)
    ensures
        distinct_regions(matrix_candidates_spec(img)),
        all_fit(matrix_candidates_spec(img), img.spec_width(), img.spec_height()),
{
    reveal(matrix_candidates_spec);
    let w = img.spec_width();
    let h = img.spec_height();
    if w >= 80 && h >= 80 {
        let fs = crate::candidates::matrix::matrix_finders_spec(img);
        let cs = crate::candidates::matrix::frames_tl(fs, fs.len() as int);
        let keep = |r: ScanRegion| fits_spec(r, w, h);
        lemma_fitting(Seq::empty(), cs, w, h, cs.len() as int + 1);
        assert(at_most(push_when(Seq::empty(), cs, keep), cs.len() as int + 1) == push_when(
            Seq::empty(),
            cs,
            keep,
        )) by {
            lemma_push_when_len(Seq::empty(), cs, keep);
        }
    }
}

/// The coarse ribbon grid lists each window once, each inside the image.
pub proof fn coarse_grid_fits_once(image_width: u32, image_height: u32)
    ensures
        distinct_regions(coarse_grid_spec(image_width, image_height)),
        all_fit(coarse_grid_spec(image_width, image_height), image_width, image_height),
{
    reveal(coarse_grid_spec);
    if image_width >= 240 && image_height >= 120 {
        let cs = crate::candidates::coarse_all(image_width, image_height, 6);
        let keep = |r: ScanRegion| fits_spec(r, image_width, image_height);
        lemma_fitting(Seq::empty(), cs, image_width, image_height, cs.len() as int + 1);
        assert(at_most(push_when(Seq::empty(), cs, keep), cs.len() as int + 1) == push_when(
            Seq::empty(),
            cs,
            keep,
        )) by {
            lemma_push_when_len(Seq::empty(), cs, keep);
        }
    }
}

proof fn lemma_push_when_len(list: Seq<ScanCandidate>, cs: Seq<ScanCandidate>, keep: spec_fn(ScanRegion) -> bool)
    ensures
        push_when(list, cs, keep).len() <= list.len() + cs.len(),
    decreases cs.len(),
{
    if cs.len() > 0 {
        lemma_push_when_len(list, cs.drop_last(), keep);
    }
}

/// The bands of dark rows list each region once, each of plausible proportions.
pub proof fn bands_plausible_once(img: LumaImage, padding: u32)
    ensures
        distinct_regions(band_spec(img, padding)),
        all_plausible(band_spec(img, padding)),
{
    let w = img.spec_width();
    let h = img.spec_height();
    if w > 0 && h > 0 {
        let rows = crate::candidates::bands::band_rows(img, crate::candidates::bands::band_threshold(w), h as int);
        let cs = crate::candidates::bands::band_attempts(img, rows, padding, 0);
        let keep = |r: ScanRegion| plausible_spec(r);
        let pushed = push_when(Seq::empty(), cs, keep);
        push_when_lists_each_region_once(Seq::empty(), cs, keep);
        sort_keeps_candidates(pushed, region_order());
        let sorted = crate::candidates::sort_seq(pushed, region_order());
        assert forall|i: int| 0 <= i < sorted.len() implies keep((#[trigger] sorted[i]).region) by {
            assert(pushed.contains(sorted[i]));
            let k = choose|k: int| 0 <= k < pushed.len() && pushed[k] == sorted[i];
            assert(keep(pushed[k].region));
        }
        at_most_keeps_regions(sorted, 48, keep);
        let out = at_most(sorted, 48);
        assert forall|i: int| 0 <= i < out.len() implies plausible_spec((#[trigger] out[i]).region) by {
            assert(keep(out[i].region));
        }
    }
}

/// The layout-agnostic candidates list each region once, each of plausible
/// proportions.
pub proof fn generic_plausible_once(img: LumaImage, padding: u32)
    ensures
        distinct_regions(generic_spec(img, padding)),
        all_plausible(generic_spec(img, padding)),
{
    reveal(generic_spec);
    let keep = |r: ScanRegion| plausible_spec(r);
    let bands = band_spec(img, padding);
    bands_plausible_once(img, padding);
    assert(all_kept(bands, keep)) by {
        assert forall|i: int| 0 <= i < bands.len() implies keep((#[trigger] bands[i]).region) by {
            assert(plausible_spec(bands[i].region));
        }
    }
    let cs = dark_components_spec(img);
    let windows = component_windows(img, cs, padding, if cs.len() > 64 { 64 } else { cs.len() as int });
    push_when_lists_each_region_once(bands, windows, keep);
    at_most_keeps_regions(push_when(bands, windows, keep), 96, keep);
    let out = at_most(push_when(bands, windows, keep), 96);
    assert forall|i: int| 0 <= i < out.len() implies plausible_spec((#[trigger] out[i]).region) by {
        assert(keep(out[i].region));
    }
}

} // verus!
