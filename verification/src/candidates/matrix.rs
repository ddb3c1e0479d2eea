//! Matrix finder patterns: 7 x 7 module squares with a dark ring and core, found
//! from row runs and from a module-grid template, and matrix symbols framed by
//! three of them.
use vstd::prelude::*;

use crate::candidates::{CandidateStage, abs_int, at_most, cand, dark_at, fits_spec, generated_geometry_spec, max_u32, min_u32, offer_fitting, push_when, reference_generated_geometry, region_of, round_ratio, sat_mul, saturating_mul_u32, median3, median3_spec, ScanCandidate};
use crate::candidates::components::{dark_components, dark_components_spec, DarkComponent};
use crate::descriptor::LayoutFamily;
use crate::scanner::{CandidateDetector, ScanRegion};
use crate::candidates::rails::{lemma_row_dark_bound, row_dark};
use crate::raster::LumaImage;

verus! {

/// A finder-pattern candidate: top-left corner and module size.
#[derive(Debug, Clone, Copy, PartialEq, Eq, Structural)]
pub struct MatrixFinder {
    /// Left pixel.
    pub x: u32,
    /// Top pixel.
    pub y: u32,
    /// Module size in pixels.
    pub module_px: u32,
}

/// Whether every finder of `s` has modules of 2 to 24 pixels.
pub open spec fn finders_ok(s: Seq<MatrixFinder>) -> bool {
    forall|i: int| 0 <= i < s.len() ==> 2 <= #[trigger] s[i].module_px <= 24
}

/// Whether module `(mx, my)` of a finder pattern is dark: the outer ring and the
/// three-by-three core.
pub open spec fn finder_module_dark(mx: int, my: int) -> bool {
    mx == 0 || my == 0 || mx == 6 || my == 6 || (2 <= mx <= 4 && 2 <= my <= 4)
}

/// Whether module `(mx, my)` of a finder pattern is dark.
fn matrix_finder_module_dark(mx: u32, my: u32) -> (r: bool)
    ensures
        r == finder_module_dark(mx as int, my as int),
{
    mx == 0 || my == 0 || mx == 6 || my == 6 || (mx >= 2 && mx <= 4 && my >= 2 && my <= 4)
}

/// Whether the centre pixel of module `(mx, my)` of a finder at `(x, y)` is dark, the
/// pixel kept inside the image.
pub open spec fn module_center_dark(img: LumaImage, x: u32, y: u32, m: u32, mx: int, my: int) -> bool {
    let cx = x + mx * m + m / 2;
    let cy = y + my * m + m / 2;
    let w = img.spec_width() as int;
    let h = img.spec_height() as int;
    dark_at(img, if cx <= w - 1 {
        cx
    } else {
        w - 1
    }, if cy <= h - 1 {
        cy
    } else {
        h - 1
    })
}

/// Whether the centre pixel of module `(mx, my)` of a finder at `(x, y)` is dark.
fn matrix_module_center_dark(binary: &LumaImage, x: u32, y: u32, m: u32, mx: u32, my: u32) -> (r: bool)
    requires
        binary.spec_width() >= 1,
        binary.spec_height() >= 1,
        mx <= 6,
        my <= 6,
        m <= 24,
        x + 7 * m <= binary.spec_width(),
        y + 7 * m <= binary.spec_height(),
    ensures
        r == module_center_dark(*binary, x, y, m, mx as int, my as int),
{
    proof {
        assert(mx * m <= 6 * m && my * m <= 6 * m) by (nonlinear_arith)
            requires
                mx <= 6,
                my <= 6,
        ;
    }
    let cx = x + mx * m + m / 2;
    let cy = y + my * m + m / 2;
    let lx = binary.width() - 1;
    let ly = binary.height() - 1;
    binary.luma(if cx <= lx {
        cx
    } else {
        lx
    }, if cy <= ly {
        cy
    } else {
        ly
    }) == 0
}

/// The quick test of a finder at `(x, y)`: dark corner and core centres, light ring
/// centres between them.
pub open spec fn prefilter_spec(img: LumaImage, x: u32, y: u32, m: u32) -> bool {
    &&& module_center_dark(img, x, y, m, 0, 0)
    &&& module_center_dark(img, x, y, m, 6, 0)
    &&& module_center_dark(img, x, y, m, 0, 6)
    &&& module_center_dark(img, x, y, m, 6, 6)
    &&& module_center_dark(img, x, y, m, 3, 3)
    &&& !module_center_dark(img, x, y, m, 1, 1)
    &&& !module_center_dark(img, x, y, m, 5, 1)
    &&& !module_center_dark(img, x, y, m, 1, 5)
    &&& !module_center_dark(img, x, y, m, 5, 5)
}

/// The quick test of a finder at `(x, y)`.
fn matrix_finder_fast_prefilter(binary: &LumaImage, x: u32, y: u32, m: u32) -> (r: bool)
    requires
        binary.spec_width() >= 1,
        binary.spec_height() >= 1,
        m <= 24,
        x + 7 * m <= binary.spec_width(),
        y + 7 * m <= binary.spec_height(),
    ensures
        r == prefilter_spec(*binary, x, y, m),
{
    matrix_module_center_dark(binary, x, y, m, 0, 0) && matrix_module_center_dark(binary, x, y, m, 6, 0)
        && matrix_module_center_dark(binary, x, y, m, 0, 6) && matrix_module_center_dark(binary, x, y, m, 6, 6)
        && matrix_module_center_dark(binary, x, y, m, 3, 3) && !matrix_module_center_dark(binary, x, y, m, 1, 1)
        && !matrix_module_center_dark(binary, x, y, m, 5, 1) && !matrix_module_center_dark(binary, x, y, m, 1, 5)
        && !matrix_module_center_dark(binary, x, y, m, 5, 5)
}

/// The modules among the first `k` (row by row) whose centre pixel disagrees with the
/// finder pattern.
pub open spec fn center_mismatches(img: LumaImage, x: u32, y: u32, m: u32, k: int) -> nat
    decreases k,
{
    if k <= 0 {
        0
    } else {
        let i = k - 1;
        center_mismatches(img, x, y, m, k - 1) + if module_center_dark(img, x, y, m, i % 7, i / 7)
            != finder_module_dark(i % 7, i / 7) {
            1nat
        } else {
            0nat
        }
    }
}

/// Whether at most six module centres of a finder at `(x, y)` disagree with the
/// pattern.
fn matrix_finder_center_template_matches(binary: &LumaImage, x: u32, y: u32, m: u32) -> (r: bool)
    requires
        binary.spec_width() >= 1,
        binary.spec_height() >= 1,
        m <= 24,
        x + 7 * m <= binary.spec_width(),
        y + 7 * m <= binary.spec_height(),
    ensures
        r == (center_mismatches(*binary, x, y, m, 49) <= 6),
{
    let mut mismatches: u32 = 0;
    let mut my: u32 = 0;
    while my < 7
        invariant
            binary.spec_width() >= 1,
            binary.spec_height() >= 1,
            m <= 24,
            x + 7 * m <= binary.spec_width(),
            y + 7 * m <= binary.spec_height(),
            my <= 7,
            mismatches == center_mismatches(*binary, x, y, m, 7 * my as int),
            mismatches <= 7 * my,
        decreases 7 - my,
    {
        let mut mx: u32 = 0;
        while mx < 7
            invariant
                binary.spec_width() >= 1,
                binary.spec_height() >= 1,
                m <= 24,
                x + 7 * m <= binary.spec_width(),
                y + 7 * m <= binary.spec_height(),
                my < 7,
                mx <= 7,
                mismatches == center_mismatches(*binary, x, y, m, 7 * my + mx),
                mismatches <= 7 * my + mx,
            decreases 7 - mx,
        {
            let expected = matrix_finder_module_dark(mx, my);
            let dark = matrix_module_center_dark(binary, x, y, m, mx, my);
            proof {
                let i = 7 * my + mx;
                assert(i % 7 == mx && i / 7 == my) by (nonlinear_arith)
                    requires
                        i == 7 * my + mx,
                        0 <= mx < 7,
                        0 <= my,
                ;
            }
            if dark != expected {
                mismatches = mismatches + 1;
            }
            mx = mx + 1;
        }
        my = my + 1;
    }
    mismatches <= 6
}

/// The inset box of a module of `m` pixels at `(x, y)`: a quarter module (at least one
/// pixel, less than the module) in from each side, inside the image.
pub open spec fn inset_box(img: LumaImage, x: u32, y: u32, m: u32) -> (u32, u32, u32, u32) {
    let inset = min_u32(max_u32(m / 4, 1), m.saturating_sub(1));
    let w = img.spec_width();
    let h = img.spec_height();
    (
        min_u32(x.saturating_add(inset), w),
        min_u32(x.saturating_add(m.saturating_sub(inset)), w),
        min_u32(y.saturating_add(inset), h),
        min_u32(y.saturating_add(m.saturating_sub(inset)), h),
    )
}

/// The dark pixels of columns `x0..x1` in rows `y0..y1`.
pub open spec fn box_dark(img: LumaImage, x0: int, x1: int, y0: int, y1: int) -> nat
    decreases y1 - y0,
{
    if y1 <= y0 {
        0
    } else {
        box_dark(img, x0, x1, y0, y1 - 1) + row_dark(img, y1 - 1, x0, x1)
    }
}

/// Whether a module is dark by area: at least 62% of its inset box.
pub open spec fn module_area_dark(img: LumaImage, x: u32, y: u32, m: u32) -> bool {
    let (x0, x1, y0, y1) = inset_box(img, x, y, m);
    let total = if x1 > x0 && y1 > y0 {
        (x1 - x0) * (y1 - y0)
    } else {
        0
    };
    100 * box_dark(img, x0 as int, x1 as int, y0 as int, y1 as int) >= 62 * (if total >= 1 {
        total
    } else {
        1
    })
}

proof fn lemma_box_dark_bound(img: LumaImage, x0: int, x1: int, y0: int, y1: int)
    requires
        x0 <= x1,
        y0 <= y1,
    ensures
        box_dark(img, x0, x1, y0, y1) <= (x1 - x0) * (y1 - y0),
    decreases y1 - y0,
{
    if y1 > y0 {
        lemma_box_dark_bound(img, x0, x1, y0, y1 - 1);
        lemma_row_dark_bound(img, y1 - 1, x0, x1);
        assert((x1 - x0) * (y1 - 1 - y0) + (x1 - x0) == (x1 - x0) * (y1 - y0)) by (nonlinear_arith);
    }
}

/// Whether a module is dark by area: at least 62% of its inset box.
fn module_dark_by_area(binary: &LumaImage, x: u32, y: u32, m: u32) -> (r: bool)
    requires
        m <= 24,
    ensures
        r == module_area_dark(*binary, x, y, m),
{
    let ghost img = *binary;
    let w = binary.width();
    let h = binary.height();
    let q = if m / 4 >= 1 {
        m / 4
    } else {
        1
    };
    let ms = m.saturating_sub(1);
    let inset = if q <= ms {
        q
    } else {
        ms
    };
    let a = x.saturating_add(inset);
    let x0 = if a <= w {
        a
    } else {
        w
    };
    let b = x.saturating_add(m.saturating_sub(inset));
    let x1 = if b <= w {
        b
    } else {
        w
    };
    let c = y.saturating_add(inset);
    let y0 = if c <= h {
        c
    } else {
        h
    };
    let d = y.saturating_add(m.saturating_sub(inset));
    let y1 = if d <= h {
        d
    } else {
        h
    };
    assert((x0, x1, y0, y1) == inset_box(img, x, y, m));
    assert(inset <= m - inset || m <= 1);
    assert(x0 <= x1 && y0 <= y1);
    let mut dark: u32 = 0;
    let mut total: u32 = 0;
    let mut py = y0;
    while py < y1
        invariant
            img == *binary,
            x1 <= img.spec_width(),
            y1 <= img.spec_height(),
            x1 - x0 <= 24,
            x0 <= x1,
            y0 <= py <= y1,
            y1 - y0 <= 24,
            dark == box_dark(img, x0 as int, x1 as int, y0 as int, py as int),
            total == (if x1 > x0 {
                (x1 - x0) * (py - y0)
            } else {
                0
            }),
            total <= 24 * 24,
        decreases y1 - py,
    {
        let ghost row_start = dark;
        let mut px = x0;
        proof {
            if x0 <= x1 {
                lemma_box_dark_bound(img, x0 as int, x1 as int, y0 as int, py as int);
                assert((x1 - x0) * (py - y0) <= 24 * 24) by (nonlinear_arith)
                    requires
                        x1 - x0 <= 24,
                        py - y0 <= 24,
                        x1 >= x0,
                        py >= y0,
                ;
            }
        }
        while px < x1
            invariant
                img == *binary,
                x1 <= img.spec_width(),
                py < y1,
                y1 <= img.spec_height(),
                x0 <= px <= x1,
                dark == row_start + row_dark(img, py as int, x0 as int, px as int),
                row_start <= 24 * 24,
                dark <= row_start + (px - x0),
                x1 - x0 <= 24,
            decreases x1 - px,
        {
            if binary.luma(px, py) == 0 {
                dark = dark + 1;
            }
            px = px + 1;
        }
        if x1 > x0 {
            total = total + (x1 - x0);
            proof {
                assert((x1 - x0) * (py - y0) + (x1 - x0) == (x1 - x0) * (py + 1 - y0)) by (nonlinear_arith);
                assert((x1 - x0) * (py + 1 - y0) <= 24 * 24) by (nonlinear_arith)
                    requires
                        x1 - x0 <= 24,
                        py + 1 - y0 <= 24,
                        x1 >= x0,
                        py + 1 >= y0,
                ;
            }
        }
        py = py + 1;
    }
    let t = if total >= 1 {
        total
    } else {
        1
    };
    proof {
        if !(x1 > x0 && y1 > y0) {
            if x1 > x0 {
                assert((x1 - x0) * (py - y0) == 0) by (nonlinear_arith)
                    requires
                        py == y0,
                ;
            }
            assert(total == 0);
        }
    }
    100 * (dark as u64) >= 62 * (t as u64)
}
/// The modules among the first `k` (row by row) of a finder at `(x, y)` whose area
/// darkness disagrees with the pattern.
pub open spec fn area_mismatches(img: LumaImage, x: u32, y: u32, m: u32, k: int) -> nat
    decreases k,
{
    if k <= 0 {
        0
    } else {
        let i = k - 1;
        area_mismatches(img, x, y, m, k - 1) + if module_area_dark(img, (x + (i % 7) * m) as u32, (y + (i / 7) * m) as u32, m)
            != finder_module_dark(i % 7, i / 7) {
            1nat
        } else {
            0nat
        }
    }
}

/// Whether a finder pattern of `m`-pixel modules stands at `(x, y)`: at most six of
/// its 49 modules disagree by area darkness.
pub open spec fn finder_matches_spec(img: LumaImage, x: u32, y: u32, m: u32) -> bool {
    area_mismatches(img, x, y, m, 49) <= 6
}

/// Whether a finder pattern of `m`-pixel modules stands at `(x, y)`.
fn matrix_finder_matches(binary: &LumaImage, x: u32, y: u32, m: u32) -> (r: bool)
    requires
        m <= 24,
        x + 7 * m <= binary.spec_width(),
        y + 7 * m <= binary.spec_height(),
    ensures
        r == finder_matches_spec(*binary, x, y, m),
{
    let mut mismatches: u32 = 0;
    let mut my: u32 = 0;
    while my < 7
        invariant
            m <= 24,
            x + 7 * m <= binary.spec_width(),
            y + 7 * m <= binary.spec_height(),
            my <= 7,
            mismatches == area_mismatches(*binary, x, y, m, 7 * my as int),
            mismatches <= 7 * my,
        decreases 7 - my,
    {
        let mut mx: u32 = 0;
        while mx < 7
            invariant
                m <= 24,
                x + 7 * m <= binary.spec_width(),
                y + 7 * m <= binary.spec_height(),
                my < 7,
                mx <= 7,
                mismatches == area_mismatches(*binary, x, y, m, 7 * my + mx),
                mismatches <= 7 * my + mx,
            decreases 7 - mx,
        {
            proof {
                let i = 7 * my + mx;
                assert(i % 7 == mx && i / 7 == my) by (nonlinear_arith)
                    requires
                        i == 7 * my + mx,
                        0 <= mx < 7,
                        0 <= my,
                ;
                assert(mx * m <= 6 * m && my * m <= 6 * m) by (nonlinear_arith)
                    requires
                        mx <= 6,
                        my <= 6,
                ;
            }
            let expected = matrix_finder_module_dark(mx, my);
            let dark = module_dark_by_area(binary, x + mx * m, y + my * m, m);
            if dark != expected {
                mismatches = mismatches + 1;
            }
            mx = mx + 1;
        }
        my = my + 1;
    }
    mismatches <= 6
}

/// Whether finder `a` is a duplicate of `f`: within `f`'s module size (at least two
/// pixels) both ways.
pub open spec fn near_finder(a: MatrixFinder, f: MatrixFinder) -> bool {
    let r = max_u32(f.module_px, 2);
    &&& (if a.x >= f.x {
        a.x - f.x
    } else {
        f.x - a.x
    }) <= r
    &&& (if a.y >= f.y {
        a.y - f.y
    } else {
        f.y - a.y
    }) <= r
}

/// `list` with finder `f` appended unless a listed one is a duplicate of it.
pub open spec fn push_finder(list: Seq<MatrixFinder>, f: MatrixFinder) -> Seq<MatrixFinder> {
    if exists|i: int| 0 <= i < list.len() && #[trigger] near_finder(list[i], f) {
        list
    } else {
        list.push(f)
    }
}

/// Append finder `f` unless a listed one is a duplicate of it.
fn push_matrix_finder(finders: &mut Vec<MatrixFinder>, f: MatrixFinder)
    requires
        2 <= f.module_px <= 24,
        finders_ok(old(finders)@),
    ensures
        final(finders)@ == push_finder(old(finders)@, f),
        finders_ok(final(finders)@),
{
    let r = if f.module_px >= 2 {
        f.module_px
    } else {
        2
    };
    let mut i: usize = 0;
    while i < finders.len()
        invariant
            i <= finders@.len(),
            r == max_u32(f.module_px, 2),
            forall|k: int| 0 <= k < i ==> !near_finder(#[trigger] finders@[k], f),
            finders_ok(finders@),
        decreases finders@.len() - i,
    {
        let e = finders[i];
        let dx = if e.x >= f.x {
            e.x - f.x
        } else {
            f.x - e.x
        };
        let dy = if e.y >= f.y {
            e.y - f.y
        } else {
            f.y - e.y
        };
        if dx <= r && dy <= r {
            assert(near_finder(finders@[i as int], f));
            return;
        }
        i = i + 1;
    }
    finders.push(f);
}

/// The nudge radius of a finder search: half a module, at least one pixel.
pub open spec fn nudge_of(m: u32) -> int {
    if m / 2 >= 1 {
        (m / 2) as int
    } else {
        1
    }
}

/// A coordinate moved by `d`, at least zero.
pub open spec fn nudged(c: u32, d: int) -> u32 {
    if c + d < 0 {
        0
    } else {
        (c + d) as u32
    }
}

/// The finder found at `(x, y)` moved by `(dx, dy)`, if it fits the image and matches.
pub open spec fn nudge_hit(img: LumaImage, x: u32, y: u32, m: u32, dx: int, dy: int) -> Option<(u32, u32)> {
    let nx = nudged(x, dx);
    let ny = nudged(y, dy);
    if nx + 7 * m > img.spec_width() || ny + 7 * m > img.spec_height() {
        None
    } else if finder_matches_spec(img, nx, ny, m) {
        Some((nx, ny))
    } else {
        None
    }
}

/// The first hit of row offset `dy` among column offsets `dx..=n`.
pub open spec fn nudge_row(img: LumaImage, x: u32, y: u32, m: u32, n: int, dy: int, dx: int) -> Option<(u32, u32)>
    decreases n + 1 - dx,
{
    if dx > n {
        None
    } else {
        match nudge_hit(img, x, y, m, dx, dy) {
            Some(p) => Some(p),
            None => nudge_row(img, x, y, m, n, dy, dx + 1),
        }
    }
}

/// The first hit among row offsets `dy..=n`, each over column offsets `-n..=n`.
pub open spec fn nudge_rows(img: LumaImage, x: u32, y: u32, m: u32, n: int, dy: int) -> Option<(u32, u32)>
    decreases n + 1 - dy,
{
    if dy > n {
        None
    } else {
        match nudge_row(img, x, y, m, n, dy, -n) {
            Some(p) => Some(p),
            None => nudge_rows(img, x, y, m, n, dy + 1),
        }
    }
}

/// `list` after checking a finder guess at `(x, y)`: the first position within half a
/// module (row by row) where a finder pattern matches is appended, unless a duplicate.
pub open spec fn verify_push(list: Seq<MatrixFinder>, img: LumaImage, x: u32, y: u32, m: u32) -> Seq<MatrixFinder> {
    match nudge_rows(img, x, y, m, nudge_of(m), -nudge_of(m)) {
        Some((a, b)) => push_finder(list, MatrixFinder { x: a, y: b, module_px: m }),
        None => list,
    }
}

/// Check a finder guess at `(x, y)`: append the first nearby position (within half a
/// module) where a finder pattern matches, unless a duplicate.
fn verify_and_push_matrix_finder(binary: &LumaImage, finders: &mut Vec<MatrixFinder>, x: u32, y: u32, m: u32)
    requires
        2 <= m <= 24,
        finders_ok(old(finders)@),
    ensures
        final(finders)@ == verify_push(old(finders)@, *binary, x, y, m),
        finders_ok(final(finders)@),
{
    let ghost img = *binary;
    let n: i64 = if m / 2 >= 1 {
        (m / 2) as i64
    } else {
        1
    };
    let w = binary.width();
    let h = binary.height();
    let mut dy: i64 = -n;
    while dy <= n
        invariant
            img == *binary,
            w == img.spec_width(),
            h == img.spec_height(),
            2 <= m <= 24,
            finders_ok(old(finders)@),
            n == nudge_of(m),
            1 <= n <= 12,
            -n <= dy <= n + 1,
            nudge_rows(img, x, y, m, n as int, -n) == nudge_rows(img, x, y, m, n as int, dy as int),
            finders@ == old(finders)@,
        decreases n + 1 - dy,
    {
        let mut dx: i64 = -n;
        while dx <= n
            invariant
                img == *binary,
                w == img.spec_width(),
                h == img.spec_height(),
                2 <= m <= 24,
                finders_ok(old(finders)@),
                n == nudge_of(m),
                1 <= n <= 12,
                -n <= dy <= n,
                -n <= dx <= n + 1,
                nudge_rows(img, x, y, m, n as int, -n) == nudge_rows(img, x, y, m, n as int, dy as int),
                nudge_row(img, x, y, m, n as int, dy as int, -n) == nudge_row(img, x, y, m, n as int, dy as int, dx as int),
                finders@ == old(finders)@,
            decreases n + 1 - dx,
        {
            let vx = (x as i64) + dx;
            let vy = (y as i64) + dy;
            let nx: u32 = if vx < 0 {
                0
            } else {
                vx as u32
            };
            let ny: u32 = if vy < 0 {
                0
            } else {
                vy as u32
            };
            assert(nx == nudged(x, dx as int) && ny == nudged(y, dy as int));
            if (nx as u64) + 7 * (m as u64) <= w as u64 && (ny as u64) + 7 * (m as u64) <= h as u64 {
                if matrix_finder_matches(binary, nx, ny, m) {
                    proof {
                        assert(nudge_hit(img, x, y, m, dx as int, dy as int) == Some((nx, ny)));
                        assert(nudge_rows(img, x, y, m, n as int, -n) == Some((nx, ny)));
                    }
                    push_matrix_finder(finders, MatrixFinder { x: nx, y: ny, module_px: m });
                    return;
                }
            }
            dx = dx + 1;
        }
        dy = dy + 1;
    }
}

/// Five consecutive run lengths, oldest first.
pub type Runs = (u32, u32, u32, u32, u32);

/// The sum of five runs.
pub open spec fn runs_total(r: Runs) -> int {
    r.0 + r.1 + r.2 + r.3 + r.4
}

/// Whether five runs look like a row through a finder: 1 : 1 : 3 : 1 : 1 within 80%
/// of a module (120% for the middle run), at least 14 pixels in all.
pub open spec fn run_ratio_ok(r: Runs) -> bool {
    let t = runs_total(r);
    &&& r.0 > 0 && r.1 > 0 && r.2 > 0 && r.3 > 0 && r.4 > 0
    &&& t >= 14
    &&& abs_int(35 * r.0 - 5 * t) <= 4 * t
    &&& abs_int(35 * r.1 - 5 * t) <= 4 * t
    &&& abs_int(35 * r.2 - 15 * t) <= 6 * t
    &&& abs_int(35 * r.3 - 5 * t) <= 4 * t
    &&& abs_int(35 * r.4 - 5 * t) <= 4 * t
}

/// The finder guess of five runs ending at column `x` on row `y`: module size a
/// seventh of the runs (2 to 24), the pattern centred on the middle run.
pub open spec fn run_guess(r: Runs, x: u32, y: u32) -> (u32, u32, u32) {
    let rounded = round_ratio(runs_total(r), 7);
    let m: int = if rounded < 2 {
        2
    } else if rounded > 24 {
        24
    } else {
        rounded
    };
    let back = r.4 + r.3 + r.2 / 2;
    let cx: int = if x >= back {
        x - back
    } else {
        0
    };
    let half = 7 * m / 2;
    (
        (if cx >= half {
            cx - half
        } else {
            0
        }) as u32,
        (if y >= half {
            y - half
        } else {
            0
        }) as u32,
        m as u32,
    )
}

/// The runs, the current colour, its length and the finder guesses of row `y` after
/// the first `n` columns.
pub open spec fn run_scan(img: LumaImage, y: int, n: int) -> (Runs, bool, u32, Seq<(u32, u32, u32)>)
    decreases n,
{
    if n <= 0 {
        ((0, 0, 0, 0, 0), dark_at(img, 0, y), 0, Seq::empty())
    } else {
        let (runs, color, count, guesses) = run_scan(img, y, n - 1);
        let x = n - 1;
        if dark_at(img, x, y) == color {
            (runs, color, (count + 1) as u32, guesses)
        } else {
            let shifted = (runs.1, runs.2, runs.3, runs.4, count);
            let next = if color && run_ratio_ok(shifted) {
                guesses.push(run_guess(shifted, x as u32, y as u32))
            } else {
                guesses
            };
            (shifted, dark_at(img, x, y), 1, next)
        }
    }
}

/// `list` after checking each guess in turn.
pub open spec fn apply_guesses(img: LumaImage, list: Seq<MatrixFinder>, gs: Seq<(u32, u32, u32)>) -> Seq<MatrixFinder>
    decreases gs.len(),
{
    if gs.len() == 0 {
        list
    } else {
        let g = gs.last();
        verify_push(apply_guesses(img, list, gs.drop_last()), img, g.0, g.1, g.2)
    }
}

/// `list` after the run scans of rows `0, step, 2 * step, ...` among the first `k` of
/// that sequence that lie in the image.
pub open spec fn scan_rows(img: LumaImage, step: int, k: int, list: Seq<MatrixFinder>) -> Seq<MatrixFinder>
    decreases k,
{
    if k <= 0 {
        list
    } else {
        let before = scan_rows(img, step, k - 1, list);
        let y = (k - 1) * step;
        if y >= img.spec_height() {
            before
        } else {
            apply_guesses(img, before, run_scan(img, y, img.spec_width() as int).3)
        }
    }
}

proof fn lemma_scan_rows_stable(img: LumaImage, step: int, j: int, k: int, list: Seq<MatrixFinder>)
    requires
        step >= 1,
        0 <= j <= k,
        j * step >= img.spec_height(),
    ensures
        scan_rows(img, step, k, list) == scan_rows(img, step, j, list),
    decreases k - j,
{
    if k > j {
        lemma_scan_rows_stable(img, step, j, k - 1, list);
        assert((k - 1) * step >= j * step) by (nonlinear_arith)
            requires
                k - 1 >= j,
                step >= 1,
        ;
    }
}

proof fn lemma_run_scan_count(img: LumaImage, y: int, n: int)
    requires
        n <= 0xffff_ffff,
    ensures
        run_scan(img, y, n).2 <= if n >= 0 {
            n
        } else {
            0
        },
    decreases n,
{
    if n > 0 {
        lemma_run_scan_count(img, y, n - 1);
    }
}

/// Whether five runs look like a row through a finder.
fn matrix_finder_run_ratio(runs: Runs) -> (r: bool)
    ensures
        r == run_ratio_ok(runs),
{
    let t: u64 = runs.0 as u64 + runs.1 as u64 + runs.2 as u64 + runs.3 as u64 + runs.4 as u64;
    if runs.0 == 0 || runs.1 == 0 || runs.2 == 0 || runs.3 == 0 || runs.4 == 0 || t < 14 {
        return false;
    }
    let t5 = 5 * (t as i64);
    let a0 = 35 * (runs.0 as i64) - t5;
    let a1 = 35 * (runs.1 as i64) - t5;
    let a2 = 35 * (runs.2 as i64) - 3 * t5;
    let a3 = 35 * (runs.3 as i64) - t5;
    let a4 = 35 * (runs.4 as i64) - t5;
    let tol = 4 * (t as i64);
    let wide = 6 * (t as i64);
    (if a0 >= 0 {
        a0
    } else {
        -a0
    }) <= tol && (if a1 >= 0 {
        a1
    } else {
        -a1
    }) <= tol && (if a2 >= 0 {
        a2
    } else {
        -a2
    }) <= wide && (if a3 >= 0 {
        a3
    } else {
        -a3
    }) <= tol && (if a4 >= 0 {
        a4
    } else {
        -a4
    }) <= tol
}

/// The finder guess of five runs ending at column `x` on row `y`.
fn finder_guess(runs: Runs, x: u32, y: u32) -> (r: (u32, u32, u32))
    ensures
        r == run_guess(runs, x, y),
{
    let t: u64 = runs.0 as u64 + runs.1 as u64 + runs.2 as u64 + runs.3 as u64 + runs.4 as u64;
    let rounded = (2 * t + 7) / 14;
    let m: u64 = if rounded < 2 {
        2
    } else if rounded > 24 {
        24
    } else {
        rounded
    };
    let back = runs.4 as u64 + runs.3 as u64 + (runs.2 / 2) as u64;
    let cx: u64 = if (x as u64) >= back {
        x as u64 - back
    } else {
        0
    };
    let half = 7 * m / 2;
    let fx = if cx >= half {
        cx - half
    } else {
        0
    };
    let fy = if (y as u64) >= half {
        y as u64 - half
    } else {
        0
    };
    (fx as u32, fy as u32, m as u32)
}

/// Scan row `y` for runs like a row through a finder, checking each guess.
fn scan_finder_row(binary: &LumaImage, finders: &mut Vec<MatrixFinder>, y: u32)
    requires
        y < binary.spec_height(),
        binary.spec_width() >= 1,
        finders_ok(old(finders)@),
    ensures
        finders_ok(final(finders)@),
        final(finders)@ == apply_guesses(*binary, old(finders)@, run_scan(*binary, y as int, binary.spec_width() as int).3),
{
    let ghost img = *binary;
    let ghost start = finders@;
    let w = binary.width();
    let mut runs: Runs = (0, 0, 0, 0, 0);
    let mut color = binary.luma(0, y) == 0;
    let mut count: u32 = 0;
    let ghost mut guesses: Seq<(u32, u32, u32)> = Seq::empty();
    let mut x: u32 = 0;
    while x < w
        invariant
            img == *binary,
            w == img.spec_width(),
            y < img.spec_height(),
            x <= w,
            (runs, color, count, guesses) == run_scan(img, y as int, x as int),
            finders@ == apply_guesses(img, start, guesses),
            finders_ok(finders@),
        decreases w - x,
    {
        proof {
            lemma_run_scan_count(img, y as int, x as int);
        }
        let d = binary.luma(x, y) == 0;
        if d == color {
            count = count + 1;
        } else {
            runs = (runs.1, runs.2, runs.3, runs.4, count);
            if color && matrix_finder_run_ratio(runs) {
                let (fx, fy, m) = finder_guess(runs, x, y);
                verify_and_push_matrix_finder(binary, finders, fx, fy, m);
                proof {
                    let g2 = guesses.push(run_guess(runs, x, y));
                    assert(g2.drop_last() =~= guesses);
                    guesses = g2;
                }
            }
            color = d;
            count = 1;
        }
        x = x + 1;
    }
}

/// Scan every `step`-th row for runs like a row through a finder.
fn scan_matrix_finders_runs(binary: &LumaImage, finders: &mut Vec<MatrixFinder>, step: u32)
    requires
        1 <= step <= 4,
        binary.spec_width() >= 1,
        finders_ok(old(finders)@),
    ensures
        finders_ok(final(finders)@),
        final(finders)@ == scan_rows(*binary, step as int, binary.spec_height() as int, old(finders)@),
{
    let ghost img = *binary;
    let ghost start = finders@;
    let h = binary.height();
    let mut j: u64 = 0;
    let mut y: u64 = 0;
    while y < h as u64
        invariant
            img == *binary,
            h == img.spec_height(),
            img.spec_width() >= 1,
            1 <= step <= 4,
            y == j * step,
            j <= y,
            j <= h,
            finders@ == scan_rows(img, step as int, j as int, start),
            finders_ok(finders@),
        decreases h - j,
    {
        scan_finder_row(binary, finders, y as u32);
        proof {
            assert(y + step == (j + 1) * step) by (nonlinear_arith)
                requires
                    y == j * step,
            ;
            assert(j + 1 <= y + step) by (nonlinear_arith)
                requires
                    j <= y,
                    step >= 1,
            ;
        }
        j = j + 1;
        y = y + step as u64;
    }
    proof {
        lemma_scan_rows_stable(img, step as int, j as int, h as int, start);
    }
}

/// `list` after the template search along row `y` from column `x` for finders of
/// `m`-pixel modules, and whether the search stopped on reaching 96 finders.
pub open spec fn grid_row(img: LumaImage, m: u32, y: u32, x: int, list: Seq<MatrixFinder>) -> (Seq<MatrixFinder>, bool)
    decreases img.spec_width() - 7 * m + 1 - x,
{
    if x < 0 || x > img.spec_width() - 7 * m {
        (list, false)
    } else if prefilter_spec(img, x as u32, y, m) && center_mismatches(img, x as u32, y, m, 49) <= 6 {
        let next = verify_push(list, img, x as u32, y, m);
        if next.len() >= 96 {
            (next, true)
        } else {
            grid_row(img, m, y, x + 1, next)
        }
    } else {
        grid_row(img, m, y, x + 1, list)
    }
}

/// `list` after the template search over rows `y..` for finders of `m`-pixel modules.
pub open spec fn grid_rows(img: LumaImage, m: u32, y: int, list: Seq<MatrixFinder>) -> (Seq<MatrixFinder>, bool)
    decreases img.spec_height() - 7 * m + 1 - y,
{
    if y < 0 || y > img.spec_height() - 7 * m {
        (list, false)
    } else {
        let (next, stop) = grid_row(img, m, y as u32, 0, list);
        if stop {
            (next, true)
        } else {
            grid_rows(img, m, y + 1, next)
        }
    }
}

/// `list` after the template search for module sizes `m..=12`, stopping at 96 finders.
pub open spec fn grid_modules(img: LumaImage, m: int, list: Seq<MatrixFinder>) -> Seq<MatrixFinder>
    decreases 13 - m,
{
    if m > 12 || m < 0 {
        list
    } else if 7 * m > img.spec_width() || 7 * m > img.spec_height() {
        grid_modules(img, m + 1, list)
    } else {
        let (next, stop) = grid_rows(img, m as u32, 0, list);
        if stop {
            next
        } else {
            grid_modules(img, m + 1, next)
        }
    }
}

/// Search the module grid for finder templates of 2- to 12-pixel modules, checking
/// each spot whose module centres fit the pattern, until 96 finders are listed.
fn matrix_grid_template_finders(binary: &LumaImage, finders: &mut Vec<MatrixFinder>)
    requires
        binary.spec_width() >= 1,
        binary.spec_height() >= 1,
        finders_ok(old(finders)@),
    ensures
        finders_ok(final(finders)@),
        final(finders)@ == grid_modules(*binary, 2, old(finders)@),
{
    let ghost img = *binary;
    let w = binary.width();
    let h = binary.height();
    let mut m: u32 = 2;
    while m <= 12
        invariant
            img == *binary,
            w == img.spec_width(),
            h == img.spec_height(),
            w >= 1,
            h >= 1,
            finders_ok(finders@),
            2 <= m <= 13,
            grid_modules(img, 2, old(finders)@) == grid_modules(img, m as int, finders@),
        decreases 13 - m,
    {
        let extent = 7 * m;
        if extent > w || extent > h {
            m = m + 1;
            continue;
        }
        let mut y: u32 = 0;
        while y <= h - extent
            invariant
                img == *binary,
                w == img.spec_width(),
                h == img.spec_height(),
                w >= 1,
                h >= 1,
                finders_ok(finders@),
                2 <= m <= 12,
                extent == 7 * m,
                extent <= w,
                extent <= h,
                y <= h - extent + 1,
                grid_modules(img, 2, old(finders)@) == (if grid_rows(img, m, y as int, finders@).1 {
                    grid_rows(img, m, y as int, finders@).0
                } else {
                    grid_modules(img, m + 1, grid_rows(img, m, y as int, finders@).0)
                }),
            decreases h - extent + 1 - y,
        {
            let mut x: u32 = 0;
            while x <= w - extent
                invariant
                    img == *binary,
                    w == img.spec_width(),
                    h == img.spec_height(),
                    w >= 1,
                    h >= 1,
                    finders_ok(finders@),
                    2 <= m <= 12,
                    extent == 7 * m,
                    extent <= w,
                    y <= h - extent,
                    x <= w - extent + 1,
                    grid_modules(img, 2, old(finders)@) == (if grid_row(img, m, y, x as int, finders@).1 {
                        grid_row(img, m, y, x as int, finders@).0
                    } else {
                        let after_row = grid_row(img, m, y, x as int, finders@).0;
                        if grid_rows(img, m, y + 1, after_row).1 {
                            grid_rows(img, m, y + 1, after_row).0
                        } else {
                            grid_modules(img, m + 1, grid_rows(img, m, y + 1, after_row).0)
                        }
                    }),
                decreases w - extent + 1 - x,
            {
                if matrix_finder_fast_prefilter(binary, x, y, m) && matrix_finder_center_template_matches(binary, x, y, m) {
                    verify_and_push_matrix_finder(binary, finders, x, y, m);
                    if finders.len() >= 96 {
                        return;
                    }
                }
                x = x + 1;
            }
            y = y + 1;
        }
        m = m + 1;
    }
}

/// `list` after checking the offsets `(dx, dy)` of row `dy`, columns `dx..=n`, around
/// `(x, y)`, appending every match.
pub open spec fn sweep_row(img: LumaImage, list: Seq<MatrixFinder>, x: u32, y: u32, m: u32, n: int, dy: int, dx: int) -> Seq<MatrixFinder>
    decreases n + 1 - dx,
{
    if dx > n {
        list
    } else {
        let next = match nudge_hit(img, x, y, m, dx, dy) {
            Some((a, b)) => push_finder(list, MatrixFinder { x: a, y: b, module_px: m }),
            None => list,
        };
        sweep_row(img, next, x, y, m, n, dy, dx + 1)
    }
}

/// `list` after checking the offsets of rows `dy..=n`.
pub open spec fn sweep_rows(img: LumaImage, list: Seq<MatrixFinder>, x: u32, y: u32, m: u32, n: int, dy: int) -> Seq<MatrixFinder>
    decreases n + 1 - dy,
{
    if dy > n {
        list
    } else {
        sweep_rows(img, sweep_row(img, list, x, y, m, n, dy, -n), x, y, m, n, dy + 1)
    }
}

/// The module size a squarish component of 12 to 192 pixels suggests as a finder, if
/// any: a seventh of its larger side, 2 to 24 pixels.
pub open spec fn component_module(c: DarkComponent) -> Option<u32> {
    let w = c.bounds.width;
    let h = c.bounds.height;
    if w < 12 || h < 12 || w > 192 || h > 192 || 4 * w < 3 * max_u32(h, 1) || 100 * w > 133 * max_u32(h, 1) {
        None
    } else {
        let r = round_ratio(max_u32(w, h) as int, 7);
        Some(
            (if r < 2 {
                2
            } else if r > 24 {
                24
            } else {
                r
            }) as u32,
        )
    }
}

/// `list` after checking finders of the suggested module size at every offset within
/// one module of a component's corner.
pub open spec fn component_finder(img: LumaImage, list: Seq<MatrixFinder>, c: DarkComponent) -> Seq<MatrixFinder> {
    match component_module(c) {
        None => list,
        Some(m) => sweep_rows(img, list, c.bounds.x, c.bounds.y, m, m as int, -(m as int)),
    }
}

/// `list` after the first `k` components.
pub open spec fn component_finders(img: LumaImage, list: Seq<MatrixFinder>, cs: Seq<DarkComponent>, k: int) -> Seq<MatrixFinder>
    decreases k,
{
    if k <= 0 {
        list
    } else {
        component_finder(img, component_finders(img, list, cs, k - 1), cs[k - 1])
    }
}

/// The finder patterns of a thresholded image: from row runs (every fourth row of
/// large images first, then every second), then from the module-grid template when
/// fewer than 12, then around squarish dark components; at most 24 when run or
/// template search found 12, else at most 96.
pub open spec fn matrix_finders_spec(img: LumaImage) -> Seq<MatrixFinder> {
    let h = img.spec_height() as int;
    let s1 = if sat_mul(img.spec_width(), img.spec_height()) > 300_000 {
        let a = scan_rows(img, 4, h, Seq::empty());
        if a.len() < 6 {
            scan_rows(img, 2, h, a)
        } else {
            a
        }
    } else {
        scan_rows(img, 2, h, Seq::empty())
    };
    if s1.len() >= 12 {
        at_most(s1, 24)
    } else {
        let s2 = grid_modules(img, 2, s1);
        if s2.len() >= 12 {
            at_most(s2, 24)
        } else {
            let cs = dark_components_spec(img);
            at_most(component_finders(img, s2, cs, if cs.len() > 128 { 128 } else { cs.len() as int }), 96)
        }
    }
}

fn push_component_finders(binary: &LumaImage, finders: &mut Vec<MatrixFinder>, c: DarkComponent)
    requires
        finders_ok(old(finders)@),
    ensures
        final(finders)@ == component_finder(*binary, old(finders)@, c),
        finders_ok(final(finders)@),
{
    let ghost img = *binary;
    let bw = c.bounds.width;
    let bh = c.bounds.height;
    let hh = if bh >= 1 {
        bh
    } else {
        1
    };
    if bw < 12 || bh < 12 || bw > 192 || bh > 192 || 4 * bw < 3 * hh || 100 * bw > 133 * hh {
        return;
    }
    let big = if bw >= bh {
        bw
    } else {
        bh
    };
    let r = (2 * big + 7) / 14;
    let m: u32 = if r < 2 {
        2
    } else if r > 24 {
        24
    } else {
        r
    };
    assert(component_module(c) == Some(m));
    let w = binary.width();
    let h = binary.height();
    let n = m as i64;
    let ghost target = component_finder(img, old(finders)@, c);
    let mut dy: i64 = -n;
    while dy <= n
        invariant
            img == *binary,
            w == img.spec_width(),
            h == img.spec_height(),
            2 <= m <= 24,
            n == m,
            -n <= dy <= n + 1,
            target == sweep_rows(img, finders@, c.bounds.x, c.bounds.y, m, n as int, dy as int),
            finders_ok(finders@),
        decreases n + 1 - dy,
    {
        let ghost row_start = finders@;
        let mut dx: i64 = -n;
        while dx <= n
            invariant
                img == *binary,
                w == img.spec_width(),
                h == img.spec_height(),
                2 <= m <= 24,
                n == m,
                -n <= dy <= n,
                -n <= dx <= n + 1,
                target == sweep_rows(img, sweep_row(img, row_start, c.bounds.x, c.bounds.y, m, n as int, dy as int, -n), c.bounds.x, c.bounds.y, m, n as int, dy + 1),
                sweep_row(img, row_start, c.bounds.x, c.bounds.y, m, n as int, dy as int, -n) == sweep_row(img, finders@, c.bounds.x, c.bounds.y, m, n as int, dy as int, dx as int),
                finders_ok(finders@),
            decreases n + 1 - dx,
        {
            let vx = (c.bounds.x as i64) + dx;
            let vy = (c.bounds.y as i64) + dy;
            let nx: u32 = if vx < 0 {
                0
            } else {
                vx as u32
            };
            let ny: u32 = if vy < 0 {
                0
            } else {
                vy as u32
            };
            assert(nx == nudged(c.bounds.x, dx as int) && ny == nudged(c.bounds.y, dy as int));
            if (nx as u64) + 7 * (m as u64) <= w as u64 && (ny as u64) + 7 * (m as u64) <= h as u64 {
                if matrix_finder_matches(binary, nx, ny, m) {
                    push_matrix_finder(finders, MatrixFinder { x: nx, y: ny, module_px: m });
                }
            }
            dx = dx + 1;
        }
        dy = dy + 1;
    }
}

/// The finder patterns of a thresholded image: from row runs (every fourth row of
/// large images first, then every second), then from the module-grid template when
/// fewer than 12, then around squarish dark components.
pub fn matrix_finders(binary: &LumaImage) -> (r: Vec<MatrixFinder>)
    requires
        binary.spec_width() >= 1,
        binary.spec_height() >= 1,
    ensures
        r@ == matrix_finders_spec(*binary),
        finders_ok(r@),
{
    let ghost img = *binary;
    let mut finders: Vec<MatrixFinder> = Vec::new();
    let area = saturating_mul_u32(binary.width(), binary.height());
    if area > 300_000 {
        scan_matrix_finders_runs(binary, &mut finders, 4);
        if finders.len() < 6 {
            scan_matrix_finders_runs(binary, &mut finders, 2);
        }
    } else {
        scan_matrix_finders_runs(binary, &mut finders, 2);
    }
    if finders.len() >= 12 {
        finders.truncate(24);
        return finders;
    }
    matrix_grid_template_finders(binary, &mut finders);
    if finders.len() >= 12 {
        finders.truncate(24);
        return finders;
    }
    let comps = dark_components(binary);
    let ghost cs = comps@;
    let limit = if comps.len() > 128 {
        128
    } else {
        comps.len()
    };
    let ghost s2 = finders@;
    let mut k: usize = 0;
    while k < limit
        invariant
            img == *binary,
            comps@ == cs,
            limit <= cs.len(),
            k <= limit,
            finders@ == component_finders(img, s2, cs, k as int),
            finders_ok(finders@),
        decreases limit - k,
    {
        push_component_finders(binary, &mut finders, comps[k]);
        k = k + 1;
    }
    finders.truncate(96);
    finders
}

/// The matrix symbol framed by finders at its top-left, top-right and bottom-left
/// corners, when they line up (within two modules of the top-left one, more than 16
/// modules away) and frame a generated module grid; in image pixels with the quiet
/// zone.
pub open spec fn matrix_frame(tl: MatrixFinder, tr: MatrixFinder, bl: MatrixFinder) -> Option<ScanRegion> {
    let tm = tl.module_px as int;
    let dy = if tr.y >= tl.y {
        tr.y - tl.y
    } else {
        tl.y - tr.y
    };
    let dx = if bl.x >= tl.x {
        bl.x - tl.x
    } else {
        tl.x - bl.x
    };
    if dy > 2 * tm || tr.x <= tl.x + 16 * tm || dx > 2 * tm || bl.y <= tl.y + 16 * tm {
        None
    } else {
        let m = median3_spec(tl.module_px, tr.module_px, bl.module_px);
        if m == 0 {
            None
        } else {
            let cw = ((tr.x - tl.x) / (m as int) + 7) as u32;
            let ch = ((bl.y - tl.y) / (m as int) + 7) as u32;
            if !generated_geometry_spec(cw, ch) {
                None
            } else {
                let quiet = sat_mul(m, 4);
                Some(
                    region_of(
                        tl.x.saturating_sub(quiet),
                        tl.y.saturating_sub(quiet),
                        sat_mul(cw.saturating_add(8), m),
                        sat_mul(ch.saturating_add(8), m),
                    ),
                )
            }
        }
    }
}

/// The matrix candidate of one triple of finders, if they frame a symbol.
pub open spec fn frame_cands(tl: MatrixFinder, tr: MatrixFinder, bl: MatrixFinder) -> Seq<ScanCandidate> {
    match matrix_frame(tl, tr, bl) {
        Some(r) => seq![cand(CandidateDetector::Matrix, Some(LayoutFamily::Matrix), CandidateStage::MatrixFinders, r)],
        None => Seq::empty(),
    }
}

/// The candidates of `tl` and `tr` with each of the first `n` finders as bottom-left.
pub open spec fn frames_bl(fs: Seq<MatrixFinder>, tl: MatrixFinder, tr: MatrixFinder, n: int) -> Seq<ScanCandidate>
    decreases n,
{
    if n <= 0 {
        Seq::empty()
    } else {
        frames_bl(fs, tl, tr, n - 1) + frame_cands(tl, tr, fs[n - 1])
    }
}

/// The candidates of `tl` with each of the first `n` finders as top-right.
pub open spec fn frames_tr(fs: Seq<MatrixFinder>, tl: MatrixFinder, n: int) -> Seq<ScanCandidate>
    decreases n,
{
    if n <= 0 {
        Seq::empty()
    } else {
        frames_tr(fs, tl, n - 1) + frames_bl(fs, tl, fs[n - 1], fs.len() as int)
    }
}

/// The candidates with each of the first `n` finders as top-left.
pub open spec fn frames_tl(fs: Seq<MatrixFinder>, n: int) -> Seq<ScanCandidate>
    decreases n,
{
    if n <= 0 {
        Seq::empty()
    } else {
        frames_tl(fs, n - 1) + frames_tr(fs, fs[n - 1], fs.len() as int)
    }
}

/// The matrix symbols that triples of finders frame, in an image of at least 80 x 80
/// pixels: those that fit, each region once.
#[verifier::opaque]
pub open spec fn matrix_candidates_spec(img: LumaImage) -> Seq<ScanCandidate> {
    let w = img.spec_width();
    let h = img.spec_height();
    if w < 80 || h < 80 {
        Seq::empty()
    } else {
        let fs = matrix_finders_spec(img);
        push_when(Seq::empty(), frames_tl(fs, fs.len() as int), |r: ScanRegion| fits_spec(r, w, h))
    }
}

fn push_frame(attempts: &mut Vec<ScanCandidate>, tl: MatrixFinder, tr: MatrixFinder, bl: MatrixFinder)
    requires
        2 <= tl.module_px <= 24,
        2 <= tr.module_px <= 24,
        2 <= bl.module_px <= 24,
    ensures
        final(attempts)@ == old(attempts)@ + frame_cands(tl, tr, bl),
{
    let ghost start = attempts@;
    let tm = tl.module_px as u64;
    let dy = if tr.y >= tl.y {
        tr.y - tl.y
    } else {
        tl.y - tr.y
    };
    let dx = if bl.x >= tl.x {
        bl.x - tl.x
    } else {
        tl.x - bl.x
    };
    if (dy as u64) > 2 * tm || (tr.x as u64) <= (tl.x as u64) + 16 * tm || (dx as u64) > 2 * tm || (bl.y as u64) <= (tl.y as u64) + 16 * tm {
        assert(attempts@ =~= start + frame_cands(tl, tr, bl));
        return;
    }
    let m = median3(tl.module_px, tr.module_px, bl.module_px);
    assert(2 <= m <= 24);
    proof {
        let ddx = (tr.x - tl.x) as int;
        let ddy = (bl.y - tl.y) as int;
        assert(ddx / (m as int) <= ddx / 2 && ddy / (m as int) <= ddy / 2) by (nonlinear_arith)
            requires
                m >= 2,
                ddx >= 0,
                ddy >= 0,
        ;
    }
    let cw = (tr.x - tl.x) / m + 7;
    let ch = (bl.y - tl.y) / m + 7;
    if !reference_generated_geometry(cw, ch) {
        assert(attempts@ =~= start + frame_cands(tl, tr, bl));
        return;
    }
    let quiet = saturating_mul_u32(m, 4);
    let region = ScanRegion {
        x: tl.x.saturating_sub(quiet),
        y: tl.y.saturating_sub(quiet),
        width: saturating_mul_u32(cw.saturating_add(8), m),
        height: saturating_mul_u32(ch.saturating_add(8), m),
    };
    attempts.push(ScanCandidate { detector: CandidateDetector::Matrix, layout_hint: Some(LayoutFamily::Matrix), stage: CandidateStage::MatrixFinders, region });
    assert(attempts@ =~= start + frame_cands(tl, tr, bl));
}

/// The matrix symbols that triples of finder patterns frame, in an image of at least
/// 80 x 80 pixels: those that fit, each region once.
pub fn matrix_candidates(binary: &LumaImage) -> (r: Vec<ScanCandidate>)
    ensures
        r@ == matrix_candidates_spec(*binary),
{
    reveal(matrix_candidates_spec);
    let w = binary.width();
    let h = binary.height();
    let mut candidates: Vec<ScanCandidate> = Vec::new();
    if w < 80 || h < 80 {
        return candidates;
    }
    let finders = matrix_finders(binary);
    let ghost fs = finders@;
    let n = finders.len();
    let mut attempts: Vec<ScanCandidate> = Vec::new();
    let mut a: usize = 0;
    while a < n
        invariant
            finders@ == fs,
            n == fs.len(),
            finders_ok(fs),
            a <= n,
            attempts@ == frames_tl(fs, a as int),
        decreases n - a,
    {
        let mut b: usize = 0;
        while b < n
            invariant
                finders@ == fs,
                n == fs.len(),
                finders_ok(fs),
                a < n,
                b <= n,
                attempts@ == frames_tl(fs, a as int) + frames_tr(fs, fs[a as int], b as int),
            decreases n - b,
        {
            let mut c: usize = 0;
            while c < n
                invariant
                    finders@ == fs,
                    n == fs.len(),
                    finders_ok(fs),
                    a < n,
                    b < n,
                    c <= n,
                    attempts@ == frames_tl(fs, a as int) + frames_tr(fs, fs[a as int], b as int) + frames_bl(fs, fs[a as int], fs[b as int], c as int),
                decreases n - c,
            {
                push_frame(&mut attempts, finders[a], finders[b], finders[c]);
                proof {
                    assert(attempts@ =~= frames_tl(fs, a as int) + frames_tr(fs, fs[a as int], b as int) + frames_bl(fs, fs[a as int], fs[b as int], c + 1));
                }
                c = c + 1;
            }
            proof {
                assert(attempts@ =~= frames_tl(fs, a as int) + frames_tr(fs, fs[a as int], b + 1));
            }
            b = b + 1;
        }
        proof {
            assert(attempts@ =~= frames_tl(fs, a + 1));
        }
        a = a + 1;
    }
    offer_fitting(&mut candidates, &attempts, w, h);
    candidates
}

} // verus!
