//! Horizontal bands of dark rows and windows around them, best score first.
use vstd::prelude::*;

use crate::candidates::{CandidateStage, ScanCandidate, abs_int, at_most, cand, clamp_u32, dark_at, expand_region, expand_spec, insert_sorted, lemma_insert_sorted_at, lemma_insert_sorted_split, max_u32, min_u32, offer_plausible, plausible_spec, push_when, region_of, round_ratio, round_ratio_u32, sat_mul, saturating_mul_u32, sort_seq};
use crate::scanner::ScanRegion;
use crate::scanner::CandidateDetector;
use crate::raster::LumaImage;

verus! {
/// Compare the fractions `a / b` and `c / d` (positive denominators) without forming
/// their cross products: by integer parts, then by the reciprocals of the rests.
pub fn compare_fractions(a: u128, b: u128, c: u128, d: u128) -> (r: i8)
    requires
        b > 0,
        d > 0,
    ensures
        (r > 0) == (a * d > c * b),
        (r < 0) == (a * d < c * b),
    decreases b,
{
    let q1 = a / b;
    let q2 = c / d;
    let r1 = a % b;
    let r2 = c % d;
    let ghost ad: int = a * d;
    let ghost cb: int = c * b;
    proof {
        assert(a == q1 * b + r1 && 0 <= r1 < b) by (nonlinear_arith)
            requires
                q1 == a / b,
                r1 == a % b,
                b > 0,
        ;
        assert(c == q2 * d + r2 && 0 <= r2 < d) by (nonlinear_arith)
            requires
                q2 == c / d,
                r2 == c % d,
                d > 0,
        ;
    }
    if q1 > q2 {
        proof {
            assert(ad > cb) by (nonlinear_arith)
                requires
                    ad == a * d,
                    cb == c * b,
                    a == q1 * b + r1,
                    c == q2 * d + r2,
                    0 <= r1 < b,
                    0 <= r2 < d,
                    q1 > q2 >= 0,
            ;
        }
        return 1;
    }
    if q1 < q2 {
        proof {
            assert(ad < cb) by (nonlinear_arith)
                requires
                    ad == a * d,
                    cb == c * b,
                    a == q1 * b + r1,
                    c == q2 * d + r2,
                    0 <= r1 < b,
                    0 <= r2 < d,
                    q2 > q1 >= 0,
            ;
        }
        return -1;
    }
    let ghost e1: int = r1 * d;
    let ghost e2: int = r2 * b;
    proof {
        assert(ad - cb == e1 - e2) by (nonlinear_arith)
            requires
                ad == a * d,
                cb == c * b,
                e1 == r1 * d,
                e2 == r2 * b,
                a == q1 * b + r1,
                c == q1 * d + r2,
        ;
    }
    if r1 == 0 && r2 == 0 {
        proof {
            assert(e1 == 0 && e2 == 0) by (nonlinear_arith)
                requires
                    e1 == r1 * d,
                    e2 == r2 * b,
                    r1 == 0,
                    r2 == 0,
            ;
        }
        return 0;
    }
    if r1 == 0 {
        proof {
            assert(e1 == 0 && e2 > 0) by (nonlinear_arith)
                requires
                    e1 == r1 * d,
                    e2 == r2 * b,
                    r1 == 0,
                    r2 > 0,
                    b > 0,
            ;
        }
        return -1;
    }
    if r2 == 0 {
        proof {
            assert(e2 == 0 && e1 > 0) by (nonlinear_arith)
                requires
                    e1 == r1 * d,
                    e2 == r2 * b,
                    r2 == 0,
                    r1 > 0,
                    d > 0,
            ;
        }
        return 1;
    }
    let inner = compare_fractions(b, r1, d, r2);
    proof {
        assert(b * r2 == e2 && d * r1 == e1) by (nonlinear_arith)
            requires
                e1 == r1 * d,
                e2 == r2 * b,
        ;
    }
    if inner > 0 {
        -1
    } else if inner < 0 {
        1
    } else {
        0
    }
}

/// The square of a region's score, `16 * area * h^2` over `max(4 |w - 3h|, h)^2`, with
/// `h` at least one and the area saturating: larger for bigger regions near three
/// times as wide as high.
pub open spec fn score_sq_num(r: ScanRegion) -> int {
    let h = max_u32(r.height, 1) as int;
    16 * (sat_mul(r.width, r.height) as int) * h * h
}

/// The denominator of a region's squared score.
pub open spec fn score_sq_den(r: ScanRegion) -> int {
    let h = max_u32(r.height, 1) as int;
    let dev = 4 * abs_int(r.width - 3 * h);
    let d = if dev >= h {
        dev
    } else {
        h
    };
    d * d
}

/// Whether candidate `a` scores strictly higher than `b`.
pub open spec fn region_before(a: ScanCandidate, b: ScanCandidate) -> bool {
    score_sq_num(a.region) * score_sq_den(b.region) > score_sq_num(b.region) * score_sq_den(a.region)
}

/// The order of band candidates: best score first.
pub open spec fn region_order() -> spec_fn(ScanCandidate, ScanCandidate) -> bool {
    |a: ScanCandidate, b: ScanCandidate| region_before(a, b)
}

/// A region's squared score as numerator and denominator.
fn region_score_parts(r: ScanRegion) -> (p: (u128, u128))
    ensures
        p.0 == score_sq_num(r),
        p.1 == score_sq_den(r),
        p.1 > 0,
{
    let h: u64 = if r.height >= 1 {
        r.height as u64
    } else {
        1
    };
    let area = saturating_mul_u32(r.width, r.height) as u128;
    let w = r.width as u64;
    let off: u64 = if w >= 3 * h {
        w - 3 * h
    } else {
        3 * h - w
    };
    let dev = 4 * off;
    let d: u64 = if dev >= h {
        dev
    } else {
        h
    };
    proof {
        assert(16 * (area as int) * (h as int) * (h as int) <= 16 * 0xffff_ffff * 0xffff_ffff * 0xffff_ffffint) by (nonlinear_arith)
            requires
                area <= 0xffff_ffff,
                h <= 0xffff_ffff,
        ;
        assert(16 * (area as int) * (h as int) <= 16 * 0xffff_ffff * 0xffff_ffffint) by (nonlinear_arith)
            requires
                area <= 0xffff_ffff,
                h <= 0xffff_ffff,
        ;
        assert((d as int) * (d as int) <= 0x10_0000_0000 * 0x10_0000_0000int) by (nonlinear_arith)
            requires
                d <= 0x10_0000_0000,
        ;
        assert((d as int) * (d as int) > 0) by (nonlinear_arith)
            requires
                d >= 1,
        ;
    }
    (16 * area * (h as u128) * (h as u128), (d as u128) * (d as u128))
}

/// Insert `c` after every candidate it does not outscore.
fn insert_by_region_score(sorted: &mut Vec<ScanCandidate>, c: ScanCandidate)
    ensures
        final(sorted)@ == insert_sorted(old(sorted)@, c, region_order()),
{
    let ghost s = sorted@;
    let ghost less = region_order();
    let (cn, cd) = region_score_parts(c.region);
    let mut j: usize = sorted.len();
    assert(s.take(j as int) =~= s && s.skip(j as int) =~= Seq::<ScanCandidate>::empty());
    while j > 0
        invariant
            sorted@ == s,
            less == region_order(),
            cn == score_sq_num(c.region),
            cd == score_sq_den(c.region),
            cd > 0,
            j <= s.len(),
            insert_sorted(s, c, less) == insert_sorted(s.take(j as int), c, less) + s.skip(j as int),
        ensures
            j <= s.len(),
            insert_sorted(s, c, less) == insert_sorted(s.take(j as int), c, less) + s.skip(j as int),
            j == 0 || !less(c, s[j - 1]),
        decreases j,
    {
        let (on, od) = region_score_parts(sorted[j - 1].region);
        let before = compare_fractions(cn, cd, on, od) > 0;
        assert(before == less(c, s[j - 1]));
        if !before {
            break;
        }
        proof {
            lemma_insert_sorted_split(s, c, less, j as int);
        }
        j = j - 1;
    }
    proof {
        lemma_insert_sorted_at(s, c, less, j as int);
    }
    sorted.insert(j, c);
}

/// The dark pixels of column `x` in rows `from..to`.
pub open spec fn col_dark(img: LumaImage, x: int, from: int, to: int) -> nat
    decreases to - from,
{
    if to <= from {
        0
    } else {
        col_dark(img, x, from, to - 1) + if dark_at(img, x, to - 1) {
            1nat
        } else {
            0nat
        }
    }
}

/// The finished column groups, the open one and the gap since its last column, after
/// the first `n` columns from `min_x`: columns with at least `threshold` dark pixels
/// in the band join the open group; more than 16 weak columns close it.
pub open spec fn span_scan(img: LumaImage, start_y: u32, end_y: u32, min_x: u32, threshold: u32, n: int) -> (
    Seq<(u32, u32, u32)>,
    Option<(u32, u32, u32)>,
    u32,
)
    decreases n,
{
    if n <= 0 {
        (Seq::empty(), None, 0)
    } else {
        let (groups, current, gap) = span_scan(img, start_y, end_y, min_x, threshold, n - 1);
        let x = min_x + n - 1;
        let dark = col_dark(img, x, start_y as int, end_y + 1);
        if dark >= threshold {
            match current {
                Some((s, _e, score)) => (groups, Some((s, x as u32, score.saturating_add(dark as u32))), 0),
                None => (groups, Some((x as u32, x as u32, dark as u32)), 0),
            }
        } else {
            match current {
                Some(c) => if gap + 1 > 16 {
                    (groups.push(c), None, 0)
                } else {
                    (groups, current, (gap + 1) as u32)
                },
                None => (groups, None, gap),
            }
        }
    }
}

/// The width of a column group.
pub open spec fn group_width(g: (u32, u32, u32)) -> u32 {
    g.1.saturating_sub(g.0).saturating_add(1)
}

/// The last of the first `n` groups at least 48 columns wide that maximizes score
/// times width (saturating).
pub open spec fn best_span(groups: Seq<(u32, u32, u32)>, n: int) -> Option<(u32, u32, u32)>
    decreases n,
{
    if n <= 0 {
        None
    } else {
        let before = best_span(groups, n - 1);
        let g = groups[n - 1];
        if group_width(g) < 48 {
            before
        } else {
            match before {
                None => Some(g),
                Some(b) => if sat_mul(g.2, group_width(g)) >= sat_mul(b.2, group_width(b)) {
                    Some(g)
                } else {
                    before
                },
            }
        }
    }
}

/// The dominant horizontal span of rows `start_y..=end_y` within columns
/// `min_x..=max_x`: columns with at least a 24th of the rows dark (and at least two)
/// grouped across gaps of at most 16 columns; of the groups at least 48 wide, the last
/// that maximizes darkness times width.
#[verifier::opaque]
pub open spec fn dominant_span_spec(img: LumaImage, start_y: u32, end_y: u32, min_x: u32, max_x: u32) -> Option<(u32, u32)> {
    if min_x > max_x {
        None
    } else {
        let height = end_y.saturating_sub(start_y).saturating_add(1);
        let threshold = max_u32(height / 24, 2);
        let (groups, current, _gap) = span_scan(img, start_y, end_y, min_x, threshold, max_x - min_x + 1);
        let all = match current {
            Some(c) => groups.push(c),
            None => groups,
        };
        match best_span(all, all.len() as int) {
            Some(g) => Some((g.0, g.1)),
            None => None,
        }
    }
}

proof fn lemma_col_dark_bound(img: LumaImage, x: int, from: int, to: int)
    ensures
        col_dark(img, x, from, to) <= if to >= from {
            to - from
        } else {
            0
        },
    decreases to - from,
{
    if to > from {
        lemma_col_dark_bound(img, x, from, to - 1);
    }
}

/// The dark pixels of column `x` in rows `start_y..=end_y`.
fn column_dark(binary: &LumaImage, x: u32, start_y: u32, end_y: u32) -> (r: u32)
    requires
        x < binary.spec_width(),
        end_y < binary.spec_height(),
    ensures
        r == col_dark(*binary, x as int, start_y as int, end_y + 1),
{
    let ghost img = *binary;
    let mut dark: u32 = 0;
    let mut y = start_y;
    if start_y > end_y {
        return 0;
    }
    while y <= end_y
        invariant
            img == *binary,
            x < img.spec_width(),
            end_y < img.spec_height(),
            start_y <= y <= end_y + 1,
            dark == col_dark(img, x as int, start_y as int, y as int),
        decreases end_y + 1 - y,
    {
        proof {
            lemma_col_dark_bound(img, x as int, start_y as int, y as int);
        }
        if binary.luma(x, y) == 0 {
            dark = dark + 1;
        }
        y = y + 1;
    }
    dark
}

/// The dominant horizontal span of a band of rows: dark columns grouped across gaps
/// of at most 16 columns, the last of the widest-and-darkest groups of at least 48.
pub fn dominant_x_span(binary: &LumaImage, start_y: u32, end_y: u32, min_x: u32, max_x: u32) -> (r: Option<(u32, u32)>)
    requires
        end_y < binary.spec_height(),
        min_x <= max_x ==> max_x < binary.spec_width(),
    ensures
        r == dominant_span_spec(*binary, start_y, end_y, min_x, max_x),
{
    let ghost img = *binary;
    reveal(dominant_span_spec);
    if min_x > max_x {
        return None;
    }
    let height = end_y.saturating_sub(start_y).saturating_add(1);
    let t = height / 24;
    let threshold = if t >= 2 {
        t
    } else {
        2
    };
    let mut groups: Vec<(u32, u32, u32)> = Vec::new();
    let mut current: Option<(u32, u32, u32)> = None;
    let mut gap: u32 = 0;
    let mut x = min_x;
    while x <= max_x
        invariant
            img == *binary,
            end_y < img.spec_height(),
            max_x < img.spec_width(),
            min_x <= x <= max_x + 1,
            (groups@, current, gap) == span_scan(img, start_y, end_y, min_x, threshold, x - min_x),
            gap <= 16,
        decreases max_x + 1 - x,
    {
        let dark = column_dark(binary, x, start_y, end_y);
        if dark >= threshold {
            match current {
                Some((s, _e, score)) => {
                    current = Some((s, x, score.saturating_add(dark)));
                },
                None => {
                    current = Some((x, x, dark));
                },
            }
            gap = 0;
        } else {
            match current {
                Some(c) => {
                    if gap + 1 > 16 {
                        groups.push(c);
                        current = None;
                        gap = 0;
                    } else {
                        gap = gap + 1;
                    }
                },
                None => {},
            }
        }
        x = x + 1;
    }
    match current {
        Some(c) => {
            groups.push(c);
        },
        None => {},
    }
    let ghost all = groups@;
    let mut best: Option<(u32, u32, u32)> = None;
    let mut i: usize = 0;
    while i < groups.len()
        invariant
            groups@ == all,
            i <= all.len(),
            best == best_span(all, i as int),
        decreases all.len() - i,
    {
        let g = groups[i];
        let gw = g.1.saturating_sub(g.0).saturating_add(1);
        if gw >= 48 {
            match best {
                None => {
                    best = Some(g);
                },
                Some(b) => {
                    let bw = b.1.saturating_sub(b.0).saturating_add(1);
                    if saturating_mul_u32(g.2, gw) >= saturating_mul_u32(b.2, bw) {
                        best = Some(g);
                    }
                },
            }
        }
        i = i + 1;
    }
    match best {
        Some(g) => Some((g.0, g.1)),
        None => None,
    }
}

/// Dark pixels, first and last dark column of row `y` among the first `n` columns
/// (the first is the width and the last zero when there is none).
pub open spec fn row_extent(img: LumaImage, y: int, n: int) -> (u32, u32, u32)
    decreases n,
{
    if n <= 0 {
        (0, img.spec_width(), 0)
    } else {
        let (dark, first, last) = row_extent(img, y, n - 1);
        let x = (n - 1) as u32;
        if dark_at(img, n - 1, y) {
            ((dark + 1) as u32, min_u32(first, x), max_u32(last, x))
        } else {
            (dark, first, last)
        }
    }
}

/// The dark-pixel threshold of a band row: a 120th of the width, 8 to 80.
pub open spec fn band_threshold(width: u32) -> u32 {
    let t = width / 120;
    if t < 8 {
        8
    } else if t > 80 {
        80
    } else {
        t
    }
}

/// The rows among the first `n` with at least `threshold` dark pixels, as row, first
/// and last dark column, and dark pixels.
pub open spec fn band_rows(img: LumaImage, threshold: u32, n: int) -> Seq<(u32, u32, u32, u32)>
    decreases n,
{
    if n <= 0 {
        Seq::empty()
    } else {
        let before = band_rows(img, threshold, n - 1);
        let (dark, first, last) = row_extent(img, n - 1, img.spec_width() as int);
        if dark >= threshold {
            before.push(((n - 1) as u32, first, last, dark))
        } else {
            before
        }
    }
}

/// One past the last row of the band starting at row `i`: rows join while at most
/// ten below the previous one.
pub open spec fn band_end(rows: Seq<(u32, u32, u32, u32)>, i: int) -> int
    decreases rows.len() - i,
{
    if i + 1 < rows.len() && rows[i + 1].0 <= rows[i].0 + 10 {
        band_end(rows, i + 1)
    } else {
        i + 1
    }
}

/// The first dark column of band rows `i..j`.
pub open spec fn band_min(rows: Seq<(u32, u32, u32, u32)>, i: int, j: int) -> u32
    decreases j - i,
{
    if j <= i + 1 {
        rows[i].1
    } else {
        min_u32(band_min(rows, i, j - 1), rows[j - 1].1)
    }
}

/// The last dark column of band rows `i..j`.
pub open spec fn band_max(rows: Seq<(u32, u32, u32, u32)>, i: int, j: int) -> u32
    decreases j - i,
{
    if j <= i + 1 {
        rows[i].2
    } else {
        max_u32(band_max(rows, i, j - 1), rows[j - 1].2)
    }
}

/// The dark pixels of band rows `i..j` (saturating).
pub open spec fn band_dark(rows: Seq<(u32, u32, u32, u32)>, i: int, j: int) -> u32
    decreases j - i,
{
    if j <= i + 1 {
        rows[i].3
    } else {
        band_dark(rows, i, j - 1).saturating_add(rows[j - 1].3)
    }
}

/// The window over a band at fraction `num / den` of its width high, starting at row
/// `y`, expanded by `pad`.
pub open spec fn aspect_window(img: LumaImage, x: u32, y: u32, width: u32, th: u32, pad: u32) -> ScanCandidate {
    cand(
        CandidateDetector::GenericBinary,
        None,
        CandidateStage::HorizontalAspect,
        expand_spec(
            region_of(x, y, width, min_u32(th, max_u32(img.spec_height().saturating_sub(y), 1))),
            pad,
            img.spec_width(),
            img.spec_height(),
        ),
    )
}

/// The five windows over a band of the given width and rows at `width * num / den`
/// pixels high: centred on the band, at its top less or more the padding, at its top,
/// and ending at its bottom.
#[verifier::opaque]
pub open spec fn aspect_windows(
    img: LumaImage,
    padding: u32,
    x: u32,
    start_y: u32,
    end_y: u32,
    width: u32,
    height: u32,
    num: int,
    den: int,
) -> Seq<ScanCandidate> {
    let th = max_u32(clamp_u32(round_ratio(width * num, den)), height);
    let cy = start_y.saturating_add(height / 2);
    let pad = max_u32(sat_mul(padding, 2), width / 40);
    seq![
        aspect_window(img, x, cy.saturating_sub(th / 2), width, th, pad),
        aspect_window(img, x, start_y.saturating_sub(padding), width, th, pad),
        aspect_window(img, x, start_y, width, th, pad),
        aspect_window(img, x, start_y.saturating_add(padding), width, th, pad),
        aspect_window(img, x, end_y.saturating_sub(th / 2), width, th, pad),
    ]
}

/// The windows of one band: its columns narrowed to the dominant span, when at least
/// 48 x 8 pixels with 80 dark ones: the band padded, and windows 2.35, 2.7 and 3.2
/// times wider than high.
#[verifier::opaque]
pub open spec fn band_cands(img: LumaImage, padding: u32, start_y: u32, end_y: u32, min_x: u32, max_x: u32, dark: u32) -> Seq<ScanCandidate> {
    let (mn, mx) = match dominant_span_spec(img, start_y, end_y, min_x, max_x) {
        Some(p) => p,
        None => (min_x, max_x),
    };
    let width = mx.saturating_sub(mn).saturating_add(1);
    let height = end_y.saturating_sub(start_y).saturating_add(1);
    if width < 48 || height < 8 || dark < 80 {
        Seq::empty()
    } else {
        let pad = max_u32(max_u32(padding, width / 40), max_u32(padding, height));
        let expanded = expand_spec(region_of(mn, start_y, width, height), pad, img.spec_width(), img.spec_height());
        seq![cand(CandidateDetector::GenericBinary, None, CandidateStage::HorizontalBand, expanded)]
            + aspect_windows(img, padding, mn, start_y, end_y, width, height, 100, 235)
            + aspect_windows(img, padding, mn, start_y, end_y, width, height, 10, 27)
            + aspect_windows(img, padding, mn, start_y, end_y, width, height, 5, 16)
    }
}

/// The windows of the bands from band row `i` on.
pub open spec fn band_attempts(img: LumaImage, rows: Seq<(u32, u32, u32, u32)>, padding: u32, i: int) -> Seq<ScanCandidate>
    decreases rows.len() - i,
{
    if i < 0 || i >= rows.len() {
        Seq::empty()
    } else {
        let j = band_end(rows, i);
        if j <= i || j > rows.len() {
            Seq::empty()
        } else {
            band_cands(img, padding, rows[i].0, rows[j - 1].0, band_min(rows, i, j), band_max(rows, i, j), band_dark(rows, i, j))
                + band_attempts(img, rows, padding, j)
        }
    }
}

/// The horizontal bands of dark rows of a thresholded image and windows around them:
/// the plausible ones, each region once, best score first, at most 48.
pub open spec fn band_spec(img: LumaImage, padding: u32) -> Seq<ScanCandidate> {
    let w = img.spec_width();
    let h = img.spec_height();
    if w == 0 || h == 0 {
        Seq::empty()
    } else {
        let rows = band_rows(img, band_threshold(w), h as int);
        at_most(
            sort_seq(push_when(Seq::empty(), band_attempts(img, rows, padding, 0), |r: ScanRegion| plausible_spec(r)), region_order()),
            48,
        )
    }
}

proof fn lemma_row_extent(img: LumaImage, y: int, n: int)
    requires
        n <= img.spec_width(),
    ensures
        row_extent(img, y, n).0 <= if n >= 0 {
            n
        } else {
            0
        },
        row_extent(img, y, n).0 > 0 ==> row_extent(img, y, n).1 <= row_extent(img, y, n).2 < n,
        row_extent(img, y, n).0 == 0 ==> row_extent(img, y, n).1 == img.spec_width() && row_extent(img, y, n).2 == 0,
    decreases n,
{
    if n > 0 {
        lemma_row_extent(img, y, n - 1);
        let (dark, first, last) = row_extent(img, y, n - 1);
        let x = (n - 1) as u32;
        assert(x == n - 1);
        if dark_at(img, n - 1, y) {
            if dark == 0 {
                assert(first == img.spec_width() && last == 0);
            } else {
                assert(first <= last < n - 1);
            }
        }
    }
}

proof fn lemma_band_rows(img: LumaImage, threshold: u32, n: int)
    requires
        threshold > 0,
        n <= img.spec_height(),
    ensures
        band_rows(img, threshold, n).len() <= if n >= 0 {
            n
        } else {
            0
        },
        forall|k: int|
            0 <= k < band_rows(img, threshold, n).len() ==> {
                let r = #[trigger] band_rows(img, threshold, n)[k];
                &&& r.0 < n
                &&& r.1 <= r.2 < img.spec_width()
            },
    decreases n,
{
    if n > 0 {
        lemma_band_rows(img, threshold, n - 1);
        lemma_row_extent(img, n - 1, img.spec_width() as int);
        let before = band_rows(img, threshold, n - 1);
        let (dark, first, last) = row_extent(img, n - 1, img.spec_width() as int);
        if dark >= threshold {
            let r = ((n - 1) as u32, first, last, dark);
            assert forall|k: int| 0 <= k < before.push(r).len() implies {
                let q = #[trigger] before.push(r)[k];
                &&& q.0 < n
                &&& q.1 <= q.2 < img.spec_width()
            } by {
                if k < before.len() {
                    assert(before.push(r)[k] == before[k]);
                }
            }
        }
    }
}

proof fn lemma_band_extent(rows: Seq<(u32, u32, u32, u32)>, i: int, j: int, w: u32)
    requires
        0 <= i < j <= rows.len(),
        forall|k: int| 0 <= k < rows.len() ==> #[trigger] rows[k].1 <= rows[k].2 < w,
    ensures
        band_min(rows, i, j) <= band_max(rows, i, j) < w,
        band_min(rows, i, j) <= rows[i].1,
    decreases j - i,
{
    if j > i + 1 {
        lemma_band_extent(rows, i, j - 1, w);
        assert(rows[j - 1].1 <= rows[j - 1].2);
    }
}

proof fn lemma_band_end(rows: Seq<(u32, u32, u32, u32)>, i: int)
    requires
        0 <= i < rows.len(),
    ensures
        i < band_end(rows, i) <= rows.len(),
    decreases rows.len() - i,
{
    if i + 1 < rows.len() && rows[i + 1].0 <= rows[i].0 + 10 {
        lemma_band_end(rows, i + 1);
    }
}

#[verifier::spinoff_prover]
#[verifier::rlimit(40)]
fn push_aspect_windows(
    attempts: &mut Vec<ScanCandidate>,
    binary: &LumaImage,
    padding: u32,
    x: u32,
    start_y: u32,
    end_y: u32,
    width: u32,
    height: u32,
    num: u64,
    den: u64,
)
    requires
        1 <= num <= 100,
        1 <= den <= 235,
    ensures
        final(attempts)@ == old(attempts)@ + aspect_windows(*binary, padding, x, start_y, end_y, width, height, num as int, den as int),
{
    let ghost start = attempts@;
    reveal(aspect_windows);
    let w = binary.width();
    let h = binary.height();
    proof {
        assert((width as int) * (num as int) <= 0xffff_ffff * 100) by (nonlinear_arith)
            requires
                width <= 0xffff_ffff,
                num <= 100,
        ;
    }
    let r = round_ratio_u32(width as u64 * num, den);
    let th = if r >= height {
        r
    } else {
        height
    };
    let cy = start_y.saturating_add(height / 2);
    let p2 = saturating_mul_u32(padding, 2);
    let pad = if p2 >= width / 40 {
        p2
    } else {
        width / 40
    };
    let ys: [u32; 5] = [
        cy.saturating_sub(th / 2),
        start_y.saturating_sub(padding),
        start_y,
        start_y.saturating_add(padding),
        end_y.saturating_sub(th / 2),
    ];
    let ghost target = aspect_windows(*binary, padding, x, start_y, end_y, width, height, num as int, den as int);
    let mut k: usize = 0;
    while k < 5
        invariant
            k <= 5,
            w == binary.spec_width(),
            h == binary.spec_height(),
            ys@ == seq![
                cy.saturating_sub(th / 2),
                start_y.saturating_sub(padding),
                start_y,
                start_y.saturating_add(padding),
                end_y.saturating_sub(th / 2),
            ],
            th == max_u32(clamp_u32(round_ratio(width * num, den as int)), height),
            cy == start_y.saturating_add(height / 2),
            pad == max_u32(sat_mul(padding, 2), width / 40),
            target == aspect_windows(*binary, padding, x, start_y, end_y, width, height, num as int, den as int),
            target.len() == 5,
            attempts@ == start + target.take(k as int),
        decreases 5 - k,
    {
        let y = ys[k];
        let room = h.saturating_sub(y);
        let room = if room >= 1 {
            room
        } else {
            1
        };
        let rh = if th <= room {
            th
        } else {
            room
        };
        let region = expand_region(ScanRegion { x, y, width, height: rh }, pad, w, h);
        attempts.push(ScanCandidate { detector: CandidateDetector::GenericBinary, layout_hint: None, stage: CandidateStage::HorizontalAspect, region });
        proof {
            reveal(aspect_windows);
            assert(target[k as int] == aspect_window(*binary, x, y, width, th, pad));
            assert(target.take(k + 1) =~= target.take(k as int).push(target[k as int]));
        }
        k = k + 1;
    }
    assert(target.take(5) =~= target);
}

fn push_band_cands(
    attempts: &mut Vec<ScanCandidate>,
    binary: &LumaImage,
    padding: u32,
    start_y: u32,
    end_y: u32,
    min_x: u32,
    max_x: u32,
    dark: u32,
)
    requires
        end_y < binary.spec_height(),
        min_x <= max_x < binary.spec_width(),
    ensures
        final(attempts)@ == old(attempts)@ + band_cands(*binary, padding, start_y, end_y, min_x, max_x, dark),
{
    let ghost start = attempts@;
    reveal(band_cands);
    let (mn, mx) = match dominant_x_span(binary, start_y, end_y, min_x, max_x) {
        Some(p) => p,
        None => (min_x, max_x),
    };
    let width = mx.saturating_sub(mn).saturating_add(1);
    let height = end_y.saturating_sub(start_y).saturating_add(1);
    if width < 48 || height < 8 || dark < 80 {
        assert(attempts@ =~= start + band_cands(*binary, padding, start_y, end_y, min_x, max_x, dark));
        return;
    }
    let a = if padding >= width / 40 {
        padding
    } else {
        width / 40
    };
    let b = if padding >= height {
        padding
    } else {
        height
    };
    let pad = if a >= b {
        a
    } else {
        b
    };
    let expanded = expand_region(ScanRegion { x: mn, y: start_y, width, height }, pad, binary.width(), binary.height());
    attempts.push(ScanCandidate { detector: CandidateDetector::GenericBinary, layout_hint: None, stage: CandidateStage::HorizontalBand, region: expanded });
    push_aspect_windows(attempts, binary, padding, mn, start_y, end_y, width, height, 100, 235);
    push_aspect_windows(attempts, binary, padding, mn, start_y, end_y, width, height, 10, 27);
    push_aspect_windows(attempts, binary, padding, mn, start_y, end_y, width, height, 5, 16);
    assert(attempts@ =~= start + band_cands(*binary, padding, start_y, end_y, min_x, max_x, dark));
}

/// The horizontal bands of dark rows of a thresholded image (rows with at least a
/// 120th of the width dark, 8 to 80, joined while at most ten rows apart) and windows
/// around them: the plausible ones, each region once, best score first, at most 48.
pub fn horizontal_band_regions(binary: &LumaImage, padding: u32) -> (r: Vec<ScanCandidate>)
    ensures
        r@ == band_spec(*binary, padding),
{
    let ghost img = *binary;
    let w = binary.width();
    let h = binary.height();
    if w == 0 || h == 0 {
        return Vec::new();
    }
    let t = w / 120;
    let threshold = if t < 8 {
        8
    } else if t > 80 {
        80
    } else {
        t
    };
    let mut rows: Vec<(u32, u32, u32, u32)> = Vec::new();
    let mut y: u32 = 0;
    while y < h
        invariant
            img == *binary,
            w == img.spec_width(),
            h == img.spec_height(),
            threshold == band_threshold(w),
            y <= h,
            rows@ == band_rows(img, threshold, y as int),
        decreases h - y,
    {
        let mut dark: u32 = 0;
        let mut first: u32 = w;
        let mut last: u32 = 0;
        let mut x: u32 = 0;
        while x < w
            invariant
                img == *binary,
                w == img.spec_width(),
                y < img.spec_height(),
                x <= w,
                (dark, first, last) == row_extent(img, y as int, x as int),
            decreases w - x,
        {
            proof {
                lemma_row_extent(img, y as int, x as int);
            }
            if binary.luma(x, y) == 0 {
                dark = dark + 1;
                if x < first {
                    first = x;
                }
                if x > last {
                    last = x;
                }
            }
            x = x + 1;
        }
        if dark >= threshold {
            rows.push((y, first, last, dark));
        }
        y = y + 1;
    }
    proof {
        lemma_band_rows(img, threshold, h as int);
    }
    let ghost all_rows = rows@;
    let mut attempts: Vec<ScanCandidate> = Vec::new();
    let n = rows.len();
    let mut index: usize = 0;
    while index < n
        invariant
            img == *binary,
            h == img.spec_height(),
            w == img.spec_width(),
            rows@ == all_rows,
            n == all_rows.len(),
            forall|k: int|
                0 <= k < all_rows.len() ==> {
                    let r = #[trigger] all_rows[k];
                    &&& r.0 < h
                    &&& r.1 <= r.2 < w
                },
            index <= n,
            attempts@ + band_attempts(img, all_rows, padding, index as int) == band_attempts(img, all_rows, padding, 0),
        decreases n - index,
    {
        let i = index;
        let start_y = rows[index].0;
        let mut end_y = start_y;
        let mut min_x = rows[index].1;
        let mut max_x = rows[index].2;
        let mut dark_sum = rows[index].3;
        index = index + 1;
        while index < n && (rows[index].0 as u64) <= (end_y as u64) + 10
            invariant
                rows@ == all_rows,
                n == all_rows.len(),
                i < index <= n,
                band_end(all_rows, i as int) == band_end(all_rows, index - 1),
                end_y == all_rows[index - 1].0,
                start_y == all_rows[i as int].0,
                min_x == band_min(all_rows, i as int, index as int),
                max_x == band_max(all_rows, i as int, index as int),
                dark_sum == band_dark(all_rows, i as int, index as int),
            decreases n - index,
        {
            end_y = rows[index].0;
            if rows[index].1 < min_x {
                min_x = rows[index].1;
            }
            if rows[index].2 > max_x {
                max_x = rows[index].2;
            }
            dark_sum = dark_sum.saturating_add(rows[index].3);
            index = index + 1;
        }
        proof {
            assert(band_end(all_rows, index - 1) == index);
            lemma_band_end(all_rows, i as int);
            lemma_band_extent(all_rows, i as int, index as int, w);
        }
        let ghost before = attempts@;
        push_band_cands(&mut attempts, binary, padding, start_y, end_y, min_x, max_x, dark_sum);
        proof {
            assert(band_attempts(img, all_rows, padding, i as int) == band_cands(img, padding, start_y, end_y, min_x, max_x, dark_sum)
                + band_attempts(img, all_rows, padding, index as int));
            assert(attempts@ + band_attempts(img, all_rows, padding, index as int) =~= before + band_attempts(img, all_rows, padding, i as int));
        }
    }
    assert(attempts@ =~= band_attempts(img, all_rows, padding, 0));
    let mut regions: Vec<ScanCandidate> = Vec::new();
    offer_plausible(&mut regions, &attempts);
    let ghost unique = regions@;
    let mut sorted: Vec<ScanCandidate> = Vec::new();
    let mut k: usize = 0;
    while k < regions.len()
        invariant
            regions@ == unique,
            k <= unique.len(),
            sorted@ == sort_seq(unique.take(k as int), region_order()),
        decreases unique.len() - k,
    {
        proof {
            assert(unique.take(k + 1).drop_last() =~= unique.take(k as int));
            assert(unique.take(k + 1).last() == unique[k as int]);
        }
        insert_by_region_score(&mut sorted, regions[k]);
        k = k + 1;
    }
    assert(unique.take(unique.len() as int) =~= unique);
    sorted.truncate(48);
    sorted
}

} // verus!
