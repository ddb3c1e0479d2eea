//! Totems: columns crossing a ribbon's side totems, paired into symbol windows.
use vstd::prelude::*;

use crate::candidates::{CandidateStage, ScanCandidate, at_most, clamp_u32, dark_at, fits_spec, insert_sorted, lemma_insert_sorted_at, lemma_insert_sorted_split, max_u32, min_u32, offer_fitting, push_when, region_of, round_ratio, sat_mul, saturating_mul_u32, sort_seq};
use crate::candidates::rails::{rail_cand};
use crate::scanner::ScanRegion;
use crate::scanner::CandidateDetector;
use crate::descriptor::LayoutFamily;
use crate::raster::LumaImage;

verus! {
/// A run of columns crossing a totem: tall dark clusters of many short runs.
#[derive(Debug, Clone, Copy, PartialEq, Eq, Structural)]
pub struct TotemGroup {
    /// Mean column.
    pub x: u32,
    /// First row.
    pub min_y: u32,
    /// Last row.
    pub max_y: u32,
    /// Dark pixels (saturating).
    pub dark: u32,
    /// Columns merged.
    pub columns: u32,
}

/// The vertical dark runs of column `x` and the open run's start, after `n` rows.
pub open spec fn column_scan(img: LumaImage, x: int, n: int) -> (Seq<(u32, u32)>, Option<u32>)
    decreases n,
{
    if n <= 0 {
        (Seq::empty(), None)
    } else {
        let (runs, start) = column_scan(img, x, n - 1);
        let y = n - 1;
        match start {
            None => if dark_at(img, x, y) {
                (runs, Some(y as u32))
            } else {
                (runs, None)
            },
            Some(s) => if dark_at(img, x, y) {
                (runs, start)
            } else if y - s >= 2 {
                (runs.push((s, (y - 1) as u32)), None)
            } else {
                (runs, None)
            },
        }
    }
}

/// The vertical dark runs of at least two pixels in column `x`, top to bottom.
pub open spec fn column_runs(img: LumaImage, x: int) -> Seq<(u32, u32)> {
    let h = img.spec_height() as int;
    let (runs, start) = column_scan(img, x, h);
    match start {
        Some(s) => if h - s >= 2 {
            runs.push((s, (h - 1) as u32))
        } else {
            runs
        },
        None => runs,
    }
}

/// One past the last run of the cluster starting at run `i`: runs join while each
/// starts at most 64 rows below the previous one's end.
pub open spec fn cluster_end(runs: Seq<(u32, u32)>, i: int) -> int
    decreases runs.len() - i,
{
    if i + 1 < runs.len() && runs[i + 1].0 <= runs[i].1 + 64 {
        cluster_end(runs, i + 1)
    } else {
        i + 1
    }
}

/// The length of a run.
pub open spec fn run_len(r: (u32, u32)) -> u32 {
    r.1.saturating_sub(r.0).saturating_add(1)
}

/// The dark pixels of runs `i..j` (saturating).
pub open spec fn runs_dark(runs: Seq<(u32, u32)>, i: int, j: int) -> u32
    decreases j - i,
{
    if j <= i {
        0
    } else {
        runs_dark(runs, i, j - 1).saturating_add(run_len(runs[j - 1]))
    }
}

/// A column cluster: first row, last row, dark pixels, transitions.
pub open spec fn cluster_stats(runs: Seq<(u32, u32)>, i: int, j: int) -> (u32, u32, u32, u32) {
    (runs[i].0, runs[j - 1].1, runs_dark(runs, i, j), clamp_u32(2 * (j - i)))
}

/// The score of a column cluster: span times transitions times dark (saturating).
pub open spec fn cluster_score(c: Option<(u32, u32, u32, u32)>) -> u32 {
    match c {
        Some((min_y, max_y, dark, transitions)) => sat_mul(
            sat_mul(max_y.saturating_sub(min_y).saturating_add(1), transitions),
            dark,
        ),
        None => 0,
    }
}

/// The best cluster among those from run `i` on, given the best before.
pub open spec fn best_column_cluster(runs: Seq<(u32, u32)>, i: int, best: Option<(u32, u32, u32, u32)>) -> Option<(u32, u32, u32, u32)>
    decreases runs.len() - i,
{
    if i < 0 || i >= runs.len() {
        best
    } else {
        let j = cluster_end(runs, i);
        let c = Some(cluster_stats(runs, i, j));
        let next = if cluster_score(c) > cluster_score(best) {
            c
        } else {
            best
        };
        if j <= i || j > runs.len() {
            best
        } else {
            best_column_cluster(runs, j, next)
        }
    }
}

proof fn lemma_cluster_end(runs: Seq<(u32, u32)>, i: int)
    requires
        0 <= i < runs.len(),
    ensures
        i < cluster_end(runs, i) <= runs.len(),
    decreases runs.len() - i,
{
    if i + 1 < runs.len() && runs[i + 1].0 <= runs[i].1 + 64 {
        lemma_cluster_end(runs, i + 1);
    }
}

/// The best cluster of a column's runs: runs join while each starts at most 64 rows
/// below the previous one's end; clusters score span times transitions times dark,
/// the first of the highest wins.
pub fn best_totem_column_cluster(runs: &Vec<(u32, u32)>) -> (r: Option<(u32, u32, u32, u32)>)
    ensures
        r == best_column_cluster(runs@, 0, None),
{
    let n = runs.len();
    let mut best: Option<(u32, u32, u32, u32)> = None;
    let mut best_score: u32 = 0;
    let mut index: usize = 0;
    while index < n
        invariant
            n == runs@.len(),
            index <= n,
            best_score == cluster_score(best),
            best_column_cluster(runs@, 0, None) == best_column_cluster(runs@, index as int, best),
        decreases n - index,
    {
        let i = index;
        let min_y = runs[index].0;
        let mut max_y = runs[index].1;
        let mut dark = runs[index].1.saturating_sub(runs[index].0).saturating_add(1);
        let mut transitions: u32 = 2;
        index = index + 1;
        proof {
            assert(runs_dark(runs@, i as int, i as int) == 0);
            assert(runs_dark(runs@, i as int, i + 1) == run_len(runs@[i as int]));
        }
        while index < n && (runs[index].0 as u64) <= (max_y as u64) + 64
            invariant
                n == runs@.len(),
                i < index <= n,
                cluster_end(runs@, i as int) == cluster_end(runs@, index - 1),
                max_y == runs@[index - 1].1,
                min_y == runs@[i as int].0,
                dark == runs_dark(runs@, i as int, index as int),
                transitions == clamp_u32(2 * (index - i)),
            decreases n - index,
        {
            max_y = runs[index].1;
            dark = dark.saturating_add(runs[index].1.saturating_sub(runs[index].0).saturating_add(1));
            transitions = transitions.saturating_add(2);
            index = index + 1;
        }
        proof {
            assert(cluster_end(runs@, index - 1) == index);
            lemma_cluster_end(runs@, i as int);
        }
        let span = max_y.saturating_sub(min_y).saturating_add(1);
        let score = saturating_mul_u32(saturating_mul_u32(span, transitions), dark);
        let ghost old_best = best;
        if score > best_score {
            best = Some((min_y, max_y, dark, transitions));
            best_score = score;
        }
        proof {
            assert(Some((min_y, max_y, dark, transitions)) == Some(cluster_stats(runs@, i as int, index as int)));
            assert(best_column_cluster(runs@, i as int, old_best) == best_column_cluster(runs@, index as int, best));
        }
    }
    best
}

/// Column `x` as a totem column: its best cluster of runs when at least 160 rows
/// tall, with at least 12 transitions, 8% to 55% dark.
pub open spec fn totem_column(img: LumaImage, x: int) -> Option<TotemGroup> {
    match best_column_cluster(column_runs(img, x), 0, None) {
        None => None,
        Some((min_y, max_y, dark, transitions)) => {
            let span = max_y.saturating_sub(min_y).saturating_add(1);
            if span >= 160 && transitions >= 12 && 8 * span <= 100 * dark && 100 * dark <= 55 * span {
                Some(TotemGroup { x: x as u32, min_y, max_y, dark, columns: 1 })
            } else {
                None
            }
        },
    }
}

/// The totem columns among the first `n` columns, left to right.
pub open spec fn totem_columns(img: LumaImage, n: int) -> Seq<TotemGroup>
    decreases n,
{
    if n <= 0 {
        Seq::empty()
    } else {
        let before = totem_columns(img, n - 1);
        match totem_column(img, n - 1) {
            Some(c) => before.push(c),
            None => before,
        }
    }
}

/// A totem with one more column: mean column, union of rows, dark pixels summed.
pub open spec fn merge_column(g: TotemGroup, c: TotemGroup) -> TotemGroup {
    TotemGroup {
        x: ((g.x * g.columns + c.x) / (g.columns + 1)) as u32,
        min_y: min_u32(g.min_y, c.min_y),
        max_y: max_u32(g.max_y, c.max_y),
        dark: g.dark.saturating_add(c.dark),
        columns: (g.columns + 1) as u32,
    }
}

/// The finished totems and the open one after merging `cols` in order: a column at
/// most four right of the open totem's mean column joins it.
pub open spec fn merge_columns(cols: Seq<TotemGroup>) -> (Seq<TotemGroup>, Option<TotemGroup>)
    decreases cols.len(),
{
    if cols.len() == 0 {
        (Seq::empty(), None)
    } else {
        let (done, current) = merge_columns(cols.drop_last());
        let c = cols.last();
        match current {
            Some(g) => if c.x <= g.x + 4 {
                (done, Some(merge_column(g, c)))
            } else {
                (done.push(g), Some(c))
            },
            None => (done, Some(c)),
        }
    }
}

/// The totems that `cols` merge into.
pub open spec fn totem_list(cols: Seq<TotemGroup>) -> Seq<TotemGroup> {
    let (done, current) = merge_columns(cols);
    match current {
        Some(g) => done.push(g),
        None => done,
    }
}

/// Whether totem `a` comes before `b`: taller, or as tall and darker.
pub open spec fn totem_before(a: TotemGroup, b: TotemGroup) -> bool {
    let sa = a.max_y.saturating_sub(a.min_y);
    let sb = b.max_y.saturating_sub(b.min_y);
    sa > sb || (sa == sb && a.dark > b.dark)
}

/// The order of totems.
pub open spec fn totem_order() -> spec_fn(TotemGroup, TotemGroup) -> bool {
    |a: TotemGroup, b: TotemGroup| totem_before(a, b)
}

/// The 48 first totems of a thresholded image.
pub open spec fn totem_groups_spec(img: LumaImage) -> Seq<TotemGroup> {
    at_most(sort_seq(totem_list(totem_columns(img, img.spec_width() as int)), totem_order()), 48)
}

proof fn lemma_totem_columns_len(img: LumaImage, n: int)
    ensures
        totem_columns(img, n).len() <= if n >= 0 {
            n
        } else {
            0
        },
    decreases n,
{
    if n > 0 {
        lemma_totem_columns_len(img, n - 1);
    }
}

proof fn lemma_merge_columns(cols: Seq<TotemGroup>)
    requires
        cols.len() <= u32::MAX,
        forall|i: int| 0 <= i < cols.len() ==> #[trigger] cols[i].columns == 1,
    ensures
        merge_columns(cols).1 matches Some(g) ==> 1 <= g.columns <= cols.len(),
    decreases cols.len(),
{
    if cols.len() > 0 {
        lemma_merge_columns(cols.drop_last());
    }
}

proof fn lemma_totem_columns_single(img: LumaImage, n: int)
    ensures
        forall|i: int| 0 <= i < totem_columns(img, n).len() ==> #[trigger] totem_columns(img, n)[i].columns == 1,
    decreases n,
{
    if n > 0 {
        lemma_totem_columns_single(img, n - 1);
        let before = totem_columns(img, n - 1);
        match totem_column(img, n - 1) {
            Some(c) => {
                assert forall|i: int| 0 <= i < before.push(c).len() implies #[trigger] before.push(c)[i].columns == 1 by {
                    if i < before.len() {
                        assert(before.push(c)[i] == before[i]);
                    }
                }
            },
            None => {},
        }
    }
}

/// The dark runs of at least two pixels in column `x`.
fn column_runs_of(binary: &LumaImage, x: u32) -> (r: Vec<(u32, u32)>)
    requires
        x < binary.spec_width(),
    ensures
        r@ == column_runs(*binary, x as int),
{
    let ghost img = *binary;
    let h = binary.height();
    let mut runs: Vec<(u32, u32)> = Vec::new();
    let mut run_start: Option<u32> = None;
    let mut y: u32 = 0;
    while y < h
        invariant
            img == *binary,
            h == img.spec_height(),
            x < img.spec_width(),
            y <= h,
            (runs@, run_start) == column_scan(img, x as int, y as int),
            run_start matches Some(s) ==> s < y,
        decreases h - y,
    {
        let d = binary.luma(x, y) == 0;
        match run_start {
            None => {
                if d {
                    run_start = Some(y);
                }
            },
            Some(start) => {
                if !d {
                    if y - start >= 2 {
                        runs.push((start, y - 1));
                    }
                    run_start = None;
                }
            },
        }
        y = y + 1;
    }
    match run_start {
        Some(start) => {
            if h - start >= 2 {
                runs.push((start, h - 1));
            }
        },
        None => {},
    }
    runs
}

/// Insert `g` after every totem it does not come before.
fn insert_totem(sorted: &mut Vec<TotemGroup>, g: TotemGroup)
    ensures
        final(sorted)@ == insert_sorted(old(sorted)@, g, totem_order()),
{
    let ghost s = sorted@;
    let ghost less = totem_order();
    let mut j: usize = sorted.len();
    assert(s.take(j as int) =~= s && s.skip(j as int) =~= Seq::<TotemGroup>::empty());
    while j > 0
        invariant
            sorted@ == s,
            less == totem_order(),
            j <= s.len(),
            insert_sorted(s, g, less) == insert_sorted(s.take(j as int), g, less) + s.skip(j as int),
        ensures
            j <= s.len(),
            insert_sorted(s, g, less) == insert_sorted(s.take(j as int), g, less) + s.skip(j as int),
            j == 0 || !less(g, s[j - 1]),
        decreases j,
    {
        let o = sorted[j - 1];
        let sg = g.max_y.saturating_sub(g.min_y);
        let so = o.max_y.saturating_sub(o.min_y);
        let before = sg > so || (sg == so && g.dark > o.dark);
        assert(before == less(g, s[j - 1]));
        if !before {
            break;
        }
        proof {
            lemma_insert_sorted_split(s, g, less, j as int);
        }
        j = j - 1;
    }
    proof {
        lemma_insert_sorted_at(s, g, less, j as int);
    }
    sorted.insert(j, g);
}

/// The totems of a thresholded image: columns whose best cluster of short dark runs is
/// at least 160 rows tall with 12 transitions and 8% to 55% dark, merged while at most
/// four columns apart; tallest first (then darkest), at most 48.
pub fn totem_groups(binary: &LumaImage) -> (r: Vec<TotemGroup>)
    ensures
        r@ == totem_groups_spec(*binary),
{
    let ghost img = *binary;
    let w = binary.width();
    let mut columns: Vec<TotemGroup> = Vec::new();
    let mut x: u32 = 0;
    while x < w
        invariant
            img == *binary,
            w == img.spec_width(),
            x <= w,
            columns@ == totem_columns(img, x as int),
        decreases w - x,
    {
        let runs = column_runs_of(binary, x);
        match best_totem_column_cluster(&runs) {
            Some((min_y, max_y, dark, transitions)) => {
                let span = max_y.saturating_sub(min_y).saturating_add(1);
                if span >= 160 && transitions >= 12 && 8 * (span as u64) <= 100 * (dark as u64) && 100
                    * (dark as u64) <= 55 * (span as u64) {
                    columns.push(TotemGroup { x, min_y, max_y, dark, columns: 1 });
                }
            },
            None => {},
        }
        x = x + 1;
    }
    proof {
        lemma_totem_columns_len(img, w as int);
        lemma_totem_columns_single(img, w as int);
    }
    let ghost cols = columns@;
    let mut groups: Vec<TotemGroup> = Vec::new();
    let mut current: Option<TotemGroup> = None;
    let mut i: usize = 0;
    while i < columns.len()
        invariant
            columns@ == cols,
            cols.len() <= u32::MAX,
            forall|k: int| 0 <= k < cols.len() ==> #[trigger] cols[k].columns == 1,
            i <= cols.len(),
            (groups@, current) == merge_columns(cols.take(i as int)),
        decreases cols.len() - i,
    {
        let c = columns[i];
        proof {
            assert forall|k: int| 0 <= k < cols.take(i as int).len() implies #[trigger] cols.take(i as int)[k].columns == 1 by {
                assert(cols.take(i as int)[k] == cols[k]);
            }
            lemma_merge_columns(cols.take(i as int));
            assert(cols.take(i + 1).drop_last() =~= cols.take(i as int));
            assert(cols.take(i + 1).last() == c);
        }
        match current {
            Some(g) => {
                if (c.x as u64) <= (g.x as u64) + 4 {
                    let total = g.columns + 1;
                    proof {
                        assert((g.x as int) * (g.columns as int) + (c.x as int) <= 0xffff_ffff * 0xffff_ffff + 0xffff_ffffint) by (nonlinear_arith)
                            requires
                                g.x <= 0xffff_ffff,
                                g.columns <= 0xffff_ffff,
                                c.x <= 0xffff_ffff,
                        ;
                    }
                    current = Some(
                        TotemGroup {
                            x: (((g.x as u64) * (g.columns as u64) + (c.x as u64)) / (total as u64)) as u32,
                            min_y: if g.min_y <= c.min_y {
                                g.min_y
                            } else {
                                c.min_y
                            },
                            max_y: if g.max_y >= c.max_y {
                                g.max_y
                            } else {
                                c.max_y
                            },
                            dark: g.dark.saturating_add(c.dark),
                            columns: total,
                        },
                    );
                } else {
                    groups.push(g);
                    current = Some(c);
                }
            },
            None => {
                current = Some(c);
            },
        }
        i = i + 1;
    }
    assert(cols.take(cols.len() as int) =~= cols);
    match current {
        Some(g) => {
            groups.push(g);
        },
        None => {},
    }
    let ghost all = groups@;
    let mut sorted: Vec<TotemGroup> = Vec::new();
    let mut k: usize = 0;
    while k < groups.len()
        invariant
            groups@ == all,
            k <= all.len(),
            sorted@ == sort_seq(all.take(k as int), totem_order()),
        decreases all.len() - k,
    {
        proof {
            assert(all.take(k + 1).drop_last() =~= all.take(k as int));
            assert(all.take(k + 1).last() == all[k as int]);
        }
        insert_totem(&mut sorted, groups[k]);
        k = k + 1;
    }
    assert(all.take(all.len() as int) =~= all);
    sorted.truncate(48);
    sorted
}

/// `num / den` rounded to the nearest integer as a position: zero when not positive.
pub open spec fn round_pos(num: int, den: int) -> u32 {
    if num <= 0 {
        0
    } else {
        clamp_u32(round_ratio(num, den))
    }
}

/// The region of corner `(x_num, y_num) / den` and size `(w_num, h_num) / den`,
/// rounded, at least one symbol of one-pixel modules.
pub open spec fn fractional_region(x_num: int, y_num: int, w_num: int, h_num: int, den: int) -> ScanRegion {
    let w = round_ratio(w_num, den);
    let h = round_ratio(h_num, den);
    region_of(
        round_pos(x_num, den),
        round_pos(y_num, den),
        clamp_u32(if w >= 104 {
            w
        } else {
            104
        }),
        clamp_u32(if h >= 44 {
            h
        } else {
            44
        }),
    )
}

/// The windows of two totems `dx` pixels apart taken as `ms` modules apart: the left
/// totem on module column 9 or 11, its top on module row 7 or 9; none unless the
/// modules are 2 to 32 pixels.
pub open spec fn totem_scale_windows(left: TotemGroup, right: TotemGroup, ms: int) -> Seq<ScanCandidate> {
    let dx = right.x - left.x;
    if dx < 2 * ms || dx > 32 * ms {
        Seq::empty()
    } else {
        let top = min_u32(left.min_y, right.min_y);
        seq![
            rail_cand(fractional_region(left.x * ms - 9 * dx, top * ms - 7 * dx, 104 * dx, 44 * dx, ms)),
            rail_cand(fractional_region(left.x * ms - 9 * dx, top * ms - 9 * dx, 104 * dx, 44 * dx, ms)),
            rail_cand(fractional_region(left.x * ms - 11 * dx, top * ms - 7 * dx, 104 * dx, 44 * dx, ms)),
            rail_cand(fractional_region(left.x * ms - 11 * dx, top * ms - 9 * dx, 104 * dx, 44 * dx, ms)),
        ]
    }
}

/// The windows of a left and a right totem more than 120 columns apart whose rows
/// overlap by at least 120: the totems taken as 83 or 85 modules apart.
pub open spec fn totem_windows(left: TotemGroup, right: TotemGroup) -> Seq<ScanCandidate> {
    let overlap = min_u32(left.max_y, right.max_y).saturating_sub(max_u32(left.min_y, right.min_y));
    if right.x <= left.x + 120 || overlap < 120 {
        Seq::empty()
    } else {
        totem_scale_windows(left, right, 83) + totem_scale_windows(left, right, 85)
    }
}

/// The windows of `left` paired with each of the first `n` totems.
pub open spec fn totem_pairs_with(gs: Seq<TotemGroup>, left: TotemGroup, n: int) -> Seq<ScanCandidate>
    decreases n,
{
    if n <= 0 {
        Seq::empty()
    } else {
        totem_pairs_with(gs, left, n - 1) + totem_windows(left, gs[n - 1])
    }
}

/// The windows of each of the first `n` totems paired with every totem.
pub open spec fn all_totem_pairs(gs: Seq<TotemGroup>, n: int) -> Seq<ScanCandidate>
    decreases n,
{
    if n <= 0 {
        Seq::empty()
    } else {
        all_totem_pairs(gs, n - 1) + totem_pairs_with(gs, gs[n - 1], gs.len() as int)
    }
}

/// The ribbon windows that pairs of totems suggest, in an image of at least 160 x 80
/// pixels: those that fit, each region once, at most 12.
pub open spec fn ribbon_totem_spec(img: LumaImage) -> Seq<ScanCandidate> {
    let w = img.spec_width();
    let h = img.spec_height();
    if w < 160 || h < 80 {
        Seq::empty()
    } else {
        let gs = totem_groups_spec(img);
        at_most(
            push_when(Seq::empty(), all_totem_pairs(gs, gs.len() as int), |r: ScanRegion| fits_spec(r, w, h)),
            12,
        )
    }
}

fn round_pos_of(num: i64, den: i64) -> (r: u32)
    requires
        1 <= den <= 100,
        -0x100_0000_0000_0000 <= num <= 0x100_0000_0000_0000,
    ensures
        r == round_pos(num as int, den as int),
{
    if num <= 0 {
        return 0;
    }
    let v = (2 * num + den) / (2 * den);
    if v > u32::MAX as i64 {
        u32::MAX
    } else {
        v as u32
    }
}

fn fractional_region_of(x_num: i64, y_num: i64, w_num: i64, h_num: i64, den: i64) -> (r: ScanRegion)
    requires
        1 <= den <= 100,
        -0x100_0000_0000_0000 <= x_num <= 0x100_0000_0000_0000,
        -0x100_0000_0000_0000 <= y_num <= 0x100_0000_0000_0000,
        0 <= w_num <= 0x100_0000_0000_0000,
        0 <= h_num <= 0x100_0000_0000_0000,
    ensures
        r == fractional_region(x_num as int, y_num as int, w_num as int, h_num as int, den as int),
{
    let w = (2 * w_num + den) / (2 * den);
    let h = (2 * h_num + den) / (2 * den);
    let wc: i64 = if w >= 104 {
        w
    } else {
        104
    };
    let hc: i64 = if h >= 44 {
        h
    } else {
        44
    };
    ScanRegion {
        x: round_pos_of(x_num, den),
        y: round_pos_of(y_num, den),
        width: if wc > u32::MAX as i64 {
            u32::MAX
        } else {
            wc as u32
        },
        height: if hc > u32::MAX as i64 {
            u32::MAX
        } else {
            hc as u32
        },
    }
}

fn push_totem_scale_windows(attempts: &mut Vec<ScanCandidate>, left: TotemGroup, right: TotemGroup, ms: i64)
    requires
        ms == 83 || ms == 85,
        right.x > left.x + 120,
    ensures
        final(attempts)@ == old(attempts)@ + totem_scale_windows(left, right, ms as int),
{
    let ghost start = attempts@;
    let dx = (right.x - left.x) as i64;
    if dx < 2 * ms || dx > 32 * ms {
        assert(attempts@ =~= start + totem_scale_windows(left, right, ms as int));
        return;
    }
    let top = if left.min_y <= right.min_y {
        left.min_y
    } else {
        right.min_y
    };
    proof {
        assert((left.x as int) * (ms as int) <= 0xffff_ffff * 85) by (nonlinear_arith)
            requires
                left.x <= 0xffff_ffff,
                ms <= 85,
        ;
        assert((top as int) * (ms as int) <= 0xffff_ffff * 85) by (nonlinear_arith)
            requires
                top <= 0xffff_ffff,
                ms <= 85,
        ;
        assert((left.x as int) * (ms as int) >= 0) by (nonlinear_arith)
            requires
                ms >= 0,
        ;
        assert((top as int) * (ms as int) >= 0) by (nonlinear_arith)
            requires
                ms >= 0,
        ;
    }
    let lx = (left.x as i64) * ms;
    let ty = (top as i64) * ms;
    let hint = Some(LayoutFamily::RibbonWeave);
    let d = CandidateDetector::RibbonWeave;
    attempts.push(ScanCandidate { detector: d, layout_hint: hint, stage: CandidateStage::SignatureWindow, region: fractional_region_of(lx - 9 * dx, ty - 7 * dx, 104 * dx, 44 * dx, ms) });
    attempts.push(ScanCandidate { detector: d, layout_hint: hint, stage: CandidateStage::SignatureWindow, region: fractional_region_of(lx - 9 * dx, ty - 9 * dx, 104 * dx, 44 * dx, ms) });
    attempts.push(ScanCandidate { detector: d, layout_hint: hint, stage: CandidateStage::SignatureWindow, region: fractional_region_of(lx - 11 * dx, ty - 7 * dx, 104 * dx, 44 * dx, ms) });
    attempts.push(ScanCandidate { detector: d, layout_hint: hint, stage: CandidateStage::SignatureWindow, region: fractional_region_of(lx - 11 * dx, ty - 9 * dx, 104 * dx, 44 * dx, ms) });
    assert(attempts@ =~= start + totem_scale_windows(left, right, ms as int));
}

fn push_totem_windows(attempts: &mut Vec<ScanCandidate>, left: TotemGroup, right: TotemGroup)
    ensures
        final(attempts)@ == old(attempts)@ + totem_windows(left, right),
{
    let ghost start = attempts@;
    let lo_max = if left.max_y <= right.max_y {
        left.max_y
    } else {
        right.max_y
    };
    let hi_min = if left.min_y >= right.min_y {
        left.min_y
    } else {
        right.min_y
    };
    let overlap = lo_max.saturating_sub(hi_min);
    if (right.x as u64) <= (left.x as u64) + 120 || overlap < 120 {
        assert(attempts@ =~= start + totem_windows(left, right));
        return;
    }
    push_totem_scale_windows(attempts, left, right, 83);
    push_totem_scale_windows(attempts, left, right, 85);
    assert(attempts@ =~= start + totem_windows(left, right));
}

/// The ribbon windows that pairs of totems suggest, in an image of at least 160 x 80
/// pixels: for a left and a right totem more than 120 columns apart whose rows
/// overlap by 120, windows with the totems taken as 83 or 85 modules apart; those that
/// fit, each region once, at most 12.
pub fn ribbon_totem_regions(binary: &LumaImage) -> (r: Vec<ScanCandidate>)
    ensures
        r@ == ribbon_totem_spec(*binary),
{
    let w = binary.width();
    let h = binary.height();
    let mut regions: Vec<ScanCandidate> = Vec::new();
    if w < 160 || h < 80 {
        return regions;
    }
    let groups = totem_groups(binary);
    let ghost gs = groups@;
    let mut attempts: Vec<ScanCandidate> = Vec::new();
    let mut u: usize = 0;
    while u < groups.len()
        invariant
            groups@ == gs,
            u <= gs.len(),
            attempts@ == all_totem_pairs(gs, u as int),
        decreases gs.len() - u,
    {
        let mut l: usize = 0;
        while l < groups.len()
            invariant
                groups@ == gs,
                u < gs.len(),
                l <= gs.len(),
                attempts@ == all_totem_pairs(gs, u as int) + totem_pairs_with(gs, gs[u as int], l as int),
            decreases gs.len() - l,
        {
            push_totem_windows(&mut attempts, groups[u], groups[l]);
            proof {
                assert(attempts@ =~= all_totem_pairs(gs, u as int) + totem_pairs_with(gs, gs[u as int], l + 1));
            }
            l = l + 1;
        }
        proof {
            assert(attempts@ =~= all_totem_pairs(gs, u + 1));
        }
        u = u + 1;
    }
    offer_fitting(&mut regions, &attempts, w, h);
    regions.truncate(12);
    regions
}

} // verus!
