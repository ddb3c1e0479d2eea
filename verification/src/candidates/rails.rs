//! Rails: rows crossing a ribbon's alternating modules, merged and paired into
//! symbol windows.
use vstd::prelude::*;

use crate::candidates::{CandidateStage, ScanCandidate, abs_int, at_most, cand, clamp_u32, dark_at, fits_spec, max_u32, min_u32, offer_fitting, push_when, region_of, round_ratio, sat_mul, saturating_mul_u32};
use crate::scanner::ScanRegion;
use crate::scanner::CandidateDetector;
use crate::descriptor::LayoutFamily;
use crate::raster::LumaImage;

verus! {
/// The dark pixels of row `y` in columns `from..to`.
pub open spec fn row_dark(img: LumaImage, y: int, from: int, to: int) -> nat
    decreases to - from,
{
    if to <= from {
        0
    } else {
        row_dark(img, y, from, to - 1) + if dark_at(img, to - 1, y) {
            1nat
        } else {
            0nat
        }
    }
}

/// The columns `x < n` of row `y` where darkness changes from column `x - 1`.
pub open spec fn row_transitions(img: LumaImage, y: int, n: int) -> Seq<u32>
    decreases n,
{
    if n <= 1 {
        Seq::empty()
    } else {
        let before = row_transitions(img, y, n - 1);
        if dark_at(img, n - 1, y) != dark_at(img, n - 2, y) {
            before.push((n - 1) as u32)
        } else {
            before
        }
    }
}

/// Keep the longer of the best run of transitions so far and `start..=end` (the
/// earlier one on ties); an empty run changes nothing.
pub open spec fn choose_cluster_spec(best: Option<(usize, usize)>, start: int, end: int) -> Option<(usize, usize)> {
    if end < start {
        best
    } else {
        match best {
            Some((bs, be)) => if be - bs >= end - start {
                best
            } else {
                Some((start as usize, end as usize))
            },
            None => Some((start as usize, end as usize)),
        }
    }
}

/// The best run and the start of the current one after looking at the first `k`
/// transitions: runs break where consecutive transitions are more than 64 apart.
pub open spec fn cluster_state(tp: Seq<u32>, k: int) -> (Option<(usize, usize)>, int)
    decreases k,
{
    if k <= 1 {
        (None, 0)
    } else {
        let (best, start) = cluster_state(tp, k - 1);
        let i = k - 1;
        if tp[i].saturating_sub(tp[i - 1]) > 64 {
            (choose_cluster_spec(best, start, i - 1), i)
        } else {
            (best, start)
        }
    }
}

/// The longest run of transitions no more than 64 apart (the first of equal ones).
pub open spec fn best_cluster(tp: Seq<u32>) -> Option<(usize, usize)> {
    let (best, start) = cluster_state(tp, tp.len() as int);
    choose_cluster_spec(best, start, tp.len() - 1)
}

/// A row crossing a rail of alternating modules.
#[derive(Debug, Clone, Copy, PartialEq, Eq, Structural)]
pub struct RailRow {
    /// Row.
    pub y: u32,
    /// First column of the rail.
    pub min_x: u32,
    /// Last column of the rail.
    pub max_x: u32,
    /// Transitions in the rail.
    pub transitions: u32,
    /// Dark pixels in the rail.
    pub dark: u32,
}

/// Row `y` as a rail: its longest run of at least 14 transitions no more than 64
/// apart, padded 12 pixels each way, at least 120 pixels long, 18% to 78% dark.
pub open spec fn rail_row_spec(img: LumaImage, y: int) -> Option<RailRow> {
    let w = img.spec_width();
    let tp = row_transitions(img, y, w as int);
    if row_dark(img, y, 0, w as int) == 0 || tp.len() < 14 {
        None
    } else {
        match best_cluster(tp) {
            None => None,
            Some((start, end)) => {
                let transitions = end - start + 1;
                let min_x = tp[start as int].saturating_sub(12);
                let max_x = min_u32(tp[end as int].saturating_add(12), w.saturating_sub(1));
                let span = max_x.saturating_sub(min_x).saturating_add(1);
                let dark = row_dark(img, y, min_x as int, max_x + 1);
                if transitions < 14 || span < 120 || 100 * dark < 18 * span || 100 * dark > 78 * span {
                    None
                } else {
                    Some(RailRow { y: y as u32, min_x, max_x, transitions: transitions as u32, dark: dark as u32 })
                }
            },
        }
    }
}

pub(crate) proof fn lemma_row_dark_bound(img: LumaImage, y: int, from: int, to: int)
    ensures
        row_dark(img, y, from, to) <= if to >= from {
            to - from
        } else {
            0
        },
    decreases to - from,
{
    if to > from {
        lemma_row_dark_bound(img, y, from, to - 1);
    }
}

proof fn lemma_row_transitions(img: LumaImage, y: int, n: int)
    requires
        n <= 0x1_0000_0000,
    ensures
        row_transitions(img, y, n).len() <= if n >= 0 {
            n
        } else {
            0
        },
        forall|i: int|
            0 <= i < row_transitions(img, y, n).len() ==> 1 <= #[trigger] row_transitions(img, y, n)[i] < n,
    decreases n,
{
    if n > 1 {
        lemma_row_transitions(img, y, n - 1);
        let before = row_transitions(img, y, n - 1);
        if dark_at(img, n - 1, y) != dark_at(img, n - 2, y) {
            let v = (n - 1) as u32;
            assert(v == n - 1);
            assert forall|i: int| 0 <= i < before.push(v).len() implies 1 <= #[trigger] before.push(v)[i] < n by {
                if i < before.len() {
                    assert(before.push(v)[i] == before[i]);
                }
            }
        }
    }
}

proof fn lemma_cluster_state(tp: Seq<u32>, k: int)
    requires
        k <= tp.len(),
        tp.len() <= usize::MAX,
    ensures
        0 <= cluster_state(tp, k).1 <= if k >= 1 {
            k - 1
        } else {
            0
        },
        cluster_state(tp, k).0 matches Some((s, e)) ==> s <= e < k,
    decreases k,
{
    if k > 1 {
        lemma_cluster_state(tp, k - 1);
    }
}

/// Row `y` of a thresholded image as a rail of alternating modules: its longest run
/// of at least 14 transitions no more than 64 pixels apart, padded 12 pixels each way,
/// at least 120 pixels long and 18% to 78% dark.
pub fn rail_row(binary: &LumaImage, y: u32) -> (r: Option<RailRow>)
    requires
        y < binary.spec_height(),
    ensures
        r == rail_row_spec(*binary, y as int),
{
    let ghost img = *binary;
    let w = binary.width();
    let mut dark: u32 = 0;
    let mut tp: Vec<u32> = Vec::new();
    let mut last_dark = false;
    let mut x: u32 = 0;
    while x < w
        invariant
            img == *binary,
            w == img.spec_width(),
            y < img.spec_height(),
            x <= w,
            tp@ == row_transitions(img, y as int, x as int),
            dark == row_dark(img, y as int, 0, x as int),
            x > 0 ==> last_dark == dark_at(img, x - 1, y as int),
        decreases w - x,
    {
        proof {
            lemma_row_dark_bound(img, y as int, 0, x as int);
        }
        let d = binary.luma(x, y) == 0;
        if d {
            dark = dark + 1;
        }
        if x > 0 && d != last_dark {
            tp.push(x);
        }
        last_dark = d;
        x = x + 1;
    }
    proof {
        lemma_row_transitions(img, y as int, w as int);
    }
    if dark == 0 || tp.len() < 14 {
        return None;
    }
    let n = tp.len();
    let mut best: Option<(usize, usize)> = None;
    let mut start: usize = 0;
    let mut index: usize = 1;
    while index < n
        invariant
            n == tp@.len(),
            n >= 14,
            1 <= index <= n,
            (best, start as int) == cluster_state(tp@, index as int),
        decreases n - index,
    {
        proof {
            lemma_cluster_state(tp@, index as int);
        }
        if tp[index].saturating_sub(tp[index - 1]) > 64 {
            best = choose_transition_cluster(best, start, index - 1);
            start = index;
        }
        index = index + 1;
    }
    proof {
        lemma_cluster_state(tp@, n as int);
    }
    best = choose_transition_cluster(best, start, n - 1);
    assert(best == best_cluster(tp@));
    let (s, e) = match best {
        Some(pair) => pair,
        None => {
            return None;
        },
    };
    let transitions = (e - s + 1) as u32;
    if transitions < 14 {
        return None;
    }
    let min_x = tp[s].saturating_sub(12);
    let padded = tp[e].saturating_add(12);
    let last = w.saturating_sub(1);
    let max_x = if padded <= last {
        padded
    } else {
        last
    };
    let span = max_x.saturating_sub(min_x).saturating_add(1);
    if span < 120 {
        return None;
    }
    let mut cluster_dark: u32 = 0;
    let mut cx: u32 = min_x;
    while cx <= max_x
        invariant
            img == *binary,
            w == img.spec_width(),
            y < img.spec_height(),
            w >= 1,
            max_x <= w - 1,
            min_x <= cx <= max_x + 1,
            cluster_dark == row_dark(img, y as int, min_x as int, cx as int),
        decreases max_x + 1 - cx,
    {
        proof {
            lemma_row_dark_bound(img, y as int, min_x as int, cx as int);
        }
        if binary.luma(cx, y) == 0 {
            cluster_dark = cluster_dark + 1;
        }
        cx = cx + 1;
    }
    if 100 * (cluster_dark as u64) < 18 * (span as u64) || 100 * (cluster_dark as u64) > 78 * (span as u64) {
        return None;
    }
    Some(RailRow { y, min_x, max_x, transitions, dark: cluster_dark })
}

/// Keep the longer of the best run of transitions so far and `start..=end` (the
/// earlier one on ties); an empty run changes nothing.
fn choose_transition_cluster(best: Option<(usize, usize)>, start: usize, end: usize) -> (r: Option<(usize, usize)>)
    requires
        best matches Some((s, e)) ==> s <= e,
    ensures
        r == choose_cluster_spec(best, start as int, end as int),
{
    if end < start {
        return best;
    }
    match best {
        Some((best_start, best_end)) => {
            if best_end - best_start >= end - start {
                Some((best_start, best_end))
            } else {
                Some((start, end))
            }
        },
        None => Some((start, end)),
    }
}

/// Consecutive rail rows merged into one rail.
#[derive(Debug, Clone, Copy, PartialEq, Eq, Structural)]
pub struct RailGroup {
    /// Mean row.
    pub y: u32,
    /// First column.
    pub min_x: u32,
    /// Last column.
    pub max_x: u32,
    /// Transitions over the rows (saturating).
    pub transitions: u32,
    /// Dark pixels over the rows (saturating).
    pub dark: u32,
    /// Rows merged.
    pub rows: u32,
}

/// A rail of one row.
pub open spec fn start_group(row: RailRow) -> RailGroup {
    RailGroup {
        y: row.y,
        min_x: row.min_x,
        max_x: row.max_x,
        transitions: row.transitions,
        dark: row.dark,
        rows: 1,
    }
}

/// A rail with one more row: mean row, union of columns, sums.
pub open spec fn merge_row(g: RailGroup, row: RailRow) -> RailGroup {
    RailGroup {
        y: ((g.y * g.rows + row.y) / (g.rows + 1)) as u32,
        min_x: min_u32(g.min_x, row.min_x),
        max_x: max_u32(g.max_x, row.max_x),
        transitions: g.transitions.saturating_add(row.transitions),
        dark: g.dark.saturating_add(row.dark),
        rows: (g.rows + 1) as u32,
    }
}

/// The finished rails and the open one after merging `rows` in order: a row at most
/// four below the open rail's mean row joins it; otherwise the open rail is finished
/// (kept when it has two rows or more) and the row opens a new one.
pub open spec fn merge_rows(rows: Seq<RailRow>) -> (Seq<RailGroup>, Option<RailGroup>)
    decreases rows.len(),
{
    if rows.len() == 0 {
        (Seq::empty(), None)
    } else {
        let (done, current) = merge_rows(rows.drop_last());
        let row = rows.last();
        match current {
            Some(g) => if row.y <= g.y + 4 {
                (done, Some(merge_row(g, row)))
            } else {
                (
                    if g.rows >= 2 {
                        done.push(g)
                    } else {
                        done
                    },
                    Some(start_group(row)),
                )
            },
            None => (done, Some(start_group(row))),
        }
    }
}

/// The rails of at least two rows that `rows` merge into.
pub open spec fn group_rows(rows: Seq<RailRow>) -> Seq<RailGroup> {
    let (done, current) = merge_rows(rows);
    match current {
        Some(g) => if g.rows >= 2 {
            done.push(g)
        } else {
            done
        },
        None => done,
    }
}

/// The rail rows among the first `n` rows, top to bottom.
pub open spec fn all_rail_rows(img: LumaImage, n: int) -> Seq<RailRow>
    decreases n,
{
    if n <= 0 {
        Seq::empty()
    } else {
        let before = all_rail_rows(img, n - 1);
        match rail_row_spec(img, n - 1) {
            Some(r) => before.push(r),
            None => before,
        }
    }
}

/// The columns a rail spans (saturating).
pub open spec fn group_span(g: RailGroup) -> u32 {
    g.max_x.saturating_sub(g.min_x).saturating_add(1)
}

/// The module size a rail of 68 modules suggests, at least one pixel.
pub open spec fn group_module(g: RailGroup) -> int {
    let m = round_ratio(group_span(g) as int, 68);
    if m < 1 {
        1
    } else {
        m
    }
}

/// The pixels a rail covers (saturating), at least one.
pub open spec fn group_area(g: RailGroup) -> int {
    let a = sat_mul(group_span(g), g.rows);
    if a < 1 {
        1
    } else {
        a as int
    }
}

/// Numerator of a rail's badness: how far its span is from 68 whole modules, in
/// modules, plus 24 times how far its darkness is from a quarter, over the common
/// denominator `module * area`.
pub open spec fn score_num(g: RailGroup) -> int {
    let m = group_module(g);
    let a = group_area(g);
    abs_int(group_span(g) - 68 * m) * a + 6 * m * abs_int(4 * g.dark - a)
}

/// Denominator of a rail's badness.
pub open spec fn score_den(g: RailGroup) -> int {
    group_module(g) * group_area(g)
}

/// Whether rail `a` is strictly better than rail `b`.
pub open spec fn score_less(a: RailGroup, b: RailGroup) -> bool {
    score_num(a) * score_den(b) < score_num(b) * score_den(a)
}

/// `g` inserted into `s` after every rail that is not worse.
pub open spec fn insert_by_score(s: Seq<RailGroup>, g: RailGroup) -> Seq<RailGroup>
    decreases s.len(),
{
    if s.len() == 0 {
        seq![g]
    } else if score_less(g, s.last()) {
        insert_by_score(s.drop_last(), g).push(s.last())
    } else {
        s.push(g)
    }
}

/// Rails from best to worst, equal ones in their first order.
pub open spec fn sort_by_score(s: Seq<RailGroup>) -> Seq<RailGroup>
    decreases s.len(),
{
    if s.len() == 0 {
        Seq::empty()
    } else {
        insert_by_score(sort_by_score(s.drop_last()), s.last())
    }
}

/// The best 32 rails of a thresholded image.
pub open spec fn rail_groups_spec(img: LumaImage) -> Seq<RailGroup> {
    at_most(sort_by_score(group_rows(all_rail_rows(img, img.spec_height() as int))), 32)
}

proof fn lemma_all_rail_rows_len(img: LumaImage, n: int)
    ensures
        all_rail_rows(img, n).len() <= if n >= 0 {
            n
        } else {
            0
        },
    decreases n,
{
    if n > 0 {
        lemma_all_rail_rows_len(img, n - 1);
    }
}

proof fn lemma_merge_rows(rows: Seq<RailRow>)
    requires
        rows.len() <= u32::MAX,
    ensures
        merge_rows(rows).1 matches Some(g) ==> 1 <= g.rows <= rows.len(),
    decreases rows.len(),
{
    if rows.len() > 0 {
        lemma_merge_rows(rows.drop_last());
    }
}

/// The badness of a rail, as numerator and denominator.
fn rail_score(g: &RailGroup) -> (r: (u128, u128))
    ensures
        r.0 == score_num(*g),
        r.1 == score_den(*g),
        r.0 < 0x1_0000_0000_0000_0000,
        0 < r.1 < 0x1_0000_0000_0000_0000,
{
    let span = g.max_x.saturating_sub(g.min_x).saturating_add(1);
    let rounded = (2 * (span as u64) + 68) / 136;
    let m: u64 = if rounded < 1 {
        1
    } else {
        rounded
    };
    let sa = saturating_mul_u32(span, g.rows);
    let a: u64 = if sa < 1 {
        1
    } else {
        sa as u64
    };
    proof {
        assert(rounded == round_ratio(span as int, 68));
        assert(m <= 0x400_0000);
        assert(abs_int(span - 68 * m) <= 68);
    }
    let off: u64 = if (span as u64) >= 68 * m {
        span as u64 - 68 * m
    } else {
        68 * m - span as u64
    };
    let d4 = 4 * (g.dark as u64);
    let dev: u64 = if d4 >= a {
        d4 - a
    } else {
        a - d4
    };
    proof {
        assert(off <= 68);
        assert(dev <= 0x4_0000_0000);
        assert((off as int) * (a as int) <= 68 * 0x1_0000_0000) by (nonlinear_arith)
            requires
                off <= 68,
                a <= 0x1_0000_0000,
        ;
        assert(6 * (m as int) * (dev as int) <= 6 * 0x400_0000 * 0x4_0000_0000int) by (nonlinear_arith)
            requires
                m <= 0x400_0000,
                dev <= 0x4_0000_0000,
        ;
        assert((m as int) * (a as int) <= 0x400_0000 * 0x1_0000_0000int) by (nonlinear_arith)
            requires
                m <= 0x400_0000,
                a <= 0x1_0000_0000,
        ;
        assert((m as int) * (a as int) >= 1) by (nonlinear_arith)
            requires
                m >= 1,
                a >= 1,
        ;
    }
    let num = (off as u128) * (a as u128) + 6 * (m as u128) * (dev as u128);
    let den = (m as u128) * (a as u128);
    (num, den)
}

/// Whether rail `a` is strictly better than rail `b`.
fn rail_better(a: &RailGroup, b: &RailGroup) -> (r: bool)
    ensures
        r == score_less(*a, *b),
{
    let (na, da) = rail_score(a);
    let (nb, db) = rail_score(b);
    proof {
        assert((na as int) * (db as int) < 0x1_0000_0000_0000_0000 * 0x1_0000_0000_0000_0000int) by (nonlinear_arith)
            requires
                na < 0x1_0000_0000_0000_0000,
                db < 0x1_0000_0000_0000_0000,
        ;
        assert((nb as int) * (da as int) < 0x1_0000_0000_0000_0000 * 0x1_0000_0000_0000_0000int) by (nonlinear_arith)
            requires
                nb < 0x1_0000_0000_0000_0000,
                da < 0x1_0000_0000_0000_0000,
        ;
    }
    na * db < nb * da
}

proof fn lemma_insert_split(s: Seq<RailGroup>, g: RailGroup, j: int)
    requires
        0 < j <= s.len(),
        score_less(g, s[j - 1]),
    ensures
        insert_by_score(s.take(j), g) + s.skip(j) == insert_by_score(s.take(j - 1), g) + s.skip(j - 1),
{
    let t = s.take(j);
    assert(t.drop_last() =~= s.take(j - 1));
    assert(t.last() == s[j - 1]);
    assert(insert_by_score(t, g) == insert_by_score(s.take(j - 1), g).push(s[j - 1]));
    assert(insert_by_score(s.take(j - 1), g).push(s[j - 1]) + s.skip(j) =~= insert_by_score(s.take(j - 1), g) + s.skip(j - 1));
}

/// Insert `g` after every rail of the sorted `sorted` that is not worse.
fn insert_group(sorted: &mut Vec<RailGroup>, g: RailGroup)
    ensures
        final(sorted)@ == insert_by_score(old(sorted)@, g),
{
    let ghost s = sorted@;
    let mut j: usize = sorted.len();
    assert(s.take(j as int) =~= s && s.skip(j as int) =~= Seq::<RailGroup>::empty());
    while j > 0
        invariant
            sorted@ == s,
            j <= s.len(),
            insert_by_score(s, g) == insert_by_score(s.take(j as int), g) + s.skip(j as int),
        ensures
            j <= s.len(),
            insert_by_score(s, g) == insert_by_score(s.take(j as int), g) + s.skip(j as int),
            j == 0 || !score_less(g, s[j - 1]),
        decreases j,
    {
        if !rail_better(&g, &sorted[j - 1]) {
            break;
        }
        proof {
            lemma_insert_split(s, g, j as int);
        }
        j = j - 1;
    }
    proof {
        let t = s.take(j as int);
        if j > 0 {
            assert(t.drop_last() =~= s.take(j - 1));
            assert(t.last() == s[j - 1]);
            assert(!score_less(g, t.last()));
            assert(insert_by_score(t, g) == t.push(g));
        } else {
            assert(t =~= Seq::<RailGroup>::empty());
        }
        assert(insert_by_score(s, g) =~= s.insert(j as int, g));
    }
    sorted.insert(j, g);
}

/// The rails of a thresholded image: consecutive rail rows (at most four apart)
/// merged, those of two rows or more, best first, at most 32.
pub fn rail_groups(binary: &LumaImage) -> (r: Vec<RailGroup>)
    ensures
        r@ == rail_groups_spec(*binary),
{
    let ghost img = *binary;
    let h = binary.height();
    let mut rows: Vec<RailRow> = Vec::new();
    let mut y: u32 = 0;
    while y < h
        invariant
            img == *binary,
            h == img.spec_height(),
            y <= h,
            rows@ == all_rail_rows(img, y as int),
        decreases h - y,
    {
        let row = rail_row(binary, y);
        match row {
            Some(r) => {
                rows.push(r);
            },
            None => {},
        }
        y = y + 1;
    }
    proof {
        lemma_all_rail_rows_len(img, h as int);
    }
    let mut groups: Vec<RailGroup> = Vec::new();
    let mut current: Option<RailGroup> = None;
    let mut i: usize = 0;
    while i < rows.len()
        invariant
            rows@.len() <= u32::MAX,
            i <= rows@.len(),
            (groups@, current) == merge_rows(rows@.take(i as int)),
        decreases rows@.len() - i,
    {
        let row = rows[i];
        proof {
            lemma_merge_rows(rows@.take(i as int));
            assert(rows@.take(i + 1).drop_last() =~= rows@.take(i as int));
            assert(rows@.take(i + 1).last() == row);
        }
        match current {
            Some(g) => {
                if (row.y as u64) <= (g.y as u64) + 4 {
                    let total = g.rows + 1;
                    proof {
                        assert((g.y as int) * (g.rows as int) + (row.y as int) <= 0xffff_ffff * 0xffff_ffff + 0xffff_ffffint) by (nonlinear_arith)
                            requires
                                g.y <= 0xffff_ffff,
                                g.rows <= 0xffff_ffff,
                                row.y <= 0xffff_ffff,
                        ;
                    }
                    let merged = RailGroup {
                        y: (((g.y as u64) * (g.rows as u64) + (row.y as u64)) / (total as u64)) as u32,
                        min_x: if g.min_x <= row.min_x {
                            g.min_x
                        } else {
                            row.min_x
                        },
                        max_x: if g.max_x >= row.max_x {
                            g.max_x
                        } else {
                            row.max_x
                        },
                        transitions: g.transitions.saturating_add(row.transitions),
                        dark: g.dark.saturating_add(row.dark),
                        rows: total,
                    };
                    current = Some(merged);
                } else {
                    if g.rows >= 2 {
                        groups.push(g);
                    }
                    current = Some(
                        RailGroup {
                            y: row.y,
                            min_x: row.min_x,
                            max_x: row.max_x,
                            transitions: row.transitions,
                            dark: row.dark,
                            rows: 1,
                        },
                    );
                }
            },
            None => {
                current = Some(
                    RailGroup {
                        y: row.y,
                        min_x: row.min_x,
                        max_x: row.max_x,
                        transitions: row.transitions,
                        dark: row.dark,
                        rows: 1,
                    },
                );
            },
        }
        i = i + 1;
    }
    assert(rows@.take(rows@.len() as int) =~= rows@);
    match current {
        Some(g) => {
            if g.rows >= 2 {
                groups.push(g);
            }
        },
        None => {},
    }
    let ghost all = groups@;
    assert(all == group_rows(all_rail_rows(img, h as int)));
    let mut sorted: Vec<RailGroup> = Vec::new();
    let mut k: usize = 0;
    while k < groups.len()
        invariant
            groups@ == all,
            k <= all.len(),
            sorted@ == sort_by_score(all.take(k as int)),
        decreases all.len() - k,
    {
        proof {
            assert(all.take(k + 1).drop_last() =~= all.take(k as int));
            assert(all.take(k + 1).last() == all[k as int]);
        }
        insert_group(&mut sorted, groups[k]);
        k = k + 1;
    }
    assert(all.take(all.len() as int) =~= all);
    sorted.truncate(32);
    sorted
}

/// A ribbon signature-window candidate.
pub open spec fn rail_cand(region: ScanRegion) -> ScanCandidate {
    cand(CandidateDetector::RibbonWeave, Some(LayoutFamily::RibbonWeave), CandidateStage::SignatureWindow, region)
}

/// The eight ribbon windows of `m`-pixel modules (and the given height) for a rail
/// starting at `min_x` on row `y`: the rail on module row 7 or 9, nudged 0 or 2 pixels
/// right and 0 or `m / 2 + 1` pixels down.
pub open spec fn rail_windows(min_x: u32, y: u32, m: u32, height: u32) -> Seq<ScanCandidate> {
    let base_x = min_x.saturating_sub((20 * m) as u32).saturating_add(2);
    let bx2 = base_x.saturating_add(2);
    let y7 = y.saturating_sub((7 * m + m / 2 + 2) as u32);
    let y9 = y.saturating_sub((9 * m + m / 2 + 2) as u32);
    let yn = (m / 2 + 1) as u32;
    let w = (104 * m) as u32;
    seq![
        rail_cand(region_of(base_x, y7, w, height)),
        rail_cand(region_of(base_x, y7.saturating_add(yn), w, height)),
        rail_cand(region_of(bx2, y7, w, height)),
        rail_cand(region_of(bx2, y7.saturating_add(yn), w, height)),
        rail_cand(region_of(base_x, y9, w, height)),
        rail_cand(region_of(base_x, y9.saturating_add(yn), w, height)),
        rail_cand(region_of(bx2, y9, w, height)),
        rail_cand(region_of(bx2, y9.saturating_add(yn), w, height)),
    ]
}

/// Whether module size `m` is tried: 2 to 24 pixels, and for a pair of rails `d`
/// apart, from 10 to 44 modules apart.
pub open spec fn module_ok(m: int, distance: Option<u32>) -> bool {
    &&& 2 <= m <= 24
    &&& match distance {
        Some(d) => d + 10 * m >= 20 * m && d <= 44 * m,
        None => true,
    }
}

/// The rail windows of the first `k` of the module sizes `est - 1`, `est`, `est + 1`.
pub open spec fn module_sweep(min_x: u32, y: u32, est: int, distance: Option<u32>, k: int) -> Seq<ScanCandidate>
    decreases k,
{
    if k <= 0 {
        Seq::empty()
    } else {
        let before = module_sweep(min_x, y, est, distance, k - 1);
        let m = est - 1 + (k - 1);
        if module_ok(m, distance) {
            before + rail_windows(min_x, y, m as u32, (44 * m) as u32)
        } else {
            before
        }
    }
}

/// The signature windows scaled from a rail's span taken as 68 modules: 18 placements
/// around the rail on module row 7 or 9, when the modules are at least 1.5 pixels.
pub open spec fn scaled_windows(min_x: u32, y: u32, span: u32) -> Seq<ScanCandidate> {
    if span < 102 {
        Seq::empty()
    } else {
        let width = clamp_u32(if round_ratio(104 * span, 68) >= 104 {
            round_ratio(104 * span, 68)
        } else {
            104
        });
        let height = clamp_u32(if round_ratio(44 * span, 68) >= 44 {
            round_ratio(44 * span, 68)
        } else {
            44
        });
        let x_base = min_x - round_ratio(18 * span, 68);
        Seq::new(
            18,
            |k: int|
                {
                    let rail: int = if k / 9 == 0 {
                        7
                    } else {
                        9
                    };
                    let y_base = y - round_ratio(rail * span, 68);
                    rail_cand(
                        region_of(
                            clamp_u32(x_base + 2 * ((k % 9) / 3) - 2),
                            clamp_u32(y_base + 2 * (k % 3) - 2),
                            width,
                            height,
                        ),
                    )
                },
        )
    }
}

/// The windows of one rail at least 120 pixels long.
pub open spec fn group_windows(g: RailGroup) -> Seq<ScanCandidate> {
    let span = group_span(g);
    if span < 120 {
        Seq::empty()
    } else {
        module_sweep(g.min_x, g.y, round_ratio(span as int, 68), None, 3) + scaled_windows(g.min_x, g.y, span)
    }
}

/// The windows of an upper and a lower rail more than 48 rows apart that overlap by
/// half the shorter one.
pub open spec fn pair_windows(upper: RailGroup, lower: RailGroup) -> Seq<ScanCandidate> {
    let upper_span = group_span(upper);
    let lower_span = group_span(lower);
    let overlap = min_u32(upper.max_x, lower.max_x).saturating_sub(max_u32(upper.min_x, lower.min_x));
    if lower.y <= upper.y + 48 || overlap < min_u32(upper_span, lower_span) / 2 {
        Seq::empty()
    } else {
        let span = max_u32(upper_span, lower_span);
        let min_x = min_u32(upper.min_x, lower.min_x);
        module_sweep(min_x, upper.y, round_ratio(span as int, 68), Some(lower.y.saturating_sub(upper.y)), 3)
            + scaled_windows(min_x, upper.y, span)
    }
}

/// The windows of the first `n` rails.
pub open spec fn groups_windows(gs: Seq<RailGroup>, n: int) -> Seq<ScanCandidate>
    decreases n,
{
    if n <= 0 {
        Seq::empty()
    } else {
        groups_windows(gs, n - 1) + group_windows(gs[n - 1])
    }
}

/// The windows of `upper` paired with each of the first `n` rails.
pub open spec fn pairs_with(gs: Seq<RailGroup>, upper: RailGroup, n: int) -> Seq<ScanCandidate>
    decreases n,
{
    if n <= 0 {
        Seq::empty()
    } else {
        pairs_with(gs, upper, n - 1) + pair_windows(upper, gs[n - 1])
    }
}

/// The windows of each of the first `n` rails paired with every rail.
pub open spec fn all_pairs(gs: Seq<RailGroup>, n: int) -> Seq<ScanCandidate>
    decreases n,
{
    if n <= 0 {
        Seq::empty()
    } else {
        all_pairs(gs, n - 1) + pairs_with(gs, gs[n - 1], gs.len() as int)
    }
}

/// The ribbon windows that rails suggest, in an image of at least 160 x 80 pixels:
/// those that fit, each region once, at most 32.
pub open spec fn ribbon_rail_spec(img: LumaImage) -> Seq<ScanCandidate> {
    let w = img.spec_width();
    let h = img.spec_height();
    if w < 160 || h < 80 {
        Seq::empty()
    } else {
        let gs = rail_groups_spec(img);
        at_most(
            push_when(
                Seq::empty(),
                groups_windows(gs, gs.len() as int) + all_pairs(gs, gs.len() as int),
                |r: ScanRegion| fits_spec(r, w, h),
            ),
            32,
        )
    }
}

fn push_rail_windows(attempts: &mut Vec<ScanCandidate>, min_x: u32, y: u32, m: u32, height: u32)
    requires
        2 <= m <= 24,
    ensures
        final(attempts)@ == old(attempts)@ + rail_windows(min_x, y, m, height),
{
    let ghost start = attempts@;
    let base_x = min_x.saturating_sub(20 * m).saturating_add(2);
    let bx2 = base_x.saturating_add(2);
    let y7 = y.saturating_sub(7 * m + m / 2 + 2);
    let y9 = y.saturating_sub(9 * m + m / 2 + 2);
    let yn = m / 2 + 1;
    let w = 104 * m;
    let hint = Some(LayoutFamily::RibbonWeave);
    let d = CandidateDetector::RibbonWeave;
    attempts.push(ScanCandidate { detector: d, layout_hint: hint, stage: CandidateStage::SignatureWindow, region: ScanRegion { x: base_x, y: y7, width: w, height } });
    attempts.push(ScanCandidate { detector: d, layout_hint: hint, stage: CandidateStage::SignatureWindow, region: ScanRegion { x: base_x, y: y7.saturating_add(yn), width: w, height } });
    attempts.push(ScanCandidate { detector: d, layout_hint: hint, stage: CandidateStage::SignatureWindow, region: ScanRegion { x: bx2, y: y7, width: w, height } });
    attempts.push(ScanCandidate { detector: d, layout_hint: hint, stage: CandidateStage::SignatureWindow, region: ScanRegion { x: bx2, y: y7.saturating_add(yn), width: w, height } });
    attempts.push(ScanCandidate { detector: d, layout_hint: hint, stage: CandidateStage::SignatureWindow, region: ScanRegion { x: base_x, y: y9, width: w, height } });
    attempts.push(ScanCandidate { detector: d, layout_hint: hint, stage: CandidateStage::SignatureWindow, region: ScanRegion { x: base_x, y: y9.saturating_add(yn), width: w, height } });
    attempts.push(ScanCandidate { detector: d, layout_hint: hint, stage: CandidateStage::SignatureWindow, region: ScanRegion { x: bx2, y: y9, width: w, height } });
    attempts.push(ScanCandidate { detector: d, layout_hint: hint, stage: CandidateStage::SignatureWindow, region: ScanRegion { x: bx2, y: y9.saturating_add(yn), width: w, height } });
    assert(attempts@ =~= start + rail_windows(min_x, y, m, height));
}

fn push_module_sweep(attempts: &mut Vec<ScanCandidate>, min_x: u32, y: u32, est: i64, distance: Option<u32>)
    requires
        -1 <= est <= 0x1000_0000,
    ensures
        final(attempts)@ == old(attempts)@ + module_sweep(min_x, y, est as int, distance, 3),
{
    let ghost start = attempts@;
    let mut k: i64 = 0;
    while k < 3
        invariant
            0 <= k <= 3,
            -1 <= est <= 0x1000_0000,
            attempts@ == start + module_sweep(min_x, y, est as int, distance, k as int),
        decreases 3 - k,
    {
        let m = est - 1 + k;
        let ok = if 2 <= m && m <= 24 {
            match distance {
                Some(d) => (d as i64) + 10 * m >= 20 * m && (d as i64) <= 44 * m,
                None => true,
            }
        } else {
            false
        };
        if ok {
            push_rail_windows(attempts, min_x, y, m as u32, (44 * m) as u32);
        }
        assert(attempts@ =~= start + module_sweep(min_x, y, est as int, distance, k + 1));
        k = k + 1;
    }
}

fn push_scaled_windows(attempts: &mut Vec<ScanCandidate>, min_x: u32, y: u32, span: u32)
    ensures
        final(attempts)@ == old(attempts)@ + scaled_windows(min_x, y, span),
{
    let ghost start = attempts@;
    if span < 102 {
        assert(attempts@ =~= start + scaled_windows(min_x, y, span));
        return;
    }
    let sw = (208 * (span as u64) + 68) / 136;
    let width: u32 = if sw >= 104 {
        if sw > u32::MAX as u64 {
            u32::MAX
        } else {
            sw as u32
        }
    } else {
        104
    };
    let sh = (88 * (span as u64) + 68) / 136;
    let height: u32 = if sh >= 44 {
        if sh > u32::MAX as u64 {
            u32::MAX
        } else {
            sh as u32
        }
    } else {
        44
    };
    let x_base: i64 = (min_x as i64) - ((36 * (span as u64) + 68) / 136) as i64;
    proof {
        assert(sw == round_ratio(104 * span, 68));
        assert(sh == round_ratio(44 * span, 68));
        if sw >= 104 {
            assert(clamp_u32(sw as int) == width);
        } else {
            assert(clamp_u32(104) == 104);
        }
    }
    let ghost seq18 = scaled_windows(min_x, y, span);
    let rails: [u64; 2] = [7, 9];
    let mut k: usize = 0;
    while k < 18
        invariant
            k <= 18,
            span >= 102,
            rails@ == seq![7u64, 9],
            seq18 == scaled_windows(min_x, y, span),
            seq18.len() == 18,
            width == clamp_u32(if round_ratio(104 * span, 68) >= 104 {
                round_ratio(104 * span, 68)
            } else {
                104
            }),
            height == clamp_u32(if round_ratio(44 * span, 68) >= 44 {
                round_ratio(44 * span, 68)
            } else {
                44
            }),
            x_base == min_x - round_ratio(18 * span, 68),
            attempts@ == start + seq18.take(k as int),
        decreases 18 - k,
    {
        assert(k / 9 < 2);
        let rail = rails[k / 9];
        assert(rail == (if k / 9 == 0 {
            7u64
        } else {
            9u64
        }));
        proof {
            assert(2 * (rail as int) * (span as int) <= 18 * 0xffff_ffffint) by (nonlinear_arith)
                requires
                    rail <= 9,
                    span <= 0xffff_ffff,
            ;
        }
        let y_base: i64 = (y as i64) - ((2 * rail * (span as u64) + 68) / 136) as i64;
        let xv: i64 = x_base + 2 * (((k % 9) / 3) as i64) - 2;
        let yv: i64 = y_base + 2 * ((k % 3) as i64) - 2;
        let x: u32 = if xv < 0 {
            0
        } else if xv > u32::MAX as i64 {
            u32::MAX
        } else {
            xv as u32
        };
        let yy: u32 = if yv < 0 {
            0
        } else if yv > u32::MAX as i64 {
            u32::MAX
        } else {
            yv as u32
        };
        attempts.push(
            ScanCandidate {
                detector: CandidateDetector::RibbonWeave,
                layout_hint: Some(LayoutFamily::RibbonWeave),
                stage: CandidateStage::SignatureWindow,
                region: ScanRegion { x, y: yy, width, height },
            },
        );
        proof {
            let ki = k as int;
            let rail_i: int = if ki / 9 == 0 {
                7
            } else {
                9
            };
            assert(rail == rail_i);
            assert(2 * rail * (span as int) == 2 * (rail_i * (span as int))) by (nonlinear_arith)
                requires
                    rail == rail_i,
            ;
            assert(y_base == y - round_ratio(rail_i * span, 68));
            assert(xv == x_base + 2 * ((ki % 9) / 3) - 2);
            assert(yv == y_base + 2 * (ki % 3) - 2);
            assert(x == clamp_u32(xv as int));
            assert(yy == clamp_u32(yv as int));
            assert(seq18[ki] == rail_cand(region_of(x, yy, width, height)));
            assert(seq18.take(k + 1) =~= seq18.take(k as int).push(seq18[k as int]));
        }
        k = k + 1;
    }
    assert(seq18.take(18) =~= seq18);
}

/// The module-size estimate of a span taken as 68 modules.
fn estimate_module(span: u32) -> (r: i64)
    ensures
        r == round_ratio(span as int, 68),
        0 <= r <= 0x1000_0000,
{
    ((2 * (span as u64) + 68) / 136) as i64
}

fn push_group_windows(attempts: &mut Vec<ScanCandidate>, g: RailGroup)
    ensures
        final(attempts)@ == old(attempts)@ + group_windows(g),
{
    let ghost start = attempts@;
    let span = g.max_x.saturating_sub(g.min_x).saturating_add(1);
    if span < 120 {
        assert(attempts@ =~= start + group_windows(g));
        return;
    }
    let est = estimate_module(span);
    push_module_sweep(attempts, g.min_x, g.y, est, None);
    push_scaled_windows(attempts, g.min_x, g.y, span);
    assert(attempts@ =~= start + group_windows(g));
}

fn push_pair_windows(attempts: &mut Vec<ScanCandidate>, upper: RailGroup, lower: RailGroup)
    ensures
        final(attempts)@ == old(attempts)@ + pair_windows(upper, lower),
{
    let ghost start = attempts@;
    let upper_span = upper.max_x.saturating_sub(upper.min_x).saturating_add(1);
    let lower_span = lower.max_x.saturating_sub(lower.min_x).saturating_add(1);
    let lo_max = if upper.max_x <= lower.max_x {
        upper.max_x
    } else {
        lower.max_x
    };
    let hi_min = if upper.min_x >= lower.min_x {
        upper.min_x
    } else {
        lower.min_x
    };
    let overlap = lo_max.saturating_sub(hi_min);
    let shorter = if upper_span <= lower_span {
        upper_span
    } else {
        lower_span
    };
    if (lower.y as u64) <= (upper.y as u64) + 48 || overlap < shorter / 2 {
        assert(attempts@ =~= start + pair_windows(upper, lower));
        return;
    }
    let span = if upper_span >= lower_span {
        upper_span
    } else {
        lower_span
    };
    let min_x = if upper.min_x <= lower.min_x {
        upper.min_x
    } else {
        lower.min_x
    };
    let est = estimate_module(span);
    push_module_sweep(attempts, min_x, upper.y, est, Some(lower.y.saturating_sub(upper.y)));
    push_scaled_windows(attempts, min_x, upper.y, span);
    assert(attempts@ =~= start + pair_windows(upper, lower));
}

/// The ribbon windows that rails of alternating modules suggest, in an image of at
/// least 160 x 80 pixels: for each rail, and each pair of rails one above the other,
/// windows of the module sizes its length suggests and windows scaled from it; those
/// that fit, each region once, at most 32.
pub fn ribbon_rail_regions(binary: &LumaImage) -> (r: Vec<ScanCandidate>)
    ensures
        r@ == ribbon_rail_spec(*binary),
{
    let w = binary.width();
    let h = binary.height();
    let mut regions: Vec<ScanCandidate> = Vec::new();
    if w < 160 || h < 80 {
        return regions;
    }
    let groups = rail_groups(binary);
    let ghost gs = groups@;
    let mut attempts: Vec<ScanCandidate> = Vec::new();
    let mut i: usize = 0;
    while i < groups.len()
        invariant
            groups@ == gs,
            i <= gs.len(),
            attempts@ == groups_windows(gs, i as int),
        decreases gs.len() - i,
    {
        push_group_windows(&mut attempts, groups[i]);
        i = i + 1;
    }
    let ghost singles = attempts@;
    let mut u: usize = 0;
    while u < groups.len()
        invariant
            groups@ == gs,
            u <= gs.len(),
            singles == groups_windows(gs, gs.len() as int),
            attempts@ == singles + all_pairs(gs, u as int),
        decreases gs.len() - u,
    {
        let mut l: usize = 0;
        while l < groups.len()
            invariant
                groups@ == gs,
                u < gs.len(),
                l <= gs.len(),
                attempts@ == singles + all_pairs(gs, u as int) + pairs_with(gs, gs[u as int], l as int),
            decreases gs.len() - l,
        {
            push_pair_windows(&mut attempts, groups[u], groups[l]);
            proof {
                assert(attempts@ =~= singles + all_pairs(gs, u as int) + pairs_with(gs, gs[u as int], l + 1));
            }
            l = l + 1;
        }
        proof {
            assert(attempts@ =~= singles + all_pairs(gs, u + 1));
        }
        u = u + 1;
    }
    offer_fitting(&mut regions, &attempts, w, h);
    regions.truncate(32);
    regions
}

} // verus!
