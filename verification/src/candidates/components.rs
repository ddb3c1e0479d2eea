//! Connected dark components of a thresholded image: the dark pixels that eight-way
//! steps between dark pixels join, with their size and bounds.
use vstd::prelude::*;

use crate::candidates::{clamp_u32, dark_at, insert_sorted, lemma_insert_sorted_at, lemma_insert_sorted_split, region_of, sort_seq};
use crate::raster::LumaImage;
use crate::scanner::ScanRegion;

verus! {

/// Whether `p` lies in the image.
pub open spec fn in_image(img: LumaImage, p: (int, int)) -> bool {
    0 <= p.0 < img.spec_width() && 0 <= p.1 < img.spec_height()
}

/// Whether `p` is a dark pixel of the image.
pub open spec fn dark_px(img: LumaImage, p: (int, int)) -> bool {
    in_image(img, p) && dark_at(img, p.0, p.1)
}

/// Whether two pixels touch, diagonals included (a pixel touches itself).
pub open spec fn adjacent(p: (int, int), q: (int, int)) -> bool {
    -1 <= p.0 - q.0 <= 1 && -1 <= p.1 - q.1 <= 1
}

/// Whether every dark pixel touching a member of `s` is a member.
pub open spec fn closed(img: LumaImage, s: Set<(int, int)>) -> bool {
    forall|p: (int, int), q: (int, int)|
        #![trigger s.contains(p), s.contains(q)]
        s.contains(p) && dark_px(img, q) && adjacent(p, q) ==> s.contains(q)
}

/// Whether `q` lies in every closed set that holds `p`.
pub open spec fn connected(img: LumaImage, p: (int, int), q: (int, int)) -> bool {
    forall|s: Set<(int, int)>| #[trigger] closed(img, s) && s.contains(p) ==> s.contains(q)
}

/// The dark component of `p`: the dark pixels connected to it.
pub open spec fn component(img: LumaImage, p: (int, int)) -> Set<(int, int)> {
    Set::new(|q: (int, int)| dark_px(img, q) && connected(img, p, q))
}

/// Whether `v` is the least column of the pixels of `c`.
pub open spec fn least_x(c: Set<(int, int)>, v: int) -> bool {
    &&& exists|q: (int, int)| c.contains(q) && q.0 == v
    &&& forall|q: (int, int)| c.contains(q) ==> v <= q.0
}

/// Whether `v` is the least row of the pixels of `c`.
pub open spec fn least_y(c: Set<(int, int)>, v: int) -> bool {
    &&& exists|q: (int, int)| c.contains(q) && q.1 == v
    &&& forall|q: (int, int)| c.contains(q) ==> v <= q.1
}

/// Whether `v` is the greatest column of the pixels of `c`.
pub open spec fn greatest_x(c: Set<(int, int)>, v: int) -> bool {
    &&& exists|q: (int, int)| c.contains(q) && q.0 == v
    &&& forall|q: (int, int)| c.contains(q) ==> q.0 <= v
}

/// Whether `v` is the greatest row of the pixels of `c`.
pub open spec fn greatest_y(c: Set<(int, int)>, v: int) -> bool {
    &&& exists|q: (int, int)| c.contains(q) && q.1 == v
    &&& forall|q: (int, int)| c.contains(q) ==> q.1 <= v
}

/// A dark component: its pixel count (saturating) and bounding box.
#[derive(Debug, Clone, Copy, PartialEq, Eq, Structural)]
pub struct DarkComponent {
    /// Pixels in the component.
    pub pixels: u32,
    /// Bounding box of the component.
    pub bounds: ScanRegion,
}

/// The record of the dark component of `p`.
pub open spec fn comp_record(img: LumaImage, p: (int, int)) -> DarkComponent {
    let c = component(img, p);
    let x0 = (choose|v: int| least_x(c, v)) as u32;
    let y0 = (choose|v: int| least_y(c, v)) as u32;
    let x1 = (choose|v: int| greatest_x(c, v)) as u32;
    let y1 = (choose|v: int| greatest_y(c, v)) as u32;
    DarkComponent {
        pixels: clamp_u32(c.len() as int),
        bounds: region_of(x0, y0, x1.saturating_sub(x0).saturating_add(1), y1.saturating_sub(y0).saturating_add(1)),
    }
}

/// The index of pixel `p` in row-major order.
pub open spec fn idx(img: LumaImage, p: (int, int)) -> int {
    p.1 * (img.spec_width() as int) + p.0
}

/// The pixel of row-major index `i`.
pub open spec fn raster(img: LumaImage, i: int) -> (int, int) {
    (i % (img.spec_width() as int), i / (img.spec_width() as int))
}

/// Whether the pixel of index `i` is dark and the first of its component.
pub open spec fn starts_component(img: LumaImage, i: int) -> bool {
    let p = raster(img, i);
    &&& dark_px(img, p)
    &&& forall|j: int| 0 <= j < i ==> !(#[trigger] component(img, p).contains(raster(img, j)))
}

/// The components whose first pixel is among the first `k`, in the order of those.
pub open spec fn components_upto(img: LumaImage, k: int) -> Seq<DarkComponent>
    decreases k,
{
    if k <= 0 {
        Seq::empty()
    } else {
        let before = components_upto(img, k - 1);
        if starts_component(img, k - 1) {
            before.push(comp_record(img, raster(img, k - 1)))
        } else {
            before
        }
    }
}

/// Whether pixel `p` is marked in `vis`.
pub open spec fn marked(img: LumaImage, vis: Seq<bool>, p: (int, int)) -> bool {
    in_image(img, p) && vis[idx(img, p)]
}

/// The pixels marked in `vis`.
pub open spec fn marked_set(img: LumaImage, vis: Seq<bool>) -> Set<(int, int)> {
    Set::new(|p: (int, int)| marked(img, vis, p))
}

proof fn lemma_idx(img: LumaImage, p: (int, int))
    requires
        in_image(img, p),
    ensures
        0 <= idx(img, p) < (img.spec_width() as int) * (img.spec_height() as int),
        raster(img, idx(img, p)) == p,
{
    let w = img.spec_width() as int;
    let h = img.spec_height() as int;
    assert(0 <= p.1 * w + p.0 < w * h) by (nonlinear_arith)
        requires
            0 <= p.0 < w,
            0 <= p.1 < h,
    ;
    assert((p.1 * w + p.0) % w == p.0 && (p.1 * w + p.0) / w == p.1) by (nonlinear_arith)
        requires
            0 <= p.0 < w,
            0 <= p.1,
    ;
}

proof fn lemma_raster(img: LumaImage, i: int)
    requires
        0 <= i < (img.spec_width() as int) * (img.spec_height() as int),
    ensures
        in_image(img, raster(img, i)),
        idx(img, raster(img, i)) == i,
{
    let w = img.spec_width() as int;
    let h = img.spec_height() as int;
    assert(w > 0) by (nonlinear_arith)
        requires
            0 <= i < w * h,
            w >= 0,
            h >= 0,
    ;
    assert(0 <= i % w < w && 0 <= i / w < h && (i / w) * w + i % w == i) by (nonlinear_arith)
        requires
            0 <= i < w * h,
            w > 0,
    ;
}

proof fn lemma_idx_injective(img: LumaImage, p: (int, int), q: (int, int))
    requires
        in_image(img, p),
        in_image(img, q),
        idx(img, p) == idx(img, q),
    ensures
        p == q,
{
    lemma_idx(img, p);
    lemma_idx(img, q);
}

/// Connection is symmetric between dark pixels: the dark pixels outside a closed set
/// form a closed set.
proof fn lemma_connected_symmetric(img: LumaImage, p: (int, int), q: (int, int))
    requires
        dark_px(img, p),
        dark_px(img, q),
        connected(img, p, q),
    ensures
        connected(img, q, p),
{
    assert forall|s: Set<(int, int)>| #[trigger] closed(img, s) && s.contains(q) implies s.contains(p) by {
        if !s.contains(p) {
            let t = Set::new(|r: (int, int)| dark_px(img, r) && !s.contains(r));
            assert forall|a: (int, int), b: (int, int)|
                #![trigger t.contains(a), t.contains(b)]
                t.contains(a) && dark_px(img, b) && adjacent(a, b) implies t.contains(b) by {
                if s.contains(b) {
                    assert(adjacent(b, a));
                    assert(s.contains(a));
                }
            }
            assert(closed(img, t));
            assert(t.contains(p));
            assert(t.contains(q));
        }
    }
}

/// A dark pixel touching a pixel connected to `s` is connected to it too.
proof fn lemma_connected_step(img: LumaImage, s0: (int, int), e: (int, int), q: (int, int))
    requires
        connected(img, s0, e),
        dark_px(img, q),
        adjacent(e, q),
    ensures
        connected(img, s0, q),
{
    assert forall|s: Set<(int, int)>| #[trigger] closed(img, s) && s.contains(s0) implies s.contains(q) by {
        assert(s.contains(e));
    }
}

proof fn lemma_union_closed(img: LumaImage, a: Set<(int, int)>, b: Set<(int, int)>)
    requires
        closed(img, a),
        closed(img, b),
    ensures
        closed(img, a.union(b)),
{
    assert forall|p: (int, int), q: (int, int)|
        #![trigger a.union(b).contains(p), a.union(b).contains(q)]
        a.union(b).contains(p) && dark_px(img, q) && adjacent(p, q) implies a.union(b).contains(q) by {
        if a.contains(p) {
            assert(a.contains(q));
        } else {
            assert(b.contains(q));
        }
    }
}

proof fn lemma_extremes_unique(c: Set<(int, int)>, a: int, b: int)
    ensures
        least_x(c, a) && least_x(c, b) ==> a == b,
        least_y(c, a) && least_y(c, b) ==> a == b,
        greatest_x(c, a) && greatest_x(c, b) ==> a == b,
        greatest_y(c, a) && greatest_y(c, b) ==> a == b,
{
}

/// Distinct pixels of the image are at most as many as its pixels.
proof fn lemma_pixels_bound(img: LumaImage, qs: Seq<(int, int)>)
    requires
        qs.no_duplicates(),
        forall|i: int| 0 <= i < qs.len() ==> in_image(img, #[trigger] qs[i]),
    ensures
        qs.len() <= (img.spec_width() as int) * (img.spec_height() as int),
{
    let n = (img.spec_width() as int) * (img.spec_height() as int);
    assert(n >= 0) by (nonlinear_arith)
        requires
            n == (img.spec_width() as int) * (img.spec_height() as int),
            img.spec_width() >= 0,
            img.spec_height() >= 0,
    ;
    let ids = qs.map_values(|p: (int, int)| idx(img, p));
    assert forall|i: int, j: int| 0 <= i < j < ids.len() implies ids[i] != ids[j] by {
        if ids[i] == ids[j] {
            lemma_idx_injective(img, qs[i], qs[j]);
        }
    }
    assert(ids.no_duplicates());
    ids.unique_seq_to_set();
    vstd::set_lib::lemma_int_range(0, n);
    assert forall|v: int| #[trigger] ids.to_set().contains(v) implies vstd::set_lib::set_int_range(0, n).contains(v) by {
        let i = choose|i: int| 0 <= i < ids.len() && ids[i] == v;
        lemma_idx(img, qs[i]);
    }
    vstd::set_lib::lemma_len_subset(ids.to_set(), vstd::set_lib::set_int_range(0, n));
}

/// Mark the dark component of `(sx, sy)`, not marked yet, and return its record.
fn flood(binary: &LumaImage, visited: &mut Vec<bool>, sx: u32, sy: u32) -> (r: DarkComponent)
    requires
        old(visited)@.len() == (binary.spec_width() as int) * (binary.spec_height() as int),
        sx < binary.spec_width(),
        sy < binary.spec_height(),
        dark_at(*binary, sx as int, sy as int),
        !marked(*binary, old(visited)@, (sx as int, sy as int)),
        closed(*binary, marked_set(*binary, old(visited)@)),
        forall|p: (int, int)| marked(*binary, old(visited)@, p) ==> dark_px(*binary, p),
    ensures
        final(visited)@.len() == old(visited)@.len(),
        forall|p: (int, int)|
            #[trigger] marked(*binary, final(visited)@, p) == (marked(*binary, old(visited)@, p) || component(
                *binary,
                (sx as int, sy as int),
            ).contains(p)),
        r == comp_record(*binary, (sx as int, sy as int)),
{
    let ghost img = *binary;
    let ghost s = (sx as int, sy as int);
    let ghost marks = marked_set(img, visited@);
    let w = binary.width();
    let h = binary.height();
    let total = visited.len();
    proof {
        lemma_idx(img, s);
    }
    let start_index = (sy as usize) * (w as usize) + (sx as usize);
    visited.set(start_index, true);
    let mut queue: Vec<(u32, u32)> = Vec::new();
    queue.push((sx, sy));
    let ghost mut qs: Seq<(int, int)> = seq![s];
    proof {
        assert forall|p: (int, int)| in_image(img, p) implies (#[trigger] visited@[idx(img, p)]) == (marks.contains(p)
            || qs.contains(p)) by {
            lemma_idx(img, p);
            if p == s {
                assert(qs[0] == p);
            } else {
                if idx(img, p) == idx(img, s) {
                    lemma_idx_injective(img, p, s);
                }
                assert(!qs.contains(p)) by {
                    if qs.contains(p) {
                        let i = choose|i: int| 0 <= i < qs.len() && qs[i] == p;
                        assert(qs[i] == s);
                    }
                }
            }
        }
    }
    let mut head: usize = 0;
    let mut count: u32 = 0;
    let mut min_x = sx;
    let mut min_y = sy;
    let mut max_x = sx;
    let mut max_y = sy;
    let ghost mut wx0: int = 0;
    let ghost mut wy0: int = 0;
    let ghost mut wx1: int = 0;
    let ghost mut wy1: int = 0;
    while head < queue.len()
        invariant
            img == *binary,
            w == img.spec_width(),
            h == img.spec_height(),
            visited@.len() == (w as int) * (h as int),
            total == visited@.len(),
            s == (sx as int, sy as int),
            dark_px(img, s),
            marks == marked_set(img, old(visited)@),
            closed(img, marks),
            forall|p: (int, int)| marks.contains(p) ==> dark_px(img, p),
            forall|p: (int, int)|
                in_image(img, p) ==> (#[trigger] visited@[idx(img, p)]) == (marks.contains(p) || qs.contains(p)),
            qs.len() == queue@.len(),
            forall|i: int| 0 <= i < qs.len() ==> #[trigger] qs[i] == (queue@[i].0 as int, queue@[i].1 as int),
            qs.len() >= 1,
            qs[0] == s,
            head <= qs.len(),
            qs.no_duplicates(),
            forall|i: int|
                0 <= i < qs.len() ==> dark_px(img, #[trigger] qs[i]) && connected(img, s, qs[i]) && !marks.contains(qs[i]),
            forall|i: int, q: (int, int)|
                0 <= i < head && dark_px(img, q) && #[trigger] adjacent(qs[i], q) ==> qs.contains(q),
            count == clamp_u32(head as int),
            0 <= wx0 < (if head == 0 { 1 } else { head as int }) && qs[wx0].0 == min_x,
            0 <= wy0 < (if head == 0 { 1 } else { head as int }) && qs[wy0].1 == min_y,
            0 <= wx1 < (if head == 0 { 1 } else { head as int }) && qs[wx1].0 == max_x,
            0 <= wy1 < (if head == 0 { 1 } else { head as int }) && qs[wy1].1 == max_y,
            forall|i: int|
                0 <= i < (if head == 0 { 1 } else { head as int }) ==> min_x <= (#[trigger] qs[i]).0 <= max_x
                    && min_y <= qs[i].1 <= max_y,
        decreases (w as int) * (h as int) + 1 - head,
    {
        let (cx, cy) = queue[head];
        let ghost e = qs[head as int];
        assert(e == (cx as int, cy as int));
        head = head + 1;
        count = count.saturating_add(1);
        if cx < min_x {
            min_x = cx;
            proof {
                wx0 = head - 1;
            }
        }
        if cx > max_x {
            max_x = cx;
            proof {
                wx1 = head - 1;
            }
        }
        if cy < min_y {
            min_y = cy;
            proof {
                wy0 = head - 1;
            }
        }
        if cy > max_y {
            max_y = cy;
            proof {
                wy1 = head - 1;
            }
        }
        let y_start = cy.saturating_sub(1);
        let y_end = if cy + 1 <= h - 1 {
            cy + 1
        } else {
            h - 1
        };
        let x_start = cx.saturating_sub(1);
        let x_end = if cx + 1 <= w - 1 {
            cx + 1
        } else {
            w - 1
        };
        let mut ny = y_start;
        while ny <= y_end
            invariant
                img == *binary,
                w == img.spec_width(),
                h == img.spec_height(),
                visited@.len() == (w as int) * (h as int),
                total == visited@.len(),
                s == (sx as int, sy as int),
                dark_px(img, s),
                marks == marked_set(img, old(visited)@),
                closed(img, marks),
                forall|p: (int, int)| marks.contains(p) ==> dark_px(img, p),
                forall|p: (int, int)|
                    in_image(img, p) ==> (#[trigger] visited@[idx(img, p)]) == (marks.contains(p) || qs.contains(p)),
                qs.len() == queue@.len(),
                forall|i: int| 0 <= i < qs.len() ==> #[trigger] qs[i] == (queue@[i].0 as int, queue@[i].1 as int),
                qs.len() >= 1,
                qs[0] == s,
                1 <= head <= qs.len(),
                qs[head - 1] == e,
                e == (cx as int, cy as int),
                qs.no_duplicates(),
                forall|i: int|
                    0 <= i < qs.len() ==> dark_px(img, #[trigger] qs[i]) && connected(img, s, qs[i]) && !marks.contains(qs[i]),
                forall|i: int, q: (int, int)|
                    0 <= i < head - 1 && dark_px(img, q) && #[trigger] adjacent(qs[i], q) ==> qs.contains(q),
                y_start == cy.saturating_sub(1),
                y_end == (if cy + 1 <= h - 1 { cy + 1 } else { h - 1 }),
                x_start == cx.saturating_sub(1),
                x_end == (if cx + 1 <= w - 1 { cx + 1 } else { w - 1 }),
                cy < h,
                cx < w,
                y_end < h,
                x_end < w,
                y_start <= ny <= y_end + 1,
                0 <= wx0 < head && qs[wx0].0 == min_x,
                0 <= wy0 < head && qs[wy0].1 == min_y,
                0 <= wx1 < head && qs[wx1].0 == max_x,
                0 <= wy1 < head && qs[wy1].1 == max_y,
                forall|i: int| 0 <= i < head ==> min_x <= (#[trigger] qs[i]).0 <= max_x && min_y <= qs[i].1 <= max_y,
                forall|q: (int, int)| dark_px(img, q) && adjacent(e, q) && q.1 < ny ==> qs.contains(q),
            decreases y_end + 1 - ny,
        {
            let mut nx = x_start;
            while nx <= x_end
                invariant
                    img == *binary,
                    w == img.spec_width(),
                    h == img.spec_height(),
                    visited@.len() == (w as int) * (h as int),
                    total == visited@.len(),
                    s == (sx as int, sy as int),
                    dark_px(img, s),
                    marks == marked_set(img, old(visited)@),
                    closed(img, marks),
                    forall|p: (int, int)| marks.contains(p) ==> dark_px(img, p),
                    forall|p: (int, int)|
                        in_image(img, p) ==> (#[trigger] visited@[idx(img, p)]) == (marks.contains(p) || qs.contains(p)),
                    qs.len() == queue@.len(),
                    forall|i: int| 0 <= i < qs.len() ==> #[trigger] qs[i] == (queue@[i].0 as int, queue@[i].1 as int),
                    qs.len() >= 1,
                    qs[0] == s,
                    1 <= head <= qs.len(),
                    qs[head - 1] == e,
                    e == (cx as int, cy as int),
                    qs.no_duplicates(),
                    forall|i: int|
                        0 <= i < qs.len() ==> dark_px(img, #[trigger] qs[i]) && connected(img, s, qs[i]) && !marks.contains(qs[i]),
                    forall|i: int, q: (int, int)|
                        0 <= i < head - 1 && dark_px(img, q) && #[trigger] adjacent(qs[i], q) ==> qs.contains(q),
                    y_end < h,
                    x_end < w,
                    ny <= y_end,
                    x_start == cx.saturating_sub(1),
                    x_end == (if cx + 1 <= w - 1 { cx + 1 } else { w - 1 }),
                    y_start == cy.saturating_sub(1),
                    y_start <= ny,
                    cy < h,
                    cx < w,
                    x_start <= nx <= x_end + 1,
                    0 <= wx0 < head && qs[wx0].0 == min_x,
                    0 <= wy0 < head && qs[wy0].1 == min_y,
                    0 <= wx1 < head && qs[wx1].0 == max_x,
                    0 <= wy1 < head && qs[wy1].1 == max_y,
                    forall|i: int| 0 <= i < head ==> min_x <= (#[trigger] qs[i]).0 <= max_x && min_y <= qs[i].1 <= max_y,
                    y_end == (if cy + 1 <= h - 1 { cy + 1 } else { h - 1 }),
                    forall|q: (int, int)|
                        dark_px(img, q) && adjacent(e, q) && (q.1 < ny || (q.1 == ny && q.0 < nx)) ==> qs.contains(q),
                decreases x_end + 1 - nx,
            {
                let ghost q = (nx as int, ny as int);
                proof {
                    lemma_idx(img, q);
                }
                let ni = (ny as usize) * (w as usize) + (nx as usize);
                assert(ni == idx(img, q));
                if !visited[ni] && binary.luma(nx, ny) == 0 {
                    let ghost before = visited@;
                    visited.set(ni, true);
                    queue.push((nx, ny));
                    proof {
                        assert(adjacent(e, q));
                        lemma_connected_step(img, s, e, q);
                        assert(!qs.contains(q));
                        let qs2 = qs.push(q);
                        assert forall|p: (int, int)| in_image(img, p) implies (#[trigger] visited@[idx(img, p)]) == (
                        marks.contains(p) || qs2.contains(p)) by {
                            if p == q {
                                assert(qs2[qs.len() as int] == q);
                            } else {
                                lemma_idx(img, p);
                                if idx(img, p) == idx(img, q) {
                                    lemma_idx_injective(img, p, q);
                                }
                                assert(visited@[idx(img, p)] == before[idx(img, p)]);
                                if qs.contains(p) {
                                    let i = choose|i: int| 0 <= i < qs.len() && qs[i] == p;
                                    assert(qs2[i] == p);
                                }
                                if qs2.contains(p) {
                                    let i = choose|i: int| 0 <= i < qs2.len() && qs2[i] == p;
                                    assert(i < qs.len());
                                    assert(qs[i] == p);
                                }
                            }
                        }
                        assert forall|i: int, j: int| 0 <= i < j < qs2.len() implies qs2[i] != qs2[j] by {
                            if j == qs.len() {
                                assert(qs2[i] == qs[i]);
                            }
                        }
                        assert forall|c: (int, int)| #[trigger] qs.contains(c) implies qs2.contains(c) by {
                            let i = choose|i: int| 0 <= i < qs.len() && qs[i] == c;
                            assert(qs2[i] == c);
                        }
                        assert(qs2.contains(q)) by {
                            assert(qs2[qs.len() as int] == q);
                        }
                        qs = qs2;
                    }
                } else {
                    proof {
                        if dark_px(img, q) && adjacent(e, q) {
                            if !qs.contains(q) {
                                assert(marks.contains(q));
                                assert(adjacent(q, e));
                                assert(dark_px(img, e));
                                assert(!marks.contains(e));
                                assert(marks.contains(e));
                            }
                        }
                    }
                }
                nx = nx + 1;
            }
            ny = ny + 1;
        }
        proof {
            assert forall|q: (int, int)| dark_px(img, q) && adjacent(e, q) implies qs.contains(q) by {
                assert(q.1 <= y_end);
            }
            lemma_pixels_bound(img, qs);
        }
    }
    proof {
        let qset = qs.to_set();
        let comp = component(img, s);
        assert forall|p: (int, int), q: (int, int)|
            #![trigger qset.contains(p), qset.contains(q)]
            qset.contains(p) && dark_px(img, q) && adjacent(p, q) implies qset.contains(q) by {
            let i = choose|i: int| 0 <= i < qs.len() && qs[i] == p;
            assert(adjacent(qs[i], q));
        }
        assert(closed(img, qset));
        assert(qset.contains(s)) by {
            assert(qs[0] == s);
        }
        assert forall|q: (int, int)| #[trigger] comp.contains(q) <==> qset.contains(q) by {
            if comp.contains(q) {
                assert(closed(img, qset) && qset.contains(s));
            }
            if qset.contains(q) {
                let i = choose|i: int| 0 <= i < qs.len() && qs[i] == q;
                assert(dark_px(img, qs[i]) && connected(img, s, qs[i]));
            }
        }
        assert(comp =~= qset);
        qs.unique_seq_to_set();
        assert forall|p: (int, int)|
            #[trigger] marked(img, visited@, p) == (marked(img, old(visited)@, p) || comp.contains(p)) by {
            if in_image(img, p) {
                assert(visited@[idx(img, p)] == (marks.contains(p) || qs.contains(p)));
            } else {
                assert(!comp.contains(p));
            }
        }
        assert(comp.contains(qs[wx0]) && comp.contains(qs[wy0]) && comp.contains(qs[wx1]) && comp.contains(qs[wy1]));
        assert forall|q: (int, int)| comp.contains(q) implies min_x <= q.0 <= max_x && min_y <= q.1 <= max_y by {
            let i = choose|i: int| 0 <= i < qs.len() && qs[i] == q;
            assert(min_x <= qs[i].0 <= max_x);
        }
        assert(least_x(comp, min_x as int));
        assert(least_y(comp, min_y as int));
        assert(greatest_x(comp, max_x as int));
        assert(greatest_y(comp, max_y as int));
        lemma_extremes_unique(comp, min_x as int, choose|v: int| least_x(comp, v));
        lemma_extremes_unique(comp, min_y as int, choose|v: int| least_y(comp, v));
        lemma_extremes_unique(comp, max_x as int, choose|v: int| greatest_x(comp, v));
        lemma_extremes_unique(comp, max_y as int, choose|v: int| greatest_y(comp, v));
    }
    DarkComponent {
        pixels: count,
        bounds: ScanRegion {
            x: min_x,
            y: min_y,
            width: max_x.saturating_sub(min_x).saturating_add(1),
            height: max_y.saturating_sub(min_y).saturating_add(1),
        },
    }
}

/// Whether component `a` comes before `b`: more pixels.
pub open spec fn more_pixels(a: DarkComponent, b: DarkComponent) -> bool {
    a.pixels > b.pixels
}

/// The order of components: largest first.
pub open spec fn pixels_order() -> spec_fn(DarkComponent, DarkComponent) -> bool {
    |a: DarkComponent, b: DarkComponent| more_pixels(a, b)
}

/// The dark components of a thresholded image, largest first, equal ones in the
/// order of their first pixels.
pub open spec fn dark_components_spec(img: LumaImage) -> Seq<DarkComponent> {
    let w = img.spec_width() as int;
    let h = img.spec_height() as int;
    if w == 0 || h == 0 {
        Seq::empty()
    } else {
        sort_seq(components_upto(img, w * h), pixels_order())
    }
}

proof fn lemma_component_closed(img: LumaImage, p: (int, int))
    ensures
        closed(img, component(img, p)),
{
    let c = component(img, p);
    assert forall|a: (int, int), b: (int, int)|
        #![trigger c.contains(a), c.contains(b)]
        c.contains(a) && dark_px(img, b) && adjacent(a, b) implies c.contains(b) by {
        lemma_connected_step(img, p, a, b);
    }
}

/// Insert `c` after every component at least as large.
fn insert_component(sorted: &mut Vec<DarkComponent>, c: DarkComponent)
    ensures
        final(sorted)@ == insert_sorted(old(sorted)@, c, pixels_order()),
{
    let ghost s = sorted@;
    let ghost less = pixels_order();
    let mut j: usize = sorted.len();
    assert(s.take(j as int) =~= s && s.skip(j as int) =~= Seq::<DarkComponent>::empty());
    while j > 0
        invariant
            sorted@ == s,
            less == pixels_order(),
            j <= s.len(),
            insert_sorted(s, c, less) == insert_sorted(s.take(j as int), c, less) + s.skip(j as int),
        ensures
            j <= s.len(),
            insert_sorted(s, c, less) == insert_sorted(s.take(j as int), c, less) + s.skip(j as int),
            j == 0 || !less(c, s[j - 1]),
        decreases j,
    {
        if c.pixels <= sorted[j - 1].pixels {
            break;
        }
        proof {
            lemma_insert_sorted_split(s, c, less, j as int);
        }
        j = j - 1;
    }
    proof {
        lemma_insert_sorted_at(s, c, less, j as int);
    }
    sorted.insert(j, c);
}

/// The dark components of a thresholded image (dark pixels joined by eight-way steps)
/// with their pixel counts and bounds, largest first, equal ones in the order of their
/// first pixels.
pub fn dark_components(binary: &LumaImage) -> (r: Vec<DarkComponent>)
    ensures
        r@ == dark_components_spec(*binary),
{
    let ghost img = *binary;
    let w = binary.width();
    let h = binary.height();
    if w == 0 || h == 0 {
        return Vec::new();
    }
    let n = binary.pixels().len();
    proof {
        use_type_invariant(binary);
    }
    let mut visited: Vec<bool> = Vec::new();
    let mut i: usize = 0;
    while i < n
        invariant
            i <= n,
            visited@ == Seq::new(i as nat, |_k: int| false),
        decreases n - i,
    {
        visited.push(false);
        i = i + 1;
    }
    let mut comps: Vec<DarkComponent> = Vec::new();
    proof {
        assert forall|p: (int, int)| !#[trigger] marked(img, visited@, p) by {
            if in_image(img, p) {
                lemma_idx(img, p);
            }
        }
        assert(marked_set(img, visited@) =~= Set::<(int, int)>::empty());
    }
    let mut y: u32 = 0;
    while y < h
        invariant
            img == *binary,
            w == img.spec_width(),
            h == img.spec_height(),
            w > 0,
            n == (w as int) * (h as int),
            visited@.len() == n,
            y <= h,
            closed(img, marked_set(img, visited@)),
            forall|p: (int, int)| marked(img, visited@, p) ==> dark_px(img, p),
            forall|j: int| 0 <= j < y * w && dark_px(img, raster(img, j)) ==> marked(img, visited@, #[trigger] raster(img, j)),
            forall|p: (int, int)|
                marked(img, visited@, p) ==> exists|j: int|
                    0 <= j < y * w && dark_px(img, #[trigger] raster(img, j)) && component(img, raster(img, j)).contains(p),
            comps@ == components_upto(img, y * w),
        decreases h - y,
    {
        let mut x: u32 = 0;
        while x < w
            invariant
                img == *binary,
                w == img.spec_width(),
                h == img.spec_height(),
                w > 0,
                n == (w as int) * (h as int),
                visited@.len() == n,
                y < h,
                x <= w,
                closed(img, marked_set(img, visited@)),
                forall|p: (int, int)| marked(img, visited@, p) ==> dark_px(img, p),
                forall|j: int|
                    0 <= j < y * w + x && dark_px(img, raster(img, j)) ==> marked(img, visited@, #[trigger] raster(img, j)),
                forall|p: (int, int)|
                    marked(img, visited@, p) ==> exists|j: int|
                        0 <= j < y * w + x && dark_px(img, #[trigger] raster(img, j)) && component(img, raster(img, j)).contains(p),
                comps@ == components_upto(img, y * w + x),
            decreases w - x,
        {
            let ghost k = y * w + x;
            let ghost p = (x as int, y as int);
            proof {
                lemma_idx(img, p);
                assert(idx(img, p) == k);
                assert(raster(img, k) == p);
            }
            let index = (y as usize) * (w as usize) + (x as usize);
            let seen = visited[index];
            let dark = binary.luma(x, y) == 0;
            if !seen && dark {
                proof {
                    assert(!marked(img, visited@, p));
                    assert(starts_component(img, k)) by {
                        assert forall|j: int| 0 <= j < k implies !(#[trigger] component(img, p).contains(raster(img, j))) by {
                            if component(img, p).contains(raster(img, j)) {
                                let q = raster(img, j);
                                assert(k < n) by (nonlinear_arith)
                                    requires
                                        k == y * w + x,
                                        x < w,
                                        y < h,
                                        n == w * h,
                                ;
                                lemma_raster(img, j);
                                assert(marked(img, visited@, q));
                                lemma_connected_symmetric(img, p, q);
                                assert(closed(img, marked_set(img, visited@)) && marked_set(img, visited@).contains(q));
                                assert(marked_set(img, visited@).contains(p));
                            }
                        }
                    }
                }
                let ghost before = visited@;
                let comp = flood(binary, &mut visited, x, y);
                comps.push(comp);
                proof {
                    lemma_component_closed(img, p);
                    lemma_union_closed(img, marked_set(img, before), component(img, p));
                    assert(marked_set(img, visited@) =~= marked_set(img, before).union(component(img, p)));
                    assert forall|p2: (int, int)| marked(img, visited@, p2) implies exists|j: int|
                        0 <= j < k + 1 && dark_px(img, #[trigger] raster(img, j)) && component(img, raster(img, j)).contains(p2) by {
                        if !marked(img, before, p2) {
                            assert(component(img, p).contains(p2));
                            assert(dark_px(img, raster(img, k)));
                        }
                    }
                }
            } else {
                proof {
                    if dark {
                        assert(marked(img, visited@, p));
                        let j = choose|j: int|
                            0 <= j < k && dark_px(img, #[trigger] raster(img, j)) && component(img, raster(img, j)).contains(p);
                        assert(k < n) by (nonlinear_arith)
                            requires
                                k == y * w + x,
                                x < w,
                                y < h,
                                n == w * h,
                        ;
                        lemma_raster(img, j);
                        lemma_connected_symmetric(img, raster(img, j), p);
                        assert(component(img, p).contains(raster(img, j)));
                        assert(!starts_component(img, k));
                    } else {
                        assert(!dark_px(img, p));
                        assert(!starts_component(img, k));
                    }
                }
            }
            x = x + 1;
        }
        proof {
            assert(y * w + w == (y + 1) * w) by (nonlinear_arith);
        }
        y = y + 1;
    }
    let ghost all = comps@;
    assert((y as int) * (w as int) == (w as int) * (h as int)) by (nonlinear_arith)
        requires
            y == h,
    ;
    assert(all == components_upto(img, (w as int) * (h as int)));
    let mut sorted: Vec<DarkComponent> = Vec::new();
    let mut k: usize = 0;
    while k < comps.len()
        invariant
            comps@ == all,
            k <= all.len(),
            sorted@ == sort_seq(all.take(k as int), pixels_order()),
        decreases all.len() - k,
    {
        proof {
            assert(all.take(k + 1).drop_last() =~= all.take(k as int));
            assert(all.take(k + 1).last() == all[k as int]);
        }
        insert_component(&mut sorted, comps[k]);
        k = k + 1;
    }
    assert(all.take(all.len() as int) =~= all);
    sorted
}

} // verus!
