//! Function-pattern placement rules of every layout family.
//!
//! A function module carries synchronization, orientation or signature marks; every
//! other in-bounds module carries one payload bit.
use vstd::prelude::*;

use crate::cell::Cell;
use crate::descriptor::LayoutFamily;

verus! {

/// `a - b`, or zero when `b > a`.
pub open spec fn sat_sub(a: int, b: int) -> int {
    if a >= b {
        a - b
    } else {
        0
    }
}

/// `|a - b|`.
pub open spec fn dist(a: int, b: int) -> int {
    if a >= b {
        a - b
    } else {
        b - a
    }
}

/// Division rounding toward zero, as Rust's integer `/` does.
pub open spec fn trunc_div(a: int, b: int) -> int {
    if b > 0 {
        if a >= 0 {
            a / b
        } else {
            -((-a) / b)
        }
    } else if a >= 0 {
        -(a / (-b))
    } else {
        (-a) / (-b)
    }
}

// ---------------------------------------------------------------- matrix family

/// The finder-pattern cell at local offset `(lx, ly)` of a 7x7 finder.
pub open spec fn finder_at(lx: int, ly: int) -> Cell {
    Cell::Finder(lx == 0 || ly == 0 || lx == 6 || ly == 6 || (2 <= lx <= 4 && 2 <= ly <= 4))
}

/// Finder patterns at the top-left, top-right and bottom-left corners.
pub open spec fn finder_cell_spec(w: int, h: int, x: int, y: int) -> Option<Cell> {
    let rx = sat_sub(w, 7);
    let by = sat_sub(h, 7);
    if 0 <= x < 7 && 0 <= y < 7 {
        Some(finder_at(x, y))
    } else if rx <= x < rx + 7 && 0 <= y < 7 {
        Some(finder_at(x - rx, y))
    } else if 0 <= x < 7 && by <= y < by + 7 {
        Some(finder_at(x, y - by))
    } else {
        None
    }
}

/// Function cells of the square `Matrix` compatibility family.
pub open spec fn matrix_cell_spec(w: int, h: int, x: int, y: int) -> Option<Cell> {
    if x >= w || y >= h {
        None
    } else if finder_cell_spec(w, h, x, y) is Some {
        finder_cell_spec(w, h, x, y)
    } else if w > 15 && h > 15 && (x == 8 || y == 8) {
        Some(Cell::Timing((x + y) % 2 == 0))
    } else if w >= 33 && h >= 33 && dist(x, w / 2) <= 2 && dist(y, h / 2) <= 2 {
        Some(
            Cell::Alignment(
                dist(x, w / 2) == 2 || dist(y, h / 2) == 2 || (x == w / 2 && y == h / 2),
            ),
        )
    } else {
        None
    }
}

// ---------------------------------------------------------------- ribbon families

/// The two side totems of the ribbon-weave layout.
pub open spec fn totem_cell_spec(w: int, h: int, x: int, y: int) -> Option<Cell> {
    if w < 48 || h < 20 || y < 3 || y >= sat_sub(h, 3) {
        None
    } else if x != 5 && x != 7 && x != sat_sub(w, 8) && x != sat_sub(w, 6) {
        None
    } else {
        let local = y - 3;
        Some(
            Cell::Anchor(
                local % 7 == 0 || local % 7 == 1 || local % 7 == 4 || (x == 5 && local % 5 == 2),
            ),
        )
    }
}

/// Whether chevron phase `p` (0..12) lies on a rising stroke.
pub open spec fn chevron_rising(p: int) -> bool {
    p == 0 || p == 1 || p == 2 || p == 6 || p == 7 || p == 8
}

/// The top and bottom chevron rails of the ribbon-weave layout.
pub open spec fn chevron_cell_spec(w: int, h: int, x: int, y: int) -> Option<Cell> {
    if w < 64 || h < 24 {
        None
    } else if y != 3 && y != 5 && y != sat_sub(h, 4) && y != sat_sub(h, 6) {
        None
    } else if x < 14 || x >= sat_sub(w, 14) {
        None
    } else {
        let rising = chevron_rising((x - 14) % 12);
        Some(
            Cell::Signature(
                if y == 3 || y == sat_sub(h, 6) {
                    rising
                } else {
                    !rising
                },
            ),
        )
    }
}

/// The row of the center phase trace at column `x`.
pub open spec fn phase_trace_row(h: int, x: int) -> int {
    let band = (x / 5) % 4;
    if band == 3 {
        sat_sub(h / 2, 1)
    } else if band == 1 {
        h / 2 + 1
    } else {
        h / 2
    }
}

/// The center phase trace of the ribbon-weave layout.
pub open spec fn phase_cell_spec(w: int, h: int, x: int, y: int) -> Option<Cell> {
    if w < 64 || h < 24 || x < 16 || x >= sat_sub(w, 16) {
        None
    } else if y == phase_trace_row(h, x) {
        Some(Cell::Timing((x / 2 + y) % 2 == 0))
    } else {
        None
    }
}

/// Function cells of the ribbon families (`RibbonWeave`, `SpectralMesh`, `PulseStream`).
pub open spec fn ribbon_cell_spec(w: int, h: int, x: int, y: int) -> Option<Cell> {
    if x >= w || y >= h {
        None
    } else if totem_cell_spec(w, h, x, y) is Some {
        totem_cell_spec(w, h, x, y)
    } else if chevron_cell_spec(w, h, x, y) is Some {
        chevron_cell_spec(w, h, x, y)
    } else {
        phase_cell_spec(w, h, x, y)
    }
}

// ---------------------------------------------------------------- constellation families

/// The signature rail near the bottom edge of the constellation layout.
pub open spec fn signature_rail_spec(w: int, h: int, x: int, y: int) -> Option<Cell> {
    let end_x = if 41 <= sat_sub(w, 8) {
        41
    } else {
        sat_sub(w, 8)
    };
    let rail_a = sat_sub(h, 5);
    let rail_b = sat_sub(h, 7);
    if w < 48 || h < 28 {
        None
    } else if x < 7 || x > end_x || (y != rail_a && y != rail_b) {
        None
    } else {
        let lane = (x - 7) % 8;
        let base = lane == 0 || lane == 1 || lane == 3 || lane == 6;
        Some(
            Cell::Signature(
                if y == rail_a {
                    base
                } else {
                    !base && lane != 7
                },
            ),
        )
    }
}

/// Clamp an anchor coordinate away from the symbol edge.
pub open spec fn clamp_anchor_spec(v: int, limit: int) -> int {
    if limit <= 14 {
        limit / 2
    } else if v < 7 {
        7
    } else if v > limit - 8 {
        limit - 8
    } else {
        v
    }
}

/// The three halo anchor centers of the constellation layout.
pub open spec fn anchor_centers_spec(w: int, h: int) -> Seq<(int, int)> {
    seq![
        (clamp_anchor_spec(w / 6, w), clamp_anchor_spec(h / 2, h)),
        (clamp_anchor_spec(w * 3 / 4, w), clamp_anchor_spec(h / 4, h)),
        (clamp_anchor_spec(w * 5 / 6, w), clamp_anchor_spec(h * 3 / 4, h)),
    ]
}

/// The halo cell for offsets `(dx, dy)` from an anchor center within radius 5.
pub open spec fn halo_dark(dx: int, dy: int) -> bool {
    let d2 = dx * dx + dy * dy;
    (16 <= d2 <= 25) || d2 <= 1 || (dx == 0 && dist(dy, 0) <= 5) || (dy == 0 && dist(dx, 0) <= 5)
}

/// The halo anchor cell of the first anchor whose radius covers `(x, y)`.
pub open spec fn halo_cell_spec(anchors: Seq<(int, int)>, x: int, y: int) -> Option<Cell>
    decreases anchors.len(),
{
    if anchors.len() == 0 {
        None
    } else {
        let dx = x - anchors[0].0;
        let dy = y - anchors[0].1;
        if dx * dx + dy * dy <= 25 {
            Some(Cell::Anchor(halo_dark(dx, dy)))
        } else {
            halo_cell_spec(anchors.skip(1), x, y)
        }
    }
}

/// The row of the line from `s` to `e` at column `x`, away from both endpoints.
pub open spec fn line_y_at_x_spec(s: (int, int), e: (int, int), x: int) -> Option<int> {
    let min_x = if s.0 <= e.0 {
        s.0
    } else {
        e.0
    };
    let max_x = if s.0 <= e.0 {
        e.0
    } else {
        s.0
    };
    let dx = e.0 - s.0;
    let dy = e.1 - s.1;
    if x <= min_x + 5 || x >= max_x - 5 {
        None
    } else if dx == 0 {
        None
    } else {
        let sign: int = if dx > 0 {
            1
        } else {
            -1
        };
        Some(s.1 + trunc_div((x - s.0) * dy + sign * (dist(dx, 0) / 2), dx))
    }
}

/// The diagonal timing spines from the first anchor to the other two.
pub open spec fn diagonal_cell_spec(anchors: Seq<(int, int)>, x: int, y: int) -> Option<Cell> {
    if line_y_at_x_spec(anchors[0], anchors[1], x) == Some(y) {
        Some(Cell::Timing((x + y) % 2 == 0))
    } else if line_y_at_x_spec(anchors[0], anchors[2], x) == Some(y) {
        Some(Cell::Timing((x + y + 1) % 2 == 0))
    } else {
        None
    }
}

/// The central diamond orientation glyph.
pub open spec fn orientation_cell_spec(w: int, h: int, x: int, y: int) -> Option<Cell> {
    let dx = dist(x, w / 2);
    let dy = dist(y, h / 2);
    if w < 27 || h < 27 || dx + dy > 5 {
        None
    } else {
        Some(
            Cell::Alignment(
                dx + dy == 5 || (x == w / 2 && dy <= 2) || (y == h / 2 && dx <= 2),
            ),
        )
    }
}

/// Function cells of the constellation families (`Constellation`, `FrameGrid`,
/// `Hexagonal`, `Radial`).
pub open spec fn constellation_cell_spec(w: int, h: int, x: int, y: int) -> Option<Cell> {
    let anchors = anchor_centers_spec(w, h);
    if x >= w || y >= h {
        None
    } else if signature_rail_spec(w, h, x, y) is Some {
        signature_rail_spec(w, h, x, y)
    } else if halo_cell_spec(anchors, x, y) is Some {
        halo_cell_spec(anchors, x, y)
    } else if diagonal_cell_spec(anchors, x, y) is Some {
        diagonal_cell_spec(anchors, x, y)
    } else {
        orientation_cell_spec(w, h, x, y)
    }
}

// ---------------------------------------------------------------- dispatch

/// The function cell of `layout` at `(x, y)` in a `w` x `h` symbol, if any.
pub open spec fn function_cell_spec(layout: LayoutFamily, w: u16, h: u16, x: u16, y: u16) -> Option<
    Cell,
> {
    let (w, h, x, y) = (w as int, h as int, x as int, y as int);
    match layout {
        LayoutFamily::Matrix => matrix_cell_spec(w, h, x, y),
        LayoutFamily::RibbonWeave | LayoutFamily::SpectralMesh | LayoutFamily::PulseStream =>
            ribbon_cell_spec(w, h, x, y),
        LayoutFamily::Constellation | LayoutFamily::FrameGrid | LayoutFamily::Hexagonal
        | LayoutFamily::Radial => constellation_cell_spec(w, h, x, y),
    }
}

/// Whether `(x, y)` carries a payload bit.
pub open spec fn is_data_spec(layout: LayoutFamily, w: u16, h: u16, x: u16, y: u16) -> bool {
    x < w && y < h && function_cell_spec(layout, w, h, x, y) is None
}

/// Number of data modules among the first `n` modules of row `y`.
pub open spec fn count_row(layout: LayoutFamily, w: u16, h: u16, y: u16, n: int) -> nat
    decreases n,
{
    if n <= 0 {
        0
    } else {
        count_row(layout, w, h, y, n - 1) + if is_data_spec(layout, w, h, (n - 1) as u16, y) {
            1nat
        } else {
            0nat
        }
    }
}

/// Number of data modules in the first `rows` rows.
pub open spec fn count_rows(layout: LayoutFamily, w: u16, h: u16, rows: int) -> nat
    decreases rows,
{
    if rows <= 0 {
        0
    } else {
        count_rows(layout, w, h, rows - 1) + count_row(layout, w, h, (rows - 1) as u16, w as int)
    }
}

/// Number of payload-carrying modules of a layout.
pub open spec fn capacity_spec(layout: LayoutFamily, w: u16, h: u16) -> nat {
    count_rows(layout, w, h, h as int)
}

// ---------------------------------------------------------------- executable rules

fn sub_or_zero(a: u16, b: u16) -> (r: u16)
    ensures
        r == sat_sub(a as int, b as int),
{
    if a >= b {
        a - b
    } else {
        0
    }
}

fn abs_diff16(a: u16, b: u16) -> (r: u16)
    ensures
        r == dist(a as int, b as int),
{
    if a >= b {
        a - b
    } else {
        b - a
    }
}

fn finder_cell(width: u16, height: u16, x: u16, y: u16) -> (r: Option<Cell>)
    ensures
        r == finder_cell_spec(width as int, height as int, x as int, y as int),
{
    let rx = sub_or_zero(width, 7);
    let by = sub_or_zero(height, 7);
    let (ox, oy) = if x < 7 && y < 7 {
        (0u16, 0u16)
    } else if x >= rx && (x as u32) < rx as u32 + 7 && y < 7 {
        (rx, 0u16)
    } else if x < 7 && y >= by && (y as u32) < by as u32 + 7 {
        (0u16, by)
    } else {
        return None;
    };
    let lx = x - ox;
    let ly = y - oy;
    let border = lx == 0 || ly == 0 || lx == 6 || ly == 6;
    let center = 2 <= lx && lx <= 4 && 2 <= ly && ly <= 4;
    Some(Cell::Finder(border || center))
}

fn matrix_function_cell(width: u16, height: u16, x: u16, y: u16) -> (r: Option<Cell>)
    ensures
        r == matrix_cell_spec(width as int, height as int, x as int, y as int),
{
    if x >= width || y >= height {
        return None;
    }
    let finder = finder_cell(width, height, x, y);
    if finder.is_some() {
        return finder;
    }
    if width > 15 && height > 15 && (x == 8 || y == 8) {
        return Some(Cell::Timing((x as u32 + y as u32) % 2 == 0));
    }
    if width >= 33 && height >= 33 {
        let cx = width / 2;
        let cy = height / 2;
        let ddx = abs_diff16(x, cx);
        let ddy = abs_diff16(y, cy);
        if ddx <= 2 && ddy <= 2 {
            let edge = ddx == 2 || ddy == 2;
            let center = x == cx && y == cy;
            return Some(Cell::Alignment(edge || center));
        }
    }
    None
}

fn weave_totem_cell(width: u16, height: u16, x: u16, y: u16) -> (r: Option<Cell>)
    ensures
        r == totem_cell_spec(width as int, height as int, x as int, y as int),
{
    if width < 48 || height < 20 || y < 3 || y >= sub_or_zero(height, 3) {
        return None;
    }
    let right_a = sub_or_zero(width, 8);
    let right_b = sub_or_zero(width, 6);
    if x != 5 && x != 7 && x != right_a && x != right_b {
        return None;
    }
    let local = y - 3;
    let m7 = local % 7;
    let dark = m7 == 0 || m7 == 1 || m7 == 4 || (x == 5 && local % 5 == 2);
    Some(Cell::Anchor(dark))
}

fn weave_chevron_rail_cell(width: u16, height: u16, x: u16, y: u16) -> (r: Option<Cell>)
    ensures
        r == chevron_cell_spec(width as int, height as int, x as int, y as int),
{
    if width < 64 || height < 24 {
        return None;
    }
    let bottom_a = sub_or_zero(height, 4);
    let bottom_b = sub_or_zero(height, 6);
    if y != 3 && y != 5 && y != bottom_a && y != bottom_b {
        return None;
    }
    if x < 14 || x >= sub_or_zero(width, 14) {
        return None;
    }
    let phase = (x - 14) % 12;
    let rising = phase == 0 || phase == 1 || phase == 2 || phase == 6 || phase == 7 || phase == 8;
    let dark = if y == 3 || y == bottom_b {
        rising
    } else {
        !rising
    };
    Some(Cell::Signature(dark))
}

fn weave_phase_trace_cell(width: u16, height: u16, x: u16, y: u16) -> (r: Option<Cell>)
    ensures
        r == phase_cell_spec(width as int, height as int, x as int, y as int),
{
    if width < 64 || height < 24 || x < 16 || x >= sub_or_zero(width, 16) {
        return None;
    }
    let center = height / 2;
    let band = (x / 5) % 4;
    let trace_y = if band == 3 {
        sub_or_zero(center, 1)
    } else if band == 1 {
        center + 1
    } else {
        center
    };
    if y == trace_y {
        return Some(Cell::Timing(((x / 2) as u32 + y as u32) % 2 == 0));
    }
    None
}

fn ribbon_weave_function_cell(width: u16, height: u16, x: u16, y: u16) -> (r: Option<Cell>)
    ensures
        r == ribbon_cell_spec(width as int, height as int, x as int, y as int),
{
    if x >= width || y >= height {
        return None;
    }
    let totem = weave_totem_cell(width, height, x, y);
    if totem.is_some() {
        return totem;
    }
    let chevron = weave_chevron_rail_cell(width, height, x, y);
    if chevron.is_some() {
        return chevron;
    }
    weave_phase_trace_cell(width, height, x, y)
}

fn signature_rail_cell(width: u16, height: u16, x: u16, y: u16) -> (r: Option<Cell>)
    ensures
        r == signature_rail_spec(width as int, height as int, x as int, y as int),
{
    if width < 48 || height < 28 {
        return None;
    }
    let limit = sub_or_zero(width, 8);
    let end_x = if 41 <= limit {
        41
    } else {
        limit
    };
    let rail_a = sub_or_zero(height, 5);
    let rail_b = sub_or_zero(height, 7);
    if x < 7 || x > end_x || (y != rail_a && y != rail_b) {
        return None;
    }
    let lane = (x - 7) % 8;
    let base = lane == 0 || lane == 1 || lane == 3 || lane == 6;
    let dark = if y == rail_a {
        base
    } else {
        !base && lane != 7
    };
    Some(Cell::Signature(dark))
}

fn clamp_anchor(value: u32, limit: u32) -> (r: u32)
    requires
        limit <= 65535,
    ensures
        r == clamp_anchor_spec(value as int, limit as int),
        r <= 65535,
{
    if limit <= 14 {
        return limit / 2;
    }
    if value < 7 {
        7
    } else if value > limit - 8 {
        limit - 8
    } else {
        value
    }
}

fn constellation_anchor_centers(width: u16, height: u16) -> (r: [(u32, u32); 3])
    ensures
        forall|i: int|
            0 <= i < 3 ==> (r@[i].0 as int, r@[i].1 as int) == #[trigger] anchor_centers_spec(
                width as int,
                height as int,
            )[i],
        forall|i: int| 0 <= i < 3 ==> r@[i].0 <= 65535 && r@[i].1 <= 65535,
{
    let w = width as u32;
    let h = height as u32;
    [
        (clamp_anchor(w / 6, w), clamp_anchor(h / 2, h)),
        (clamp_anchor(w * 3 / 4, w), clamp_anchor(h / 4, h)),
        (clamp_anchor(w * 5 / 6, w), clamp_anchor(h * 3 / 4, h)),
    ]
}

/// Whether a halo offset is dark.
fn halo_dark_exec(dx: i64, dy: i64) -> (r: bool)
    requires
        -65536 <= dx <= 65536,
        -65536 <= dy <= 65536,
    ensures
        r == halo_dark(dx as int, dy as int),
{
    assert(0 <= dx * dx <= 65536 * 65536) by (nonlinear_arith)
        requires
            -65536 <= dx <= 65536,
    ;
    assert(0 <= dy * dy <= 65536 * 65536) by (nonlinear_arith)
        requires
            -65536 <= dy <= 65536,
    ;
    let d2 = dx * dx + dy * dy;
    let adx = if dx >= 0 {
        dx
    } else {
        -dx
    };
    let ady = if dy >= 0 {
        dy
    } else {
        -dy
    };
    (16 <= d2 && d2 <= 25) || d2 <= 1 || (dx == 0 && ady <= 5) || (dy == 0 && adx <= 5)
}

fn halo_anchor_cell(anchors: &[(u32, u32); 3], x: u16, y: u16) -> (r: Option<Cell>)
    requires
        forall|i: int| 0 <= i < 3 ==> anchors@[i].0 <= 65535 && anchors@[i].1 <= 65535,
    ensures
        r == halo_cell_spec(
            Seq::new(3, |i: int| (anchors@[i].0 as int, anchors@[i].1 as int)),
            x as int,
            y as int,
        ),
{
    let ghost all = Seq::new(3, |i: int| (anchors@[i].0 as int, anchors@[i].1 as int));
    let mut k: usize = 0;
    assert(all.skip(0) =~= all);
    while k < 3
        invariant
            k <= 3,
            forall|i: int| 0 <= i < 3 ==> anchors@[i].0 <= 65535 && anchors@[i].1 <= 65535,
            all == Seq::new(3, |i: int| (anchors@[i].0 as int, anchors@[i].1 as int)),
            halo_cell_spec(all, x as int, y as int) == halo_cell_spec(
                all.skip(k as int),
                x as int,
                y as int,
            ),
        decreases 3 - k,
    {
        let (cx, cy) = anchors[k];
        let dx = x as i64 - cx as i64;
        let dy = y as i64 - cy as i64;
        assert(0 <= dx * dx <= 65536 * 65536) by (nonlinear_arith)
            requires
                -65536 <= dx <= 65536,
        ;
        assert(0 <= dy * dy <= 65536 * 65536) by (nonlinear_arith)
            requires
                -65536 <= dy <= 65536,
        ;
        let d2 = dx * dx + dy * dy;
        assert(all.skip(k as int)[0] == (cx as int, cy as int));
        if d2 <= 25 {
            return Some(Cell::Anchor(halo_dark_exec(dx, dy)));
        }
        assert(all.skip(k as int).skip(1) =~= all.skip(k + 1));
        k = k + 1;
    }
    assert(all.skip(3).len() == 0);
    None
}

/// Rust's truncating division of `a` by a non-zero `b`.
fn trunc_div_exec(a: i64, b: i64) -> (r: i64)
    requires
        b != 0,
        -0x1_0000_0000_0000 <= a <= 0x1_0000_0000_0000,
        -0x1_0000_0000_0000 <= b <= 0x1_0000_0000_0000,
    ensures
        r == trunc_div(a as int, b as int),
{
    let an: u64 = if a >= 0 {
        a as u64
    } else {
        (-a) as u64
    };
    let bn: u64 = if b >= 0 {
        b as u64
    } else {
        (-b) as u64
    };
    let q = an / bn;
    assert(q <= an) by (nonlinear_arith)
        requires
            bn >= 1,
            q == an / bn,
    ;
    if (a >= 0) == (b > 0) {
        q as i64
    } else {
        -(q as i64)
    }
}

fn line_y_at_x(start: (u32, u32), end: (u32, u32), x: u16) -> (r: Option<i64>)
    requires
        start.0 <= 65535,
        start.1 <= 65535,
        end.0 <= 65535,
        end.1 <= 65535,
    ensures
        match r {
            Some(v) => line_y_at_x_spec(
                (start.0 as int, start.1 as int),
                (end.0 as int, end.1 as int),
                x as int,
            ) == Some(v as int),
            None => line_y_at_x_spec(
                (start.0 as int, start.1 as int),
                (end.0 as int, end.1 as int),
                x as int,
            ) is None,
        },
{
    let sx = start.0 as i64;
    let sy = start.1 as i64;
    let ex = end.0 as i64;
    let ey = end.1 as i64;
    let xi = x as i64;
    let min_x = if sx <= ex {
        sx
    } else {
        ex
    };
    let max_x = if sx <= ex {
        ex
    } else {
        sx
    };
    if xi <= min_x + 5 || xi >= max_x - 5 {
        return None;
    }
    let dx = ex - sx;
    if dx == 0 {
        return None;
    }
    let dy = ey - sy;
    let adx = if dx >= 0 {
        dx
    } else {
        -dx
    };
    let sign: i64 = if dx > 0 {
        1
    } else {
        -1
    };
    let ox = xi - sx;
    assert(-65536 * 65536 <= ox * dy <= 65536 * 65536) by (nonlinear_arith)
        requires
            -65536 <= ox <= 65536,
            -65536 <= dy <= 65536,
    ;
    let num = ox * dy + sign * (adx / 2);
    Some(sy + trunc_div_exec(num, dx))
}

fn diagonal_timing_cell(anchors: &[(u32, u32); 3], x: u16, y: u16) -> (r: Option<Cell>)
    requires
        forall|i: int| 0 <= i < 3 ==> anchors@[i].0 <= 65535 && anchors@[i].1 <= 65535,
    ensures
        r == diagonal_cell_spec(
            Seq::new(3, |i: int| (anchors@[i].0 as int, anchors@[i].1 as int)),
            x as int,
            y as int,
        ),
{
    let ghost all = Seq::new(3, |i: int| (anchors@[i].0 as int, anchors@[i].1 as int));
    let a0 = anchors[0];
    let a1 = anchors[1];
    let a2 = anchors[2];
    assert(all[0] == (a0.0 as int, a0.1 as int));
    assert(all[1] == (a1.0 as int, a1.1 as int));
    assert(all[2] == (a2.0 as int, a2.1 as int));
    match line_y_at_x(a0, a1, x) {
        Some(line_y) => {
            if y as i64 == line_y {
                return Some(Cell::Timing((x as u32 + y as u32) % 2 == 0));
            }
        },
        None => {},
    }
    match line_y_at_x(a0, a2, x) {
        Some(line_y) => {
            if y as i64 == line_y {
                return Some(Cell::Timing((x as u32 + y as u32 + 1) % 2 == 0));
            }
        },
        None => {},
    }
    None
}

fn orientation_glyph_cell(width: u16, height: u16, x: u16, y: u16) -> (r: Option<Cell>)
    ensures
        r == orientation_cell_spec(width as int, height as int, x as int, y as int),
{
    let cx = width / 2;
    let cy = height / 2;
    let dx = abs_diff16(x, cx) as u32;
    let dy = abs_diff16(y, cy) as u32;
    if width < 27 || height < 27 || dx + dy > 5 {
        return None;
    }
    let dark = dx + dy == 5 || (x == cx && dy <= 2) || (y == cy && dx <= 2);
    Some(Cell::Alignment(dark))
}

fn constellation_function_cell(width: u16, height: u16, x: u16, y: u16) -> (r: Option<Cell>)
    ensures
        r == constellation_cell_spec(width as int, height as int, x as int, y as int),
{
    if x >= width || y >= height {
        return None;
    }
    let rail = signature_rail_cell(width, height, x, y);
    if rail.is_some() {
        return rail;
    }
    let anchors = constellation_anchor_centers(width, height);
    proof {
        let a = anchor_centers_spec(width as int, height as int);
        assert(Seq::new(3, |i: int| (anchors@[i].0 as int, anchors@[i].1 as int)) =~= a);
    }
    let halo = halo_anchor_cell(&anchors, x, y);
    if halo.is_some() {
        return halo;
    }
    let diagonal = diagonal_timing_cell(&anchors, x, y);
    if diagonal.is_some() {
        return diagonal;
    }
    orientation_glyph_cell(width, height, x, y)
}

/// Determine the matrix-compatibility function-pattern cell at `(x, y)`, if any.
pub fn function_cell(width: u16, height: u16, x: u16, y: u16) -> (r: Option<Cell>)
    ensures
        r == function_cell_spec(LayoutFamily::Matrix, width, height, x, y),
{
    matrix_function_cell(width, height, x, y)
}

/// Determine the selected layout's function-pattern cell at `(x, y)`, if any.
pub fn function_cell_for(layout: LayoutFamily, width: u16, height: u16, x: u16, y: u16) -> (r:
    Option<Cell>)
    ensures
        r == function_cell_spec(layout, width, height, x, y),
{
    match layout {
        LayoutFamily::Matrix => matrix_function_cell(width, height, x, y),
        LayoutFamily::RibbonWeave | LayoutFamily::SpectralMesh | LayoutFamily::PulseStream => {
            ribbon_weave_function_cell(width, height, x, y)
        },
        LayoutFamily::Constellation | LayoutFamily::FrameGrid | LayoutFamily::Hexagonal
        | LayoutFamily::Radial => constellation_function_cell(width, height, x, y),
    }
}

/// Return true when `(x, y)` is reserved for synchronization or orientation data.
pub fn is_function_module(width: u16, height: u16, x: u16, y: u16) -> (r: bool)
    ensures
        r == function_cell_spec(LayoutFamily::Matrix, width, height, x, y) is Some,
{
    function_cell(width, height, x, y).is_some()
}

/// Return true when `(x, y)` is reserved by the selected layout family.
pub fn is_function_module_for(layout: LayoutFamily, width: u16, height: u16, x: u16, y: u16) -> (r:
    bool)
    ensures
        r == function_cell_spec(layout, width, height, x, y) is Some,
{
    function_cell_for(layout, width, height, x, y).is_some()
}

/// Return true when `(x, y)` can carry payload data bits.
pub fn is_data_module(width: u16, height: u16, x: u16, y: u16) -> (r: bool)
    ensures
        r == is_data_spec(LayoutFamily::Matrix, width, height, x, y),
{
    x < width && y < height && !is_function_module(width, height, x, y)
}

/// Return true when `(x, y)` can carry payload data bits for the selected layout family.
pub fn is_data_module_for(layout: LayoutFamily, width: u16, height: u16, x: u16, y: u16) -> (r:
    bool)
    ensures
        r == is_data_spec(layout, width, height, x, y),
{
    x < width && y < height && !is_function_module_for(layout, width, height, x, y)
}

/// Count payload-carrying modules in a matrix-layout symbol.
pub fn data_capacity_bits(width: u16, height: u16) -> (r: usize)
    ensures
        r == capacity_spec(LayoutFamily::Matrix, width, height),
{
    data_capacity_bits_for(LayoutFamily::Matrix, width, height)
}

/// Each row holds at most `n` data modules among its first `n`.
pub proof fn lemma_count_row_bound(layout: LayoutFamily, w: u16, h: u16, y: u16, n: int)
    requires
        0 <= n,
    ensures
        count_row(layout, w, h, y, n) <= n,
    decreases n,
{
    if n > 0 {
        lemma_count_row_bound(layout, w, h, y, n - 1);
    }
}

/// The first `rows` rows hold at most `rows * w` data modules.
pub proof fn lemma_count_rows_bound(layout: LayoutFamily, w: u16, h: u16, rows: int)
    requires
        0 <= rows,
    ensures
        count_rows(layout, w, h, rows) <= rows * (w as int),
    decreases rows,
{
    if rows > 0 {
        lemma_count_rows_bound(layout, w, h, rows - 1);
        lemma_count_row_bound(layout, w, h, (rows - 1) as u16, w as int);
        assert((rows - 1) * (w as int) + (w as int) == rows * (w as int)) by (nonlinear_arith);
    }
}

/// The capacity of a symbol is at most its module count.
pub proof fn lemma_capacity_bound(layout: LayoutFamily, w: u16, h: u16)
    ensures
        capacity_spec(layout, w, h) <= (w as int) * (h as int),
{
    lemma_count_rows_bound(layout, w, h, h as int);
    assert((h as int) * (w as int) == (w as int) * (h as int)) by (nonlinear_arith);
}

/// Count payload-carrying modules for the selected layout family.
pub fn data_capacity_bits_for(layout: LayoutFamily, width: u16, height: u16) -> (r: usize)
    ensures
        r == capacity_spec(layout, width, height),
{
    let mut count: usize = 0;
    let mut y: u16 = 0;
    proof {
        lemma_capacity_bound(layout, width, height);
    }
    while y < height
        invariant
            y <= height,
            count == count_rows(layout, width, height, y as int),
            capacity_spec(layout, width, height) <= (width as int) * (height as int),
        decreases height - y,
    {
        let mut x: u16 = 0;
        while x < width
            invariant
                x <= width,
                y < height,
                count == count_rows(layout, width, height, y as int) + count_row(
                    layout,
                    width,
                    height,
                    y,
                    x as int,
                ),
            decreases width - x,
        {
            proof {
                lemma_count_row_bound(layout, width, height, y, x as int);
                lemma_count_rows_bound(layout, width, height, y as int);
                assert((y as int) * (width as int) + (x as int) + 1 <= 0xffff_ffff) by (
                nonlinear_arith)
                    requires
                        y < height,
                        x < width,
                        height <= 65535,
                        width <= 65535,
                ;
            }
            if is_data_module_for(layout, width, height, x, y) {
                count = count + 1;
            }
            x = x + 1;
        }
        y = y + 1;
    }
    count
}

} // verus!
