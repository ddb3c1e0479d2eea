//! Image primitives for scanners: adaptive thresholding over an integral image.
use vstd::prelude::*;

use crate::mode::TransmissionMode;
use crate::raster::{block_sum, luma_at, row_sum, LumaImage};

verus! {

/// Computer-vision errors.
#[derive(Debug, Clone, PartialEq, Eq, Structural)]
pub enum CvError {
    /// The source image has no pixels.
    EmptyImage,
    /// The requested sampling window is invalid.
    InvalidWindow,
    /// Failed to compute a perspective transform.
    WarpFailed,
}

/// Scanner quality profile derived from protocol mode.
#[derive(Debug, Clone, Copy, PartialEq, Eq, Structural)]
pub struct VisionProfile {
    /// Transmission mode.
    pub mode: TransmissionMode,
    /// Adaptive-threshold window radius.
    pub threshold_radius: u32,
    /// Threshold bias subtracted from the local mean.
    pub threshold_bias: u8,
    /// Minimum candidate anchor size.
    pub min_anchor_px: u32,
}

/// The conservative vision profile of each mode: print scans use wide windows and
/// large anchors, bursts the tightest ones.
pub open spec fn profile_for(mode: TransmissionMode) -> VisionProfile {
    match mode {
        TransmissionMode::Print => VisionProfile {
            mode,
            threshold_radius: 12,
            threshold_bias: 8,
            min_anchor_px: 18,
        },
        TransmissionMode::Screen => VisionProfile {
            mode,
            threshold_radius: 6,
            threshold_bias: 4,
            min_anchor_px: 12,
        },
        TransmissionMode::Burst => VisionProfile {
            mode,
            threshold_radius: 4,
            threshold_bias: 2,
            min_anchor_px: 10,
        },
    }
}

impl VisionProfile {
    /// The conservative profile for a protocol mode.
    pub fn for_mode(mode: TransmissionMode) -> (r: Self)
        ensures
            r == profile_for(mode),
    {
        match mode {
            TransmissionMode::Print => VisionProfile {
                mode,
                threshold_radius: 12,
                threshold_bias: 8,
                min_anchor_px: 18,
            },
            TransmissionMode::Screen => VisionProfile {
                mode,
                threshold_radius: 6,
                threshold_bias: 4,
                min_anchor_px: 12,
            },
            TransmissionMode::Burst => VisionProfile {
                mode,
                threshold_radius: 4,
                threshold_bias: 2,
                min_anchor_px: 10,
            },
        }
    }
}

/// The luma sum of the `w` x `h` block at `(x0, y0)`.
pub open spec fn rect_sum_spec(img: LumaImage, x0: int, y0: int, w: int, h: int) -> int {
    block_sum(img, x0, y0, w, h)
}

/// The luma sum of the pixels left of column `x` in rows above row `y`.
pub open spec fn prefix_sum(img: LumaImage, x: int, y: int) -> int {
    block_sum(img, 0, 0, x, y)
}

/// The first coordinate of a window of radius `r` around `c`.
pub open spec fn window_start(c: int, r: int) -> int {
    if c >= r {
        c - r
    } else {
        0
    }
}

/// The last coordinate of a window of radius `r` around `c`, inside `0..limit`.
pub open spec fn window_end(c: int, r: int, limit: int) -> int {
    if c + r < limit - 1 {
        c + r
    } else {
        limit - 1
    }
}

/// The mean luma (rounded down) of the window of radius `r` around `(x, y)`, clipped
/// to the image.
pub open spec fn window_mean(img: LumaImage, r: int, x: int, y: int) -> int {
    let x0 = window_start(x, r);
    let y0 = window_start(y, r);
    let w = window_end(x, r, img.spec_width() as int) - x0 + 1;
    let h = window_end(y, r, img.spec_height() as int) - y0 + 1;
    rect_sum_spec(img, x0, y0, w, h) / (w * h)
}

/// The adaptively thresholded pixel: black when darker than its window's mean less
/// `bias` (at least zero), white otherwise.
pub open spec fn adaptive_pixel(img: LumaImage, r: int, bias: u8, x: int, y: int) -> u8 {
    let mean = window_mean(img, r, x, y);
    let threshold = if mean >= bias {
        mean - bias
    } else {
        0
    };
    if luma_at(img, x, y) < threshold {
        0
    } else {
        255
    }
}

proof fn lemma_row_split(img: LumaImage, x0: int, y: int, a: int, b: int)
    requires
        0 <= a,
        0 <= b,
    ensures
        row_sum(img, x0, y, a + b) == row_sum(img, x0, y, a) + row_sum(img, x0 + a, y, b),
    decreases b,
{
    if b > 0 {
        lemma_row_split(img, x0, y, a, b - 1);
        assert(x0 + (a + b) - 1 == x0 + a + b - 1);
    }
}

proof fn lemma_block_split_columns(img: LumaImage, x0: int, y0: int, a: int, b: int, m: int)
    requires
        0 <= a,
        0 <= b,
        0 <= m,
    ensures
        block_sum(img, x0, y0, a + b, m) == block_sum(img, x0, y0, a, m) + block_sum(
            img,
            x0 + a,
            y0,
            b,
            m,
        ),
    decreases m,
{
    if m > 0 {
        lemma_block_split_columns(img, x0, y0, a, b, m - 1);
        lemma_row_split(img, x0, y0 + m - 1, a, b);
    }
}

proof fn lemma_block_split_rows(img: LumaImage, x0: int, y0: int, w: int, a: int, b: int)
    requires
        0 <= a,
        0 <= b,
        0 <= w,
    ensures
        block_sum(img, x0, y0, w, a + b) == block_sum(img, x0, y0, w, a) + block_sum(
            img,
            x0,
            y0 + a,
            w,
            b,
        ),
    decreases b,
{
    if b > 0 {
        lemma_block_split_rows(img, x0, y0, w, a, b - 1);
        assert(y0 + (a + b) - 1 == y0 + a + b - 1);
    }
}

/// A rectangle's sum from four prefix sums.
proof fn lemma_rect_from_prefix(img: LumaImage, x0: int, y0: int, w: int, h: int)
    requires
        0 <= x0,
        0 <= y0,
        0 <= w,
        0 <= h,
    ensures
        rect_sum_spec(img, x0, y0, w, h) == prefix_sum(img, x0 + w, y0 + h) - prefix_sum(
            img,
            x0,
            y0 + h,
        ) - prefix_sum(img, x0 + w, y0) + prefix_sum(img, x0, y0),
{
    lemma_block_split_columns(img, 0, 0, x0, w, y0 + h);
    lemma_block_split_columns(img, 0, 0, x0, w, y0);
    lemma_block_split_rows(img, x0, 0, w, y0, h);
}

proof fn lemma_zero_width(img: LumaImage, m: int)
    requires
        0 <= m,
    ensures
        block_sum(img, 0, 0, 0, m) == 0,
    decreases m,
{
    if m > 0 {
        lemma_zero_width(img, m - 1);
    }
}

proof fn lemma_sums_bound(img: LumaImage, x0: int, y0: int, w: int, h: int)
    requires
        0 <= w,
        0 <= h,
    ensures
        0 <= block_sum(img, x0, y0, w, h) <= 255 * w * h,
    decreases h,
{
    if h > 0 {
        lemma_sums_bound(img, x0, y0, w, h - 1);
        lemma_row_bound(img, x0, y0 + h - 1, w);
        assert(255 * w * (h - 1) + 255 * w == 255 * w * h) by (nonlinear_arith);
    } else {
        assert(255 * w * h == 0) by (nonlinear_arith)
            requires
                h == 0,
        ;
    }
}

proof fn lemma_row_bound(img: LumaImage, x0: int, y: int, n: int)
    requires
        0 <= n,
    ensures
        0 <= row_sum(img, x0, y, n) <= 255 * n,
    decreases n,
{
    if n > 0 {
        lemma_row_bound(img, x0, y, n - 1);
    }
}

proof fn lemma_index_bound(w: int, h: int, x: int, y: int)
    requires
        0 <= x < w,
        0 <= y < h,
    ensures
        0 <= y * w + x < w * h,
        0 <= (y + 1) * (w + 1) + x + 1 < (w + 1) * (h + 1),
        (y + 1) * (w + 1) + x + 1 - (w + 1) == y * (w + 1) + x + 1,
{
    assert(0 <= y * w + x < w * h) by (nonlinear_arith)
        requires
            0 <= x < w,
            0 <= y < h,
    ;
    assert(0 <= (y + 1) * (w + 1) + x + 1 < (w + 1) * (h + 1)) by (nonlinear_arith)
        requires
            0 <= x < w,
            0 <= y < h,
    ;
    assert((y + 1) * (w + 1) == y * (w + 1) + (w + 1)) by (nonlinear_arith);
}

proof fn lemma_grid_index_distinct(stride: int, x1: int, y1: int, x2: int, y2: int)
    requires
        0 <= x1 < stride,
        0 <= x2 < stride,
        0 <= y1,
        0 <= y2,
        x1 != x2 || y1 != y2,
    ensures
        y1 * stride + x1 != y2 * stride + x2,
{
    if y1 < y2 {
        assert(y1 * stride + x1 < y2 * stride + x2) by (nonlinear_arith)
            requires
                0 <= x1 < stride,
                0 <= x2,
                0 <= y1 < y2,
        ;
    } else if y2 < y1 {
        assert(y2 * stride + x2 < y1 * stride + x1) by (nonlinear_arith)
            requires
                0 <= x2 < stride,
                0 <= x1,
                0 <= y2 < y1,
        ;
    }
}

proof fn lemma_grid_index_bound(stride: int, rows: int, x: int, y: int)
    requires
        0 <= x < stride,
        0 <= y < rows,
    ensures
        0 <= y * stride + x < stride * rows,
{
    assert(0 <= y * stride + x < stride * rows) by (nonlinear_arith)
        requires
            0 <= x < stride,
            0 <= y < rows,
    ;
}

/// The integral image: entry `y * (w + 1) + x` holds the luma sum of the pixels left of
/// column `x` in rows above row `y`.
#[verifier::rlimit(60)]
fn integral_image(image: &LumaImage) -> (r: Vec<u128>)
    requires
        ((image.spec_width() as int) + 1) * ((image.spec_height() as int) + 1) <= usize::MAX,
    ensures
        r@.len() == ((image.spec_width() as int) + 1) * ((image.spec_height() as int) + 1),
        forall|x: int, y: int|
            0 <= x <= image.spec_width() && 0 <= y <= image.spec_height() ==> #[trigger] r@[y
                * ((image.spec_width() as int) + 1) + x] == prefix_sum(*image, x, y),
{
    proof {
        use_type_invariant(image);
    }
    let ghost img = *image;
    let width = image.width() as usize;
    let height = image.height() as usize;
    let ghost w = width as int;
    let ghost h = height as int;
    proof {
        assert(w + 1 <= (w + 1) * (h + 1) && h + 1 <= (w + 1) * (h + 1)) by (nonlinear_arith)
            requires
                w >= 0,
                h >= 0,
        ;
    }
    let stride = width + 1;
    let n = stride * (height + 1);
    let pixels = image.pixels();
    let plen = pixels.len();
    let mut integral: Vec<u128> = Vec::new();
    let mut i: usize = 0;
    while i < n
        invariant
            i <= n,
            integral@.len() == i,
            forall|j: int| 0 <= j < i ==> integral@[j] == 0,
        decreases n - i,
    {
        integral.push(0);
        i = i + 1;
    }
    proof {
        assert forall|x: int| 0 <= x <= w implies #[trigger] integral@[0 * (w + 1) + x] == prefix_sum(
            img,
            x,
            0,
        ) by {
            lemma_grid_index_bound(w + 1, h + 1, x, 0);
        }
        assert forall|x: int, yy: int| 0 <= x <= w && 0 < yy <= h implies #[trigger] integral@[yy * (w
            + 1) + x] == 0 by {
            lemma_grid_index_bound(w + 1, h + 1, x, yy);
        }
    }
    let mut y: usize = 0;
    while y < height
        invariant
            img == *image,
            img.well_formed(),
            pixels@ == img@,
            plen == pixels@.len(),
            w == img.spec_width(),
            h == img.spec_height(),
            width == w,
            height == h,
            stride == w + 1,
            n == (w + 1) * (h + 1),
            n <= usize::MAX,
            y <= height,
            integral@.len() == n,
            forall|x: int, yy: int|
                0 <= x <= w && 0 <= yy <= y ==> #[trigger] integral@[yy * (w + 1) + x] == prefix_sum(
                    img,
                    x,
                    yy,
                ),
            forall|x: int, yy: int|
                0 <= x <= w && y < yy <= h ==> #[trigger] integral@[yy * (w + 1) + x] == 0,
        decreases height - y,
    {
        let mut row: u128 = 0;
        let mut x: usize = 0;
        proof {
            lemma_zero_width(img, y + 1);
        }
        while x < width
            invariant
                img == *image,
                img.well_formed(),
                pixels@ == img@,
                plen == pixels@.len(),
                w == img.spec_width(),
                h == img.spec_height(),
                width == w,
                height == h,
                stride == w + 1,
                n == (w + 1) * (h + 1),
                n <= usize::MAX,
                y < height,
                x <= width,
                integral@.len() == n,
                row == row_sum(img, 0, y as int, x as int),
                forall|xx: int, yy: int|
                    0 <= xx <= w && 0 <= yy <= y ==> #[trigger] integral@[yy * (w + 1) + xx]
                        == prefix_sum(img, xx, yy),
                forall|xx: int| 0 <= xx <= x ==> #[trigger] integral@[(y + 1) * (w + 1) + xx] == prefix_sum(
                    img,
                    xx,
                    y + 1,
                ),
                forall|xx: int, yy: int|
                    0 <= xx <= w && y + 1 < yy <= h ==> #[trigger] integral@[yy * (w + 1) + xx] == 0,
            decreases width - x,
        {
            proof {
                lemma_index_bound(w, h, x as int, y as int);
                lemma_row_bound(img, 0, y as int, x as int);
                lemma_sums_bound(img, 0, 0, x + 1, y as int);
                assert(255 * (x + 1) * y <= 255 * 0x1_0000_0000 * 0x1_0000_0000int) by (nonlinear_arith)
                    requires
                        x + 1 <= 0x1_0000_0000int,
                        y <= 0x1_0000_0000int,
                ;
                assert(integral@[y * (w + 1) + (x + 1)] == prefix_sum(img, x + 1, y as int));
            }
            row = row + pixels[y * width + x] as u128;
            let index = (y + 1) * stride + x + 1;
            let above = integral[index - stride];
            let ghost before = integral@;
            integral.set(index, above + row);
            proof {
                assert(row == row_sum(img, 0, y as int, x + 1));
                assert forall|xx: int, yy: int|
                    0 <= xx <= w && 0 <= yy <= y implies #[trigger] integral@[yy * (w + 1) + xx]
                        == prefix_sum(img, xx, yy) by {
                    lemma_grid_index_distinct(w + 1, xx, yy, x + 1, y + 1);
                    lemma_grid_index_bound(w + 1, h + 1, xx, yy);
                }
                assert forall|xx: int| 0 <= xx <= x + 1 implies #[trigger] integral@[(y + 1) * (w + 1) + xx]
                    == prefix_sum(img, xx, y + 1) by {
                    lemma_grid_index_bound(w + 1, h + 1, xx, y + 1);
                    if xx < x + 1 {
                        lemma_grid_index_distinct(w + 1, xx, y + 1, x + 1, y + 1);
                    }
                }
                assert forall|xx: int, yy: int|
                    0 <= xx <= w && y + 1 < yy <= h implies #[trigger] integral@[yy * (w + 1) + xx]
                        == 0 by {
                    lemma_grid_index_distinct(w + 1, xx, yy, x + 1, y + 1);
                    lemma_grid_index_bound(w + 1, h + 1, xx, yy);
                }
            }
            x = x + 1;
        }
        y = y + 1;
    }
    integral
}

/// The window sum from its four corner prefix sums, and the bounds that keep the
/// arithmetic in range.
proof fn lemma_window_sum(img: LumaImage, x0: int, y0: int, x1: int, y1: int, a: int, b: int, c: int, d: int)
    requires
        0 <= x0 <= x1 < 0x1_0000_0000int,
        0 <= y0 <= y1 < 0x1_0000_0000int,
        a == prefix_sum(img, x1 + 1, y1 + 1),
        b == prefix_sum(img, x1 + 1, y0),
        c == prefix_sum(img, x0, y1 + 1),
        d == prefix_sum(img, x0, y0),
    ensures
        a + d - b - c == rect_sum_spec(img, x0, y0, x1 - x0 + 1, y1 - y0 + 1),
        0 <= a + d <= 2 * 255 * 0x1_0000_0000 * 0x1_0000_0000int,
        0 <= b,
        0 <= c,
        c <= a + d - b,
        c <= a + d - b,
        (x1 - x0 + 1) * (y1 - y0 + 1) >= 1,
        (x1 - x0 + 1) * (y1 - y0 + 1) <= 0x1_0000_0000 * 0x1_0000_0000int,
        (a + d - b - c) / ((x1 - x0 + 1) * (y1 - y0 + 1)) <= 255,
{
    let ww = x1 - x0 + 1;
    let hh = y1 - y0 + 1;
    lemma_rect_from_prefix(img, x0, y0, ww, hh);
    lemma_sums_bound(img, x0, y0, ww, hh);
    lemma_sums_bound(img, 0, 0, x1 + 1, y1 + 1);
    lemma_sums_bound(img, 0, 0, x1 + 1, y0);
    lemma_sums_bound(img, 0, 0, x0, y1 + 1);
    lemma_sums_bound(img, 0, 0, x0, y0);
    assert(255 * (x1 + 1) * (y1 + 1) <= 255 * 0x1_0000_0000 * 0x1_0000_0000int) by (nonlinear_arith)
        requires
            0 <= x1 + 1 <= 0x1_0000_0000int,
            0 <= y1 + 1 <= 0x1_0000_0000int,
    ;
    assert(255 * x0 * y0 <= 255 * (x1 + 1) * (y1 + 1)) by (nonlinear_arith)
        requires
            0 <= x0 <= x1 + 1,
            0 <= y0 <= y1 + 1,
    ;
    assert(ww * hh >= 1 && ww * hh <= 0x1_0000_0000 * 0x1_0000_0000int) by (nonlinear_arith)
        requires
            1 <= ww <= 0x1_0000_0000int,
            1 <= hh <= 0x1_0000_0000int,
    ;
    let r = rect_sum_spec(img, x0, y0, ww, hh);
    assert(r / (ww * hh) <= 255) by (nonlinear_arith)
        requires
            0 <= r <= 255 * ww * hh,
            ww * hh >= 1,
    ;
}

/// The window mean, from the integral image.
#[verifier::spinoff_prover]
#[verifier::rlimit(40)]
fn window_mean_at(
    image: &LumaImage,
    integral: &Vec<u128>,
    radius: u32,
    x: u32,
    y: u32,
) -> (r: u8)
    requires
        ((image.spec_width() as int) + 1) * ((image.spec_height() as int) + 1) <= usize::MAX,
        x < image.spec_width(),
        y < image.spec_height(),
        integral@.len() == ((image.spec_width() as int) + 1) * ((image.spec_height() as int) + 1),
        forall|xx: int, yy: int|
            0 <= xx <= image.spec_width() && 0 <= yy <= image.spec_height() ==> #[trigger] integral@[yy
                * ((image.spec_width() as int) + 1) + xx] == prefix_sum(*image, xx, yy),
    ensures
        r == window_mean(*image, radius as int, x as int, y as int),
{
    let ghost img = *image;
    let ghost sw = (image.spec_width() as int) + 1;
    let w = image.width() as u64;
    let h = image.height() as u64;
    let r = radius as u64;
    let x = x as u64;
    let y = y as u64;
    let x0 = if x >= r { x - r } else { 0 };
    let y0 = if y >= r { y - r } else { 0 };
    let x1 = if x + r < w - 1 { x + r } else { w - 1 };
    let y1 = if y + r < h - 1 { y + r } else { h - 1 };
    proof {
        assert(w + 1 <= (w + 1) * (h + 1)) by (nonlinear_arith)
            requires
                h >= 0,
                w >= 0,
        ;
        lemma_grid_index_bound(sw, h + 1, x1 + 1, y1 + 1);
        lemma_grid_index_bound(sw, h + 1, x0 as int, y0 as int);
        lemma_grid_index_bound(sw, h + 1, x1 + 1, y0 as int);
        lemma_grid_index_bound(sw, h + 1, x0 as int, y1 + 1);
    }
    let stride = (w + 1) as usize;
    let a = integral[(y1 as usize + 1) * stride + x1 as usize + 1];
    let b = integral[y0 as usize * stride + x1 as usize + 1];
    let c = integral[(y1 as usize + 1) * stride + x0 as usize];
    let d = integral[y0 as usize * stride + x0 as usize];
    proof {
        assert(a == integral@[(y1 + 1) * sw + (x1 + 1)]);
        assert(b == integral@[y0 * sw + (x1 + 1)]);
        assert(c == integral@[(y1 + 1) * sw + x0]);
        assert(d == integral@[y0 * sw + x0]);
        lemma_window_sum(
            img,
            x0 as int,
            y0 as int,
            x1 as int,
            y1 as int,
            a as int,
            b as int,
            c as int,
            d as int,
        );
    }
    let sum = a + d - b - c;
    let area = (x1 - x0 + 1) as u128 * (y1 - y0 + 1) as u128;
    (sum / area) as u8
}

/// The summed-area table of a grayscale image: the luma sum of any rectangle in four
/// lookups.
pub struct IntegralGray {
    width: u32,
    height: u32,
    sums: Vec<u128>,
    image: Ghost<LumaImage>,
}

impl IntegralGray {
    /// The image the table sums.
    pub closed spec fn source(&self) -> LumaImage {
        self.image@
    }

    /// Entry `y * (w + 1) + x` holds the sum of the pixels left of column `x` in rows
    /// above row `y`.
    #[verifier::type_invariant]
    closed spec fn table_holds(&self) -> bool {
        &&& self.width == self.image@.spec_width()
        &&& self.height == self.image@.spec_height()
        &&& self.sums@.len() == ((self.width as int) + 1) * ((self.height as int) + 1)
        &&& forall|x: int, y: int|
            0 <= x <= self.width && 0 <= y <= self.height ==> #[trigger] self.sums@[y * ((self.width as int)
                + 1) + x] == prefix_sum(self.image@, x, y)
    }

    /// The table of `image`, or `None` when it does not fit in memory.
    pub fn new(image: &LumaImage) -> (r: Option<IntegralGray>)
        ensures
            r is Some <==> ((image.spec_width() as int) + 1) * ((image.spec_height() as int) + 1)
                <= usize::MAX,
            r matches Some(t) ==> t.source() == *image,
    {
        let w = image.width() as u128;
        let h = image.height() as u128;
        proof {
            assert((w + 1) * (h + 1) <= 0x1_0000_0000 * 0x1_0000_0000int) by (nonlinear_arith)
                requires
                    w <= 0xffff_ffff,
                    h <= 0xffff_ffff,
            ;
        }
        if (w + 1) * (h + 1) > usize::MAX as u128 {
            return None;
        }
        let sums = integral_image(image);
        Some(IntegralGray { width: image.width(), height: image.height(), sums, image: Ghost(*image) })
    }

    /// The luma sum of the pixels in columns `x0..=x1` and rows `y0..=y1`, cut at the
    /// image's edges.
    pub fn sum_inclusive(&self, x0: u32, y0: u32, x1: u32, y1: u32) -> (r: u128)
        requires
            x0 <= x1,
            y0 <= y1,
        ensures
            ({
                let w = self.source().spec_width() as int;
                let h = self.source().spec_height() as int;
                let ax = if x0 <= w { x0 as int } else { w };
                let ay = if y0 <= h { y0 as int } else { h };
                let bx = if x1 + 1 <= w { x1 + 1 } else { w };
                let by = if y1 + 1 <= h { y1 + 1 } else { h };
                r == rect_sum_spec(self.source(), ax, ay, bx - ax, by - ay)
            }),
    {
        proof {
            use_type_invariant(self);
        }
        let ghost img = self.image@;
        let ax = if x0 <= self.width { x0 } else { self.width } as usize;
        let ay = if y0 <= self.height { y0 } else { self.height } as usize;
        let bx = if (x1 as u64) + 1 <= self.width as u64 { x1 + 1 } else { self.width } as usize;
        let by = if (y1 as u64) + 1 <= self.height as u64 { y1 + 1 } else { self.height } as usize;
        let n = self.sums.len();
        let ghost sw = (self.width as int) + 1;
        let ghost sh = (self.height as int) + 1;
        proof {
            assert(sw <= sw * sh) by (nonlinear_arith)
                requires
                    sw >= 1,
                    sh >= 1,
            ;
        }
        let stride = self.width as usize + 1;
        proof {
            lemma_grid_index_bound(sw, sh, ax as int, ay as int);
            lemma_grid_index_bound(sw, sh, bx as int, ay as int);
            lemma_grid_index_bound(sw, sh, ax as int, by as int);
            lemma_grid_index_bound(sw, sh, bx as int, by as int);
        }
        let a = self.sums[ay * stride + ax];
        let b = self.sums[ay * stride + bx];
        let c = self.sums[by * stride + ax];
        let d = self.sums[by * stride + bx];
        proof {
            assert(a == prefix_sum(img, ax as int, ay as int));
            assert(b == prefix_sum(img, bx as int, ay as int));
            assert(c == prefix_sum(img, ax as int, by as int));
            assert(d == prefix_sum(img, bx as int, by as int));
            let rw = bx - ax;
            let rh = by - ay;
            lemma_rect_from_prefix(img, ax as int, ay as int, rw as int, rh as int);
            lemma_sums_bound(img, ax as int, ay as int, rw as int, rh as int);
            lemma_sums_bound(img, 0, 0, bx as int, by as int);
            lemma_sums_bound(img, 0, 0, bx as int, ay as int);
            lemma_sums_bound(img, 0, 0, ax as int, by as int);
            lemma_sums_bound(img, 0, 0, ax as int, ay as int);
            assert(255 * (ax as int) * (ay as int) <= 255 * 0x1_0000_0000 * 0x1_0000_0000int) by (nonlinear_arith)
                requires
                    0 <= ax <= 0x1_0000_0000int,
                    0 <= ay <= 0x1_0000_0000int,
            ;
            assert(255 * (bx as int) * (by as int) <= 255 * 0x1_0000_0000 * 0x1_0000_0000int) by (nonlinear_arith)
                requires
                    0 <= bx <= 0x1_0000_0000int,
                    0 <= by <= 0x1_0000_0000int,
            ;
        }
        d + a - b - c
    }
}

/// Threshold each pixel against the mean of its window of the given radius, less
/// `bias`: darker pixels become black, the others white.
pub fn adaptive_threshold(image: &LumaImage, radius: u32, bias: u8) -> (r: Result<
    LumaImage,
    CvError,
>)
    requires
        ((image.spec_width() as int) + 1) * ((image.spec_height() as int) + 1) <= usize::MAX,
    ensures
        image.spec_width() == 0 || image.spec_height() == 0 ==> r == Err::<LumaImage, CvError>(
            CvError::EmptyImage,
        ),
        image.spec_width() > 0 && image.spec_height() > 0 && radius == 0 ==> r == Err::<
            LumaImage,
            CvError,
        >(CvError::InvalidWindow),
        image.spec_width() > 0 && image.spec_height() > 0 && radius > 0 ==> match r {
            Ok(out) => {
                &&& out.spec_width() == image.spec_width()
                &&& out.spec_height() == image.spec_height()
                &&& forall|x: int, y: int|
                    0 <= x < image.spec_width() && 0 <= y < image.spec_height() ==> #[trigger] luma_at(
                        out,
                        x,
                        y,
                    ) == adaptive_pixel(*image, radius as int, bias, x, y)
            },
            Err(_) => false,
        },
{
    proof {
        use_type_invariant(image);
    }
    let width = image.width();
    let height = image.height();
    if width == 0 || height == 0 {
        return Err(CvError::EmptyImage);
    }
    if radius == 0 {
        return Err(CvError::InvalidWindow);
    }
    let ghost img = *image;
    let ghost w = width as int;
    let integral = integral_image(image);
    let pixels = image.pixels();
    let plen = pixels.len();
    let mut out: Vec<u8> = Vec::new();
    let mut y: u32 = 0;
    while y < height
        invariant
            img == *image,
            img.well_formed(),
            pixels@ == img@,
            plen == pixels@.len(),
            width == img.spec_width(),
            height == img.spec_height(),
            w == width,
            radius > 0,
            y <= height,
            (w + 1) * (height + 1) <= usize::MAX,
            out@.len() == y * w,
            integral@.len() == (w + 1) * (height + 1),
            forall|xx: int, yy: int|
                0 <= xx <= width && 0 <= yy <= height ==> #[trigger] integral@[yy * (w + 1) + xx]
                    == prefix_sum(img, xx, yy),
            forall|k: int|
                0 <= k < y * w ==> #[trigger] out@[k] == adaptive_pixel(
                    img,
                    radius as int,
                    bias,
                    k % w,
                    k / w,
                ),
        decreases height - y,
    {
        let mut x: u32 = 0;
        while x < width
            invariant
                img == *image,
                img.well_formed(),
                pixels@ == img@,
                plen == pixels@.len(),
                width == img.spec_width(),
                height == img.spec_height(),
                w == width,
                radius > 0,
                y < height,
                x <= width,
                (w + 1) * (height + 1) <= usize::MAX,
                out@.len() == y * w + x,
                integral@.len() == (w + 1) * (height + 1),
                forall|xx: int, yy: int|
                    0 <= xx <= width && 0 <= yy <= height ==> #[trigger] integral@[yy * (w + 1) + xx]
                        == prefix_sum(img, xx, yy),
                forall|k: int|
                    0 <= k < y * w + x ==> #[trigger] out@[k] == adaptive_pixel(
                        img,
                        radius as int,
                        bias,
                        k % w,
                        k / w,
                    ),
            decreases width - x,
        {
            let mean = window_mean_at(image, &integral, radius, x, y);
            let threshold = if mean >= bias { mean - bias } else { 0 };
            proof {
                lemma_index_bound(w, height as int, x as int, y as int);
            }
            let value = if pixels[y as usize * width as usize + x as usize] < threshold {
                0u8
            } else {
                255u8
            };
            proof {
                let k = y * w + x;
                assert(k % w == x && k / w == y) by (nonlinear_arith)
                    requires
                        k == y * w + x,
                        0 <= x < w,
                        y >= 0,
                ;
            }
            out.push(value);
            x = x + 1;
        }
        proof {
            assert((y + 1) * w == y * w + w) by (nonlinear_arith);
        }
        y = y + 1;
    }
    proof {
        assert(out@.len() == (width as int) * (height as int)) by (nonlinear_arith)
            requires
                out@.len() == y * w,
                y == height,
                w == width,
        ;
    }
    match LumaImage::from_raw(width, height, out) {
        Some(result) => {
            proof {
                assert forall|x: int, yy: int| 0 <= x < image.spec_width() && 0 <= yy < image.spec_height()
                    implies #[trigger] luma_at(result, x, yy) == adaptive_pixel(img, radius as int, bias, x, yy) by {
                    let k = yy * w + x;
                    assert(k % w == x && k / w == yy && 0 <= k < (height as int) * w) by (nonlinear_arith)
                        requires
                            k == yy * w + x,
                            0 <= x < w,
                            0 <= yy < height,
                    ;
                    assert(luma_at(result, x, yy) == result@[k] as int);
                }
            }
            Ok(result)
        },
        None => Err(CvError::EmptyImage),
    }
}

} // verus!
