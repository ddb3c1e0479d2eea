//! Raster sampling: reading a symbol matrix out of a grayscale image, with fixed or
//! inferred module size, quiet zone, threshold and layout.
use vstd::prelude::*;

use crate::bitstream::{bits_to_bytes, bytes_of_bits};
use crate::cell::{cell_is_dark, Cell};
use crate::error::GlyphError;
use crate::frame::{parse_header, FrameHeader, HEADER_LEN};
use crate::recovery::RecoveryTelemetry;
use crate::wire::copy_range;
use crate::decode::{
    decode_bits_spec, decode_matrix_with_suspects, AutoDecodeInfo, AutoDecodedSymbol, DecodeError,
    DecodeOptions, DecodedSymbol, RasterDecoder,
};
use crate::decode::lemma_decode_encoded;
use crate::descriptor::LayoutFamily;
use crate::encode::{encode_frame_error, encoded_symbol_spec, EncodedSymbol, EncoderConfig};
use crate::mode::TransmissionMode;
use crate::layout::{
    capacity_spec, count_row, count_rows, function_cell_for, function_cell_spec, is_data_spec,
    lemma_capacity_bound,
};
use crate::matrix::{
    data_positions, fresh_cell, lemma_data_positions, read_bits_spec, lemma_lin_bound, lemma_next_position,
    lemma_prefix_within, lin, SymbolMatrix,
};

verus! {

/// A grayscale raster: one luma byte per pixel, in row-major order.
#[derive(Debug, PartialEq, Eq)]
pub struct LumaImage {
    width: u32,
    height: u32,
    pixels: Vec<u8>,
}

impl View for LumaImage {
    type V = Seq<u8>;

    /// The row-major luma bytes.
    closed spec fn view(&self) -> Seq<u8> {
        self.pixels@
    }
}

impl Clone for LumaImage {
    fn clone(&self) -> (r: Self)
        ensures
            r@ == self@,
            r.spec_width() == self.spec_width(),
            r.spec_height() == self.spec_height(),
    {
        proof {
            use_type_invariant(self);
        }
        LumaImage {
            width: self.width,
            height: self.height,
            pixels: copy_range(self.pixels.as_slice(), 0, self.pixels.len()),
        }
    }
}

impl LumaImage {
    /// Width in pixels.
    pub closed spec fn spec_width(&self) -> u32 {
        self.width
    }

    /// Height in pixels.
    pub closed spec fn spec_height(&self) -> u32 {
        self.height
    }

    /// One luma byte per pixel: every image has it.
    #[verifier::type_invariant]
    pub open spec fn well_formed(&self) -> bool {
        self@.len() == (self.spec_width() as int) * (self.spec_height() as int)
    }

    /// An image of `width` x `height` pixels over the row-major luma bytes `pixels`,
    /// when there is exactly one byte per pixel.
    pub fn from_raw(width: u32, height: u32, pixels: Vec<u8>) -> (r: Option<LumaImage>)
        ensures
            r is Some <==> pixels@.len() == (width as int) * (height as int),
            r matches Some(img) ==> img.spec_width() == width && img.spec_height() == height
                && img@ == pixels@ && img.well_formed(),
    {
        proof {
            assert((width as int) * (height as int) <= 0xffff_ffff * 0xffff_ffffint)
                by (nonlinear_arith)
                requires
                    width <= 0xffff_ffff,
                    height <= 0xffff_ffff,
            ;
        }
        if (pixels.len() as u128) == (width as u128) * (height as u128) {
            Some(LumaImage { width, height, pixels })
        } else {
            None
        }
    }

    /// Width in pixels.
    pub fn width(&self) -> (r: u32)
        ensures
            r == self.spec_width(),
    {
        self.width
    }

    /// Height in pixels.
    pub fn height(&self) -> (r: u32)
        ensures
            r == self.spec_height(),
    {
        self.height
    }

    /// The luma of pixel `(x, y)`.
    pub fn luma(&self, x: u32, y: u32) -> (r: u8)
        requires
            x < self.spec_width(),
            y < self.spec_height(),
        ensures
            r == luma_at(*self, x as int, y as int),
    {
        let n = self.pixels.len();
        proof {
            use_type_invariant(self);
            let w = self.width as int;
            let h = self.height as int;
            assert(0 <= (y as int) * w + (x as int) < w * h) by (nonlinear_arith)
                requires
                    0 <= x < w,
                    0 <= y < h,
            ;
            assert(self.pixels@.len() == w * h);
            assert(0 <= (y as int) * w <= (y as int) * w + (x as int));
        }
        let row = (y as usize) * (self.width as usize);
        self.pixels[row + (x as usize)]
    }

    /// The row-major luma bytes.
    pub fn pixels(&self) -> (r: &[u8])
        ensures
            r@ == self@,
    {
        self.pixels.as_slice()
    }
}

/// The luma of pixel `(x, y)`.
pub open spec fn luma_at(img: LumaImage, x: int, y: int) -> int {
    img@[y * (img.spec_width() as int) + x] as int
}

/// The luma sum of the `n` pixels of row `y` from column `x0`.
pub open spec fn row_sum(img: LumaImage, x0: int, y: int, n: int) -> int
    decreases n,
{
    if n <= 0 {
        0
    } else {
        row_sum(img, x0, y, n - 1) + luma_at(img, x0 + n - 1, y)
    }
}

/// The luma sum of the first `m` rows of the `px`-wide block at `(x0, y0)`.
pub open spec fn block_sum(img: LumaImage, x0: int, y0: int, px: int, m: int) -> int
    decreases m,
{
    if m <= 0 {
        0
    } else {
        block_sum(img, x0, y0, px, m - 1) + row_sum(img, x0, y0 + m - 1, px)
    }
}

/// The mean luma (rounded down) of module `(mx, my)` of a symbol drawn with `px`-pixel
/// modules behind a quiet zone of `qx` and `qy` modules.
pub open spec fn module_luma(img: LumaImage, mx: int, my: int, px: int, qx: int, qy: int) -> int {
    block_sum(img, (mx + qx) * px, (my + qy) * px, px, px) / (px * px)
}

proof fn lemma_row_sum_bound(img: LumaImage, x0: int, y: int, n: int)
    requires
        0 <= n,
    ensures
        0 <= row_sum(img, x0, y, n) <= 255 * n,
    decreases n,
{
    if n > 0 {
        lemma_row_sum_bound(img, x0, y, n - 1);
    }
}

proof fn lemma_block_sum_bound(img: LumaImage, x0: int, y0: int, px: int, m: int)
    requires
        0 <= m,
        0 <= px,
    ensures
        0 <= block_sum(img, x0, y0, px, m) <= 255 * px * m,
    decreases m,
{
    if m > 0 {
        lemma_block_sum_bound(img, x0, y0, px, m - 1);
        lemma_row_sum_bound(img, x0, y0 + m - 1, px);
        assert(255 * px * (m - 1) + 255 * px == 255 * px * m) by (nonlinear_arith);
    }
}

proof fn lemma_pixel_index(w: u32, h: u32, x: int, y: int)
    requires
        0 <= x < w,
        0 <= y < h,
    ensures
        0 <= y * (w as int) + x < (w as int) * (h as int),
        y * (w as int) <= (w as int) * (h as int),
{
    assert(0 <= y * (w as int) + x < (w as int) * (h as int)) by (nonlinear_arith)
        requires
            0 <= x < w,
            0 <= y < h,
    ;
}

/// The mean luma of one module: the pixels of the `module_px`-square block of module
/// `(module_x, module_y)`, offset by the quiet zone.
pub fn average_module_luma(
    image: &LumaImage,
    module_x: u32,
    module_y: u32,
    module_px: u32,
    quiet_zone_x_modules: u32,
    quiet_zone_y_modules: u32,
) -> (r: u8)
    requires
        image.well_formed(),
        module_px > 0,
        (module_x + quiet_zone_x_modules + 1) * module_px <= image.spec_width(),
        (module_y + quiet_zone_y_modules + 1) * module_px <= image.spec_height(),
    ensures
        r == module_luma(
            *image,
            module_x as int,
            module_y as int,
            module_px as int,
            quiet_zone_x_modules as int,
            quiet_zone_y_modules as int,
        ),
{
    let ghost img = *image;
    let w = image.width;
    let h = image.height;
    let px = module_px;
    let n = image.pixels.len();
    proof {
        let ax = module_x + quiet_zone_x_modules;
        let ay = module_y + quiet_zone_y_modules;
        assert(ax * px + px == (ax + 1) * px && ax + 1 <= (ax + 1) * px) by (nonlinear_arith)
            requires
                px > 0,
                ax >= 0,
        ;
        assert(ay * px + px == (ay + 1) * px && ay + 1 <= (ay + 1) * px) by (nonlinear_arith)
            requires
                px > 0,
                ay >= 0,
        ;
    }
    let start_x = (module_x + quiet_zone_x_modules) * px;
    let start_y = (module_y + quiet_zone_y_modules) * px;
    let mut sum: u128 = 0;
    let mut dy: u32 = 0;
    while dy < px
        invariant
            img == *image,
            w == img.spec_width(),
            h == img.spec_height(),
            img.well_formed(),
            n == img@.len(),
            px > 0,
            start_x + px <= w,
            start_y + px <= h,
            dy <= px,
            sum == block_sum(img, start_x as int, start_y as int, px as int, dy as int),
        decreases px - dy,
    {
        let y = start_y + dy;
        let mut row: u128 = 0;
        let mut dx: u32 = 0;
        while dx < px
            invariant
                img == *image,
                w == img.spec_width(),
                h == img.spec_height(),
                img.well_formed(),
                n == img@.len(),
                start_x + px <= w,
                y < h,
                dx <= px,
                row == row_sum(img, start_x as int, y as int, dx as int),
            decreases px - dx,
        {
            let x = start_x + dx;
            proof {
                lemma_pixel_index(w, h, x as int, y as int);
                lemma_row_sum_bound(img, start_x as int, y as int, dx as int);
            }
            let index = y as usize * w as usize + x as usize;
            row = row + image.pixels[index] as u128;
            dx = dx + 1;
        }
        proof {
            lemma_block_sum_bound(img, start_x as int, start_y as int, px as int, dy as int);
            lemma_row_sum_bound(img, start_x as int, y as int, px as int);
            assert(255 * (px as int) * (dy as int) <= 255 * 0xffff_ffff * 0xffff_ffffint)
                by (nonlinear_arith)
                requires
                    dy <= px,
                    px <= 0xffff_ffff,
            ;
        }
        sum = sum + row;
        dy = dy + 1;
    }
    proof {
        lemma_block_sum_bound(img, start_x as int, start_y as int, px as int, px as int);
        let s = sum as int;
        let d = (px as int) * (px as int);
        assert(s / d <= 255) by (nonlinear_arith)
            requires
                0 <= s <= 255 * (px as int) * (px as int),
                d == (px as int) * (px as int),
                px > 0,
        ;
        assert(0 < d <= 0xffff_ffff * 0xffff_ffffint) by (nonlinear_arith)
            requires
                d == (px as int) * (px as int),
                0 < px <= 0xffff_ffff,
        ;
    }
    let area = px as u128 * px as u128;
    (sum / area) as u8
}

/// Where and how a symbol is sampled from an image: module size in pixels, quiet zone
/// in modules on each axis, luma threshold, layout and symbol size in modules.
#[derive(Debug, Clone, Copy, PartialEq, Eq)]
pub struct SamplingGrid {
    /// Pixels per module.
    pub module_px: u32,
    /// Quiet-zone width in modules, left and right.
    pub quiet_x: u32,
    /// Quiet-zone height in modules, top and bottom.
    pub quiet_y: u32,
    /// Luma threshold below which a sampled module is dark.
    pub threshold: u8,
    /// Layout family of the symbol.
    pub layout: LayoutFamily,
    /// Symbol width in modules.
    pub width: u16,
    /// Symbol height in modules.
    pub height: u16,
}

/// The symbol and its quiet zones lie inside the image.
pub open spec fn grid_fits(img: LumaImage, g: SamplingGrid) -> bool {
    &&& g.module_px > 0
    &&& (g.width + 2 * g.quiet_x) * g.module_px <= img.spec_width()
    &&& (g.height + 2 * g.quiet_y) * g.module_px <= img.spec_height()
}

/// The mean luma of module `(x, y)` of the grid.
pub open spec fn grid_luma(img: LumaImage, g: SamplingGrid, x: int, y: int) -> int {
    module_luma(img, x, y, g.module_px as int, g.quiet_x as int, g.quiet_y as int)
}

/// The sampled cell at `(x, y)`: the layout's function cell, else a data cell that is
/// dark when the module's mean luma is below the threshold.
pub open spec fn grid_cell(img: LumaImage, g: SamplingGrid, x: int, y: int) -> Cell {
    match function_cell_spec(g.layout, g.width, g.height, x as u16, y as u16) {
        Some(c) => c,
        None => Cell::Data(grid_luma(img, g, x, y) < g.threshold),
    }
}

/// The payload bits sampled through the grid, in canonical order.
pub open spec fn grid_bits(img: LumaImage, g: SamplingGrid) -> Seq<bool> {
    data_positions(g.layout, g.width, g.height).map_values(
        |p: (int, int)| grid_luma(img, g, p.0, p.1) < g.threshold,
    )
}

/// How far a luma lies from the threshold.
pub open spec fn luma_distance(luma: int, threshold: u8) -> u8 {
    if luma < threshold {
        (threshold - luma) as u8
    } else {
        (luma - threshold) as u8
    }
}

/// The confidence of each sampled payload bit, in canonical order: how far its
/// module's mean luma lies from the threshold.
pub open spec fn grid_confidence(img: LumaImage, g: SamplingGrid) -> Seq<u8> {
    data_positions(g.layout, g.width, g.height).map_values(
        |p: (int, int)| luma_distance(grid_luma(img, g, p.0, p.1), g.threshold),
    )
}

/// A matrix holds exactly the cells sampled through the grid.
pub open spec fn sampled_through(m: SymbolMatrix, img: LumaImage, g: SamplingGrid) -> bool {
    &&& m.well_formed()
    &&& m.spec_width() == g.width
    &&& m.spec_height() == g.height
    &&& m.spec_layout() == g.layout
    &&& forall|x: int, y: int|
        0 <= x < g.width && 0 <= y < g.height ==> #[trigger] m@[lin(g.width, x, y)] == grid_cell(
            img,
            g,
            x,
            y,
        )
}

proof fn lemma_lin_distinct(w: u16, x1: int, y1: int, x2: int, y2: int)
    requires
        0 <= x1 < w,
        0 <= x2 < w,
        0 <= y1,
        0 <= y2,
        x1 != x2 || y1 != y2,
    ensures
        lin(w, x1, y1) != lin(w, x2, y2),
{
    if y1 == y2 {
    } else if y1 < y2 {
        assert(y1 * (w as int) + x1 < y2 * (w as int) + x2) by (nonlinear_arith)
            requires
                0 <= x1 < w,
                0 <= x2,
                0 <= y1 < y2,
        ;
    } else {
        assert(y2 * (w as int) + x2 < y1 * (w as int) + x1) by (nonlinear_arith)
            requires
                0 <= x2 < w,
                0 <= x1,
                0 <= y2 < y1,
        ;
    }
}

/// The module block of `(x, y)` lies inside the image.
proof fn lemma_module_inside(img: LumaImage, g: SamplingGrid, x: int, y: int)
    requires
        grid_fits(img, g),
        0 <= x < g.width,
        0 <= y < g.height,
    ensures
        (x + g.quiet_x + 1) * g.module_px <= img.spec_width(),
        (y + g.quiet_y + 1) * g.module_px <= img.spec_height(),
{
    assert((x + g.quiet_x + 1) * g.module_px <= (g.width + 2 * g.quiet_x) * g.module_px)
        by (nonlinear_arith)
        requires
            0 <= x < g.width,
            g.module_px > 0,
    ;
    assert((y + g.quiet_y + 1) * g.module_px <= (g.height + 2 * g.quiet_y) * g.module_px)
        by (nonlinear_arith)
        requires
            0 <= y < g.height,
            g.module_px > 0,
    ;
}

/// Sample every module of the grid: the matrix of sampled cells, and the confidence of
/// each sampled payload bit.
#[verifier::rlimit(60)]
pub fn sample_grid(image: &LumaImage, g: SamplingGrid) -> (r: (SymbolMatrix, Vec<u8>))
    requires
        image.well_formed(),
        grid_fits(*image, g),
    ensures
        sampled_through(r.0, *image, g),
        r.1@ == grid_confidence(*image, g),
{
    let ghost img = *image;
    let width = g.width;
    let height = g.height;
    let layout = g.layout;
    let mut matrix = SymbolMatrix::with_layout(width, height, layout);
    let mut confidence: Vec<u8> = Vec::new();
    let ghost target = grid_confidence(img, g);
    proof {
        lemma_capacity_bound(layout, width, height);
        lemma_data_positions(layout, width, height);
    }
    let mut y: u16 = 0;
    while y < height
        invariant
            img == *image,
            img.well_formed(),
            grid_fits(img, g),
            width == g.width,
            height == g.height,
            layout == g.layout,
            y <= height,
            matrix.well_formed(),
            matrix.spec_width() == width,
            matrix.spec_height() == height,
            matrix.spec_layout() == layout,
            target == grid_confidence(img, g),
            target.len() == capacity_spec(layout, width, height),
            confidence@.len() == count_rows(layout, width, height, y as int),
            forall|k: int| 0 <= k < confidence@.len() ==> confidence@[k] == target[k],
            forall|xx: int, yy: int|
                0 <= xx < width && 0 <= yy < height ==> #[trigger] matrix@[lin(width, xx, yy)] == if yy
                    < y {
                    grid_cell(img, g, xx, yy)
                } else {
                    fresh_cell(layout, width, height, xx, yy)
                },
        decreases height - y,
    {
        let mut x: u16 = 0;
        while x < width
            invariant
                img == *image,
                img.well_formed(),
                grid_fits(img, g),
                width == g.width,
                height == g.height,
                layout == g.layout,
                y < height,
                x <= width,
                matrix.well_formed(),
                matrix.spec_width() == width,
                matrix.spec_height() == height,
                matrix.spec_layout() == layout,
                target == grid_confidence(img, g),
                target.len() == capacity_spec(layout, width, height),
                confidence@.len() == count_rows(layout, width, height, y as int) + count_row(
                    layout,
                    width,
                    height,
                    y,
                    x as int,
                ),
                forall|k: int| 0 <= k < confidence@.len() ==> confidence@[k] == target[k],
                forall|xx: int, yy: int|
                    0 <= xx < width && 0 <= yy < height ==> #[trigger] matrix@[lin(width, xx, yy)]
                        == if yy < y || (yy == y && xx < x) {
                        grid_cell(img, g, xx, yy)
                    } else {
                        fresh_cell(layout, width, height, xx, yy)
                    },
            decreases width - x,
        {
            match function_cell_for(layout, width, height, x, y) {
                Some(_) => {
                    proof {
                        lemma_prefix_within(layout, width, height, y, x as int);
                    }
                },
                None => {
                    proof {
                        lemma_next_position(layout, width, height, y, x as int);
                        lemma_module_inside(img, g, x as int, y as int);
                    }
                    let avg = average_module_luma(
                        image,
                        x as u32,
                        y as u32,
                        g.module_px,
                        g.quiet_x,
                        g.quiet_y,
                    );
                    let ghost before = matrix@;
                    proof {
                        matrix.lemma_cell_count();
                        lemma_lin_bound(width, height, x as int, y as int);
                    }
                    let _ = matrix.set(x, y, Cell::Data(avg < g.threshold));
                    proof {
                        assert forall|xx: int, yy: int|
                            0 <= xx < width && 0 <= yy < height && (xx != x || yy != y) implies #[trigger] matrix@[lin(
                            width,
                            xx,
                            yy,
                        )] == before[lin(width, xx, yy)] by {
                            lemma_lin_distinct(width, xx, yy, x as int, y as int);
                            lemma_lin_bound(width, height, xx, yy);
                        }
                    }
                    let distance = if avg < g.threshold {
                        g.threshold - avg
                    } else {
                        avg - g.threshold
                    };
                    confidence.push(distance);
                },
            }
            x = x + 1;
        }
        y = y + 1;
    }
    proof {
        assert(confidence@ =~= target);
    }
    (matrix, confidence)
}

/// A matrix sampled through the grid carries the grid's payload bits.
pub proof fn lemma_sampled_bits(m: SymbolMatrix, img: LumaImage, g: SamplingGrid)
    requires
        sampled_through(m, img, g),
    ensures
        m.data_bits() == grid_bits(img, g),
{
    lemma_data_positions(g.layout, g.width, g.height);
    let pos = data_positions(g.layout, g.width, g.height);
    assert forall|k: int| 0 <= k < pos.len() implies cell_is_dark(
        m@[lin(g.width, (#[trigger] pos[k]).0, pos[k].1)],
    ) == (grid_luma(img, g, pos[k].0, pos[k].1) < g.threshold) by {
        assert(m@[lin(g.width, pos[k].0, pos[k].1)] == grid_cell(img, g, pos[k].0, pos[k].1));
    }
    assert(m.data_bits() =~= grid_bits(img, g));
}

/// The grid's first 256 payload bits hold a valid frame header.
pub open spec fn grid_header_ok(img: LumaImage, g: SamplingGrid) -> bool {
    let bits = grid_bits(img, g);
    bits.len() >= 8 * HEADER_LEN && parse_header(bytes_of_bits(bits.take(8 * HEADER_LEN as int)))
        is Ok
}

/// Sample only the header bits of the grid and check that they hold a valid frame
/// header.
#[verifier::rlimit(40)]
pub fn header_precheck(image: &LumaImage, g: SamplingGrid) -> (r: bool)
    requires
        image.well_formed(),
        grid_fits(*image, g),
    ensures
        r == grid_header_ok(*image, g),
{
    let ghost img = *image;
    let width = g.width;
    let height = g.height;
    let layout = g.layout;
    let ghost target = grid_bits(img, g);
    let need: usize = HEADER_LEN * 8;
    proof {
        lemma_capacity_bound(layout, width, height);
        lemma_data_positions(layout, width, height);
    }
    let mut bits: Vec<bool> = Vec::new();
    let mut y: u16 = 0;
    while y < height && bits.len() < need
        invariant
            img == *image,
            img.well_formed(),
            grid_fits(img, g),
            width == g.width,
            height == g.height,
            layout == g.layout,
            need == 256,
            y <= height,
            target == grid_bits(img, g),
            target.len() == capacity_spec(layout, width, height),
            bits@.len() <= need,
            bits@.len() <= target.len(),
            bits@ == target.subrange(0, bits@.len() as int),
            bits@.len() < need ==> bits@.len() == count_rows(layout, width, height, y as int),
        decreases height - y,
    {
        let mut x: u16 = 0;
        while x < width && bits.len() < need
            invariant
                img == *image,
                img.well_formed(),
                grid_fits(img, g),
                width == g.width,
                height == g.height,
                layout == g.layout,
                need == 256,
                y < height,
                x <= width,
                target == grid_bits(img, g),
                target.len() == capacity_spec(layout, width, height),
                bits@.len() <= need,
                bits@.len() <= target.len(),
                bits@ == target.subrange(0, bits@.len() as int),
                bits@.len() < need ==> bits@.len() == count_rows(layout, width, height, y as int)
                    + count_row(layout, width, height, y, x as int),
            decreases width - x,
        {
            match function_cell_for(layout, width, height, x, y) {
                Some(_) => {
                    proof {
                        lemma_prefix_within(layout, width, height, y, x as int);
                    }
                },
                None => {
                    proof {
                        lemma_next_position(layout, width, height, y, x as int);
                        lemma_module_inside(img, g, x as int, y as int);
                    }
                    let avg = average_module_luma(
                        image,
                        x as u32,
                        y as u32,
                        g.module_px,
                        g.quiet_x,
                        g.quiet_y,
                    );
                    bits.push(avg < g.threshold);
                    proof {
                        assert(bits@ =~= target.subrange(0, bits@.len() as int));
                    }
                },
            }
            x = x + 1;
        }
        proof {
            if bits@.len() < need {
                lemma_rows_step(layout, width, height, y);
            }
        }
        y = y + 1;
    }
    if bits.len() < need {
        proof {
            assert(target.len() < 256);
        }
        return false;
    }
    proof {
        assert(bits@ =~= target.take(256));
    }
    let bytes = bits_to_bytes(bits.as_slice());
    FrameHeader::decode(bytes.as_slice()).is_ok()
}

proof fn lemma_rows_step(layout: LayoutFamily, w: u16, h: u16, y: u16)
    ensures
        count_rows(layout, w, h, y + 1) == count_rows(layout, w, h, y as int) + count_row(
            layout,
            w,
            h,
            y,
            w as int,
        ),
{
}

/// How many suspect bytes guided decoding considers at most.
pub const MAX_SUSPECT_BYTES: usize = 16;

/// The lowest of the `n` confidences from `start`.
pub open spec fn min_run(conf: Seq<u8>, start: int, n: int) -> u8
    decreases n,
{
    if n <= 1 {
        conf[start]
    } else {
        let rest = min_run(conf, start, n - 1);
        if conf[start + n - 1] < rest {
            conf[start + n - 1]
        } else {
            rest
        }
    }
}

/// The number of bytes that get a score: the bytes of the `data_bits` payload bits that
/// have at least one confidence.
pub open spec fn scored_bytes(data_bits: nat, conf_len: nat) -> nat {
    let by_bits = (data_bits + 7) / 8;
    let by_conf = (conf_len + 7) / 8;
    if by_bits < by_conf {
        by_bits
    } else {
        by_conf
    }
}

/// The score of each byte: the lowest confidence among its bits.
pub open spec fn byte_scores(conf: Seq<u8>, data_bits: nat) -> Seq<u8> {
    Seq::new(
        scored_bytes(data_bits, conf.len()),
        |b: int|
            min_run(
                conf,
                8 * b,
                if 8 * b + 8 <= conf.len() {
                    8
                } else {
                    conf.len() - 8 * b
                },
            ),
    )
}

/// Byte `a` is more suspect than byte `b`: a lower score, or the same score and a lower
/// index.
pub open spec fn more_suspect(scores: Seq<u8>, a: int, b: int) -> bool {
    scores[a] < scores[b] || (scores[a] == scores[b] && a < b)
}

/// Among bytes `0..m`, the most suspect one that is less suspect than `prev` (any, when
/// there is no `prev`).
pub open spec fn next_suspect(scores: Seq<u8>, prev: Option<int>, m: int) -> Option<int>
    decreases m,
{
    if m <= 0 {
        None
    } else {
        let best = next_suspect(scores, prev, m - 1);
        let j = m - 1;
        let eligible = match prev {
            None => true,
            Some(p) => more_suspect(scores, p, j),
        };
        if eligible && (best is None || more_suspect(scores, j, best->0)) {
            Some(j)
        } else {
            best
        }
    }
}

/// The `k` most suspect bytes, most suspect first (fewer when there are fewer bytes).
pub open spec fn suspects_ordered(scores: Seq<u8>, k: nat) -> Seq<int>
    decreases k,
{
    if k == 0 {
        Seq::empty()
    } else {
        let prev = suspects_ordered(scores, (k - 1) as nat);
        let last = if prev.len() == 0 {
            None
        } else {
            Some(prev.last())
        };
        match next_suspect(scores, last, scores.len() as int) {
            Some(j) => prev.push(j),
            None => prev,
        }
    }
}

/// The suspect byte indexes for guided recovery: the `limit` bytes whose weakest bit
/// confidence is lowest, lowest first, ties by index.
pub open spec fn suspect_bytes_spec(conf: Seq<u8>, data_bits: nat, limit: nat) -> Seq<usize> {
    suspects_ordered(byte_scores(conf, data_bits), limit).map_values(|j: int| j as usize)
}

proof fn lemma_next_suspect_bound(scores: Seq<u8>, prev: Option<int>, m: int)
    ensures
        next_suspect(scores, prev, m) matches Some(j) ==> 0 <= j < m && match prev {
            None => true,
            Some(p) => more_suspect(scores, p, j),
        },
    decreases m,
{
    if m > 0 {
        lemma_next_suspect_bound(scores, prev, m - 1);
    }
}

proof fn lemma_suspects_bound(scores: Seq<u8>, k: nat)
    ensures
        suspects_ordered(scores, k).len() <= k,
        forall|i: int|
            0 <= i < suspects_ordered(scores, k).len() ==> 0 <= #[trigger] suspects_ordered(
                scores,
                k,
            )[i] < scores.len(),
    decreases k,
{
    if k > 0 {
        lemma_suspects_bound(scores, (k - 1) as nat);
        let prev = suspects_ordered(scores, (k - 1) as nat);
        let last = if prev.len() == 0 {
            None
        } else {
            Some(prev.last())
        };
        lemma_next_suspect_bound(scores, last, scores.len() as int);
    }
}

proof fn lemma_suspects_stable(scores: Seq<u8>, k: nat, k2: nat)
    requires
        k <= k2,
        next_suspect(
            scores,
            if suspects_ordered(scores, k).len() == 0 {
                None
            } else {
                Some(suspects_ordered(scores, k).last())
            },
            scores.len() as int,
        ) is None,
    ensures
        suspects_ordered(scores, k2) == suspects_ordered(scores, k),
    decreases k2,
{
    if k2 > k {
        lemma_suspects_stable(scores, k, (k2 - 1) as nat);
    }
}

/// The most suspect byte less suspect than `prev`, among all scored bytes.
fn find_next_suspect(scores: &Vec<u8>, prev: Option<usize>) -> (r: Option<usize>)
    requires
        prev matches Some(p) ==> p < scores@.len(),
    ensures
        next_suspect(
            scores@,
            match prev {
                None => None,
                Some(p) => Some(p as int),
            },
            scores@.len() as int,
        ) == match r {
            None => None::<int>,
            Some(j) => Some(j as int),
        },
        r matches Some(j) ==> j < scores@.len(),
{
    let ghost gp: Option<int> = match prev {
        None => None,
        Some(p) => Some(p as int),
    };
    let mut best: Option<usize> = None;
    let mut j: usize = 0;
    while j < scores.len()
        invariant
            j <= scores@.len(),
            gp == match prev {
                None => None,
                Some(p) => Some(p as int),
            },
            next_suspect(scores@, gp, j as int) == match best {
                None => None::<int>,
                Some(b) => Some(b as int),
            },
            best matches Some(b) ==> b < j,
            prev matches Some(p) ==> p < scores@.len(),
        decreases scores@.len() - j,
    {
        proof {
            lemma_next_suspect_bound(scores@, gp, j as int);
        }
        let eligible = match prev {
            None => true,
            Some(p) => scores[p] < scores[j] || (scores[p] == scores[j] && p < j),
        };
        let better = match best {
            None => true,
            Some(b) => scores[j] < scores[b] || (scores[j] == scores[b] && j < b),
        };
        if eligible && better {
            best = Some(j);
        }
        j = j + 1;
    }
    best
}

/// The indexes of the `limit` most suspect bytes of a sampled matrix, most suspect
/// first: bytes are scored by their weakest bit confidence, lower is more suspect, ties
/// go to the lower index.
pub fn suspect_bytes_from_bit_confidence(
    matrix: &SymbolMatrix,
    bit_confidence: &[u8],
    limit: usize,
) -> (r: Vec<usize>)
    ensures
        r@ == suspect_bytes_spec(
            bit_confidence@,
            capacity_spec(matrix.spec_layout(), matrix.spec_width(), matrix.spec_height()),
            limit as nat,
        ),
{
    let ghost conf = bit_confidence@;
    let total_data_bits = matrix.data_capacity_bits();
    let ghost cap = total_data_bits as nat;
    let total_bytes = total_data_bits / 8 + if total_data_bits % 8 == 0 {
        0
    } else {
        1
    };
    let ghost target = byte_scores(conf, cap);
    let mut scores: Vec<u8> = Vec::new();
    let mut b: usize = 0;
    let mut stop = false;
    while b < total_bytes && !stop
        invariant
            conf == bit_confidence@,
            target == byte_scores(conf, cap),
            total_bytes == (cap + 7) / 8,
            cap <= usize::MAX,
            b <= total_bytes,
            !stop ==> 8 * b <= conf.len() + 7,
            !stop ==> scores@ == target.subrange(0, b as int),
            !stop ==> b <= target.len(),
            stop ==> scores@ == target,
        decreases total_bytes - b, if stop { 0int } else { 1int },
    {
        proof {
            assert(8 * b + 8 <= cap + 7) by (nonlinear_arith)
                requires
                    b < total_bytes,
                    total_bytes == (cap + 7) / 8,
            ;
        }
        let start = b * 8;
        if start >= bit_confidence.len() {
            stop = true;
            proof {
                assert(target.len() == b);
                assert(scores@ =~= target);
            }
        } else {
            let end = if bit_confidence.len() - start >= 8 {
                start + 8
            } else {
                bit_confidence.len()
            };
            let mut low = bit_confidence[start];
            let mut i: usize = start + 1;
            while i < end
                invariant
                    start < i <= end <= conf.len(),
                    conf == bit_confidence@,
                    low == min_run(conf, start as int, i - start),
                decreases end - i,
            {
                if bit_confidence[i] < low {
                    low = bit_confidence[i];
                }
                i = i + 1;
            }
            proof {
                assert(b < target.len());
                assert(target[b as int] == low);
            }
            scores.push(low);
            b = b + 1;
            proof {
                assert(scores@ =~= target.subrange(0, b as int));
            }
        }
    }
    proof {
        if !stop {
            assert(scores@ =~= target);
        }
    }
    let mut out: Vec<usize> = Vec::new();
    let mut prev: Option<usize> = None;
    let mut done = false;
    let ghost mut picked: nat = 0;
    while out.len() < limit && !done
        invariant
            scores@ == target,
            picked <= limit,
            suspects_ordered(target, picked).len() == out@.len(),
            out@ == suspects_ordered(target, picked).map_values(|j: int| j as usize),
            prev == if out@.len() == 0 {
                None::<usize>
            } else {
                Some(out@.last())
            },
            !done ==> picked == out@.len(),
            done ==> suspects_ordered(target, limit as nat) == suspects_ordered(target, picked),
            forall|i: int| 0 <= i < out@.len() ==> out@[i] < target.len(),
        decreases limit - out@.len(), if done { 0int } else { 1int },
    {
        proof {
            lemma_suspects_bound(target, picked);
        }
        let ghost gp: Option<int> = if out@.len() == 0 {
            None
        } else {
            Some(suspects_ordered(target, picked).last())
        };
        proof {
            if out@.len() > 0 {
                assert(out@.last() == suspects_ordered(target, picked).last() as usize);
            }
        }
        match find_next_suspect(&scores, prev) {
            Some(j) => {
                out.push(j);
                prev = Some(j);
                proof {
                    picked = picked + 1;
                    assert(out@ =~= suspects_ordered(target, picked).map_values(|j: int| j as usize));
                }
            },
            None => {
                done = true;
                proof {
                    lemma_suspects_stable(target, picked, limit as nat);
                }
            },
        }
    }
    proof {
        if !done {
            assert(picked == limit);
        }
    }
    out
}

/// The suspect bytes of the grid's sampled payload.
pub open spec fn grid_suspects(img: LumaImage, g: SamplingGrid) -> Seq<usize> {
    suspect_bytes_spec(
        grid_confidence(img, g),
        capacity_spec(g.layout, g.width, g.height),
        MAX_SUSPECT_BYTES as nat,
    )
}

/// What decoding the payload sampled through the grid gives.
pub open spec fn grid_outcome(img: LumaImage, g: SamplingGrid) -> Result<
    (Seq<u8>, (FrameHeader, Seq<u8>), RecoveryTelemetry),
    Option<GlyphError>,
> {
    decode_bits_spec(grid_bits(img, g), grid_suspects(img, g))
}

/// `d` is the symbol decoded from the grid: its sampled matrix, bytes, frame and
/// recovery telemetry.
pub open spec fn grid_decoded(d: DecodedSymbol, img: LumaImage, g: SamplingGrid) -> bool {
    &&& sampled_through(d.matrix, img, g)
    &&& grid_outcome(img, g) == Ok::<
        (Seq<u8>, (FrameHeader, Seq<u8>), RecoveryTelemetry),
        Option<GlyphError>,
    >((d.sampled_bytes@, d.frame@, d.recovery))
}

/// `r` is the outcome of decoding through the grid.
pub open spec fn grid_result_matches(
    r: Result<DecodedSymbol, DecodeError>,
    img: LumaImage,
    g: SamplingGrid,
) -> bool {
    match r {
        Ok(d) => grid_decoded(d, img, g),
        Err(DecodeError::Core(e)) => grid_outcome(img, g) == Err::<
            (Seq<u8>, (FrameHeader, Seq<u8>), RecoveryTelemetry),
            Option<GlyphError>,
        >(Some(e)),
        Err(DecodeError::EccMismatch) => grid_outcome(img, g) == Err::<
            (Seq<u8>, (FrameHeader, Seq<u8>), RecoveryTelemetry),
            Option<GlyphError>,
        >(None),
        Err(_) => false,
    }
}

/// Sample through the grid and decode, guiding recovery with the least confident
/// bytes.
pub fn decode_grid(image: &LumaImage, g: SamplingGrid) -> (r: Result<DecodedSymbol, DecodeError>)
    requires
        image.well_formed(),
        grid_fits(*image, g),
    ensures
        grid_result_matches(r, *image, g),
{
    let (matrix, confidence) = sample_grid(image, g);
    let suspects = suspect_bytes_from_bit_confidence(
        &matrix,
        confidence.as_slice(),
        MAX_SUSPECT_BYTES,
    );
    proof {
        lemma_sampled_bits(matrix, *image, g);
    }
    decode_matrix_with_suspects(&matrix, suspects.as_slice())
}

/// The grid that fixed decode options describe for an image: `None` when the module
/// size is zero or the image is too small for the quiet zone. The symbol size is the
/// image size in modules less the quiet zone, kept to its low 16 bits.
pub open spec fn options_grid(img: LumaImage, o: DecodeOptions) -> Option<SamplingGrid> {
    if o.module_px == 0 {
        None
    } else {
        let wm = img.spec_width() / o.module_px;
        let hm = img.spec_height() / o.module_px;
        let q = o.quiet_zone_modules;
        if wm <= 2 * q || hm <= 2 * q {
            None
        } else {
            Some(
                SamplingGrid {
                    module_px: o.module_px,
                    quiet_x: q,
                    quiet_y: q,
                    threshold: o.threshold,
                    layout: o.layout,
                    width: (wm - 2 * q) as u16,
                    height: (hm - 2 * q) as u16,
                },
            )
        }
    }
}

/// The grid for sampling with fixed options, which also asks that the image be a whole
/// number of modules on each axis.
pub open spec fn strict_options_grid(img: LumaImage, o: DecodeOptions) -> Option<SamplingGrid> {
    if o.module_px != 0 && (img.spec_width() % o.module_px != 0 || img.spec_height() % o.module_px
        != 0) {
        None
    } else {
        options_grid(img, o)
    }
}

/// The grid of fixed options, when the image is large enough for it.
fn grid_for_options(image: &LumaImage, o: &DecodeOptions) -> (r: Option<SamplingGrid>)
    requires
        image.well_formed(),
        o.quiet_zone_modules <= 0x7fff_ffff,
    ensures
        r == options_grid(*image, *o),
        r matches Some(g) ==> grid_fits(*image, g),
{
    if o.module_px == 0 {
        return None;
    }
    let px = o.module_px;
    let wm = image.width / px;
    let hm = image.height / px;
    let q = o.quiet_zone_modules;
    if wm <= q * 2 || hm <= q * 2 {
        return None;
    }
    let wv: u32 = wm - q * 2;
    let hv: u32 = hm - q * 2;
    let sw = wv as u16;
    let sh = hv as u16;
    proof {
        assert(sw as u32 <= wv) by (bit_vector)
            requires
                sw == wv as u16,
        ;
        assert(sh as u32 <= hv) by (bit_vector)
            requires
                sh == hv as u16,
        ;
        assert((sw + 2 * q) * px <= wm * px) by (nonlinear_arith)
            requires
                sw + 2 * q <= wm,
                px > 0,
        ;
        assert((sh + 2 * q) * px <= hm * px) by (nonlinear_arith)
            requires
                sh + 2 * q <= hm,
                px > 0,
        ;
        assert(wm * px <= image.spec_width()) by (nonlinear_arith)
            requires
                wm == image.spec_width() / px,
                px > 0,
        ;
        assert(hm * px <= image.spec_height()) by (nonlinear_arith)
            requires
                hm == image.spec_height() / px,
                px > 0,
        ;
    }
    Some(
        SamplingGrid {
            module_px: px,
            quiet_x: q,
            quiet_y: q,
            threshold: o.threshold,
            layout: o.layout,
            width: sw,
            height: sh,
        },
    )
}

impl RasterDecoder {
    /// Decode a grayscale image sampled with this decoder's fixed options, guiding
    /// recovery with the least confident bytes.
    pub fn decode(&self, image: &LumaImage) -> (r: Result<DecodedSymbol, DecodeError>)
        requires
            image.well_formed(),
            self@.quiet_zone_modules <= 0x7fff_ffff,
        ensures
            match options_grid(*image, self@) {
                None => r matches Err(DecodeError::InvalidImageDimensions),
                Some(g) => grid_result_matches(r, *image, g),
            },
    {
        match grid_for_options(image, self.options()) {
            None => Err(DecodeError::InvalidImageDimensions),
            Some(g) => decode_grid(image, g),
        }
    }

    /// Sample a grayscale image into a symbol matrix with this decoder's fixed options;
    /// the image must be a whole number of modules on each axis.
    pub fn sample_matrix(&self, image: &LumaImage) -> (r: Result<SymbolMatrix, DecodeError>)
        requires
            image.well_formed(),
            self@.quiet_zone_modules <= 0x7fff_ffff,
        ensures
            match strict_options_grid(*image, self@) {
                None => r matches Err(DecodeError::InvalidImageDimensions),
                Some(g) => r matches Ok(m) && sampled_through(m, *image, g),
            },
    {
        let o = self.options();
        if o.module_px != 0 && (image.width() % o.module_px != 0 || image.height() % o.module_px
            != 0) {
            return Err(DecodeError::InvalidImageDimensions);
        }
        match grid_for_options(image, o) {
            None => Err(DecodeError::InvalidImageDimensions),
            Some(g) => {
                let (matrix, _) = sample_grid(image, g);
                Ok(matrix)
            },
        }
    }
}

// ---------------------------------------------------------------- automatic detection

/// The greatest common divisor, by Euclid's algorithm.
pub open spec fn gcd_spec(a: nat, b: nat) -> nat
    decreases b,
{
    if b == 0 {
        a
    } else {
        gcd_spec(b, a % b)
    }
}

/// The greatest common divisor of two sizes.
pub fn gcd_u32(a: u32, b: u32) -> (r: u32)
    ensures
        r == gcd_spec(a as nat, b as nat),
{
    let ghost (a0, b0) = (a as nat, b as nat);
    let mut a = a;
    let mut b = b;
    while b != 0
        invariant
            gcd_spec(a as nat, b as nat) == gcd_spec(a0, b0),
        decreases b,
    {
        let tmp = a % b;
        a = b;
        b = tmp;
    }
    a
}

/// `d` divides `v`.
pub open spec fn divides(d: int, v: int) -> bool {
    d >= 1 && v % d == 0
}

/// The divisors of `v` that are at most `d`, largest first.
pub open spec fn divisors_upto(v: nat, d: nat) -> Seq<u32>
    decreases d,
{
    if d == 0 {
        Seq::empty()
    } else {
        (if v % d == 0 {
            seq![d as u32]
        } else {
            Seq::empty()
        }) + divisors_upto(v, (d - 1) as nat)
    }
}

/// Every divisor of `v`, largest first.
pub open spec fn divisors_desc_spec(v: u32) -> Seq<u32> {
    divisors_upto(v as nat, v as nat)
}

/// Strictly decreasing.
pub open spec fn strictly_desc(s: Seq<u32>) -> bool {
    forall|i: int, j: int| 0 <= i < j < s.len() ==> (#[trigger] s[i]) > (#[trigger] s[j])
}

proof fn lemma_divisors_upto(v: nat, d: nat)
    requires
        d <= 0xffff_ffff,
    ensures
        strictly_desc(divisors_upto(v, d)),
        forall|i: int|
            0 <= i < divisors_upto(v, d).len() ==> divides(#[trigger] divisors_upto(v, d)[i] as int, v as int)
                && divisors_upto(v, d)[i] <= d,
        forall|x: u32| #[trigger] divisors_upto(v, d).contains(x) <==> (divides(x as int, v as int) && x <= d),
    decreases d,
{
    if d > 0 {
        lemma_divisors_upto(v, (d - 1) as nat);
        let rest = divisors_upto(v, (d - 1) as nat);
        let s = divisors_upto(v, d);
        let head: Seq<u32> = if v % d == 0 {
            seq![d as u32]
        } else {
            Seq::empty()
        };
        assert(s == head + rest);
        assert forall|x: u32| #[trigger] s.contains(x) <==> (divides(x as int, v as int) && x <= d) by {
            if divides(x as int, v as int) && x <= d {
                if x == d {
                    assert(s[0] == x);
                } else {
                    assert(rest.contains(x));
                    let k = choose|k: int| 0 <= k < rest.len() && rest[k] == x;
                    assert(s[k + head.len()] == x);
                }
            }
            if s.contains(x) {
                let k = choose|k: int| 0 <= k < s.len() && s[k] == x;
                if k >= head.len() {
                    assert(rest[k - head.len()] == x);
                }
            }
        }
    }
}

/// Two strictly decreasing sequences with the same elements are equal.
proof fn lemma_desc_unique(a: Seq<u32>, b: Seq<u32>)
    requires
        strictly_desc(a),
        strictly_desc(b),
        forall|x: u32| #![trigger a.contains(x)] #![trigger b.contains(x)] a.contains(x) <==> b.contains(x),
    ensures
        a == b,
    decreases a.len(),
{
    if a.len() == 0 {
        if b.len() > 0 {
            assert(b.contains(b[0]));
        }
        assert(a =~= b);
    } else {
        assert(a.contains(a[0]));
        assert(b.len() > 0);
        assert(b.contains(b[0]));
        let ka = choose|k: int| 0 <= k < b.len() && b[k] == a[0];
        let kb = choose|k: int| 0 <= k < a.len() && a[k] == b[0];
        assert(a[0] == b[0]) by {
            if ka > 0 {
                assert(b[0] > b[ka]);
            }
            if kb > 0 {
                assert(a[0] > a[kb]);
            }
        }
        let a1 = a.drop_first();
        let b1 = b.drop_first();
        assert forall|x: u32| #![trigger a1.contains(x)] #![trigger b1.contains(x)] a1.contains(x) <==> b1.contains(x) by {
            if a1.contains(x) {
                let k = choose|k: int| 0 <= k < a1.len() && a1[k] == x;
                assert(a[k + 1] == x);
                assert(a.contains(x));
                let j = choose|j: int| 0 <= j < b.len() && b[j] == x;
                assert(j != 0) by {
                    assert(a[0] > a[k + 1]);
                }
                assert(b1[j - 1] == x);
            }
            if b1.contains(x) {
                let k = choose|k: int| 0 <= k < b1.len() && b1[k] == x;
                assert(b[k + 1] == x);
                assert(b.contains(x));
                let j = choose|j: int| 0 <= j < a.len() && a[j] == x;
                assert(j != 0) by {
                    assert(b[0] > b[k + 1]);
                }
                assert(a1[j - 1] == x);
            }
        }
        lemma_desc_unique(a1, b1);
        assert(a =~= b) by {
            assert(a == seq![a[0]] + a1);
            assert(b == seq![b[0]] + b1);
        }
    }
}

proof fn lemma_cofactor(v: int, d: int)
    requires
        v > 0,
        divides(d, v),
    ensures
        d * (v / d) == v,
        divides(v / d, v),
        v / (v / d) == d,
        v / d >= 1,
{
    assert(d * (v / d) == v) by (nonlinear_arith)
        requires
            d >= 1,
            v % d == 0,
    ;
    assert(v / d >= 1) by (nonlinear_arith)
        requires
            d * (v / d) == v,
            v > 0,
            d >= 1,
    ;
    let c = v / d;
    assert(v % c == 0 && v / c == d) by (nonlinear_arith)
        requires
            d * c == v,
            c >= 1,
            d >= 1,
    ;
}

proof fn lemma_cofactor_order(x: int, d1: int, y: int, d2: int)
    requires
        x * d1 == y * d2,
        1 <= d1 < d2,
        x >= 1,
        y >= 1,
    ensures
        x > y,
{
    assert(x > y) by (nonlinear_arith)
        requires
            x * d1 == y * d2,
            1 <= d1 < d2,
            x >= 1,
            y >= 1,
    ;
}

/// Every divisor of `value`, largest first.
#[verifier::rlimit(60)]
pub fn divisors_desc(value: u32) -> (r: Vec<u32>)
    ensures
        r@ == divisors_desc_spec(value),
{
    proof {
        lemma_divisors_upto(value as nat, value as nat);
    }
    if value == 0 {
        let empty: Vec<u32> = Vec::new();
        assert(empty@ =~= divisors_desc_spec(value));
        return empty;
    }
    let ghost v = value as int;
    let mut small: Vec<u32> = Vec::new();
    let mut large: Vec<u32> = Vec::new();
    let mut i: u32 = 1;
    let mut square: u64 = 1;
    proof {
        assert forall|x: u32| divides(x as int, v) && v / (x as int) < i && v / (x as int) < x implies #[trigger] large@.contains(x) by {
            lemma_cofactor(v, x as int);
        }
    }
    while square <= value as u64
        invariant
            square == i * i,
            v == value as int,
            v > 0,
            1 <= i <= 65536,
            (i - 1) * (i - 1) <= v,
            forall|a: int, b: int| 0 <= a < b < small@.len() ==> (#[trigger] small@[a]) < (#[trigger] small@[b]),
            forall|k: int| 0 <= k < small@.len() ==> divides(#[trigger] small@[k] as int, v) && small@[k] < i,
            forall|d: u32| divides(d as int, v) && d < i ==> #[trigger] small@.contains(d),
            strictly_desc(large@),
            forall|k: int|
                0 <= k < large@.len() ==> divides(#[trigger] large@[k] as int, v) && v / (large@[k] as int)
                    < i && v / (large@[k] as int) < large@[k],
            forall|x: u32| divides(x as int, v) && v / (x as int) < i && v / (x as int) < x ==> #[trigger] large@.contains(x),
        decreases 65536 - i,
    {
        proof {
            assert(i < 65536) by (nonlinear_arith)
                requires
                    i * i <= v,
                    v <= 0xffff_ffff,
                    i >= 1,
            ;
        }
        if value % i == 0 {
            let ghost old_small = small@;
            let ghost old_large = large@;
            proof {
                lemma_cofactor(v, i as int);
            }
            small.push(i);
            let other = value / i;
            proof {
                assert(i <= other) by (nonlinear_arith)
                    requires
                        i * i <= v,
                        i * other == v,
                        i >= 1,
                ;
            }
            if other != i {
                large.push(other);
                proof {
                    assert forall|a: int, b: int| 0 <= a < b < large@.len() implies (#[trigger] large@[a])
                        > (#[trigger] large@[b]) by {
                        if b == large@.len() - 1 {
                            let x = large@[a] as int;
                            lemma_cofactor(v, x);
                            lemma_cofactor_order(x, v / x, other as int, i as int);
                        }
                    }
                }
            }
            proof {
                assert forall|d: u32| divides(d as int, v) && d < i + 1 implies #[trigger] small@.contains(d) by {
                    if d < i {
                        assert(old_small.contains(d));
                        let k = choose|k: int| 0 <= k < old_small.len() && old_small[k] == d;
                        assert(small@[k] == d);
                    } else {
                        assert(small@[small@.len() - 1] == d);
                    }
                }
                assert forall|x: u32| divides(x as int, v) && v / (x as int) < i + 1 && v / (x as int) < x implies #[trigger] large@.contains(x) by {
                    lemma_cofactor(v, x as int);
                    if v / (x as int) < i {
                        assert(old_large.contains(x));
                        let k = choose|k: int| 0 <= k < old_large.len() && old_large[k] == x;
                        assert(large@[k] == x);
                    } else {
                        assert(x == other) by (nonlinear_arith)
                            requires
                                (x as int) * (v / (x as int)) == v,
                                v / (x as int) == i,
                                (i as int) * (other as int) == v,
                                i >= 1,
                        ;
                        assert(large@[large@.len() - 1] == x);
                    }
                }
                assert forall|k: int| 0 <= k < large@.len() implies divides(#[trigger] large@[k] as int, v)
                    && v / (large@[k] as int) < i + 1 && v / (large@[k] as int) < large@[k] by {
                    if k == old_large.len() {
                        lemma_cofactor(v, i as int);
                    }
                }
            }
        } else {
            proof {
                assert forall|d: u32| divides(d as int, v) && d < i + 1 implies #[trigger] small@.contains(d) by {
                    if d == i {
                        assert(false);
                    }
                }
                assert forall|x: u32| divides(x as int, v) && v / (x as int) < i + 1 && v / (x as int) < x implies #[trigger] large@.contains(x) by {
                    lemma_cofactor(v, x as int);
                    if v / (x as int) == i {
                        lemma_cofactor(v, v / (x as int));
                        assert(false);
                    }
                }
            }
        }
        proof {
            assert(i * i <= v);
            assert((i + 1) * (i + 1) == i * i + 2 * i + 1) by (nonlinear_arith);
        }
        square = square + 2 * (i as u64) + 1;
        i = i + 1;
    }
    let ghost small_seq = small@;
    let ghost large_seq = large@;
    let mut out = large;
    let mut k = small.len();
    while k > 0
        invariant
            k <= small_seq.len(),
            small@ == small_seq,
            v == value as int,
            v > 0,
            1 <= i,
            (i - 1) * (i - 1) <= v,
            v < i * i,
            forall|a: int, b: int| 0 <= a < b < small_seq.len() ==> (#[trigger] small_seq[a]) < (#[trigger] small_seq[b]),
            forall|k: int| 0 <= k < small_seq.len() ==> divides(#[trigger] small_seq[k] as int, v) && small_seq[k] < i,
            forall|d: u32| divides(d as int, v) && d < i ==> #[trigger] small_seq.contains(d),
            strictly_desc(large_seq),
            forall|k: int|
                0 <= k < large_seq.len() ==> divides(#[trigger] large_seq[k] as int, v) && v / (large_seq[k] as int)
                    < i && v / (large_seq[k] as int) < large_seq[k],
            forall|x: u32| divides(x as int, v) && v / (x as int) < i && v / (x as int) < x ==> #[trigger] large_seq.contains(x),
            out@.len() == large_seq.len() + (small_seq.len() - k),
            forall|j: int| 0 <= j < large_seq.len() ==> out@[j] == large_seq[j],
            forall|j: int|
                0 <= j < small_seq.len() - k ==> #[trigger] out@[large_seq.len() + j] == small_seq[small_seq.len() - 1 - j],
        decreases k,
    {
        k = k - 1;
        out.push(small[k]);
    }
    proof {
        let o = out@;
        let nl = large_seq.len() as int;
        let ns = small_seq.len() as int;
        assert forall|a: int, b: int| 0 <= a < b < o.len() implies (#[trigger] o[a]) > (#[trigger] o[b]) by {
            if b < nl {
                assert(o[a] == large_seq[a]);
                assert(o[b] == large_seq[b]);
            } else if a < nl {
                assert(o[a] == large_seq[a]);
                assert(divides(large_seq[a] as int, v));
                let x = o[a] as int;
                let y = o[b] as int;
                let jb = b - nl;
                assert(o[nl + jb] == small_seq[ns - 1 - jb]);
                lemma_cofactor(v, x);
                if x <= y {
                    assert(x * x <= (i - 1) * (i - 1)) by (nonlinear_arith)
                        requires
                            1 <= x <= y,
                            y < i,
                    ;
                    assert(x * (v / x) < x * x) by (nonlinear_arith)
                        requires
                            v / x < x,
                            x >= 1,
                    ;
                    assert(false);
                }
            } else {
                let ja = a - nl;
                let jb = b - nl;
                assert(o[nl + ja] == small_seq[ns - 1 - ja]);
                assert(o[nl + jb] == small_seq[ns - 1 - jb]);
            }
        }
        assert forall|x: u32| #![trigger o.contains(x)] #![trigger divisors_desc_spec(value).contains(x)] o.contains(x) <==> divisors_desc_spec(value).contains(x) by {
            if divides(x as int, v) {
                assert(x <= value) by (nonlinear_arith)
                    requires
                        x >= 1,
                        v % (x as int) == 0,
                        v == value,
                        v > 0,
                ;
                if x < i {
                    assert(small_seq.contains(x));
                    let j = choose|j: int| 0 <= j < ns && small_seq[j] == x;
                    let jj = ns - 1 - j;
                    assert(o[nl + jj] == small_seq[ns - 1 - jj]);
                } else {
                    lemma_cofactor(v, x as int);
                    let c = v / (x as int);
                    assert(c < i) by (nonlinear_arith)
                        requires
                            (x as int) * c == v,
                            x >= i,
                            v < i * i,
                            c >= 1,
                    ;
                    assert(large_seq.contains(x));
                    let j = choose|j: int| 0 <= j < nl && large_seq[j] == x;
                    assert(o[j] == x);
                }
            }
            if o.contains(x) {
                let j = choose|j: int| 0 <= j < o.len() && o[j] == x;
                if j < nl {
                    assert(large_seq[j] == x);
                } else {
                    let jj = j - nl;
                    assert(o[nl + jj] == small_seq[ns - 1 - jj]);
                }
                assert(x <= value) by (nonlinear_arith)
                    requires
                        x >= 1,
                        v % (x as int) == 0,
                        v == value,
                        v > 0,
                ;
            }
        }
        lemma_desc_unique(o, divisors_desc_spec(value));
    }
    out
}

/// The first `n` elements of `s` other than `x`, in order.
pub open spec fn without<T>(s: Seq<T>, x: T, n: int) -> Seq<T>
    decreases n,
{
    if n <= 0 {
        Seq::empty()
    } else {
        without(s, x, n - 1) + if s[n - 1] != x {
            seq![s[n - 1]]
        } else {
            Seq::empty()
        }
    }
}

/// Module sizes to try for an image whose sides have greatest common divisor `gcd`:
/// the preferred size first when it divides `gcd`, then every divisor of `gcd`, largest
/// first.
pub open spec fn module_candidates_spec(gcd: u32, preferred: u32) -> Seq<u32> {
    let divs = divisors_desc_spec(gcd);
    if preferred != 0 && gcd % preferred == 0 {
        seq![preferred] + without(divs, preferred, divs.len() as int)
    } else {
        divs
    }
}

/// Module sizes to try, most plausible first.
pub fn module_candidates(gcd: u32, preferred: u32) -> (r: Vec<u32>)
    ensures
        r@ == module_candidates_spec(gcd, preferred),
{
    let divs = divisors_desc(gcd);
    let mut candidates: Vec<u32> = Vec::new();
    let with_preferred = preferred != 0 && gcd % preferred == 0;
    if with_preferred {
        candidates.push(preferred);
    }
    let ghost head: Seq<u32> = if with_preferred {
        seq![preferred]
    } else {
        Seq::empty()
    };
    let mut i: usize = 0;
    while i < divs.len()
        invariant
            i <= divs@.len(),
            divs@ == divisors_desc_spec(gcd),
            head == if with_preferred {
                seq![preferred]
            } else {
                Seq::<u32>::empty()
            },
            with_preferred ==> candidates@ == head + without(divs@, preferred, i as int),
            !with_preferred ==> candidates@ == divs@.subrange(0, i as int),
        decreases divs@.len() - i,
    {
        let d = divs[i];
        if !(with_preferred && d == preferred) {
            candidates.push(d);
        }
        proof {
            if with_preferred {
                assert(candidates@ =~= head + without(divs@, preferred, i + 1));
            } else {
                assert(candidates@ =~= divs@.subrange(0, i + 1));
            }
        }
        i = i + 1;
    }
    proof {
        assert(!with_preferred ==> candidates@ =~= divs@);
    }
    candidates
}

/// A symbol size that one of the reference layouts draws: square from 29 modules, or
/// a wide ribbon (sides multiples of four, aspect between 2 and 6.5), or a moderate
/// ribbon (even sides, aspect between 1 and 3.2). The aspect bounds are compared
/// exactly.
pub open spec fn reference_sized_spec(width: u32, height: u32) -> bool {
    if width == height && width >= 29 {
        true
    } else if width >= 96 && height >= 24 && width % 4 == 0 && height % 4 == 0 {
        2 * height <= width && 2 * width <= 13 * height
    } else if width >= 48 && height >= 28 && width % 2 == 0 && height % 2 == 0 {
        height <= width && 5 * width <= 16 * height
    } else {
        false
    }
}

/// Whether a symbol size is one the reference layouts draw.
pub fn reference_sized_geometry(width: u32, height: u32) -> (r: bool)
    ensures
        r == reference_sized_spec(width, height),
{
    if width == height && width >= 29 {
        return true;
    }
    if width >= 96 && height >= 24 && width % 4 == 0 && height % 4 == 0 {
        return 2 * (height as u64) <= width as u64 && 2 * (width as u64) <= 13 * (height as u64);
    }
    if width >= 48 && height >= 28 && width % 2 == 0 && height % 2 == 0 {
        return height <= width && 5 * (width as u64) <= 16 * (height as u64);
    }
    false
}

/// A plausible symbol size: 20 to 512 modules wide, 20 to 256 high, at most 65536
/// modules, aspect between 0.5 and 8.
pub open spec fn plausible_spec(width: u32, height: u32) -> bool {
    &&& width >= 20
    &&& height >= 20
    &&& width <= 512
    &&& height <= 256
    &&& width * height <= 65536
    &&& height <= 2 * width
    &&& width <= 8 * height
}

/// Whether a symbol size is plausible for automatic detection.
pub fn plausible_symbol_geometry(width: u32, height: u32) -> (r: bool)
    ensures
        r == plausible_spec(width, height),
{
    if width < 20 || height < 20 {
        return false;
    }
    if width > 512 || height > 256 {
        return false;
    }
    proof {
        assert(width * height <= 512 * 256) by (nonlinear_arith)
            requires
                width <= 512,
                height <= 256,
        ;
    }
    if width * height > 65536 {
        return false;
    }
    height <= 2 * width && width <= 8 * height
}

/// The quiet zone `(qx, qy)` leaves a reference-sized symbol in a `wm` x `hm` module
/// image.
pub open spec fn quiet_fits(wm: u32, hm: u32, qx: u32, qy: u32) -> bool {
    wm > 2 * qx && hm > 2 * qy && reference_sized_spec((wm - 2 * qx) as u32, (hm - 2 * qy) as u32)
}

/// The largest quiet zone tried, in modules.
pub const AUTO_QUIET_ZONE_MAX: u32 = 32;

/// Equal quiet zones `0..n` that fit.
pub open spec fn equal_quiets(wm: u32, hm: u32, n: int) -> Seq<(u32, u32)>
    decreases n,
{
    if n <= 0 {
        Seq::empty()
    } else {
        let q = (n - 1) as u32;
        equal_quiets(wm, hm, n - 1) + if quiet_fits(wm, hm, q, q) {
            seq![(q, q)]
        } else {
            Seq::empty()
        }
    }
}

/// Quiet zones `(qx, qy)` with `qy` in `0..n`, `qy != qx`, that fit.
pub open spec fn mixed_row(wm: u32, hm: u32, qx: u32, n: int) -> Seq<(u32, u32)>
    decreases n,
{
    if n <= 0 {
        Seq::empty()
    } else {
        let qy = (n - 1) as u32;
        mixed_row(wm, hm, qx, n - 1) + if qy != qx && quiet_fits(wm, hm, qx, qy) {
            seq![(qx, qy)]
        } else {
            Seq::empty()
        }
    }
}

/// Unequal quiet zones with `qx` in `0..n` that fit, by `qx` then `qy`.
pub open spec fn mixed_quiets(wm: u32, hm: u32, n: int) -> Seq<(u32, u32)>
    decreases n,
{
    if n <= 0 {
        Seq::empty()
    } else {
        mixed_quiets(wm, hm, n - 1) + mixed_row(
            wm,
            hm,
            (n - 1) as u32,
            AUTO_QUIET_ZONE_MAX as int + 1,
        )
    }
}

/// Quiet zones to try for a `wm` x `hm` module image: equal ones first, smallest
/// first, then unequal ones.
pub open spec fn quiet_candidates_spec(wm: u32, hm: u32) -> Seq<(u32, u32)> {
    equal_quiets(wm, hm, AUTO_QUIET_ZONE_MAX as int + 1) + mixed_quiets(
        wm,
        hm,
        AUTO_QUIET_ZONE_MAX as int + 1,
    )
}

/// Quiet zones to try for an image `width_modules` x `height_modules` modules large.
pub fn quiet_zone_candidates(width_modules: u32, height_modules: u32) -> (r: Vec<(u32, u32)>)
    ensures
        r@ == quiet_candidates_spec(width_modules, height_modules),
{
    let wm = width_modules;
    let hm = height_modules;
    let mut candidates: Vec<(u32, u32)> = Vec::new();
    let mut quiet: u32 = 0;
    while quiet <= AUTO_QUIET_ZONE_MAX
        invariant
            quiet <= AUTO_QUIET_ZONE_MAX + 1,
            candidates@ == equal_quiets(wm, hm, quiet as int),
        decreases AUTO_QUIET_ZONE_MAX + 1 - quiet,
    {
        if wm > quiet * 2 && hm > quiet * 2 && reference_sized_geometry(
            wm - quiet * 2,
            hm - quiet * 2,
        ) {
            candidates.push((quiet, quiet));
        }
        proof {
            assert(candidates@ =~= equal_quiets(wm, hm, quiet + 1));
        }
        quiet = quiet + 1;
    }
    let ghost equal = candidates@;
    let mut quiet_x: u32 = 0;
    while quiet_x <= AUTO_QUIET_ZONE_MAX
        invariant
            quiet_x <= AUTO_QUIET_ZONE_MAX + 1,
            equal == equal_quiets(wm, hm, AUTO_QUIET_ZONE_MAX as int + 1),
            candidates@ == equal + mixed_quiets(wm, hm, quiet_x as int),
        decreases AUTO_QUIET_ZONE_MAX + 1 - quiet_x,
    {
        let ghost before = candidates@;
        let mut quiet_y: u32 = 0;
        while quiet_y <= AUTO_QUIET_ZONE_MAX
            invariant
                quiet_x <= AUTO_QUIET_ZONE_MAX,
                quiet_y <= AUTO_QUIET_ZONE_MAX + 1,
                candidates@ == before + mixed_row(wm, hm, quiet_x, quiet_y as int),
            decreases AUTO_QUIET_ZONE_MAX + 1 - quiet_y,
        {
            if quiet_x != quiet_y && wm > quiet_x * 2 && hm > quiet_y * 2
                && reference_sized_geometry(wm - quiet_x * 2, hm - quiet_y * 2) {
                candidates.push((quiet_x, quiet_y));
            }
            proof {
                assert(candidates@ =~= before + mixed_row(wm, hm, quiet_x, quiet_y + 1));
            }
            quiet_y = quiet_y + 1;
        }
        proof {
            assert(candidates@ =~= equal + mixed_quiets(wm, hm, quiet_x + 1));
        }
        quiet_x = quiet_x + 1;
    }
    candidates
}

/// Every layout family, in detection order.
pub open spec fn all_layouts() -> Seq<LayoutFamily> {
    seq![
        LayoutFamily::RibbonWeave,
        LayoutFamily::SpectralMesh,
        LayoutFamily::PulseStream,
        LayoutFamily::Constellation,
        LayoutFamily::FrameGrid,
        LayoutFamily::Matrix,
        LayoutFamily::Hexagonal,
        LayoutFamily::Radial,
    ]
}

/// Layouts to try: the expected one first, then every other in detection order.
pub open spec fn layout_candidates_spec(primary: LayoutFamily) -> Seq<LayoutFamily> {
    seq![primary] + without(all_layouts(), primary, 8)
}

/// Layouts to try, the expected one first.
pub fn layout_candidates(primary: LayoutFamily) -> (r: Vec<LayoutFamily>)
    ensures
        r@ == layout_candidates_spec(primary),
{
    let all = [
        LayoutFamily::RibbonWeave,
        LayoutFamily::SpectralMesh,
        LayoutFamily::PulseStream,
        LayoutFamily::Constellation,
        LayoutFamily::FrameGrid,
        LayoutFamily::Matrix,
        LayoutFamily::Hexagonal,
        LayoutFamily::Radial,
    ];
    proof {
        assert(all@ =~= all_layouts());
    }
    let mut layouts: Vec<LayoutFamily> = Vec::new();
    layouts.push(primary);
    let mut i: usize = 0;
    while i < 8
        invariant
            i <= 8,
            all@ == all_layouts(),
            layouts@ == seq![primary] + without(all_layouts(), primary, i as int),
        decreases 8 - i,
    {
        let layout = all[i];
        if layout != primary {
            layouts.push(layout);
        }
        proof {
            assert(layouts@ =~= seq![primary] + without(all_layouts(), primary, i + 1));
        }
        i = i + 1;
    }
    layouts
}

/// Thresholds to try: the estimated one; mid-gray as well when the estimate sits at an
/// extreme; and the configured one when it is not among them.
pub open spec fn threshold_candidates_spec(configured: u8, estimated: u8) -> Seq<u8> {
    let base = if estimated <= 1 || estimated >= 254 {
        seq![estimated, 128u8]
    } else {
        seq![estimated]
    };
    if configured != estimated && !base.contains(configured) {
        base.push(configured)
    } else {
        base
    }
}

/// Thresholds to try, given the configured one and an estimate from the image.
pub fn threshold_candidates(configured: u8, estimated: u8) -> (r: Vec<u8>)
    ensures
        r@ == threshold_candidates_spec(configured, estimated),
{
    let mut thresholds: Vec<u8> = Vec::new();
    thresholds.push(estimated);
    let extreme = estimated <= 1 || estimated >= 254;
    if extreme {
        thresholds.push(128);
    }
    let present = configured == estimated || (extreme && configured == 128);
    if configured != estimated && !present {
        thresholds.push(configured);
    }
    proof {
        let base = if extreme {
            seq![estimated, 128u8]
        } else {
            seq![estimated]
        };
        assert(base.contains(configured) <==> present) by {
            if present {
                if configured == estimated {
                    assert(base[0] == configured);
                } else {
                    assert(base[1] == configured);
                }
            }
        }
        assert(thresholds@ =~= threshold_candidates_spec(configured, estimated));
    }
    thresholds
}

/// Sampling through the grid finds a valid header and decodes.
pub open spec fn attempt_succeeds(img: LumaImage, g: SamplingGrid) -> bool {
    grid_header_ok(img, g) && grid_outcome(img, g) is Ok
}

/// The grid of the first threshold in `ts` with which the attempt succeeds.
pub open spec fn search_thresholds(img: LumaImage, g: SamplingGrid, ts: Seq<u8>) -> Option<
    SamplingGrid,
>
    decreases ts.len(),
{
    if ts.len() == 0 {
        None
    } else {
        let attempt = SamplingGrid { threshold: ts[0], ..g };
        if attempt_succeeds(img, attempt) {
            Some(attempt)
        } else {
            search_thresholds(img, g, ts.drop_first())
        }
    }
}

/// The first success over layouts `ls`, each with every threshold in `ts`.
pub open spec fn search_layouts(
    img: LumaImage,
    g: SamplingGrid,
    ls: Seq<LayoutFamily>,
    ts: Seq<u8>,
) -> Option<SamplingGrid>
    decreases ls.len(),
{
    if ls.len() == 0 {
        None
    } else {
        match search_thresholds(img, SamplingGrid { layout: ls[0], ..g }, ts) {
            Some(found) => Some(found),
            None => search_layouts(img, g, ls.drop_first(), ts),
        }
    }
}

/// The grid of an image with `m`-pixel modules and quiet zone `(qx, qy)`, when it leaves
/// a plausible symbol.
pub open spec fn quiet_grid(img: LumaImage, m: u32, qx: u32, qy: u32) -> Option<SamplingGrid> {
    let wm = img.spec_width() / m;
    let hm = img.spec_height() / m;
    if wm > 2 * qx && hm > 2 * qy && plausible_spec((wm - 2 * qx) as u32, (hm - 2 * qy) as u32) {
        Some(
            SamplingGrid {
                module_px: m,
                quiet_x: qx,
                quiet_y: qy,
                threshold: 0,
                layout: LayoutFamily::RibbonWeave,
                width: (wm - 2 * qx) as u16,
                height: (hm - 2 * qy) as u16,
            },
        )
    } else {
        None
    }
}

/// The first success over quiet zones `qs` with `m`-pixel modules.
pub open spec fn search_quiets(
    img: LumaImage,
    m: u32,
    qs: Seq<(u32, u32)>,
    ls: Seq<LayoutFamily>,
    ts: Seq<u8>,
) -> Option<SamplingGrid>
    decreases qs.len(),
{
    if qs.len() == 0 {
        None
    } else {
        let here = match quiet_grid(img, m, qs[0].0, qs[0].1) {
            Some(g) => search_layouts(img, g, ls, ts),
            None => None,
        };
        match here {
            Some(found) => Some(found),
            None => search_quiets(img, m, qs.drop_first(), ls, ts),
        }
    }
}

/// The first success over module sizes `ms`.
pub open spec fn search_modules(
    img: LumaImage,
    ms: Seq<u32>,
    ls: Seq<LayoutFamily>,
    ts: Seq<u8>,
) -> Option<SamplingGrid>
    decreases ms.len(),
{
    if ms.len() == 0 {
        None
    } else {
        let m = ms[0];
        let wm = (img.spec_width() / m) as u32;
        let hm = (img.spec_height() / m) as u32;
        match search_quiets(img, m, quiet_candidates_spec(wm, hm), ls, ts) {
            Some(found) => Some(found),
            None => search_modules(img, ms.drop_first(), ls, ts),
        }
    }
}

/// The grid automatic detection settles on: over module sizes, quiet zones, layouts and
/// thresholds in that nesting, the first with which the header checks out and the
/// symbol decodes.
pub open spec fn auto_grid(img: LumaImage, o: DecodeOptions, estimated: u8) -> Option<SamplingGrid> {
    search_modules(
        img,
        module_candidates_spec(
            gcd_spec(img.spec_width() as nat, img.spec_height() as nat) as u32,
            o.module_px,
        ),
        layout_candidates_spec(o.layout),
        threshold_candidates_spec(o.threshold, estimated),
    )
}

/// The parameters reported for a grid.
pub open spec fn grid_info(g: SamplingGrid) -> AutoDecodeInfo {
    AutoDecodeInfo {
        module_px: g.module_px,
        quiet_zone_modules: if g.quiet_x <= g.quiet_y {
            g.quiet_x
        } else {
            g.quiet_y
        },
        threshold: g.threshold,
        layout: g.layout,
    }
}

/// Try one grid: check the header bits, then sample and decode.
fn try_grid(image: &LumaImage, g: SamplingGrid) -> (r: Option<DecodedSymbol>)
    requires
        image.well_formed(),
        grid_fits(*image, g),
    ensures
        r is Some <==> attempt_succeeds(*image, g),
        r matches Some(d) ==> grid_decoded(d, *image, g),
{
    if !header_precheck(image, g) {
        return None;
    }
    match decode_grid(image, g) {
        Ok(d) => Some(d),
        Err(_) => None,
    }
}

fn try_thresholds(image: &LumaImage, g: SamplingGrid, ts: &Vec<u8>) -> (r: Option<
    (SamplingGrid, DecodedSymbol),
>)
    requires
        image.well_formed(),
        grid_fits(*image, g),
    ensures
        match r {
            None => search_thresholds(*image, g, ts@) is None,
            Some((found, d)) => search_thresholds(*image, g, ts@) == Some(found) && grid_decoded(
                d,
                *image,
                found,
            ),
        },
{
    let mut i: usize = 0;
    assert(ts@.subrange(0, ts@.len() as int) =~= ts@);
    while i < ts.len()
        invariant
            image.well_formed(),
            grid_fits(*image, g),
            i <= ts@.len(),
            search_thresholds(*image, g, ts@) == search_thresholds(
                *image,
                g,
                ts@.subrange(i as int, ts@.len() as int),
            ),
        decreases ts@.len() - i,
    {
        let attempt = SamplingGrid { threshold: ts[i], ..g };
        let ghost rest = ts@.subrange(i as int, ts@.len() as int);
        assert(rest[0] == ts@[i as int]);
        assert(rest.drop_first() =~= ts@.subrange(i + 1, ts@.len() as int));
        match try_grid(image, attempt) {
            Some(d) => {
                return Some((attempt, d));
            },
            None => {},
        }
        i = i + 1;
    }
    None
}

fn try_layouts(image: &LumaImage, g: SamplingGrid, ls: &Vec<LayoutFamily>, ts: &Vec<u8>) -> (r:
    Option<(SamplingGrid, DecodedSymbol)>)
    requires
        image.well_formed(),
        grid_fits(*image, g),
    ensures
        match r {
            None => search_layouts(*image, g, ls@, ts@) is None,
            Some((found, d)) => search_layouts(*image, g, ls@, ts@) == Some(found) && grid_decoded(
                d,
                *image,
                found,
            ),
        },
{
    let mut i: usize = 0;
    assert(ls@.subrange(0, ls@.len() as int) =~= ls@);
    while i < ls.len()
        invariant
            image.well_formed(),
            grid_fits(*image, g),
            i <= ls@.len(),
            search_layouts(*image, g, ls@, ts@) == search_layouts(
                *image,
                g,
                ls@.subrange(i as int, ls@.len() as int),
                ts@,
            ),
        decreases ls@.len() - i,
    {
        let attempt = SamplingGrid { layout: ls[i], ..g };
        let ghost rest = ls@.subrange(i as int, ls@.len() as int);
        assert(rest[0] == ls@[i as int]);
        assert(rest.drop_first() =~= ls@.subrange(i + 1, ls@.len() as int));
        match try_thresholds(image, attempt, ts) {
            Some(found) => {
                return Some(found);
            },
            None => {},
        }
        i = i + 1;
    }
    None
}

#[verifier::spinoff_prover]
#[verifier::rlimit(40)]
fn try_quiets(
    image: &LumaImage,
    m: u32,
    qs: &Vec<(u32, u32)>,
    ls: &Vec<LayoutFamily>,
    ts: &Vec<u8>,
) -> (r: Option<(SamplingGrid, DecodedSymbol)>)
    requires
        image.well_formed(),
        m > 0,
    ensures
        match r {
            None => search_quiets(*image, m, qs@, ls@, ts@) is None,
            Some((found, d)) => search_quiets(*image, m, qs@, ls@, ts@) == Some(found)
                && grid_decoded(d, *image, found),
        },
{
    let wm = image.width() / m;
    let hm = image.height() / m;
    proof {
        assert(wm * m <= image.spec_width()) by (nonlinear_arith)
            requires
                wm == image.spec_width() / m,
                m > 0,
        ;
        assert(hm * m <= image.spec_height()) by (nonlinear_arith)
            requires
                hm == image.spec_height() / m,
                m > 0,
        ;
    }
    let mut i: usize = 0;
    assert(qs@.subrange(0, qs@.len() as int) =~= qs@);
    while i < qs.len()
        invariant
            image.well_formed(),
            m > 0,
            wm == image.spec_width() / m,
            hm == image.spec_height() / m,
            wm * m <= image.spec_width(),
            hm * m <= image.spec_height(),
            i <= qs@.len(),
            search_quiets(*image, m, qs@, ls@, ts@) == search_quiets(
                *image,
                m,
                qs@.subrange(i as int, qs@.len() as int),
                ls@,
                ts@,
            ),
        decreases qs@.len() - i,
    {
        let (qx, qy) = qs[i];
        let ghost rest = qs@.subrange(i as int, qs@.len() as int);
        assert(rest[0] == qs@[i as int]);
        assert(rest.drop_first() =~= qs@.subrange(i + 1, qs@.len() as int));
        if (wm as u64) > (qx as u64) * 2 && (hm as u64) > (qy as u64) * 2 {
            let sw = wm - qx * 2;
            let sh = hm - qy * 2;
            if plausible_symbol_geometry(sw, sh) {
                let g = SamplingGrid {
                    module_px: m,
                    quiet_x: qx,
                    quiet_y: qy,
                    threshold: 0,
                    layout: LayoutFamily::RibbonWeave,
                    width: sw as u16,
                    height: sh as u16,
                };
                proof {
                    assert(g.width == sw && g.height == sh);
                    assert((g.width + 2 * qx) * m <= wm * m);
                    assert((g.height + 2 * qy) * m <= hm * m);
                }
                match try_layouts(image, g, ls, ts) {
                    Some(found) => {
                        return Some(found);
                    },
                    None => {},
                }
            }
        }
        i = i + 1;
    }
    None
}

proof fn lemma_without_elems<T>(s: Seq<T>, x: T, n: int)
    requires
        0 <= n <= s.len(),
    ensures
        forall|k: int|
            0 <= k < without(s, x, n).len() ==> exists|j: int| 0 <= j < n && #[trigger] without(s, x, n)[k] == s[j],
    decreases n,
{
    if n > 0 {
        lemma_without_elems(s, x, n - 1);
        let prev = without(s, x, n - 1);
        let cur = without(s, x, n);
        assert forall|k: int| 0 <= k < cur.len() implies exists|j: int| 0 <= j < n && #[trigger] cur[k] == s[j] by {
            if k < prev.len() {
                assert(cur[k] == prev[k]);
                let j = choose|j: int| 0 <= j < n - 1 && prev[k] == s[j];
                assert(cur[k] == s[j]);
            } else {
                assert(cur[k] == s[n - 1]);
            }
        }
    }
}

/// Module sizes to try are positive.
proof fn lemma_module_candidates_positive(gcd: u32, preferred: u32)
    ensures
        forall|k: int|
            0 <= k < module_candidates_spec(gcd, preferred).len() ==> #[trigger] module_candidates_spec(
                gcd,
                preferred,
            )[k] >= 1,
{
    let divs = divisors_desc_spec(gcd);
    lemma_divisors_upto(gcd as nat, gcd as nat);
    lemma_without_elems(divs, preferred, divs.len() as int);
    let ms = module_candidates_spec(gcd, preferred);
    assert forall|k: int| 0 <= k < ms.len() implies #[trigger] ms[k] >= 1 by {
        if preferred != 0 && gcd % preferred == 0 {
            if k > 0 {
                let w = without(divs, preferred, divs.len() as int);
                assert(ms[k] == w[k - 1]);
                let j = choose|j: int| 0 <= j < divs.len() && w[k - 1] == divs[j];
                assert(divides(divs[j] as int, gcd as int));
            }
        } else {
            assert(divides(divs[k] as int, gcd as int));
        }
    }
}

fn try_modules(image: &LumaImage, ms: &Vec<u32>, ls: &Vec<LayoutFamily>, ts: &Vec<u8>) -> (r:
    Option<(SamplingGrid, DecodedSymbol)>)
    requires
        image.well_formed(),
        forall|k: int| 0 <= k < ms@.len() ==> #[trigger] ms@[k] >= 1,
    ensures
        match r {
            None => search_modules(*image, ms@, ls@, ts@) is None,
            Some((found, d)) => search_modules(*image, ms@, ls@, ts@) == Some(found)
                && grid_decoded(d, *image, found),
        },
{
    let mut i: usize = 0;
    assert(ms@.subrange(0, ms@.len() as int) =~= ms@);
    while i < ms.len()
        invariant
            image.well_formed(),
            forall|k: int| 0 <= k < ms@.len() ==> #[trigger] ms@[k] >= 1,
            i <= ms@.len(),
            search_modules(*image, ms@, ls@, ts@) == search_modules(
                *image,
                ms@.subrange(i as int, ms@.len() as int),
                ls@,
                ts@,
            ),
        decreases ms@.len() - i,
    {
        let m = ms[i];
        let ghost rest = ms@.subrange(i as int, ms@.len() as int);
        assert(rest[0] == ms@[i as int]);
        assert(rest.drop_first() =~= ms@.subrange(i + 1, ms@.len() as int));
        let quiets = quiet_zone_candidates(image.width() / m, image.height() / m);
        match try_quiets(image, m, &quiets, ls, ts) {
            Some(found) => {
                return Some(found);
            },
            None => {},
        }
        i = i + 1;
    }
    None
}

impl RasterDecoder {
    /// Decode a grayscale image by inferring module size, quiet zone, layout and
    /// threshold. `estimated_threshold` is a threshold estimated from the image's luma
    /// histogram; it is tried first.
    pub fn decode_auto_with_info(&self, image: &LumaImage, estimated_threshold: u8) -> (r: Result<
        AutoDecodedSymbol,
        DecodeError,
    >)
        requires
            image.well_formed(),
        ensures
            image.spec_width() == 0 || image.spec_height() == 0 ==> r matches Err(
                DecodeError::InvalidImageDimensions,
            ),
            image.spec_width() > 0 && image.spec_height() > 0 ==> match auto_grid(
                *image,
                self@,
                estimated_threshold,
            ) {
                None => r matches Err(DecodeError::AutoDetectFailed),
                Some(g) => r matches Ok(a) && a.info == grid_info(g) && grid_decoded(
                    a.decoded,
                    *image,
                    g,
                ),
            },
    {
        let width = image.width();
        let height = image.height();
        if width == 0 || height == 0 {
            return Err(DecodeError::InvalidImageDimensions);
        }
        let o = self.options();
        let gcd = gcd_u32(width, height);
        let candidates = module_candidates(gcd, o.module_px);
        proof {
            lemma_module_candidates_positive(gcd, o.module_px);
        }
        if candidates.len() == 0 {
            return Err(DecodeError::AutoDetectFailed);
        }
        let thresholds = threshold_candidates(o.threshold, estimated_threshold);
        let layouts = layout_candidates(o.layout);
        match try_modules(image, &candidates, &layouts, &thresholds) {
            Some((g, decoded)) => {
                let quiet = if g.quiet_x <= g.quiet_y {
                    g.quiet_x
                } else {
                    g.quiet_y
                };
                Ok(
                    AutoDecodedSymbol {
                        decoded,
                        info: AutoDecodeInfo {
                            module_px: g.module_px,
                            quiet_zone_modules: quiet,
                            threshold: g.threshold,
                            layout: g.layout,
                        },
                    },
                )
            },
            None => Err(DecodeError::AutoDetectFailed),
        }
    }

    /// Decode a grayscale image by inferring module size, quiet zone, layout and
    /// threshold.
    pub fn decode_auto(&self, image: &LumaImage, estimated_threshold: u8) -> (r: Result<
        DecodedSymbol,
        DecodeError,
    >)
        requires
            image.well_formed(),
        ensures
            image.spec_width() == 0 || image.spec_height() == 0 ==> r matches Err(
                DecodeError::InvalidImageDimensions,
            ),
            image.spec_width() > 0 && image.spec_height() > 0 ==> match auto_grid(
                *image,
                self@,
                estimated_threshold,
            ) {
                None => r matches Err(DecodeError::AutoDetectFailed),
                Some(g) => r matches Ok(d) && grid_decoded(d, *image, g),
            },
    {
        match self.decode_auto_with_info(image, estimated_threshold) {
            Ok(a) => Ok(a.decoded),
            Err(e) => Err(e),
        }
    }

    /// Sample a grayscale image into a symbol matrix by inferring module size, quiet
    /// zone, layout and threshold.
    pub fn sample_matrix_auto(&self, image: &LumaImage, estimated_threshold: u8) -> (r: Result<
        SymbolMatrix,
        DecodeError,
    >)
        requires
            image.well_formed(),
        ensures
            image.spec_width() == 0 || image.spec_height() == 0 ==> r matches Err(
                DecodeError::InvalidImageDimensions,
            ),
            image.spec_width() > 0 && image.spec_height() > 0 ==> match auto_grid(
                *image,
                self@,
                estimated_threshold,
            ) {
                None => r matches Err(DecodeError::AutoDetectFailed),
                Some(g) => r matches Ok(m) && sampled_through(m, *image, g),
            },
    {
        match self.decode_auto(image, estimated_threshold) {
            Ok(d) => Ok(d.matrix),
            Err(e) => Err(e),
        }
    }
}

/// Every pixel of module `(x, y)`'s block has luma `v`.
pub open spec fn module_painted(img: LumaImage, g: SamplingGrid, x: int, y: int, v: int) -> bool {
    forall|dx: int, dy: int|
        0 <= dx < g.module_px && 0 <= dy < g.module_px ==> #[trigger] luma_at(
            img,
            (x + g.quiet_x) * g.module_px + dx,
            (y + g.quiet_y) * g.module_px + dy,
        ) == v
}

/// The image paints `bits` onto the grid's data modules: black for a one, white for a
/// zero, each module block uniformly.
pub open spec fn renders_bits(img: LumaImage, g: SamplingGrid, bits: Seq<bool>) -> bool {
    let pos = data_positions(g.layout, g.width, g.height);
    &&& bits.len() == pos.len()
    &&& forall|k: int|
        0 <= k < pos.len() ==> module_painted(
            img,
            g,
            (#[trigger] pos[k]).0,
            pos[k].1,
            if bits[k] {
                0
            } else {
                255
            },
        )
}

proof fn lemma_uniform_row(img: LumaImage, x0: int, y: int, n: int, v: int)
    requires
        0 <= n,
        forall|dx: int| 0 <= dx < n ==> #[trigger] luma_at(img, x0 + dx, y) == v,
    ensures
        row_sum(img, x0, y, n) == v * n,
    decreases n,
{
    if n > 0 {
        lemma_uniform_row(img, x0, y, n - 1, v);
        assert(luma_at(img, x0 + (n - 1), y) == v);
        assert(v * (n - 1) + v == v * n) by (nonlinear_arith);
        assert(luma_at(img, x0 + n - 1, y) == v);
    } else {
        assert(v * n == 0) by (nonlinear_arith)
            requires
                n == 0,
        ;
    }
}

proof fn lemma_uniform_block(img: LumaImage, x0: int, y0: int, px: int, m: int, v: int)
    requires
        0 <= m,
        0 <= px,
        forall|dx: int, dy: int| 0 <= dx < px && 0 <= dy < m ==> #[trigger] luma_at(img, x0 + dx, y0 + dy) == v,
    ensures
        block_sum(img, x0, y0, px, m) == v * px * m,
    decreases m,
{
    if m > 0 {
        lemma_uniform_block(img, x0, y0, px, m - 1, v);
        assert forall|dx: int| 0 <= dx < px implies #[trigger] luma_at(img, x0 + dx, y0 + m - 1) == v by {
            assert(luma_at(img, x0 + dx, y0 + (m - 1)) == v);
        }
        lemma_uniform_row(img, x0, y0 + m - 1, px, v);
        assert(v * px * (m - 1) + v * px == v * px * m) by (nonlinear_arith);
    } else {
        assert(v * px * m == 0) by (nonlinear_arith)
            requires
                m == 0,
        ;
    }
}

/// A module painted uniformly has that luma as its mean.
proof fn lemma_painted_module_luma(img: LumaImage, g: SamplingGrid, x: int, y: int, v: int)
    requires
        g.module_px > 0,
        module_painted(img, g, x, y, v),
    ensures
        grid_luma(img, g, x, y) == v,
{
    let px = g.module_px as int;
    let x0 = (x + g.quiet_x) * px;
    let y0 = (y + g.quiet_y) * px;
    assert forall|dx: int, dy: int| 0 <= dx < px && 0 <= dy < px implies #[trigger] luma_at(
        img,
        x0 + dx,
        y0 + dy,
    ) == v by {
        assert(luma_at(img, (x + g.quiet_x) * g.module_px + dx, (y + g.quiet_y) * g.module_px + dy)
            == v);
    }
    lemma_uniform_block(img, x0, y0, px, px, v);
    assert(v * px * px / (px * px) == v) by (nonlinear_arith)
        requires
            px > 0,
    ;
}

/// Sampling an image that paints bits onto the grid's data modules, black for one and
/// white for zero, gives back exactly those bits, whatever threshold above black is
/// used.
pub proof fn lemma_sampling_recovers_bits(img: LumaImage, g: SamplingGrid, bits: Seq<bool>)
    requires
        g.module_px > 0,
        g.threshold > 0,
        renders_bits(img, g, bits),
    ensures
        grid_bits(img, g) == bits,
{
    let pos = data_positions(g.layout, g.width, g.height);
    assert forall|k: int| 0 <= k < pos.len() implies (grid_luma(img, g, (#[trigger] pos[k]).0, pos[k].1)
        < g.threshold) == bits[k] by {
        lemma_painted_module_luma(
            img,
            g,
            pos[k].0,
            pos[k].1,
            if bits[k] {
                0
            } else {
                255
            },
        );
    }
    assert(grid_bits(img, g) =~= bits);
}

/// A symbol rendered onto an image, its payload modules painted black and white,
/// decodes back to the frame it was encoded from: sampling through the symbol's grid
/// recovers its payload bits, and decoding them gives the encoded frame.
pub proof fn lemma_decode_rendered(
    config: EncoderConfig,
    payload: Seq<u8>,
    frame_index: u16,
    frame_count: u16,
    stream_id: u64,
    mode: TransmissionMode,
    sym: EncodedSymbol,
    img: LumaImage,
    g: SamplingGrid,
)
    requires
        encode_frame_error(config, payload, frame_index, frame_count, stream_id, mode) is None,
        encoded_symbol_spec(config, payload, frame_index, frame_count, stream_id, mode, sym),
        g.module_px > 0,
        g.threshold > 0,
        renders_bits(img, g, sym.matrix.data_bits()),
    ensures
        match grid_outcome(img, g) {
            Ok((_, f, _)) => f == sym.frame@,
            Err(_) => false,
        },
{
    lemma_sampling_recovers_bits(img, g, sym.matrix.data_bits());
    lemma_decode_encoded(
        config,
        payload,
        frame_index,
        frame_count,
        stream_id,
        mode,
        sym,
        grid_suspects(img, g),
    );
}

} // verus!
