//! SVG documents for rendered matrices.
use vstd::prelude::*;

use crate::cell::Cell;
use crate::descriptor::LayoutFamily;
use crate::matrix::SymbolMatrix;
use crate::render::{
    cell_color_spec, cell_shape_spec, data_color_spec, default_options, draw_ops, matrix_ops,
    op_inside, Color, DrawOp, ModuleShape, RenderError, RenderOptions,
};
use crate::text::{
    append_decimal, append_hex_byte, decimal_text, digits_value, hex_byte_text, is_decimal_digits,
    lemma_decimal_text_reads_back,
};

verus! {

/// `#rrggbb` for a color.
pub open spec fn hex_text(c: Color) -> Seq<char> {
    "#"@ + hex_byte_text(c.0[0]) + hex_byte_text(c.0[1]) + hex_byte_text(c.0[2])
}

/// The vertical padding of a stroke in a module `size` pixels tall: 14% of it,
/// rounded half up.
pub open spec fn stroke_pad(size: nat) -> nat {
    (size * 14 + 50) / 100
}

/// The height of a stroke: the module less both paddings, at least one pixel.
pub open spec fn stroke_height(size: nat) -> nat {
    let p2 = 2 * stroke_pad(size);
    if size > p2 && size - p2 >= 1 {
        (size - p2) as nat
    } else {
        1
    }
}

/// Half of `h` with two decimals.
pub open spec fn half_text(h: nat) -> Seq<char> {
    decimal_text(h / 2) + if h % 2 == 0 {
        ".00"@
    } else {
        ".50"@
    }
}

/// The pixel offset of module coordinate `m` (quiet zone included).
pub open spec fn module_offset(o: RenderOptions, m: u16) -> nat {
    ((m + o.quiet_zone_modules) * o.module_px) as nat
}

/// A square module element.
pub open spec fn square_svg(px: nat, py: nat, size: nat, fill: Color) -> Seq<char> {
    "<rect x=\""@ + decimal_text(px) + "\" y=\""@ + decimal_text(py) + "\" width=\""@
        + decimal_text(size) + "\" height=\""@ + decimal_text(size) + "\" fill=\""@ + hex_text(
        fill,
    ) + "\"/>"@
}

/// A rounded stroke element for one module.
pub open spec fn stroke_svg(px: nat, py: nat, size: nat, fill: Color) -> Seq<char> {
    let h = stroke_height(size);
    "<rect class=\"glyphnet-stroke\" x=\""@ + decimal_text(px) + "\" y=\""@ + decimal_text(
        py + stroke_pad(size),
    ) + "\" width=\""@ + decimal_text(size) + "\" height=\""@ + decimal_text(h) + "\" rx=\""@
        + half_text(h) + "\" ry=\""@ + half_text(h) + "\" fill=\""@ + hex_text(fill) + "\"/>"@
}

/// A diamond element spanning the module.
pub open spec fn diamond_svg(px: nat, py: nat, size: nat, fill: Color) -> Seq<char> {
    let cx = px + size / 2;
    let cy = py + size / 2;
    "<polygon points=\""@ + decimal_text(cx) + ","@ + decimal_text(py) + " "@ + decimal_text(
        px + size,
    ) + ","@ + decimal_text(cy) + " "@ + decimal_text(cx) + ","@ + decimal_text(py + size) + " "@
        + decimal_text(px) + ","@ + decimal_text(cy) + "\" fill=\""@ + hex_text(fill) + "\"/>"@
}

/// The SVG element of one dark module at pixel `(px, py)`: its shape, in its color.
pub open spec fn module_svg(
    o: RenderOptions,
    layout: LayoutFamily,
    x: u16,
    y: u16,
    px: nat,
    py: nat,
    cell: Cell,
) -> Seq<char> {
    let size = o.module_px as nat;
    let fill = cell_color_spec(o, layout, x, y, cell);
    match cell_shape_spec(o, cell) {
        ModuleShape::Square => square_svg(px, py, size, fill),
        ModuleShape::Capsule | ModuleShape::Ribbon => stroke_svg(px, py, size, fill),
        ModuleShape::Diamond => diamond_svg(px, py, size, fill),
    }
}

/// A rounded ribbon element at pixel `(px, py)`, `width` pixels long, for modules of `size` pixels.
pub open spec fn ribbon_element(px: nat, py: nat, width: nat, size: nat, fill: Color) -> Seq<char> {
    let h = stroke_height(size);
    "<rect class=\"glyphnet-ribbon\" x=\""@ + decimal_text(px) + "\" y=\""@ + decimal_text(
        py + stroke_pad(size),
    ) + "\" width=\""@ + decimal_text(width) + "\" height=\""@ + decimal_text(h) + "\" rx=\""@
        + half_text(h) + "\" ry=\""@ + half_text(h) + "\" fill=\""@ + hex_text(fill) + "\"/>"@
}

/// The SVG element of a ribbon of `run_len` dark data modules.
pub open spec fn ribbon_svg(o: RenderOptions, layout: LayoutFamily, x: u16, y: u16, run_len: u16) -> Seq<
    char,
> {
    ribbon_element(
        module_offset(o, x),
        module_offset(o, y),
        (run_len * o.module_px) as nat,
        o.module_px as nat,
        data_color_spec(o, layout, x, y),
    )
}

/// The SVG element of a drawing primitive.
pub open spec fn op_svg(o: RenderOptions, layout: LayoutFamily, op: DrawOp) -> Seq<char> {
    match op {
        DrawOp::Module { module_x, module_y, cell } => module_svg(
            o,
            layout,
            module_x,
            module_y,
            module_offset(o, module_x),
            module_offset(o, module_y),
            cell,
        ),
        DrawOp::Ribbon { start_x, module_y, run_len } => ribbon_svg(
            o,
            layout,
            start_x,
            module_y,
            run_len,
        ),
    }
}

/// Whether `element` is the `<rect>` whose `x`, `y`, `width` and `height`
/// attributes read as the decimal numbers `px`, `py`, `w` and `h`, filled with `fill`.
pub open spec fn rect_element(element: Seq<char>, px: nat, py: nat, w: nat, h: nat, fill: Color) -> bool {
    exists|xs: Seq<char>, ys: Seq<char>, ws: Seq<char>, hs: Seq<char>|
        #![trigger digits_value(xs), digits_value(ys), digits_value(ws), digits_value(hs)]
        {
            &&& is_decimal_digits(xs) && digits_value(xs) == px
            &&& is_decimal_digits(ys) && digits_value(ys) == py
            &&& is_decimal_digits(ws) && digits_value(ws) == w
            &&& is_decimal_digits(hs) && digits_value(hs) == h
            &&& element == "<rect x=\""@ + xs + "\" y=\""@ + ys + "\" width=\""@ + ws
                + "\" height=\""@ + hs + "\" fill=\""@ + hex_text(fill) + "\"/>"@
        }
}

/// A square module element drawn at pixel `(px, py)` is a `size` by `size` rect
/// whose `x` attribute is `px` and whose `y` attribute is `py`.
pub proof fn square_element_position(px: nat, py: nat, size: nat, fill: Color)
    ensures
        rect_element(square_svg(px, py, size, fill), px, py, size, size, fill),
{
    lemma_decimal_text_reads_back(px);
    lemma_decimal_text_reads_back(py);
    lemma_decimal_text_reads_back(size);
    let dx = decimal_text(px);
    let dy = decimal_text(py);
    let ds = decimal_text(size);
    assert(digits_value(dx) == px && digits_value(dy) == py && digits_value(ds) == size);
}

/// In the document, a dark module drawn as a square is a `module_px` square in
/// its cell's color at pixel
/// `((module_x + quiet zone) * module_px, (module_y + quiet zone) * module_px)`.
pub proof fn square_module_position(
    o: RenderOptions,
    layout: LayoutFamily,
    module_x: u16,
    module_y: u16,
    cell: Cell,
)
    requires
        cell_shape_spec(o, cell) == ModuleShape::Square,
    ensures
        rect_element(
            op_svg(o, layout, DrawOp::Module { module_x, module_y, cell }),
            ((module_x + o.quiet_zone_modules) * o.module_px) as nat,
            ((module_y + o.quiet_zone_modules) * o.module_px) as nat,
            o.module_px as nat,
            o.module_px as nat,
            cell_color_spec(o, layout, module_x, module_y, cell),
        ),
{
    square_element_position(
        module_offset(o, module_x),
        module_offset(o, module_y),
        o.module_px as nat,
        cell_color_spec(o, layout, module_x, module_y, cell),
    );
}

/// The SVG elements of `ops[0..n]`, one after the other.
pub open spec fn ops_svg(o: RenderOptions, layout: LayoutFamily, ops: Seq<DrawOp>, n: nat) -> Seq<
    char,
>
    decreases n,
{
    if n == 0 {
        Seq::empty()
    } else {
        ops_svg(o, layout, ops, (n - 1) as nat) + op_svg(o, layout, ops[n - 1])
    }
}

/// The SVG document of a matrix: the root element sized with the quiet zone, a
/// background rectangle, then one element per drawing primitive.
pub open spec fn svg_document(o: RenderOptions, m: SymbolMatrix) -> Seq<char> {
    let width = ((m.spec_width() + 2 * o.quiet_zone_modules) * o.module_px) as nat;
    let height = ((m.spec_height() + 2 * o.quiet_zone_modules) * o.module_px) as nat;
    let ops = matrix_ops(m);
    "<svg xmlns=\"http://www.w3.org/2000/svg\" viewBox=\"0 0 "@ + decimal_text(width) + " "@
        + decimal_text(height) + "\" width=\""@ + decimal_text(width) + "\" height=\""@
        + decimal_text(height) + "\" shape-rendering=\"geometricPrecision\">"@
        + "<rect width=\"100%\" height=\"100%\" fill=\""@ + hex_text(o.light) + "\"/>"@ + ops_svg(
        o,
        m.spec_layout(),
        ops,
        ops.len(),
    ) + "</svg>"@
}

/// Whether a matrix of `w` by `h` modules fits the pixel arithmetic of these
/// options: both image sides fit in `u32`, and pulse-stream lane colors can be
/// computed for every module.
pub open spec fn svg_fits(o: RenderOptions, w: u16, h: u16, layout: LayoutFamily) -> bool {
    &&& (w + 2 * o.quiet_zone_modules) * o.module_px <= u32::MAX
    &&& (h + 2 * o.quiet_zone_modules) * o.module_px <= u32::MAX
    &&& layout == LayoutFamily::PulseStream ==> w / 8 + h <= 65536
}

fn append_hex(s: &mut String, c: Color)
    ensures
        final(s)@ == old(s)@ + hex_text(c),
{
    s.append("#");
    append_hex_byte(s, c.0[0]);
    append_hex_byte(s, c.0[1]);
    append_hex_byte(s, c.0[2]);
    assert(final(s)@ =~= old(s)@ + hex_text(c));
}

/// The color as `#rrggbb`.
pub fn hex(color: Color) -> (r: String)
    ensures
        r@ == hex_text(color),
{
    let mut s = String::new();
    append_hex(&mut s, color);
    assert(s@ =~= hex_text(color));
    s
}

fn append_half(s: &mut String, h: u32)
    ensures
        final(s)@ == old(s)@ + half_text(h as nat),
{
    append_decimal(s, h / 2);
    if h % 2 == 0 {
        s.append(".00");
    } else {
        s.append(".50");
    }
    assert(final(s)@ =~= old(s)@ + half_text(h as nat));
}

/// The stroke padding and height for modules `size` pixels tall.
fn stroke_metrics(size: u32) -> (r: (u32, u32))
    ensures
        r.0 == stroke_pad(size as nat),
        r.1 == stroke_height(size as nat),
        r.0 <= size,
{
    let pad64 = (size as u64 * 14 + 50) / 100;
    let pad = pad64 as u32;
    let twice = pad64 * 2;
    let height = if (size as u64) > twice && (size as u64) - twice >= 1 {
        ((size as u64) - twice) as u32
    } else {
        1
    };
    (pad, height)
}

proof fn lemma_extend(base: Seq<char>, acc: Seq<char>, next: Seq<char>)
    ensures
        (base + acc) + next == base + (acc + next),
{
    assert((base + acc) + next =~= base + (acc + next));
}

fn append_square(s: &mut String, px: u32, py: u32, size: u32, fill: Color)
    ensures
        final(s)@ == old(s)@ + square_svg(px as nat, py as nat, size as nat, fill),
{
    let ghost base = s@;
    s.append("<rect x=\"");
    let ghost mut acc = "<rect x=\""@;
    append_decimal(s, px);
    proof {
        lemma_extend(base, acc, decimal_text(px as nat));
        acc = acc + decimal_text(px as nat);
    }
    s.append("\" y=\"");
    proof {
        lemma_extend(base, acc, "\" y=\""@);
        acc = acc + "\" y=\""@;
    }
    append_decimal(s, py);
    proof {
        lemma_extend(base, acc, decimal_text(py as nat));
        acc = acc + decimal_text(py as nat);
    }
    s.append("\" width=\"");
    proof {
        lemma_extend(base, acc, "\" width=\""@);
        acc = acc + "\" width=\""@;
    }
    append_decimal(s, size);
    proof {
        lemma_extend(base, acc, decimal_text(size as nat));
        acc = acc + decimal_text(size as nat);
    }
    s.append("\" height=\"");
    proof {
        lemma_extend(base, acc, "\" height=\""@);
        acc = acc + "\" height=\""@;
    }
    append_decimal(s, size);
    proof {
        lemma_extend(base, acc, decimal_text(size as nat));
        acc = acc + decimal_text(size as nat);
    }
    s.append("\" fill=\"");
    proof {
        lemma_extend(base, acc, "\" fill=\""@);
        acc = acc + "\" fill=\""@;
    }
    append_hex(s, fill);
    proof {
        lemma_extend(base, acc, hex_text(fill));
        acc = acc + hex_text(fill);
    }
    s.append("\"/>");
    proof {
        lemma_extend(base, acc, "\"/>"@);
        acc = acc + "\"/>"@;
    }
    assert(acc == square_svg(px as nat, py as nat, size as nat, fill));
}

fn append_stroke(s: &mut String, px: u32, py: u32, size: u32, fill: Color)
    requires
        py + size <= u32::MAX,
    ensures
        final(s)@ == old(s)@ + stroke_svg(px as nat, py as nat, size as nat, fill),
{
    let (pad, height) = stroke_metrics(size);
    let ghost base = s@;
    s.append("<rect class=\"glyphnet-stroke\" x=\"");
    let ghost mut acc = "<rect class=\"glyphnet-stroke\" x=\""@;
    append_decimal(s, px);
    proof {
        lemma_extend(base, acc, decimal_text(px as nat));
        acc = acc + decimal_text(px as nat);
    }
    s.append("\" y=\"");
    proof {
        lemma_extend(base, acc, "\" y=\""@);
        acc = acc + "\" y=\""@;
    }
    append_decimal(s, py + pad);
    proof {
        lemma_extend(base, acc, decimal_text((py + stroke_pad(size as nat)) as nat));
        acc = acc + decimal_text((py + stroke_pad(size as nat)) as nat);
    }
    s.append("\" width=\"");
    proof {
        lemma_extend(base, acc, "\" width=\""@);
        acc = acc + "\" width=\""@;
    }
    append_decimal(s, size);
    proof {
        lemma_extend(base, acc, decimal_text(size as nat));
        acc = acc + decimal_text(size as nat);
    }
    s.append("\" height=\"");
    proof {
        lemma_extend(base, acc, "\" height=\""@);
        acc = acc + "\" height=\""@;
    }
    append_decimal(s, height);
    proof {
        lemma_extend(base, acc, decimal_text(stroke_height(size as nat)));
        acc = acc + decimal_text(stroke_height(size as nat));
    }
    s.append("\" rx=\"");
    proof {
        lemma_extend(base, acc, "\" rx=\""@);
        acc = acc + "\" rx=\""@;
    }
    append_half(s, height);
    proof {
        lemma_extend(base, acc, half_text(stroke_height(size as nat)));
        acc = acc + half_text(stroke_height(size as nat));
    }
    s.append("\" ry=\"");
    proof {
        lemma_extend(base, acc, "\" ry=\""@);
        acc = acc + "\" ry=\""@;
    }
    append_half(s, height);
    proof {
        lemma_extend(base, acc, half_text(stroke_height(size as nat)));
        acc = acc + half_text(stroke_height(size as nat));
    }
    s.append("\" fill=\"");
    proof {
        lemma_extend(base, acc, "\" fill=\""@);
        acc = acc + "\" fill=\""@;
    }
    append_hex(s, fill);
    proof {
        lemma_extend(base, acc, hex_text(fill));
        acc = acc + hex_text(fill);
    }
    s.append("\"/>");
    proof {
        lemma_extend(base, acc, "\"/>"@);
        acc = acc + "\"/>"@;
    }
    assert(acc == stroke_svg(px as nat, py as nat, size as nat, fill));
}

fn append_ribbon(s: &mut String, px: u32, py: u32, width: u32, size: u32, fill: Color)
    requires
        py + size <= u32::MAX,
    ensures
        final(s)@ == old(s)@ + ribbon_element(px as nat, py as nat, width as nat, size as nat, fill),
{
    let (pad, height) = stroke_metrics(size);
    let ghost base = s@;
    s.append("<rect class=\"glyphnet-ribbon\" x=\"");
    let ghost mut acc = "<rect class=\"glyphnet-ribbon\" x=\""@;
    append_decimal(s, px);
    proof {
        lemma_extend(base, acc, decimal_text(px as nat));
        acc = acc + decimal_text(px as nat);
    }
    s.append("\" y=\"");
    proof {
        lemma_extend(base, acc, "\" y=\""@);
        acc = acc + "\" y=\""@;
    }
    append_decimal(s, py + pad);
    proof {
        lemma_extend(base, acc, decimal_text((py + stroke_pad(size as nat)) as nat));
        acc = acc + decimal_text((py + stroke_pad(size as nat)) as nat);
    }
    s.append("\" width=\"");
    proof {
        lemma_extend(base, acc, "\" width=\""@);
        acc = acc + "\" width=\""@;
    }
    append_decimal(s, width);
    proof {
        lemma_extend(base, acc, decimal_text(width as nat));
        acc = acc + decimal_text(width as nat);
    }
    s.append("\" height=\"");
    proof {
        lemma_extend(base, acc, "\" height=\""@);
        acc = acc + "\" height=\""@;
    }
    append_decimal(s, height);
    proof {
        lemma_extend(base, acc, decimal_text(stroke_height(size as nat)));
        acc = acc + decimal_text(stroke_height(size as nat));
    }
    s.append("\" rx=\"");
    proof {
        lemma_extend(base, acc, "\" rx=\""@);
        acc = acc + "\" rx=\""@;
    }
    append_half(s, height);
    proof {
        lemma_extend(base, acc, half_text(stroke_height(size as nat)));
        acc = acc + half_text(stroke_height(size as nat));
    }
    s.append("\" ry=\"");
    proof {
        lemma_extend(base, acc, "\" ry=\""@);
        acc = acc + "\" ry=\""@;
    }
    append_half(s, height);
    proof {
        lemma_extend(base, acc, half_text(stroke_height(size as nat)));
        acc = acc + half_text(stroke_height(size as nat));
    }
    s.append("\" fill=\"");
    proof {
        lemma_extend(base, acc, "\" fill=\""@);
        acc = acc + "\" fill=\""@;
    }
    append_hex(s, fill);
    proof {
        lemma_extend(base, acc, hex_text(fill));
        acc = acc + hex_text(fill);
    }
    s.append("\"/>");
    proof {
        lemma_extend(base, acc, "\"/>"@);
        acc = acc + "\"/>"@;
    }
    assert(acc == ribbon_element(px as nat, py as nat, width as nat, size as nat, fill));
}

fn append_diamond(s: &mut String, px: u32, py: u32, size: u32, fill: Color)
    requires
        px + size <= u32::MAX,
        py + size <= u32::MAX,
    ensures
        final(s)@ == old(s)@ + diamond_svg(px as nat, py as nat, size as nat, fill),
{
    let cx = px + size / 2;
    let cy = py + size / 2;
    let ghost base = s@;
    s.append("<polygon points=\"");
    let ghost mut acc = "<polygon points=\""@;
    append_decimal(s, cx);
    proof {
        lemma_extend(base, acc, decimal_text(cx as nat));
        acc = acc + decimal_text(cx as nat);
    }
    s.append(",");
    proof {
        lemma_extend(base, acc, ","@);
        acc = acc + ","@;
    }
    append_decimal(s, py);
    proof {
        lemma_extend(base, acc, decimal_text(py as nat));
        acc = acc + decimal_text(py as nat);
    }
    s.append(" ");
    proof {
        lemma_extend(base, acc, " "@);
        acc = acc + " "@;
    }
    append_decimal(s, px + size);
    proof {
        lemma_extend(base, acc, decimal_text((px + size) as nat));
        acc = acc + decimal_text((px + size) as nat);
    }
    s.append(",");
    proof {
        lemma_extend(base, acc, ","@);
        acc = acc + ","@;
    }
    append_decimal(s, cy);
    proof {
        lemma_extend(base, acc, decimal_text(cy as nat));
        acc = acc + decimal_text(cy as nat);
    }
    s.append(" ");
    proof {
        lemma_extend(base, acc, " "@);
        acc = acc + " "@;
    }
    append_decimal(s, cx);
    proof {
        lemma_extend(base, acc, decimal_text(cx as nat));
        acc = acc + decimal_text(cx as nat);
    }
    s.append(",");
    proof {
        lemma_extend(base, acc, ","@);
        acc = acc + ","@;
    }
    append_decimal(s, py + size);
    proof {
        lemma_extend(base, acc, decimal_text((py + size) as nat));
        acc = acc + decimal_text((py + size) as nat);
    }
    s.append(" ");
    proof {
        lemma_extend(base, acc, " "@);
        acc = acc + " "@;
    }
    append_decimal(s, px);
    proof {
        lemma_extend(base, acc, decimal_text(px as nat));
        acc = acc + decimal_text(px as nat);
    }
    s.append(",");
    proof {
        lemma_extend(base, acc, ","@);
        acc = acc + ","@;
    }
    append_decimal(s, cy);
    proof {
        lemma_extend(base, acc, decimal_text(cy as nat));
        acc = acc + decimal_text(cy as nat);
    }
    s.append("\" fill=\"");
    proof {
        lemma_extend(base, acc, "\" fill=\""@);
        acc = acc + "\" fill=\""@;
    }
    append_hex(s, fill);
    proof {
        lemma_extend(base, acc, hex_text(fill));
        acc = acc + hex_text(fill);
    }
    s.append("\"/>");
    proof {
        lemma_extend(base, acc, "\"/>"@);
        acc = acc + "\"/>"@;
    }
    assert(acc == diamond_svg(px as nat, py as nat, size as nat, fill));
}

/// SVG renderer for web/native vector workflows.
#[derive(Debug, Clone, PartialEq, Eq)]
pub struct SvgRenderer {
    options: RenderOptions,
}

impl View for SvgRenderer {
    type V = RenderOptions;

    /// The render options.
    closed spec fn view(&self) -> RenderOptions {
        self.options
    }
}

impl Default for SvgRenderer {
    fn default() -> (r: Self)
        ensures
            r@ == default_options(),
    {
        SvgRenderer::new(RenderOptions::default())
    }
}

impl SvgRenderer {
    /// Create an SVG renderer from options.
    pub fn new(options: RenderOptions) -> (r: Self)
        ensures
            r@ == options,
    {
        SvgRenderer { options }
    }

    /// Render a matrix to an SVG document string.
    pub fn render(&self, matrix: &SymbolMatrix) -> (r: Result<String, RenderError>)
        requires
            matrix.well_formed(),
            self@.module_px > 0 ==> svg_fits(
                self@,
                matrix.spec_width(),
                matrix.spec_height(),
                matrix.spec_layout(),
            ),
        ensures
            self@.module_px == 0 ==> r == Err::<String, RenderError>(RenderError::ZeroModuleSize),
            self@.module_px > 0 ==> match r {
                Ok(s) => s@ == svg_document(self@, *matrix),
                Err(_) => false,
            },
    {
        let o = self.options;
        if o.module_px == 0 {
            return Err(RenderError::ZeroModuleSize);
        }
        let w = matrix.width();
        let h = matrix.height();
        proof {
            lemma_offset_fits(o, w, w);
            lemma_offset_fits(o, h, h);
            assert((w + 2 * o.quiet_zone_modules) * o.module_px == (w + o.quiet_zone_modules * 2)
                * o.module_px);
        }
        let width = (w as u32 + o.quiet_zone_modules * 2) * o.module_px;
        let height = (h as u32 + o.quiet_zone_modules * 2) * o.module_px;
        let ops = draw_ops(matrix);
        let ghost layout = matrix.spec_layout();
        let mut svg = String::new();
        svg.append("<svg xmlns=\"http://www.w3.org/2000/svg\" viewBox=\"0 0 ");
        append_decimal(&mut svg, width);
        svg.append(" ");
        append_decimal(&mut svg, height);
        svg.append("\" width=\"");
        append_decimal(&mut svg, width);
        svg.append("\" height=\"");
        append_decimal(&mut svg, height);
        svg.append("\" shape-rendering=\"geometricPrecision\">");
        svg.append("<rect width=\"100%\" height=\"100%\" fill=\"");
        append_hex(&mut svg, o.light);
        svg.append("\"/>");
        let ghost head = svg@;
        proof {
            crate::render::lemma_matrix_ops_inside(*matrix);
        }
        let mut i: usize = 0;
        while i < ops.len()
            invariant
                o == self@,
                o.module_px > 0,
                svg_fits(o, w, h, layout),
                w == matrix.spec_width(),
                h == matrix.spec_height(),
                layout == matrix.spec_layout(),
                ops@ == matrix_ops(*matrix),
                forall|k: int| 0 <= k < ops@.len() ==> op_inside(#[trigger] ops@[k], w, h),
                i <= ops@.len(),
                svg@ == head + ops_svg(o, layout, ops@, i as nat),
            decreases ops@.len() - i,
        {
            let op = ops[i];
            assert(op_inside(ops@[i as int], w, h));
            match op {
                DrawOp::Module { module_x, module_y, cell } => {
                    self.svg_module(&mut svg, matrix.layout(), module_x, module_y, cell, w, h);
                },
                DrawOp::Ribbon { start_x, module_y, run_len } => {
                    self.svg_ribbon_run(&mut svg, matrix.layout(), start_x, module_y, run_len, w, h);
                },
            }
            assert(svg@ =~= head + ops_svg(o, layout, ops@, (i + 1) as nat));
            i = i + 1;
        }
        svg.append("</svg>");
        assert(svg@ =~= svg_document(o, *matrix));
        Ok(svg)
    }

    /// Append the SVG element of one dark module.
    fn svg_module(
        &self,
        svg: &mut String,
        layout: LayoutFamily,
        module_x: u16,
        module_y: u16,
        cell: Cell,
        w: u16,
        h: u16,
    )
        requires
            self@.module_px > 0,
            svg_fits(self@, w, h, layout),
            module_x < w,
            module_y < h,
        ensures
            final(svg)@ == old(svg)@ + op_svg(
                self@,
                layout,
                DrawOp::Module { module_x, module_y, cell },
            ),
    {
        let o = self.options;
        let size = o.module_px;
        proof {
            lemma_offset_fits(o, module_x, w);
            lemma_offset_fits(o, module_y, h);
        }
        let px = (module_x as u32 + o.quiet_zone_modules) * size;
        let py = (module_y as u32 + o.quiet_zone_modules) * size;
        let fill = o.color_for_at(layout, module_x, module_y, cell);
        match o.shape_for(cell) {
            ModuleShape::Square => append_square(svg, px, py, size, fill),
            ModuleShape::Capsule | ModuleShape::Ribbon => append_stroke(svg, px, py, size, fill),
            ModuleShape::Diamond => append_diamond(svg, px, py, size, fill),
        }
    }

    /// Append the SVG element of a ribbon of dark data modules.
    fn svg_ribbon_run(
        &self,
        svg: &mut String,
        layout: LayoutFamily,
        start_module_x: u16,
        module_y: u16,
        run_len: u16,
        w: u16,
        h: u16,
    )
        requires
            self@.module_px > 0,
            svg_fits(self@, w, h, layout),
            start_module_x + run_len <= w,
            module_y < h,
        ensures
            final(svg)@ == old(svg)@ + op_svg(
                self@,
                layout,
                DrawOp::Ribbon { start_x: start_module_x, module_y, run_len },
            ),
    {
        let o = self.options;
        let size = o.module_px;
        proof {
            lemma_offset_fits(o, start_module_x, w);
            lemma_offset_fits(o, module_y, h);
            assert(run_len * size <= (w + 2 * o.quiet_zone_modules) * size) by (nonlinear_arith)
                requires
                    run_len <= w,
                    size > 0,
            ;
        }
        let x = (start_module_x as u32 + o.quiet_zone_modules) * size;
        let y = (module_y as u32 + o.quiet_zone_modules) * size;
        let width = run_len as u32 * size;
        let fill = o.data_color_for(layout, start_module_x, module_y);
        append_ribbon(svg, x, y, width, size, fill);
    }
}

proof fn lemma_offset_fits(o: RenderOptions, m: u16, w: u16)
    requires
        m <= w,
        (w + 2 * o.quiet_zone_modules) * o.module_px <= u32::MAX,
        o.module_px > 0,
    ensures
        m < w ==> (m + o.quiet_zone_modules) * o.module_px + o.module_px <= u32::MAX,
        (m + o.quiet_zone_modules) * o.module_px <= u32::MAX,
        m + o.quiet_zone_modules <= u32::MAX,
        w + 2 * o.quiet_zone_modules <= u32::MAX,
{
    assert(m < w ==> (m + o.quiet_zone_modules) * o.module_px + o.module_px <= (w + 2
        * o.quiet_zone_modules) * o.module_px) by (nonlinear_arith)
        requires
            m <= w,
            o.module_px > 0,
    ;
    assert((m + o.quiet_zone_modules) * o.module_px <= (w + 2 * o.quiet_zone_modules)
        * o.module_px) by (nonlinear_arith)
        requires
            m <= w,
            o.module_px > 0,
    ;
    assert(w + 2 * o.quiet_zone_modules <= (w + 2 * o.quiet_zone_modules) * o.module_px)
        by (nonlinear_arith)
        requires
            o.module_px > 0,
    ;
}

} // verus!
