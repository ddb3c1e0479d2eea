//! Rendering pipeline: visual options per profile, the drawing primitives of a
//! matrix, and SVG documents.
use vstd::prelude::*;

use crate::cell::{cell_is_dark, Cell};
use crate::descriptor::{ColorEncoding, LayoutFamily, SymbolDescriptor};
use crate::matrix::{lin, SymbolMatrix};

verus! {

/// Renderer errors.
#[derive(Debug, Clone, PartialEq, Eq, Structural)]
pub enum RenderError {
    /// The requested module size is zero.
    ZeroModuleSize,
    /// The requested image dimensions overflowed `u32`.
    DimensionOverflow,
}

/// RGBA color.
#[derive(Debug, Clone, Copy, PartialEq, Eq)]
pub struct Color(pub [u8; 4]);

/// The color with these channels.
pub open spec fn rgba(r: u8, g: u8, b: u8, a: u8) -> Color {
    Color([r, g, b, a])
}

impl Color {
    /// Opaque black.
    pub fn black() -> (c: Color)
        ensures
            c == rgba(0, 0, 0, 255),
    {
        Color([0, 0, 0, 255])
    }

    /// Opaque white.
    pub fn white() -> (c: Color)
        ensures
            c == rgba(255, 255, 255, 255),
    {
        Color([255, 255, 255, 255])
    }

    /// Blue tracking marker color for diagnostics and screen mode experiments.
    pub fn tracking_blue() -> (c: Color)
        ensures
            c == rgba(0, 90, 220, 255),
    {
        Color([0, 90, 220, 255])
    }

    /// Warm timing marker color for diagnostics.
    pub fn timing_amber() -> (c: Color)
        ensures
            c == rgba(230, 150, 20, 255),
    {
        Color([230, 150, 20, 255])
    }

    /// Dark blue spectral data lane.
    pub fn lane_blue() -> (c: Color)
        ensures
            c == rgba(8, 24, 96, 255),
    {
        Color([8, 24, 96, 255])
    }

    /// Dark teal spectral data lane.
    pub fn lane_teal() -> (c: Color)
        ensures
            c == rgba(0, 56, 64, 255),
    {
        Color([0, 56, 64, 255])
    }

    /// Dark violet spectral data lane.
    pub fn lane_violet() -> (c: Color)
        ensures
            c == rgba(52, 24, 100, 255),
    {
        Color([52, 24, 100, 255])
    }

    /// Dark magenta signal marker used by animated profiles.
    pub fn signal_magenta() -> (c: Color)
        ensures
            c == rgba(96, 0, 72, 255),
    {
        Color([96, 0, 72, 255])
    }
}

/// Visual primitive used to draw dark modules.
#[derive(Debug, Clone, Copy, PartialEq, Eq, Structural)]
pub enum ModuleShape {
    /// Full square modules, retained for compatibility and dense print experiments.
    Square,
    /// Single-cell rounded stroke.
    Capsule,
    /// Continuous horizontal strokes used by the default ribbon-weave renderer.
    Ribbon,
    /// Diamond modules for timing, signature, and orientation glyphs.
    Diamond,
}

/// Render configuration.
#[derive(Debug, Clone, Copy, PartialEq, Eq)]
pub struct RenderOptions {
    /// Pixels per module.
    pub module_px: u32,
    /// Quiet-zone width in modules.
    pub quiet_zone_modules: u32,
    /// Background color.
    pub light: Color,
    /// Data dark color.
    pub dark: Color,
    /// Anchor marker dark color.
    pub anchor: Color,
    /// Timing marker dark color.
    pub timing: Color,
    /// Alignment marker dark color.
    pub alignment: Color,
    /// Data module shape.
    pub data_shape: ModuleShape,
    /// Synchronization marker shape.
    pub marker_shape: ModuleShape,
    /// Timing/signature shape.
    pub signal_shape: ModuleShape,
}

/// The default options: eight-pixel modules, a four-module quiet zone, black on
/// white, ribbon data strokes, capsule markers and diamond signals.
pub open spec fn default_options() -> RenderOptions {
    RenderOptions {
        module_px: 8,
        quiet_zone_modules: 4,
        light: rgba(255, 255, 255, 255),
        dark: rgba(0, 0, 0, 255),
        anchor: rgba(0, 0, 0, 255),
        timing: rgba(0, 0, 0, 255),
        alignment: rgba(0, 0, 0, 255),
        data_shape: ModuleShape::Ribbon,
        marker_shape: ModuleShape::Capsule,
        signal_shape: ModuleShape::Diamond,
    }
}

/// The options with the visual choices of a layout family.
pub open spec fn layout_options(o: RenderOptions, layout: LayoutFamily) -> RenderOptions {
    match layout {
        LayoutFamily::RibbonWeave => o,
        LayoutFamily::SpectralMesh => RenderOptions {
            anchor: rgba(0, 90, 220, 255),
            timing: rgba(230, 150, 20, 255),
            alignment: rgba(96, 0, 72, 255),
            data_shape: ModuleShape::Ribbon,
            marker_shape: ModuleShape::Capsule,
            signal_shape: ModuleShape::Diamond,
            ..o
        },
        LayoutFamily::PulseStream => RenderOptions {
            anchor: rgba(96, 0, 72, 255),
            timing: rgba(230, 150, 20, 255),
            alignment: rgba(0, 90, 220, 255),
            data_shape: ModuleShape::Ribbon,
            marker_shape: ModuleShape::Capsule,
            signal_shape: ModuleShape::Diamond,
            ..o
        },
        LayoutFamily::Constellation | LayoutFamily::FrameGrid | LayoutFamily::Hexagonal
        | LayoutFamily::Radial => RenderOptions {
            anchor: rgba(0, 90, 220, 255),
            timing: rgba(230, 150, 20, 255),
            data_shape: ModuleShape::Capsule,
            marker_shape: ModuleShape::Diamond,
            signal_shape: ModuleShape::Diamond,
            ..o
        },
        LayoutFamily::Matrix => RenderOptions {
            data_shape: ModuleShape::Square,
            marker_shape: ModuleShape::Square,
            signal_shape: ModuleShape::Square,
            ..o
        },
    }
}

/// The options with the colors of a color encoding.
pub open spec fn color_options(o: RenderOptions, color: ColorEncoding) -> RenderOptions {
    match color {
        ColorEncoding::Mono => o,
        ColorEncoding::LimitedPalette => RenderOptions {
            anchor: rgba(0, 90, 220, 255),
            timing: rgba(230, 150, 20, 255),
            ..o
        },
        ColorEncoding::Rgb => RenderOptions {
            dark: rgba(8, 24, 96, 255),
            anchor: rgba(0, 90, 220, 255),
            timing: rgba(230, 150, 20, 255),
            alignment: rgba(96, 0, 72, 255),
            ..o
        },
        ColorEncoding::Adaptive => RenderOptions {
            dark: rgba(52, 24, 100, 255),
            anchor: rgba(96, 0, 72, 255),
            timing: rgba(230, 150, 20, 255),
            alignment: rgba(0, 90, 220, 255),
            ..o
        },
    }
}

/// The color of data strokes at a module: lane colors cycling over the spectral
/// and pulse layouts, the dark color otherwise.
pub open spec fn data_color_spec(o: RenderOptions, layout: LayoutFamily, x: u16, y: u16) -> Color {
    match layout {
        LayoutFamily::SpectralMesh => {
            let lane = (x / 5 + y / 2) % 3;
            if lane == 0 {
                rgba(8, 24, 96, 255)
            } else if lane == 1 {
                rgba(0, 56, 64, 255)
            } else {
                rgba(52, 24, 100, 255)
            }
        },
        LayoutFamily::PulseStream => {
            let lane = (x / 8 + y) % 3;
            if lane == 0 {
                rgba(52, 24, 100, 255)
            } else if lane == 1 {
                rgba(8, 24, 96, 255)
            } else {
                rgba(96, 0, 72, 255)
            }
        },
        _ => o.dark,
    }
}

/// The color of a dark cell: marker colors for anchors, timing and alignment or
/// signature modules, the data color otherwise.
pub open spec fn cell_color_spec(o: RenderOptions, layout: LayoutFamily, x: u16, y: u16, cell: Cell) -> Color {
    match cell {
        Cell::Finder(true) | Cell::Anchor(true) => o.anchor,
        Cell::Timing(true) => o.timing,
        Cell::Alignment(true) | Cell::Signature(true) => o.alignment,
        _ => data_color_spec(o, layout, x, y),
    }
}

/// The shape of a cell: the marker shape for anchors, the signal shape for timing,
/// alignment and signature modules, the data shape otherwise.
pub open spec fn cell_shape_spec(o: RenderOptions, cell: Cell) -> ModuleShape {
    match cell {
        Cell::Finder(true) | Cell::Anchor(true) => o.marker_shape,
        Cell::Timing(true) | Cell::Alignment(true) | Cell::Signature(true) => o.signal_shape,
        _ => o.data_shape,
    }
}

/// Layouts drawn with continuous data ribbons.
pub open spec fn ribbon_layout_spec(layout: LayoutFamily) -> bool {
    layout == LayoutFamily::RibbonWeave || layout == LayoutFamily::SpectralMesh || layout
        == LayoutFamily::PulseStream
}

impl Default for RenderOptions {
    fn default() -> (r: Self)
        ensures
            r == default_options(),
    {
        RenderOptions {
            module_px: 8,
            quiet_zone_modules: 4,
            light: Color::white(),
            dark: Color::black(),
            anchor: Color::black(),
            timing: Color::black(),
            alignment: Color::black(),
            data_shape: ModuleShape::Ribbon,
            marker_shape: ModuleShape::Capsule,
            signal_shape: ModuleShape::Diamond,
        }
    }
}

impl RenderOptions {
    /// Build renderer options from a symbol descriptor.
    ///
    /// This keeps visual choices close to the protocol profile without making
    /// renderers parse profile metadata themselves.
    pub fn for_descriptor(descriptor: &SymbolDescriptor) -> (r: Self)
        ensures
            r == color_options(
                layout_options(default_options(), descriptor.layout),
                descriptor.color,
            ),
    {
        let mut options = RenderOptions::default();
        match descriptor.layout {
            LayoutFamily::RibbonWeave => {},
            LayoutFamily::SpectralMesh => {
                options.anchor = Color::tracking_blue();
                options.timing = Color::timing_amber();
                options.alignment = Color::signal_magenta();
                options.data_shape = ModuleShape::Ribbon;
                options.marker_shape = ModuleShape::Capsule;
                options.signal_shape = ModuleShape::Diamond;
            },
            LayoutFamily::PulseStream => {
                options.anchor = Color::signal_magenta();
                options.timing = Color::timing_amber();
                options.alignment = Color::tracking_blue();
                options.data_shape = ModuleShape::Ribbon;
                options.marker_shape = ModuleShape::Capsule;
                options.signal_shape = ModuleShape::Diamond;
            },
            LayoutFamily::Constellation | LayoutFamily::FrameGrid | LayoutFamily::Hexagonal
            | LayoutFamily::Radial => {
                options.anchor = Color::tracking_blue();
                options.timing = Color::timing_amber();
                options.data_shape = ModuleShape::Capsule;
                options.marker_shape = ModuleShape::Diamond;
                options.signal_shape = ModuleShape::Diamond;
            },
            LayoutFamily::Matrix => {
                options.data_shape = ModuleShape::Square;
                options.marker_shape = ModuleShape::Square;
                options.signal_shape = ModuleShape::Square;
            },
        }
        match descriptor.color {
            ColorEncoding::Mono => {},
            ColorEncoding::LimitedPalette => {
                options.anchor = Color::tracking_blue();
                options.timing = Color::timing_amber();
            },
            ColorEncoding::Rgb => {
                options.dark = Color::lane_blue();
                options.anchor = Color::tracking_blue();
                options.timing = Color::timing_amber();
                options.alignment = Color::signal_magenta();
            },
            ColorEncoding::Adaptive => {
                options.dark = Color::lane_violet();
                options.anchor = Color::signal_magenta();
                options.timing = Color::timing_amber();
                options.alignment = Color::tracking_blue();
            },
        }
        options
    }

    /// The color a dark cell is drawn in.
    pub fn color_for_at(&self, layout: LayoutFamily, module_x: u16, module_y: u16, cell: Cell) -> (r:
        Color)
        requires
            layout == LayoutFamily::PulseStream ==> module_x / 8 + module_y <= u16::MAX,
        ensures
            r == cell_color_spec(*self, layout, module_x, module_y, cell),
    {
        match cell {
            Cell::Finder(true) | Cell::Anchor(true) => self.anchor,
            Cell::Timing(true) => self.timing,
            Cell::Alignment(true) | Cell::Signature(true) => self.alignment,
            _ => self.data_color_for(layout, module_x, module_y),
        }
    }

    /// The color data strokes are drawn in at a module.
    pub fn data_color_for(&self, layout: LayoutFamily, module_x: u16, module_y: u16) -> (r: Color)
        requires
            layout == LayoutFamily::PulseStream ==> module_x / 8 + module_y <= u16::MAX,
        ensures
            r == data_color_spec(*self, layout, module_x, module_y),
    {
        match layout {
            LayoutFamily::SpectralMesh => {
                let lane = (module_x / 5 + module_y / 2) % 3;
                if lane == 0 {
                    Color::lane_blue()
                } else if lane == 1 {
                    Color::lane_teal()
                } else {
                    Color::lane_violet()
                }
            },
            LayoutFamily::PulseStream => {
                let lane = (module_x / 8 + module_y) % 3;
                if lane == 0 {
                    Color::lane_violet()
                } else if lane == 1 {
                    Color::lane_blue()
                } else {
                    Color::signal_magenta()
                }
            },
            _ => self.dark,
        }
    }

    /// The shape a dark cell is drawn with.
    pub fn shape_for(&self, cell: Cell) -> (r: ModuleShape)
        ensures
            r == cell_shape_spec(*self, cell),
    {
        match cell {
            Cell::Finder(true) | Cell::Anchor(true) => self.marker_shape,
            Cell::Timing(true) | Cell::Alignment(true) | Cell::Signature(true) => self.signal_shape,
            _ => self.data_shape,
        }
    }
}

/// Whether a layout is drawn with continuous data ribbons.
pub fn is_ribbon_layout(layout: LayoutFamily) -> (r: bool)
    ensures
        r == ribbon_layout_spec(layout),
{
    match layout {
        LayoutFamily::RibbonWeave | LayoutFamily::SpectralMesh | LayoutFamily::PulseStream => true,
        _ => false,
    }
}

/// A drawing primitive of a rendered matrix.
#[derive(Debug, Clone, Copy, PartialEq, Eq, Structural)]
pub enum DrawOp {
    /// One dark module, drawn with the shape and color of its cell.
    Module { module_x: u16, module_y: u16, cell: Cell },
    /// A run of dark data modules drawn as one horizontal ribbon.
    Ribbon { start_x: u16, module_y: u16, run_len: u16 },
}

/// Cells that ribbon layouts join into runs: dark data and plain dark modules.
pub open spec fn run_cell(c: Cell) -> bool {
    c == Cell::Data(true) || c == Cell::Dark
}

/// The cell at `(x, y)` of row-major cells `w` wide.
pub open spec fn cell_at(cells: Seq<Cell>, w: u16, x: int, y: int) -> Cell {
    cells[lin(w, x, y)]
}

/// Where the run of ribbon cells starting at `x` in row `y` ends.
pub open spec fn run_end(cells: Seq<Cell>, w: u16, y: int, x: int) -> int
    decreases w - x,
{
    if x >= w || !run_cell(cell_at(cells, w, x, y)) {
        x
    } else {
        run_end(cells, w, y, x + 1)
    }
}

/// A run starts at `x`, ends at the end of the row or at the first cell that is
/// no ribbon cell, and is not empty when it starts on a ribbon cell.
pub proof fn lemma_run_end(cells: Seq<Cell>, w: u16, y: int, x: int)
    requires
        0 <= x,
    ensures
        x <= run_end(cells, w, y, x),
        x < w ==> run_end(cells, w, y, x) <= w,
        x < w && run_cell(cell_at(cells, w, x, y)) ==> x < run_end(cells, w, y, x),
        forall|k: int| x <= k < run_end(cells, w, y, x) ==> run_cell(cell_at(cells, w, k, y)),
        run_end(cells, w, y, x) < w ==> !run_cell(cell_at(cells, w, run_end(cells, w, y, x), y)),
    decreases w - x,
{
    if x < w && run_cell(cell_at(cells, w, x, y)) {
        lemma_run_end(cells, w, y, x + 1);
    }
}

/// The primitives of row `y` from column `x` on: ribbon runs of dark data (in
/// ribbon layouts) and single dark modules, left to right.
pub open spec fn row_ops(ribbons: bool, cells: Seq<Cell>, w: u16, y: int, x: int) -> Seq<DrawOp>
    decreases w - x,
{
    if x < 0 || x >= w {
        Seq::empty()
    } else {
        let c = cell_at(cells, w, x, y);
        if ribbons && run_cell(c) {
            let e = run_end(cells, w, y, x);
            proof {
                lemma_run_end(cells, w, y, x);
            }
            seq![DrawOp::Ribbon { start_x: x as u16, module_y: y as u16, run_len: (e - x) as u16 }]
                + row_ops(ribbons, cells, w, y, e)
        } else if cell_is_dark(c) {
            seq![DrawOp::Module { module_x: x as u16, module_y: y as u16, cell: c }] + row_ops(
                ribbons,
                cells,
                w,
                y,
                x + 1,
            )
        } else {
            row_ops(ribbons, cells, w, y, x + 1)
        }
    }
}

/// The primitives of rows `0..n`, row by row.
pub open spec fn rows_ops(ribbons: bool, cells: Seq<Cell>, w: u16, n: int) -> Seq<DrawOp>
    decreases n,
{
    if n <= 0 {
        Seq::empty()
    } else {
        rows_ops(ribbons, cells, w, n - 1) + row_ops(ribbons, cells, w, n - 1, 0)
    }
}

/// The primitives of a matrix, in drawing order.
pub open spec fn matrix_ops(m: SymbolMatrix) -> Seq<DrawOp> {
    rows_ops(ribbon_layout_spec(m.spec_layout()), m@, m.spec_width(), m.spec_height() as int)
}

/// The primitives of a matrix, in drawing order: row by row, left to right; in
/// ribbon layouts each run of dark data modules is one ribbon.
pub fn draw_ops(matrix: &SymbolMatrix) -> (r: Vec<DrawOp>)
    requires
        matrix.well_formed(),
    ensures
        r@ == matrix_ops(*matrix),
{
    let ribbons = is_ribbon_layout(matrix.layout());
    let w = matrix.width();
    let h = matrix.height();
    let ghost cells = matrix@;
    let mut ops: Vec<DrawOp> = Vec::new();
    let mut y: u16 = 0;
    while y < h
        invariant
            matrix.well_formed(),
            ribbons == ribbon_layout_spec(matrix.spec_layout()),
            w == matrix.spec_width(),
            h == matrix.spec_height(),
            cells == matrix@,
            y <= h,
            ops@ == rows_ops(ribbons, cells, w, y as int),
        decreases h - y,
    {
        let ghost before = ops@;
        let mut x: u16 = 0;
        while x < w
            invariant
                matrix.well_formed(),
                w == matrix.spec_width(),
                h == matrix.spec_height(),
                cells == matrix@,
                y < h,
                x <= w,
                ops@ + row_ops(ribbons, cells, w, y as int, x as int) == before + row_ops(
                    ribbons,
                    cells,
                    w,
                    y as int,
                    0,
                ),
            decreases w - x,
        {
            let cell = match matrix.get(x, y) {
                Ok(c) => c,
                Err(_) => Cell::Light,
            };
            assert(cell == cell_at(cells, w, x as int, y as int));
            let is_run = match cell {
                Cell::Data(true) | Cell::Dark => true,
                _ => false,
            };
            if ribbons && is_run {
                let start = x;
                proof {
                    lemma_run_end(cells, w, y as int, start as int);
                }
                while x < w
                    invariant_except_break
                        matrix.well_formed(),
                        w == matrix.spec_width(),
                        h == matrix.spec_height(),
                        cells == matrix@,
                        y < h,
                        start <= x <= w,
                        forall|k: int| start <= k < x ==> run_cell(cell_at(cells, w, k, y as int)),
                        x == w ==> x == run_end(cells, w, y as int, start as int),
                    ensures
                        x == run_end(cells, w, y as int, start as int),
                    decreases w - x,
                {
                    let run_cell_here = match matrix.get(x, y) {
                        Ok(Cell::Data(true)) | Ok(Cell::Dark) => true,
                        _ => false,
                    };
                    if !run_cell_here {
                        proof {
                            lemma_run_end_at(cells, w, y as int, start as int, x as int);
                        }
                        break;
                    }
                    x = x + 1;
                    proof {
                        if x == w {
                            lemma_run_end_at(cells, w, y as int, start as int, x as int);
                        }
                    }
                }
                ops.push(DrawOp::Ribbon { start_x: start, module_y: y, run_len: x - start });
                assert(ops@ + row_ops(ribbons, cells, w, y as int, x as int) =~= before + row_ops(
                    ribbons,
                    cells,
                    w,
                    y as int,
                    0,
                ));
                continue;
            }
            if cell.is_dark() {
                ops.push(DrawOp::Module { module_x: x, module_y: y, cell });
            }
            assert(ops@ + row_ops(ribbons, cells, w, y as int, x + 1) =~= before + row_ops(
                ribbons,
                cells,
                w,
                y as int,
                0,
            ));
            x = x + 1;
        }
        assert(ops@ =~= rows_ops(ribbons, cells, w, y + 1));
        y = y + 1;
    }
    ops
}

/// A run whose cells from `start` up to `x` are ribbon cells, and which stops at
/// `x` (end of row or a non-ribbon cell), ends at `x`.
proof fn lemma_run_end_at(cells: Seq<Cell>, w: u16, y: int, start: int, x: int)
    requires
        0 <= start <= x <= w,
        forall|k: int| start <= k < x ==> run_cell(cell_at(cells, w, k, y)),
        x == w || !run_cell(cell_at(cells, w, x, y)),
    ensures
        run_end(cells, w, y, start) == x,
    decreases x - start,
{
    if start < x {
        lemma_run_end_at(cells, w, y, start + 1, x);
    }
}

/// One primitive resolved for painting: its top-left pixel, pixel width, shape
/// and color. Ribbons are horizontal strokes as wide as their run.
#[derive(Debug, Clone, Copy, PartialEq, Eq)]
pub struct PaintOp {
    /// Left pixel column.
    pub start_x: u32,
    /// Top pixel row.
    pub start_y: u32,
    /// Width in pixels (the module size, or the whole run for ribbons).
    pub width: u32,
    /// Shape to paint.
    pub shape: ModuleShape,
    /// Color to paint.
    pub color: Color,
}

/// A raster rendering: image size, background, and the primitives to paint over
/// it in order, each in modules `module_px` pixels tall.
#[derive(Debug, Clone, PartialEq, Eq)]
pub struct RasterPlan {
    /// Image width in pixels.
    pub width: u32,
    /// Image height in pixels.
    pub height: u32,
    /// Module size in pixels.
    pub module_px: u32,
    /// Background color.
    pub light: Color,
    /// Primitives in painting order.
    pub ops: Vec<PaintOp>,
}

/// How a primitive is painted under these options.
pub open spec fn paint_spec(o: RenderOptions, layout: LayoutFamily, op: DrawOp) -> PaintOp {
    match op {
        DrawOp::Module { module_x, module_y, cell } => PaintOp {
            start_x: ((module_x + o.quiet_zone_modules) * o.module_px) as u32,
            start_y: ((module_y + o.quiet_zone_modules) * o.module_px) as u32,
            width: o.module_px,
            shape: cell_shape_spec(o, cell),
            color: cell_color_spec(o, layout, module_x, module_y, cell),
        },
        DrawOp::Ribbon { start_x, module_y, run_len } => PaintOp {
            start_x: ((start_x + o.quiet_zone_modules) * o.module_px) as u32,
            start_y: ((module_y + o.quiet_zone_modules) * o.module_px) as u32,
            width: (run_len * o.module_px) as u32,
            shape: ModuleShape::Ribbon,
            color: data_color_spec(o, layout, start_x, module_y),
        },
    }
}

/// A primitive lies inside a matrix of `w` by `h` modules.
pub open spec fn op_inside(op: DrawOp, w: u16, h: u16) -> bool {
    match op {
        DrawOp::Module { module_x, module_y, .. } => module_x < w && module_y < h,
        DrawOp::Ribbon { start_x, module_y, run_len } => start_x + run_len <= w && module_y < h,
    }
}

/// Every primitive of a matrix lies inside it.
pub proof fn lemma_matrix_ops_inside(m: SymbolMatrix)
    ensures
        forall|k: int|
            0 <= k < matrix_ops(m).len() ==> op_inside(
                #[trigger] matrix_ops(m)[k],
                m.spec_width(),
                m.spec_height(),
            ),
{
    lemma_rows_inside(
        ribbon_layout_spec(m.spec_layout()),
        m@,
        m.spec_width(),
        m.spec_height(),
        m.spec_height() as int,
    );
}

proof fn lemma_row_inside(ribbons: bool, cells: Seq<Cell>, w: u16, h: u16, y: int, x: int)
    requires
        0 <= y < h,
        0 <= x,
    ensures
        forall|k: int|
            0 <= k < row_ops(ribbons, cells, w, y, x).len() ==> op_inside(
                #[trigger] row_ops(ribbons, cells, w, y, x)[k],
                w,
                h,
            ),
    decreases w - x,
{
    if x < w {
        lemma_run_end(cells, w, y, x);
        let e = run_end(cells, w, y, x);
        let c = cell_at(cells, w, x, y);
        let all = row_ops(ribbons, cells, w, y, x);
        if ribbons && run_cell(c) {
            lemma_row_inside(ribbons, cells, w, h, y, e);
            let rest = row_ops(ribbons, cells, w, y, e);
            assert forall|k: int| 0 <= k < all.len() implies op_inside(#[trigger] all[k], w, h) by {
                if k > 0 {
                    assert(all[k] == rest[k - 1]);
                }
            }
        } else {
            lemma_row_inside(ribbons, cells, w, h, y, x + 1);
            let rest = row_ops(ribbons, cells, w, y, x + 1);
            assert forall|k: int| 0 <= k < all.len() implies op_inside(#[trigger] all[k], w, h) by {
                if cell_is_dark(c) && k > 0 {
                    assert(all[k] == rest[k - 1]);
                }
            }
        }
    }
}

proof fn lemma_rows_inside(ribbons: bool, cells: Seq<Cell>, w: u16, h: u16, n: int)
    requires
        n <= h,
    ensures
        forall|k: int|
            0 <= k < rows_ops(ribbons, cells, w, n).len() ==> op_inside(
                #[trigger] rows_ops(ribbons, cells, w, n)[k],
                w,
                h,
            ),
    decreases n,
{
    if n > 0 {
        lemma_rows_inside(ribbons, cells, w, h, n - 1);
        lemma_row_inside(ribbons, cells, w, h, n - 1, 0);
        let a = rows_ops(ribbons, cells, w, n - 1);
        let b = row_ops(ribbons, cells, w, n - 1, 0);
        assert forall|k: int| 0 <= k < (a + b).len() implies op_inside(#[trigger] (a + b)[k], w, h) by {
            if k >= a.len() {
                assert((a + b)[k] == b[k - a.len()]);
            }
        }
    }
}

/// The image size of a raster rendering, when it fits in `u32`.
pub open spec fn raster_size(o: RenderOptions, w: u16, h: u16) -> Option<(u32, u32)> {
    let tw = w + 2 * o.quiet_zone_modules;
    let th = h + 2 * o.quiet_zone_modules;
    if tw > u32::MAX || th > u32::MAX || tw * o.module_px > u32::MAX || th * o.module_px
        > u32::MAX {
        None
    } else {
        Some(((tw * o.module_px) as u32, (th * o.module_px) as u32))
    }
}

/// Raster renderer for PNG/JPEG pipelines.
#[derive(Debug, Clone, PartialEq, Eq)]
pub struct RasterRenderer {
    options: RenderOptions,
}

impl View for RasterRenderer {
    type V = RenderOptions;

    /// The render options.
    closed spec fn view(&self) -> RenderOptions {
        self.options
    }
}

impl Default for RasterRenderer {
    fn default() -> (r: Self)
        ensures
            r@ == default_options(),
    {
        RasterRenderer::new(RenderOptions::default())
    }
}

impl RasterRenderer {
    /// Create a renderer from options.
    pub fn new(options: RenderOptions) -> (r: Self)
        ensures
            r@ == options,
    {
        RasterRenderer { options }
    }

    /// Plan the rendering of a matrix: the image size (quiet zone included) and the
    /// primitives to paint over the light background.
    pub fn render(&self, matrix: &SymbolMatrix) -> (r: Result<RasterPlan, RenderError>)
        requires
            matrix.well_formed(),
            2 * self@.quiet_zone_modules <= u32::MAX,
            matrix.spec_layout() == LayoutFamily::PulseStream ==> matrix.spec_width() / 8
                + matrix.spec_height() <= 65536,
        ensures
            self@.module_px == 0 ==> r == Err::<RasterPlan, RenderError>(RenderError::ZeroModuleSize),
            self@.module_px > 0 ==> match raster_size(
                self@,
                matrix.spec_width(),
                matrix.spec_height(),
            ) {
                None => r == Err::<RasterPlan, RenderError>(RenderError::DimensionOverflow),
                Some((width, height)) => match r {
                    Ok(plan) => {
                        &&& plan.width == width
                        &&& plan.height == height
                        &&& plan.module_px == self@.module_px
                        &&& plan.light == self@.light
                        &&& plan.ops@ == matrix_ops(*matrix).map_values(
                            |op: DrawOp| paint_spec(self@, matrix.spec_layout(), op),
                        )
                    },
                    Err(_) => false,
                },
            },
    {
        let o = self.options;
        if o.module_px == 0 {
            return Err(RenderError::ZeroModuleSize);
        }
        let w = matrix.width();
        let h = matrix.height();
        let quiet = o.quiet_zone_modules * 2;
        let total_x = match (w as u32).checked_add(quiet) {
            Some(v) => v,
            None => return Err(RenderError::DimensionOverflow),
        };
        let total_y = match (h as u32).checked_add(quiet) {
            Some(v) => v,
            None => return Err(RenderError::DimensionOverflow),
        };
        let width = match total_x.checked_mul(o.module_px) {
            Some(v) => v,
            None => return Err(RenderError::DimensionOverflow),
        };
        let height = match total_y.checked_mul(o.module_px) {
            Some(v) => v,
            None => return Err(RenderError::DimensionOverflow),
        };
        let layout = matrix.layout();
        let ops = draw_ops(matrix);
        proof {
            lemma_matrix_ops_inside(*matrix);
        }
        let mut paint: Vec<PaintOp> = Vec::new();
        let mut i: usize = 0;
        while i < ops.len()
            invariant
                o == self@,
                o.module_px > 0,
                (w + 2 * o.quiet_zone_modules) * o.module_px <= u32::MAX,
                (h + 2 * o.quiet_zone_modules) * o.module_px <= u32::MAX,
                layout == matrix.spec_layout(),
                layout == LayoutFamily::PulseStream ==> w / 8 + h <= 65536,
                w == matrix.spec_width(),
                h == matrix.spec_height(),
                ops@ == matrix_ops(*matrix),
                forall|k: int| 0 <= k < ops@.len() ==> op_inside(#[trigger] ops@[k], w, h),
                i <= ops@.len(),
                paint@ == ops@.take(i as int).map_values(|op: DrawOp| paint_spec(o, layout, op)),
            decreases ops@.len() - i,
        {
            let op = ops[i];
            assert(op_inside(ops@[i as int], w, h));
            let p = self.paint_op(layout, op, w, h);
            paint.push(p);
            assert(paint@ =~= ops@.take(i + 1).map_values(|op: DrawOp| paint_spec(o, layout, op)));
            i = i + 1;
        }
        assert(ops@.take(ops@.len() as int) =~= ops@);
        Ok(RasterPlan { width, height, module_px: o.module_px, light: o.light, ops: paint })
    }

    /// Resolve one primitive for painting.
    fn paint_op(&self, layout: LayoutFamily, op: DrawOp, w: u16, h: u16) -> (r: PaintOp)
        requires
            self@.module_px > 0,
            (w + 2 * self@.quiet_zone_modules) * self@.module_px <= u32::MAX,
            (h + 2 * self@.quiet_zone_modules) * self@.module_px <= u32::MAX,
            layout == LayoutFamily::PulseStream ==> w / 8 + h <= 65536,
            op_inside(op, w, h),
        ensures
            r == paint_spec(self@, layout, op),
    {
        let o = self.options;
        let size = o.module_px;
        match op {
            DrawOp::Module { module_x, module_y, cell } => {
                proof {
                    lemma_module_pixels(o, module_x, w, 1);
                    lemma_module_pixels(o, module_y, h, 1);
                }
                let start_x = (module_x as u32 + o.quiet_zone_modules) * size;
                let start_y = (module_y as u32 + o.quiet_zone_modules) * size;
                PaintOp {
                    start_x,
                    start_y,
                    width: size,
                    shape: o.shape_for(cell),
                    color: o.color_for_at(layout, module_x, module_y, cell),
                }
            },
            DrawOp::Ribbon { start_x, module_y, run_len } => {
                proof {
                    lemma_module_pixels(o, start_x, w, run_len as nat);
                    lemma_module_pixels(o, module_y, h, 1);
                }
                let x0 = (start_x as u32 + o.quiet_zone_modules) * size;
                let y0 = (module_y as u32 + o.quiet_zone_modules) * size;
                PaintOp {
                    start_x: x0,
                    start_y: y0,
                    width: run_len as u32 * size,
                    shape: ModuleShape::Ribbon,
                    color: o.data_color_for(layout, start_x, module_y),
                }
            },
        }
    }
}

proof fn lemma_module_pixels(o: RenderOptions, m: u16, w: u16, n: nat)
    requires
        m + n <= w,
        o.module_px > 0,
        (w + 2 * o.quiet_zone_modules) * o.module_px <= u32::MAX,
    ensures
        m + o.quiet_zone_modules <= u32::MAX,
        (m + o.quiet_zone_modules) * o.module_px <= u32::MAX,
        n * o.module_px <= u32::MAX,
        n <= u32::MAX,
{
    assert((m + o.quiet_zone_modules) * o.module_px <= (w + 2 * o.quiet_zone_modules) * o.module_px)
        by (nonlinear_arith)
        requires
            m <= w,
            o.module_px > 0,
    ;
    assert(n * o.module_px <= (w + 2 * o.quiet_zone_modules) * o.module_px) by (nonlinear_arith)
        requires
            n <= w,
            o.module_px > 0,
    ;
    assert(w + 2 * o.quiet_zone_modules <= (w + 2 * o.quiet_zone_modules) * o.module_px)
        by (nonlinear_arith)
        requires
            o.module_px > 0,
    ;
}

} // verus!
