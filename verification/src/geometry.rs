//! Symbol sizing: reference geometry profiles and capacity-driven growth.
use vstd::prelude::*;

use crate::descriptor::LayoutFamily;
use crate::error::GlyphError;
use crate::layout::{capacity_spec, data_capacity_bits_for};
use crate::mode::{mode_minimum_dimension, TransmissionMode};

verus! {

/// Concrete symbol dimensions in logical modules.
#[derive(Debug, Clone, Copy, PartialEq, Eq, Structural)]
pub struct SymbolGeometry {
    /// Width in modules.
    pub width: u16,
    /// Height in modules.
    pub height: u16,
}

impl SymbolGeometry {
    /// Create a geometry.
    pub fn new(width: u16, height: u16) -> (r: SymbolGeometry)
        ensures
            r == (SymbolGeometry { width, height }),
    {
        SymbolGeometry { width, height }
    }

    /// Number of payload-capable modules under the current function-pattern rules.
    pub fn data_capacity_bits(self, layout: LayoutFamily) -> (r: usize)
        ensures
            r == capacity_spec(layout, self.width, self.height),
    {
        data_capacity_bits_for(layout, self.width, self.height)
    }
}

/// Layout sizing policy. The target width/height ratio is the exact fraction
/// `target_aspect_num / target_aspect_den`.
#[derive(Debug, Clone, Copy, PartialEq, Eq, Structural)]
pub struct GeometryProfile {
    /// Minimum width in modules.
    pub min_width: u16,
    /// Minimum height in modules.
    pub min_height: u16,
    /// Width growth quantum.
    pub step_width: u16,
    /// Height growth quantum.
    pub step_height: u16,
    /// Numerator of the desired width/height ratio.
    pub target_aspect_num: u16,
    /// Denominator of the desired width/height ratio.
    pub target_aspect_den: u16,
}

/// A profile literal.
pub open spec fn gp(mw: u16, mh: u16, sw: u16, sh: u16, num: u16, den: u16) -> GeometryProfile {
    GeometryProfile {
        min_width: mw,
        min_height: mh,
        step_width: sw,
        step_height: sh,
        target_aspect_num: num,
        target_aspect_den: den,
    }
}

/// The reference sizing policy for a mode/layout pair.
pub open spec fn profile_for_spec(mode: TransmissionMode, layout: LayoutFamily) -> GeometryProfile {
    match (mode, layout) {
        (_, LayoutFamily::Matrix) => {
            let d = mode_minimum_dimension(mode);
            gp(d, d, 4, 4, 1, 1)
        },
        (TransmissionMode::Print, LayoutFamily::RibbonWeave) => gp(96, 36, 12, 4, 8, 3),
        (TransmissionMode::Screen, LayoutFamily::RibbonWeave) => gp(128, 36, 16, 4, 32, 9),
        (TransmissionMode::Burst, LayoutFamily::RibbonWeave) => gp(160, 28, 20, 4, 40, 7),
        (TransmissionMode::Print, LayoutFamily::SpectralMesh) => gp(108, 40, 12, 4, 27, 10),
        (TransmissionMode::Screen, LayoutFamily::SpectralMesh) => gp(144, 40, 16, 4, 18, 5),
        (TransmissionMode::Burst, LayoutFamily::SpectralMesh) => gp(168, 36, 20, 4, 14, 3),
        (TransmissionMode::Print, LayoutFamily::PulseStream) => gp(128, 32, 16, 4, 4, 1),
        (TransmissionMode::Screen, LayoutFamily::PulseStream) => gp(160, 32, 20, 4, 5, 1),
        (TransmissionMode::Burst, LayoutFamily::PulseStream) => gp(192, 32, 24, 4, 6, 1),
        (TransmissionMode::Print, LayoutFamily::Constellation) => gp(68, 42, 8, 4, 81, 50),
        (TransmissionMode::Screen, LayoutFamily::Constellation) => gp(88, 46, 8, 4, 191, 100),
        (TransmissionMode::Burst, LayoutFamily::Constellation) => gp(112, 38, 12, 4, 59, 20),
        (TransmissionMode::Print, LayoutFamily::FrameGrid) => gp(64, 40, 8, 4, 8, 5),
        (TransmissionMode::Screen, LayoutFamily::FrameGrid) => gp(80, 45, 8, 5, 16, 9),
        (TransmissionMode::Burst, LayoutFamily::FrameGrid) => gp(96, 36, 12, 4, 8, 3),
        (TransmissionMode::Print, LayoutFamily::Hexagonal) => gp(72, 42, 6, 4, 12, 7),
        (TransmissionMode::Screen, LayoutFamily::Hexagonal) => gp(96, 54, 6, 4, 16, 9),
        (TransmissionMode::Burst, LayoutFamily::Hexagonal) => gp(120, 40, 12, 4, 3, 1),
        (TransmissionMode::Print, LayoutFamily::Radial) => gp(72, 72, 6, 6, 1, 1),
        (TransmissionMode::Screen, LayoutFamily::Radial) => gp(72, 72, 6, 6, 1, 1),
        (TransmissionMode::Burst, LayoutFamily::Radial) => gp(84, 60, 8, 6, 7, 5),
    }
}

impl GeometryProfile {
    /// Return the reference sizing policy for a mode/layout pair.
    pub fn for_mode_layout(mode: TransmissionMode, layout: LayoutFamily) -> (r: GeometryProfile)
        ensures
            r == profile_for_spec(mode, layout),
    {
        match layout {
            LayoutFamily::Matrix => {
                let d = mode.minimum_dimension();
                GeometryProfile {
                    min_width: d,
                    min_height: d,
                    step_width: 4,
                    step_height: 4,
                    target_aspect_num: 1,
                    target_aspect_den: 1,
                }
            },
            LayoutFamily::RibbonWeave => match mode {
                TransmissionMode::Print => profile(96, 36, 12, 4, 8, 3),
                TransmissionMode::Screen => profile(128, 36, 16, 4, 32, 9),
                TransmissionMode::Burst => profile(160, 28, 20, 4, 40, 7),
            },
            LayoutFamily::SpectralMesh => match mode {
                TransmissionMode::Print => profile(108, 40, 12, 4, 27, 10),
                TransmissionMode::Screen => profile(144, 40, 16, 4, 18, 5),
                TransmissionMode::Burst => profile(168, 36, 20, 4, 14, 3),
            },
            LayoutFamily::PulseStream => match mode {
                TransmissionMode::Print => profile(128, 32, 16, 4, 4, 1),
                TransmissionMode::Screen => profile(160, 32, 20, 4, 5, 1),
                TransmissionMode::Burst => profile(192, 32, 24, 4, 6, 1),
            },
            LayoutFamily::Constellation => match mode {
                TransmissionMode::Print => profile(68, 42, 8, 4, 81, 50),
                TransmissionMode::Screen => profile(88, 46, 8, 4, 191, 100),
                TransmissionMode::Burst => profile(112, 38, 12, 4, 59, 20),
            },
            LayoutFamily::FrameGrid => match mode {
                TransmissionMode::Print => profile(64, 40, 8, 4, 8, 5),
                TransmissionMode::Screen => profile(80, 45, 8, 5, 16, 9),
                TransmissionMode::Burst => profile(96, 36, 12, 4, 8, 3),
            },
            LayoutFamily::Hexagonal => match mode {
                TransmissionMode::Print => profile(72, 42, 6, 4, 12, 7),
                TransmissionMode::Screen => profile(96, 54, 6, 4, 16, 9),
                TransmissionMode::Burst => profile(120, 40, 12, 4, 3, 1),
            },
            LayoutFamily::Radial => match mode {
                TransmissionMode::Print | TransmissionMode::Screen => profile(72, 72, 6, 6, 1, 1),
                TransmissionMode::Burst => profile(84, 60, 8, 6, 7, 5),
            },
        }
    }
}

fn profile(mw: u16, mh: u16, sw: u16, sh: u16, num: u16, den: u16) -> (r: GeometryProfile)
    ensures
        r == gp(mw, mh, sw, sh, num, den),
{
    GeometryProfile {
        min_width: mw,
        min_height: mh,
        step_width: sw,
        step_height: sh,
        target_aspect_num: num,
        target_aspect_den: den,
    }
}

/// Every reference profile grows in positive steps.
pub proof fn lemma_profile_steps_positive(mode: TransmissionMode, layout: LayoutFamily)
    ensures
        profile_for_spec(mode, layout).step_width > 0,
        profile_for_spec(mode, layout).step_height > 0,
{
}

/// Whether a `w` x `h` symbol is narrower than the profile's target ratio.
pub open spec fn narrower_than_target(p: GeometryProfile, w: int, h: int) -> bool {
    w * (p.target_aspect_den as int) < (p.target_aspect_num as int) * (if h >= 1 {
        h
    } else {
        1
    })
}

/// Grow from `(w, h)` until the layout holds `required` bits: widen while narrower than
/// the target ratio, heighten otherwise, failing when a dimension would overflow.
pub open spec fn grow_from(
    layout: LayoutFamily,
    p: GeometryProfile,
    required: int,
    w: int,
    h: int,
) -> Result<SymbolGeometry, GlyphError>
    decreases 131072 - w - h,
    when p.step_width > 0 && p.step_height > 0 && 0 <= w <= 65535 && 0 <= h <= 65535
{
    if capacity_spec(layout, w as u16, h as u16) >= required {
        Ok(SymbolGeometry { width: w as u16, height: h as u16 })
    } else if narrower_than_target(p, w, h) {
        if w + p.step_width > 65535 {
            Err(GlyphError::InvalidArgument("symbol width overflow"))
        } else {
            grow_from(layout, p, required, w + p.step_width, h)
        }
    } else if h + p.step_height > 65535 {
        Err(GlyphError::InvalidArgument("symbol height overflow"))
    } else {
        grow_from(layout, p, required, w, h + p.step_height)
    }
}

/// The geometry `choose_symbol_geometry` selects.
pub open spec fn choose_geometry_spec(
    mode: TransmissionMode,
    layout: LayoutFamily,
    required_bits: int,
) -> Result<SymbolGeometry, GlyphError> {
    let p = profile_for_spec(mode, layout);
    grow_from(layout, p, required_bits, p.min_width as int, p.min_height as int)
}

/// A geometry chosen for `required` bits holds them.
pub proof fn lemma_grow_holds(layout: LayoutFamily, p: GeometryProfile, required: int, w: int, h: int)
    requires
        p.step_width > 0,
        p.step_height > 0,
        0 <= w <= 65535,
        0 <= h <= 65535,
    ensures
        grow_from(layout, p, required, w, h) matches Ok(g) ==> capacity_spec(
            layout,
            g.width,
            g.height,
        ) >= required,
    decreases 131072 - w - h,
{
    if capacity_spec(layout, w as u16, h as u16) >= required {
    } else if narrower_than_target(p, w, h) {
        if w + p.step_width <= 65535 {
            lemma_grow_holds(layout, p, required, w + p.step_width, h);
        }
    } else if h + p.step_height <= 65535 {
        lemma_grow_holds(layout, p, required, w, h + p.step_height);
    }
}

/// Choose the smallest reference geometry that can carry `required_bits`.
pub fn choose_symbol_geometry(mode: TransmissionMode, layout: LayoutFamily, required_bits: usize) -> (r:
    Result<SymbolGeometry, GlyphError>)
    ensures
        r == choose_geometry_spec(mode, layout, required_bits as int),
        r matches Ok(g) ==> capacity_spec(layout, g.width, g.height) >= required_bits,
{
    let profile = GeometryProfile::for_mode_layout(mode, layout);
    proof {
        lemma_profile_steps_positive(mode, layout);
        lemma_grow_holds(
            layout,
            profile,
            required_bits as int,
            profile.min_width as int,
            profile.min_height as int,
        );
    }
    let mut geometry = SymbolGeometry::new(profile.min_width, profile.min_height);
    let num = profile.target_aspect_num as u64;
    let den = profile.target_aspect_den as u64;
    while geometry.data_capacity_bits(layout) < required_bits
        invariant
            profile == profile_for_spec(mode, layout),
            profile.step_width > 0,
            profile.step_height > 0,
            num == profile.target_aspect_num,
            den == profile.target_aspect_den,
            grow_from(
                layout,
                profile,
                required_bits as int,
                geometry.width as int,
                geometry.height as int,
            ) == choose_geometry_spec(mode, layout, required_bits as int),
        decreases 131072 - geometry.width - geometry.height,
    {
        let h1: u64 = if geometry.height >= 1 {
            geometry.height as u64
        } else {
            1
        };
        let w = geometry.width as u64;
        assert(w * den <= 65535 * 65535 && num * h1 <= 65535 * 65535) by (nonlinear_arith)
            requires
                w <= 65535,
                den <= 65535,
                num <= 65535,
                h1 <= 65535,
        ;
        if w * den < num * h1 {
            if geometry.width > 65535 - profile.step_width {
                return Err(GlyphError::InvalidArgument("symbol width overflow"));
            }
            geometry.width = geometry.width + profile.step_width;
        } else {
            if geometry.height > 65535 - profile.step_height {
                return Err(GlyphError::InvalidArgument("symbol height overflow"));
            }
            geometry.height = geometry.height + profile.step_height;
        }
    }
    Ok(geometry)
}

} // verus!
