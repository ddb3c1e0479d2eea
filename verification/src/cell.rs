//! Visual modules of a symbol matrix.
use vstd::prelude::*;

verus! {

/// A visual module within a symbol matrix.
#[derive(Debug, Clone, Copy, PartialEq, Eq, Structural)]
pub enum Cell {
    /// Unset or background module.
    Light,
    /// Explicit dark module.
    Dark,
    /// Payload data bit.
    Data(bool),
    /// Matrix-compatibility finder marker module.
    Finder(bool),
    /// Non-corner constellation or halo anchor module.
    Anchor(bool),
    /// Timing marker module.
    Timing(bool),
    /// Alignment marker module.
    Alignment(bool),
    /// Fixed visual signature module used to distinguish GlyphNet from QR-like codes.
    Signature(bool),
    /// Reserved module that should render as light.
    Reserved,
}

/// Whether a module renders dark in monochrome output.
pub open spec fn cell_is_dark(c: Cell) -> bool {
    match c {
        Cell::Light | Cell::Reserved => false,
        Cell::Dark => true,
        Cell::Data(v) | Cell::Finder(v) | Cell::Anchor(v) | Cell::Timing(v) | Cell::Alignment(v)
        | Cell::Signature(v) => v,
    }
}

impl Cell {
    /// Return true when this module should render as dark in monochrome output.
    pub fn is_dark(self) -> (r: bool)
        ensures
            r == cell_is_dark(self),
    {
        match self {
            Cell::Light | Cell::Reserved => false,
            Cell::Dark => true,
            Cell::Data(value) | Cell::Finder(value) | Cell::Anchor(value) | Cell::Timing(value)
            | Cell::Alignment(value) | Cell::Signature(value) => value,
        }
    }

    /// Return a payload bit if this cell carries one.
    pub fn data_bit(self) -> (r: Option<bool>)
        ensures
            r == (match self {
                Cell::Data(v) => Some(v),
                _ => None::<bool>,
            }),
    {
        match self {
            Cell::Data(value) => Some(value),
            _ => None,
        }
    }
}

} // verus!
