//! GlyphNet: a visual data-transmission protocol with a verified reference
//! implementation of its wire format, symbol layouts, error-correction layer,
//! encoder and matrix decoder.

pub mod error;
pub mod mode;
pub mod wire;
pub mod bitstream;
pub mod primitives;
pub mod frame;
pub mod burst_packet;
pub mod descriptor;
pub mod cell;
pub mod layout;
pub mod matrix;
pub mod geometry;
pub mod profile;
pub mod auth;
pub mod interleave;
pub mod ecc;
pub mod recovery;
pub mod shards;
pub mod encode;
pub mod decode;
pub mod text;
pub mod render;
pub mod svg;
pub mod assembler;
pub mod raster;
pub mod scanner;
pub mod hex;
pub mod keyring;
pub mod keyset;
pub mod testkit;
pub mod cv;
pub mod candidates;
