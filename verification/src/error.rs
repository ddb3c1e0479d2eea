use vstd::prelude::*;

verus! {

/// Errors emitted by core protocol validation and binary parsing.
#[derive(Debug, Clone, PartialEq, Eq)]
pub enum GlyphError {
    /// A binary frame did not start with the GlyphNet magic bytes.
    InvalidMagic,
    /// The frame version is not supported by this implementation.
    UnsupportedVersion(u8),
    /// The frame header was too short or the payload ended early.
    Truncated { needed: usize, actual: usize },
    /// Header checksum validation failed.
    HeaderChecksumMismatch,
    /// Payload checksum validation failed.
    PayloadChecksumMismatch,
    /// A numeric mode identifier was not defined by the protocol.
    InvalidMode(u8),
    /// A numeric ECC identifier was not defined by the protocol.
    InvalidEccLevel(u8),
    /// A frame index was outside the frame-count range.
    InvalidFrameIndex { index: u16, count: u16 },
    /// A matrix coordinate was outside the symbol bounds.
    MatrixBounds { x: u16, y: u16, width: u16, height: u16 },
    /// The payload is larger than the selected symbol layout can hold.
    CapacityExceeded { needed_bits: usize, available_bits: usize },
    /// A caller provided an invalid argument.
    InvalidArgument(&'static str),
    /// Authenticated payload envelope magic/version did not match.
    InvalidAuthenticityEnvelope,
    /// No verification key was available for the envelope key id.
    UnknownAuthenticityKey(u32),
    /// Authenticity tag verification failed.
    AuthenticityMismatch,
    /// A public key could not be decoded as an Ed25519 verifying key.
    InvalidAuthenticityKeyMaterial,
}

} // verus!
