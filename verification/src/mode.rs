use vstd::prelude::*;

use crate::error::GlyphError;

verus! {

/// Optical transmission profile.
#[derive(Debug, Clone, Copy, PartialEq, Eq, Hash, Structural)]
pub enum TransmissionMode {
    /// Robust static symbols for physical print, packaging, stickers, and paper.
    Print,
    /// Higher-density static symbols optimized for emissive displays.
    Screen,
    /// Animated frame sequences for high-throughput optical transfer.
    Burst,
}

/// The compact wire identifier of a transmission mode.
pub open spec fn mode_wire_id(mode: TransmissionMode) -> u8 {
    match mode {
        TransmissionMode::Print => 0,
        TransmissionMode::Screen => 1,
        TransmissionMode::Burst => 2,
    }
}

/// The transmission mode a wire identifier denotes, if any.
pub open spec fn mode_from_wire(value: u8) -> Option<TransmissionMode> {
    if value == 0 {
        Some(TransmissionMode::Print)
    } else if value == 1 {
        Some(TransmissionMode::Screen)
    } else if value == 2 {
        Some(TransmissionMode::Burst)
    } else {
        None
    }
}

impl TransmissionMode {
    /// Convert a compact wire identifier into a mode.
    pub fn from_wire(value: u8) -> (r: Result<TransmissionMode, GlyphError>)
        ensures
            match mode_from_wire(value) {
                Some(m) => r == Ok::<TransmissionMode, GlyphError>(m),
                None => r == Err::<TransmissionMode, GlyphError>(GlyphError::InvalidMode(value)),
            },
    {
        match value {
            0 => Ok(TransmissionMode::Print),
            1 => Ok(TransmissionMode::Screen),
            2 => Ok(TransmissionMode::Burst),
            other => Err(GlyphError::InvalidMode(other)),
        }
    }

    /// Return the compact wire identifier.
    pub fn wire_id(self) -> (r: u8)
        ensures
            r == mode_wire_id(self),
    {
        match self {
            TransmissionMode::Print => 0,
            TransmissionMode::Screen => 1,
            TransmissionMode::Burst => 2,
        }
    }

    /// The minimum static module dimension for this mode.
    pub fn minimum_dimension(self) -> (r: u16)
        ensures
            r == mode_minimum_dimension(self),
    {
        match self {
            TransmissionMode::Print => 45,
            TransmissionMode::Screen => 57,
            TransmissionMode::Burst => 37,
        }
    }

    /// Parse the lowercase mode name used by command-line tools.
    pub fn parse_name(value: &str) -> (r: Result<TransmissionMode, GlyphError>)
        ensures
            value@ == "print"@ ==> r == Ok::<TransmissionMode, GlyphError>(TransmissionMode::Print),
            value@ == "screen"@ ==> r == Ok::<TransmissionMode, GlyphError>(TransmissionMode::Screen),
            value@ == "burst"@ ==> r == Ok::<TransmissionMode, GlyphError>(TransmissionMode::Burst),
            value@ != "print"@ && value@ != "screen"@ && value@ != "burst"@ ==> r is Err,
    {
        proof {
            reveal_strlit("print");
            reveal_strlit("screen");
            reveal_strlit("burst");
            assert("print"@[0] != "screen"@[0] && "print"@[0] != "burst"@[0]);
            assert("screen"@[0] != "burst"@[0]);
        }
        if str_equal(value, "print") {
            Ok(TransmissionMode::Print)
        } else if str_equal(value, "screen") {
            Ok(TransmissionMode::Screen)
        } else if str_equal(value, "burst") {
            Ok(TransmissionMode::Burst)
        } else {
            Err(GlyphError::InvalidArgument("unknown transmission mode"))
        }
    }

    /// Lowercase display name.
    pub fn name(self) -> (r: &'static str)
        ensures
            r@ == mode_name(self)@,
    {
        match self {
            TransmissionMode::Print => "print",
            TransmissionMode::Screen => "screen",
            TransmissionMode::Burst => "burst",
        }
    }
}

/// Lowercase display name of a mode.
pub open spec fn mode_name(mode: TransmissionMode) -> &'static str {
    match mode {
        TransmissionMode::Print => "print",
        TransmissionMode::Screen => "screen",
        TransmissionMode::Burst => "burst",
    }
}

/// The minimum static module dimension of a mode.
pub open spec fn mode_minimum_dimension(mode: TransmissionMode) -> u16 {
    match mode {
        TransmissionMode::Print => 45,
        TransmissionMode::Screen => 57,
        TransmissionMode::Burst => 37,
    }
}

/// Error-correction profile.
#[derive(Debug, Clone, Copy, PartialEq, Eq, Hash, Structural)]
pub enum EccLevel {
    /// Low overhead for clean screen-to-camera transfers.
    Low,
    /// Balanced correction for general use.
    Medium,
    /// Strong correction for print and rough camera conditions.
    High,
    /// Experimental adaptive profile reserved for LDPC/fountain hybrids.
    Adaptive,
}

/// The compact wire identifier of an ECC level.
pub open spec fn ecc_wire_id(level: EccLevel) -> u8 {
    match level {
        EccLevel::Low => 0,
        EccLevel::Medium => 1,
        EccLevel::High => 2,
        EccLevel::Adaptive => 3,
    }
}

/// The ECC level a wire identifier denotes, if any.
pub open spec fn ecc_from_wire(value: u8) -> Option<EccLevel> {
    if value == 0 {
        Some(EccLevel::Low)
    } else if value == 1 {
        Some(EccLevel::Medium)
    } else if value == 2 {
        Some(EccLevel::High)
    } else if value == 3 {
        Some(EccLevel::Adaptive)
    } else {
        None
    }
}

/// The parity overhead `(numerator, denominator)` of an ECC level.
pub open spec fn ecc_parity_ratio(level: EccLevel) -> (usize, usize) {
    match level {
        EccLevel::Low => (1, 16),
        EccLevel::Medium => (1, 8),
        EccLevel::High => (1, 4),
        EccLevel::Adaptive => (1, 3),
    }
}

/// Lowercase display name of an ECC level.
pub open spec fn ecc_name(level: EccLevel) -> &'static str {
    match level {
        EccLevel::Low => "low",
        EccLevel::Medium => "medium",
        EccLevel::High => "high",
        EccLevel::Adaptive => "adaptive",
    }
}

impl EccLevel {
    /// Convert a compact wire identifier into an ECC profile.
    pub fn from_wire(value: u8) -> (r: Result<EccLevel, GlyphError>)
        ensures
            match ecc_from_wire(value) {
                Some(l) => r == Ok::<EccLevel, GlyphError>(l),
                None => r == Err::<EccLevel, GlyphError>(GlyphError::InvalidEccLevel(value)),
            },
    {
        match value {
            0 => Ok(EccLevel::Low),
            1 => Ok(EccLevel::Medium),
            2 => Ok(EccLevel::High),
            3 => Ok(EccLevel::Adaptive),
            other => Err(GlyphError::InvalidEccLevel(other)),
        }
    }

    /// Return the compact wire identifier.
    pub fn wire_id(self) -> (r: u8)
        ensures
            r == ecc_wire_id(self),
    {
        match self {
            EccLevel::Low => 0,
            EccLevel::Medium => 1,
            EccLevel::High => 2,
            EccLevel::Adaptive => 3,
        }
    }

    /// Parity overhead used by the reference encoder.
    pub fn parity_ratio(self) -> (r: (usize, usize))
        ensures
            r == ecc_parity_ratio(self),
    {
        match self {
            EccLevel::Low => (1, 16),
            EccLevel::Medium => (1, 8),
            EccLevel::High => (1, 4),
            EccLevel::Adaptive => (1, 3),
        }
    }

    /// Parse the lowercase ECC level name used by command-line tools.
    pub fn parse_name(value: &str) -> (r: Result<EccLevel, GlyphError>)
        ensures
            value@ == "low"@ ==> r == Ok::<EccLevel, GlyphError>(EccLevel::Low),
            value@ == "medium"@ ==> r == Ok::<EccLevel, GlyphError>(EccLevel::Medium),
            value@ == "high"@ ==> r == Ok::<EccLevel, GlyphError>(EccLevel::High),
            value@ == "adaptive"@ ==> r == Ok::<EccLevel, GlyphError>(EccLevel::Adaptive),
            value@ != "low"@ && value@ != "medium"@ && value@ != "high"@ && value@ != "adaptive"@
                ==> r is Err,
    {
        proof {
            reveal_strlit("low");
            reveal_strlit("medium");
            reveal_strlit("high");
            reveal_strlit("adaptive");
            assert("low"@[0] != "medium"@[0] && "low"@[0] != "high"@[0] && "low"@[0] != "adaptive"@[0]);
            assert("medium"@[0] != "high"@[0] && "medium"@[0] != "adaptive"@[0]);
            assert("high"@[0] != "adaptive"@[0]);
        }
        if str_equal(value, "low") {
            Ok(EccLevel::Low)
        } else if str_equal(value, "medium") {
            Ok(EccLevel::Medium)
        } else if str_equal(value, "high") {
            Ok(EccLevel::High)
        } else if str_equal(value, "adaptive") {
            Ok(EccLevel::Adaptive)
        } else {
            Err(GlyphError::InvalidArgument("unknown ECC level"))
        }
    }

    /// Lowercase display name.
    pub fn name(self) -> (r: &'static str)
        ensures
            r@ == ecc_name(self)@,
    {
        match self {
            EccLevel::Low => "low",
            EccLevel::Medium => "medium",
            EccLevel::High => "high",
            EccLevel::Adaptive => "adaptive",
        }
    }
}

/// Character-wise equality of two string slices.
pub fn str_equal(a: &str, b: &str) -> (r: bool)
    ensures
        r == (a@ == b@),
{
    let n = a.unicode_len();
    let m = b.unicode_len();
    if n != m {
        return false;
    }
    let mut i: usize = 0;
    while i < n
        invariant
            n == a@.len(),
            m == b@.len(),
            n == m,
            i <= n,
            forall|j: int| 0 <= j < i ==> a@[j] == b@[j],
        decreases n - i,
    {
        if a.get_char(i) != b.get_char(i) {
            return false;
        }
        i = i + 1;
    }
    assert(a@ =~= b@);
    true
}

/// Wire identifiers round-trip through `from_wire`.
pub proof fn lemma_mode_wire_roundtrip(mode: TransmissionMode)
    ensures
        mode_from_wire(mode_wire_id(mode)) == Some(mode),
{
}

/// ECC wire identifiers round-trip through `from_wire`.
pub proof fn lemma_ecc_wire_roundtrip(level: EccLevel)
    ensures
        ecc_from_wire(ecc_wire_id(level)) == Some(level),
{
}

/// The mode byte of the wire format: `0` is print, `1` screen, `2` burst, and no
/// other byte names a mode.
pub proof fn mode_wire_bytes(value: u8)
    ensures
        mode_wire_id(TransmissionMode::Print) == 0,
        mode_wire_id(TransmissionMode::Screen) == 1,
        mode_wire_id(TransmissionMode::Burst) == 2,
        mode_from_wire(0) == Some(TransmissionMode::Print),
        mode_from_wire(1) == Some(TransmissionMode::Screen),
        mode_from_wire(2) == Some(TransmissionMode::Burst),
        value > 2 ==> mode_from_wire(value) is None,
{
}

/// The ECC byte of the wire format: `0` is low, `1` medium, `2` high, `3` adaptive,
/// and no other byte names a level.
pub proof fn ecc_wire_bytes(value: u8)
    ensures
        ecc_wire_id(EccLevel::Low) == 0,
        ecc_wire_id(EccLevel::Medium) == 1,
        ecc_wire_id(EccLevel::High) == 2,
        ecc_wire_id(EccLevel::Adaptive) == 3,
        ecc_from_wire(0) == Some(EccLevel::Low),
        ecc_from_wire(1) == Some(EccLevel::Medium),
        ecc_from_wire(2) == Some(EccLevel::High),
        ecc_from_wire(3) == Some(EccLevel::Adaptive),
        value > 3 ==> ecc_from_wire(value) is None,
{
}

} // verus!
