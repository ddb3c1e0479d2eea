//! Conformance fixtures shared by protocol tests.
use vstd::prelude::*;

use crate::decode::DecodeError;
use crate::encode::EncodeError;
use crate::render::RenderError;

verus! {

/// Errors returned by reusable conformance workflows.
#[derive(Debug)]
pub enum TestkitError {
    /// Encoder failed.
    Encode(EncodeError),
    /// Renderer failed.
    Render(RenderError),
    /// Decoder failed.
    Decode(DecodeError),
}

/// The canonical payload fixtures: empty, a short text, every byte value once in
/// order, and a kilobyte of `0x55`.
pub open spec fn fixtures_spec() -> Seq<Seq<u8>> {
    seq![
        Seq::empty(),
        "hello glyphnet"@.map_values(|c: char| c as u8),
        Seq::new(256, |i: int| i as u8),
        Seq::new(1024, |i: int| 0x55u8),
    ]
}

/// Canonical payload fixtures for protocol tests.
pub fn fixture_payloads() -> (r: Vec<Vec<u8>>)
    ensures
        r@.len() == 4,
        forall|i: int| 0 <= i < 4 ==> #[trigger] r@[i]@ == fixtures_spec()[i],
{
    let mut out: Vec<Vec<u8>> = Vec::new();
    out.push(Vec::new());
    let text: Vec<u8> = vec![104u8, 101, 108, 108, 111, 32, 103, 108, 121, 112, 104, 110, 101, 116];
    proof {
        reveal_strlit("hello glyphnet");
        assert(text@ =~= "hello glyphnet"@.map_values(|c: char| c as u8));
    }
    out.push(text);
    let mut all: Vec<u8> = Vec::new();
    let mut b: u16 = 0;
    while b < 256
        invariant
            b <= 256,
            all@ =~= Seq::new(b as nat, |i: int| i as u8),
        decreases 256 - b,
    {
        all.push(b as u8);
        b = b + 1;
    }
    out.push(all);
    let mut fill: Vec<u8> = Vec::new();
    let mut n: usize = 0;
    while n < 1024
        invariant
            n <= 1024,
            fill@ =~= Seq::new(n as nat, |i: int| 0x55u8),
        decreases 1024 - n,
    {
        fill.push(0x55);
        n = n + 1;
    }
    out.push(fill);
    proof {
        assert(out@[0]@ =~= fixtures_spec()[0]);
    }
    out
}

} // verus!
