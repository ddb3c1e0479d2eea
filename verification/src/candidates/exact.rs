//! Exact decoding of a candidate whose size is a whole symbol: the module size follows
//! from the size, and quiet zones and thresholds are tried in turn.
use vstd::prelude::*;

use crate::decode::{AutoDecodeInfo, AutoDecodedSymbol, DecodeError, DecodeOptions, RasterDecoder};
use crate::descriptor::LayoutFamily;
use crate::raster::{grid_decoded, grid_outcome, options_grid, LumaImage};
use crate::scanner::ScanRegion;

verus! {

/// Whether decoding `img` with the fixed options `o` succeeds.
#[verifier::opaque]
pub open spec fn exact_ok(img: LumaImage, o: DecodeOptions) -> bool {
    match options_grid(img, o) {
        Some(g) => grid_outcome(img, g) is Ok,
        None => false,
    }
}

/// `a` is the symbol decoded from `img` with options `o`, reported with them.
#[verifier::opaque]
pub open spec fn exact_decoded(a: AutoDecodedSymbol, img: LumaImage, o: DecodeOptions) -> bool {
    &&& a.info == (AutoDecodeInfo {
        module_px: o.module_px,
        quiet_zone_modules: o.quiet_zone_modules,
        threshold: o.threshold,
        layout: o.layout,
    })
    &&& match options_grid(img, o) {
        Some(g) => grid_decoded(a.decoded, img, g),
        None => false,
    }
}

/// The thresholds tried for an exact ribbon, in order.
pub open spec fn ribbon_threshold(i: int) -> u8 {
    if i == 0 {
        144
    } else if i == 1 {
        160
    } else if i == 2 {
        176
    } else if i == 3 {
        192
    } else if i == 4 {
        208
    } else {
        224
    }
}

/// The options of attempt `k` of an exact ribbon of `m`-pixel modules: quiet zones 0
/// to 8, each with the six thresholds.
pub open spec fn ribbon_attempt(m: u32, k: int) -> DecodeOptions {
    DecodeOptions {
        module_px: m,
        quiet_zone_modules: (k / 6) as u32,
        threshold: ribbon_threshold(k % 6),
        layout: LayoutFamily::RibbonWeave,
    }
}

/// The first of attempts `k..54` with which an exact ribbon decodes.
pub open spec fn ribbon_search(img: LumaImage, m: u32, k: int) -> Option<DecodeOptions>
    decreases 54 - k,
{
    if k < 0 || k >= 54 {
        None
    } else if exact_ok(img, ribbon_attempt(m, k)) {
        Some(ribbon_attempt(m, k))
    } else {
        ribbon_search(img, m, k + 1)
    }
}

/// The module size of a region that is exactly a ribbon symbol of 104 x 44 modules.
pub open spec fn exact_ribbon_module(region: ScanRegion) -> Option<u32> {
    if region.width < 104 || region.height < 44 {
        None
    } else {
        let m = if region.width / 104 >= 1 {
            region.width / 104
        } else {
            1
        };
        if region.width == 104 * m && region.height == 44 * m {
            Some(m)
        } else {
            None
        }
    }
}

/// What exact decoding of a search gives: the symbol of the first options that work,
/// or failure of detection.
pub open spec fn search_result(r: Result<AutoDecodedSymbol, DecodeError>, img: LumaImage, found: Option<DecodeOptions>) -> bool {
    match found {
        None => r == Err::<AutoDecodedSymbol, DecodeError>(DecodeError::AutoDetectFailed),
        Some(o) => r matches Ok(a) && exact_decoded(a, img, o),
    }
}

/// Decode with fixed options, reporting them.
fn decode_with(image: &LumaImage, o: DecodeOptions) -> (r: Option<AutoDecodedSymbol>)
    requires
        o.quiet_zone_modules <= 0x7fff_ffff,
    ensures
        r is Some <==> exact_ok(*image, o),
        r matches Some(a) ==> exact_decoded(a, *image, o),
{
    proof {
        use_type_invariant(image);
        reveal(exact_ok);
        reveal(exact_decoded);
    }
    let decoder = RasterDecoder::new(o);
    match decoder.decode(image) {
        Ok(decoded) => Some(
            AutoDecodedSymbol {
                decoded,
                info: AutoDecodeInfo {
                    module_px: o.module_px,
                    quiet_zone_modules: o.quiet_zone_modules,
                    threshold: o.threshold,
                    layout: o.layout,
                },
            },
        ),
        Err(_) => None,
    }
}

/// Decode a candidate that is exactly a ribbon symbol of 104 x 44 modules: quiet
/// zones 0 to 8, each with thresholds 144 to 224 in steps of 16, the first that works.
pub fn decode_exact_ribbon_candidate(image: &LumaImage, region: ScanRegion) -> (r: Result<AutoDecodedSymbol, DecodeError>)
    ensures
        match exact_ribbon_module(region) {
            None => r == Err::<AutoDecodedSymbol, DecodeError>(DecodeError::AutoDetectFailed),
            Some(m) => search_result(r, *image, ribbon_search(*image, m, 0)),
        },
{
    if region.width < 104 || region.height < 44 {
        return Err(DecodeError::AutoDetectFailed);
    }
    let q = region.width / 104;
    let m = if q >= 1 {
        q
    } else {
        1
    };
    if !((region.width as u64) == 104 * (m as u64) && (region.height as u64) == 44 * (m as u64)) {
        return Err(DecodeError::AutoDetectFailed);
    }
    let thresholds: [u8; 6] = [144, 160, 176, 192, 208, 224];
    let mut k: u32 = 0;
    while k < 54
        invariant
            k <= 54,
            exact_ribbon_module(region) == Some(m),
            thresholds@ == seq![144u8, 160, 176, 192, 208, 224],
            ribbon_search(*image, m, 0) == ribbon_search(*image, m, k as int),
        decreases 54 - k,
    {
        let o = DecodeOptions {
            module_px: m,
            quiet_zone_modules: k / 6,
            threshold: thresholds[(k % 6) as usize],
            layout: LayoutFamily::RibbonWeave,
        };
        assert(o == ribbon_attempt(m, k as int));
        match decode_with(image, o) {
            Some(a) => {
                return Ok(a);
            },
            None => {},
        }
        k = k + 1;
    }
    Err(DecodeError::AutoDetectFailed)
}

/// Whether an `m`-pixel module grid makes the region a square matrix of at least 29
/// modules.
pub open spec fn matrix_module_ok(region: ScanRegion, m: int) -> bool {
    &&& (region.width as int) % m == 0
    &&& (region.height as int) % m == 0
    &&& (region.width as int) / m == (region.height as int) / m
    &&& (region.width as int) / m >= 29
}

/// The module sizes from `m` down to 2 that make the region a square matrix of at
/// least 29 modules.
pub open spec fn matrix_modules_from(region: ScanRegion, m: int) -> Seq<u32>
    decreases m,
{
    if m < 2 {
        Seq::empty()
    } else {
        let rest = matrix_modules_from(region, m - 1);
        if matrix_module_ok(region, m) {
            seq![m as u32] + rest
        } else {
            rest
        }
    }
}

/// The module sizes, largest first, from 24 down to 2, that make a region at least 64
/// pixels each way a square matrix of at least 29 modules.
pub open spec fn matrix_modules_spec(region: ScanRegion) -> Seq<u32> {
    if region.width < 64 || region.height < 64 {
        Seq::empty()
    } else {
        matrix_modules_from(region, 24)
    }
}

/// The module sizes, largest first, that make a region a square matrix of at least 29
/// modules.
pub fn matrix_module_px_candidates(region: ScanRegion) -> (r: Vec<u32>)
    ensures
        r@ == matrix_modules_spec(region),
{
    let mut out: Vec<u32> = Vec::new();
    if region.width < 64 || region.height < 64 {
        return out;
    }
    let mut m: u32 = 24;
    while m >= 2
        invariant
            1 <= m <= 24,
            matrix_modules_spec(region) == out@ + matrix_modules_from(region, m as int),
        decreases m,
    {
        if region.width % m == 0 && region.height % m == 0 && region.width / m == region.height / m && region.width / m >= 29 {
            out.push(m);
            assert(out@ + matrix_modules_from(region, m - 1) =~= out@.drop_last() + (seq![m] + matrix_modules_from(region, m - 1)));
        }
        m = m - 1;
    }
    assert(out@ + matrix_modules_from(region, m as int) =~= out@);
    out
}

/// The thresholds tried for an exact matrix, in order.
pub open spec fn matrix_threshold(i: int) -> u8 {
    if i == 0 {
        160
    } else if i == 1 {
        192
    } else {
        224
    }
}

/// The options of the attempt with module size `m` and threshold `i`.
pub open spec fn matrix_attempt(m: u32, i: int) -> DecodeOptions {
    DecodeOptions { module_px: m, quiet_zone_modules: 4, threshold: matrix_threshold(i), layout: LayoutFamily::Matrix }
}

/// The first of the attempts from module size `ms[j]`, threshold `i`, on, that
/// decodes: each module size with thresholds 160, 192, 224.
pub open spec fn matrix_search(img: LumaImage, ms: Seq<u32>, j: int, i: int) -> Option<DecodeOptions>
    decreases ms.len() - j, 3 - i,
{
    if j < 0 || j >= ms.len() {
        None
    } else if i < 0 || i >= 3 {
        matrix_search(img, ms, j + 1, 0)
    } else if exact_ok(img, matrix_attempt(ms[j], i)) {
        Some(matrix_attempt(ms[j], i))
    } else {
        matrix_search(img, ms, j, i + 1)
    }
}

/// Decode a candidate that is exactly a square matrix symbol with a four-module quiet
/// zone: module sizes largest first, each with thresholds 160, 192, 224.
pub fn decode_exact_matrix_candidate(image: &LumaImage, region: ScanRegion) -> (r: Result<AutoDecodedSymbol, DecodeError>)
    ensures
        search_result(r, *image, matrix_search(*image, matrix_modules_spec(region), 0, 0)),
{
    let ms = matrix_module_px_candidates(region);
    let ghost mss = ms@;
    let thresholds: [u8; 3] = [160, 192, 224];
    let mut j: usize = 0;
    while j < ms.len()
        invariant
            ms@ == mss,
            mss == matrix_modules_spec(region),
            j <= mss.len(),
            thresholds@ == seq![160u8, 192, 224],
            matrix_search(*image, mss, 0, 0) == matrix_search(*image, mss, j as int, 0),
        decreases mss.len() - j,
    {
        let mut i: usize = 0;
        while i < 3
            invariant
                ms@ == mss,
                mss == matrix_modules_spec(region),
                j < mss.len(),
                i <= 3,
                thresholds@ == seq![160u8, 192, 224],
                matrix_search(*image, mss, 0, 0) == matrix_search(*image, mss, j as int, i as int),
            decreases 3 - i,
        {
            let o = DecodeOptions { module_px: ms[j], quiet_zone_modules: 4, threshold: thresholds[i], layout: LayoutFamily::Matrix };
            assert(o == matrix_attempt(mss[j as int], i as int));
            match decode_with(image, o) {
                Some(a) => {
                    assert(matrix_search(*image, mss, j as int, i as int) == Some(o));
                    return Ok(a);
                },
                None => {},
            }
            i = i + 1;
        }
        j = j + 1;
    }
    Err(DecodeError::AutoDetectFailed)
}

} // verus!
