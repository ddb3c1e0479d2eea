//! Cutting a candidate out of a grayscale picture, and setting it on white margins.
use vstd::prelude::*;

use crate::candidates::{max_u32, min_u32, sat_mul, saturating_mul_u32};
use crate::raster::{luma_at, LumaImage};
use crate::scanner::ScanRegion;

verus! {

/// Where a crop starting at `pos` begins on a side of `dim` pixels: no further than the
/// edge.
pub open spec fn crop_start(pos: u32, dim: u32) -> u32 {
    min_u32(pos, dim)
}

/// How long a crop of `len` pixels from `pos` is on a side of `dim` pixels: cut at
/// the edge.
pub open spec fn crop_len(pos: u32, len: u32, dim: u32) -> u32 {
    min_u32(len, (dim - crop_start(pos, dim)) as u32)
}

proof fn lemma_cell(w: int, h: int, i: int, j: int)
    requires
        0 <= i < w,
        0 <= j < h,
    ensures
        0 <= j * w + i < w * h,
        (j * w + i) % w == i,
        (j * w + i) / w == j,
{
    assert(0 <= j * w + i < w * h) by (nonlinear_arith)
        requires
            0 <= i < w,
            0 <= j < h,
    ;
    assert((j * w + i) % w == i && (j * w + i) / w == j) by (nonlinear_arith)
        requires
            0 <= i < w,
            0 <= j,
    ;
}

/// `r` is the part of `image` inside `region`, cut at the picture's edges.
pub open spec fn is_crop_of(r: LumaImage, image: LumaImage, region: ScanRegion) -> bool {
    &&& r.spec_width() == crop_len(region.x, region.width, image.spec_width())
    &&& r.spec_height() == crop_len(region.y, region.height, image.spec_height())
    &&& forall|i: int, j: int|
        0 <= i < r.spec_width() && 0 <= j < r.spec_height() ==> #[trigger] luma_at(r, i, j)
            == luma_at(
            image,
            crop_start(region.x, image.spec_width()) + i,
            crop_start(region.y, image.spec_height()) + j,
        )
}

/// The part of `image` inside `region`, cut at the picture's edges.
pub fn crop_image(image: &LumaImage, region: ScanRegion) -> (r: LumaImage)
    ensures
        is_crop_of(r, *image, region),
{
    proof {
        use_type_invariant(image);
    }
    let iw = image.width();
    let ih = image.height();
    let x0 = if region.x <= iw {
        region.x
    } else {
        iw
    };
    let y0 = if region.y <= ih {
        region.y
    } else {
        ih
    };
    let cw = if region.width <= iw - x0 {
        region.width
    } else {
        iw - x0
    };
    let ch = if region.height <= ih - y0 {
        region.height
    } else {
        ih - y0
    };
    let ghost img = *image;
    let ghost w = cw as int;
    let n = image.pixels().len();
    proof {
        assert((cw as int) * (ch as int) <= (iw as int) * (ih as int)) by (nonlinear_arith)
            requires
                cw <= iw,
                ch <= ih,
        ;
        assert(image@.len() == n);
    }
    let mut out: Vec<u8> = Vec::new();
    let mut j: u32 = 0;
    while j < ch
        invariant
            img == *image,
            iw == img.spec_width(),
            ih == img.spec_height(),
            x0 + cw <= iw,
            y0 + ch <= ih,
            w == cw,
            j <= ch,
            (cw as int) * (ch as int) <= usize::MAX,
            out@.len() == j * w,
            forall|k: int|
                0 <= k < j * w ==> #[trigger] out@[k] as int == luma_at(img, x0 + k % w, y0 + k / w),
        decreases ch - j,
    {
        let mut i: u32 = 0;
        while i < cw
            invariant
                img == *image,
                iw == img.spec_width(),
                ih == img.spec_height(),
                x0 + cw <= iw,
                y0 + ch <= ih,
                w == cw,
                j < ch,
                i <= cw,
                (cw as int) * (ch as int) <= usize::MAX,
                out@.len() == j * w + i,
                forall|k: int|
                    0 <= k < j * w + i ==> #[trigger] out@[k] as int == luma_at(img, x0 + k % w, y0 + k / w),
            decreases cw - i,
        {
            let v = image.luma(x0 + i, y0 + j);
            proof {
                lemma_cell(w, ch as int, i as int, j as int);
            }
            out.push(v);
            i = i + 1;
        }
        proof {
            assert((j + 1) * w == j * w + w) by (nonlinear_arith);
        }
        j = j + 1;
    }
    proof {
        assert(out@.len() == (cw as int) * (ch as int)) by (nonlinear_arith)
            requires
                out@.len() == j * w,
                j == ch,
                w == cw,
        ;
    }
    match LumaImage::from_raw(cw, ch, out) {
        Some(result) => {
            proof {
                assert forall|i: int, jj: int| 0 <= i < result.spec_width() && 0 <= jj < result.spec_height()
                    implies #[trigger] luma_at(result, i, jj) == luma_at(img, x0 + i, y0 + jj) by {
                    lemma_cell(w, ch as int, i, jj);
                }
            }
            result
        },
        None => {
            proof {
                assert(false);
            }
            image.clone()
        },
    }
}

/// The white margin on a side of `dim` pixels: `pct` percent of it, at least 2.
pub open spec fn pad_of(dim: u32, pct: u32) -> u32 {
    max_u32((sat_mul(dim, pct) / 100) as u32, 2)
}

/// A side of `dim` pixels with a margin on both ends.
pub open spec fn padded_dim(dim: u32, pct: u32) -> u32 {
    dim.saturating_add(sat_mul(pad_of(dim, pct), 2))
}

/// The luma at `(x, y)` of `img` on white margins of `pct` percent.
pub open spec fn padded_luma(img: LumaImage, pct: u32, x: int, y: int) -> int {
    let px = pad_of(img.spec_width(), pct) as int;
    let py = pad_of(img.spec_height(), pct) as int;
    if px <= x < px + img.spec_width() && py <= y < py + img.spec_height() {
        luma_at(img, x - px, y - py)
    } else {
        255
    }
}

fn margin(dim: u32, pct: u32) -> (r: u32)
    ensures
        r == pad_of(dim, pct),
{
    let p = saturating_mul_u32(dim, pct) / 100;
    if p >= 2 {
        p
    } else {
        2
    }
}

/// The size of a `width` x `height` picture on white margins of `pct` percent.
pub fn padded_size(width: u32, height: u32, pct: u32) -> (r: (u32, u32))
    ensures
        r == (padded_dim(width, pct), padded_dim(height, pct)),
{
    let px = margin(width, pct);
    let py = margin(height, pct);
    (width.saturating_add(saturating_mul_u32(px, 2)), height.saturating_add(saturating_mul_u32(py, 2)))
}

/// `r` is `image` on white margins of `pct` percent.
pub open spec fn is_white_padded(r: LumaImage, image: LumaImage, pct: u32) -> bool {
    &&& r.spec_width() == padded_dim(image.spec_width(), pct)
    &&& r.spec_height() == padded_dim(image.spec_height(), pct)
    &&& forall|x: int, y: int|
        0 <= x < r.spec_width() && 0 <= y < r.spec_height() ==> #[trigger] luma_at(r, x, y)
            == padded_luma(image, pct, x, y)
}

/// `image` on white margins of `pad_pct` percent of each side (at least two pixels).
pub fn white_pad_image(image: &LumaImage, pad_pct: u32) -> (r: LumaImage)
    requires
        (padded_dim(image.spec_width(), pad_pct) as int) * (padded_dim(image.spec_height(), pad_pct) as int)
            <= usize::MAX,
    ensures
        is_white_padded(r, *image, pad_pct),
{
    let iw = image.width();
    let ih = image.height();
    let px = margin(iw, pad_pct);
    let py = margin(ih, pad_pct);
    let ow = iw.saturating_add(saturating_mul_u32(px, 2));
    let oh = ih.saturating_add(saturating_mul_u32(py, 2));
    let ghost img = *image;
    let ghost w = ow as int;
    let mut out: Vec<u8> = Vec::new();
    let mut y: u32 = 0;
    while y < oh
        invariant
            img == *image,
            iw == img.spec_width(),
            ih == img.spec_height(),
            px == pad_of(iw, pad_pct),
            py == pad_of(ih, pad_pct),
            w == ow,
            y <= oh,
            (ow as int) * (oh as int) <= usize::MAX,
            out@.len() == y * w,
            forall|k: int|
                0 <= k < y * w ==> #[trigger] out@[k] as int == padded_luma(img, pad_pct, k % w, k / w),
        decreases oh - y,
    {
        let mut x: u32 = 0;
        while x < ow
            invariant
                img == *image,
                iw == img.spec_width(),
                ih == img.spec_height(),
                px == pad_of(iw, pad_pct),
                py == pad_of(ih, pad_pct),
                w == ow,
                y < oh,
                x <= ow,
                (ow as int) * (oh as int) <= usize::MAX,
                out@.len() == y * w + x,
                forall|k: int|
                    0 <= k < y * w + x ==> #[trigger] out@[k] as int == padded_luma(img, pad_pct, k % w, k / w),
            decreases ow - x,
        {
            let v = if x >= px && x - px < iw && y >= py && y - py < ih {
                image.luma(x - px, y - py)
            } else {
                255u8
            };
            proof {
                lemma_cell(w, oh as int, x as int, y as int);
            }
            out.push(v);
            x = x + 1;
        }
        proof {
            assert((y + 1) * w == y * w + w) by (nonlinear_arith);
        }
        y = y + 1;
    }
    proof {
        assert(out@.len() == (ow as int) * (oh as int)) by (nonlinear_arith)
            requires
                out@.len() == y * w,
                y == oh,
                w == ow,
        ;
    }
    match LumaImage::from_raw(ow, oh, out) {
        Some(result) => {
            proof {
                assert forall|x: int, yy: int| 0 <= x < result.spec_width() && 0 <= yy < result.spec_height()
                    implies #[trigger] luma_at(result, x, yy) == padded_luma(img, pad_pct, x, yy) by {
                    lemma_cell(w, oh as int, x, yy);
                }
            }
            result
        },
        None => {
            proof {
                assert(false);
            }
            image.clone()
        },
    }
}

/// The margins of a picture fit beside it without saturating.
pub open spec fn margins_fit(image: LumaImage, pct: u32) -> bool {
    &&& (image.spec_width() as int) + 2 * (pad_of(image.spec_width(), pct) as int) <= u32::MAX
    &&& (image.spec_height() as int) + 2 * (pad_of(image.spec_height(), pct) as int) <= u32::MAX
}

/// Cutting the margins off a padded picture gives the picture back: the crop at the
/// margins' corner, of the picture's size, holds the same pixels.
pub proof fn crop_undoes_white_pad(image: LumaImage, pct: u32, padded: LumaImage, cropped: LumaImage)
    requires
        image.well_formed(),
        cropped.well_formed(),
        margins_fit(image, pct),
        is_white_padded(padded, image, pct),
        is_crop_of(
            cropped,
            padded,
            ScanRegion {
                x: pad_of(image.spec_width(), pct),
                y: pad_of(image.spec_height(), pct),
                width: image.spec_width(),
                height: image.spec_height(),
            },
        ),
    ensures
        cropped.spec_width() == image.spec_width(),
        cropped.spec_height() == image.spec_height(),
        cropped@ == image@,
{
    let w = image.spec_width() as int;
    let h = image.spec_height() as int;
    let px = pad_of(image.spec_width(), pct) as int;
    let py = pad_of(image.spec_height(), pct) as int;
    assert(padded.spec_width() == w + 2 * px);
    assert(padded.spec_height() == h + 2 * py);
    assert(cropped.spec_width() == w);
    assert(cropped.spec_height() == h);
    assert forall|k: int| 0 <= k < image@.len() implies cropped@[k] == image@[k] by {
        let i = k % w;
        let j = k / w;
        assert(w > 0) by (nonlinear_arith)
            requires
                0 <= k < w * h,
                h >= 0,
        ;
        assert(0 <= i < w && 0 <= j < h && k == j * w + i) by (nonlinear_arith)
            requires
                0 <= k < w * h,
                w > 0,
                i == k % w,
                j == k / w,
        ;
        assert(luma_at(cropped, i, j) == luma_at(padded, px + i, py + j));
        assert(luma_at(padded, px + i, py + j) == padded_luma(image, pct, px + i, py + j));
        assert(luma_at(cropped, i, j) == luma_at(image, i, j));
    }
    assert(cropped@ =~= image@);
}

} // verus!
