//! Where the dark pixels of a grayscale crop lie: their bounding box, and their rows
//! within a band of columns.
use vstd::prelude::*;

use crate::raster::{luma_at, LumaImage};

verus! {

/// Whether pixel `(x, y)` of `img` is darker than `threshold`.
pub open spec fn darker(img: LumaImage, threshold: u8, x: int, y: int) -> bool {
    &&& 0 <= x < img.spec_width()
    &&& 0 <= y < img.spec_height()
    &&& luma_at(img, x, y) < threshold
}

/// `b` is the bounding box `(min_x, min_y, max_x, max_y)` of the pixels of `img`
/// darker than `threshold`: each lies inside it, and each side touches one.
pub open spec fn is_dark_box(img: LumaImage, threshold: u8, b: (u32, u32, u32, u32)) -> bool {
    &&& forall|x: int, y: int|
        #[trigger] darker(img, threshold, x, y) ==> b.0 <= x <= b.2 && b.1 <= y <= b.3
    &&& exists|x: int, y: int| #[trigger] darker(img, threshold, x, y) && x == b.0
    &&& exists|x: int, y: int| #[trigger] darker(img, threshold, x, y) && y == b.1
    &&& exists|x: int, y: int| #[trigger] darker(img, threshold, x, y) && x == b.2
    &&& exists|x: int, y: int| #[trigger] darker(img, threshold, x, y) && y == b.3
}

/// The bounding box of the pixels darker than `threshold`, or `None` when there are
/// none.
pub fn dark_bounds_luma(luma: &LumaImage, threshold: u8) -> (r: Option<(u32, u32, u32, u32)>)
    ensures
        r is None <==> !exists|x: int, y: int| #[trigger] darker(*luma, threshold, x, y),
        r matches Some(b) ==> is_dark_box(*luma, threshold, b),
{
    let w = luma.width();
    let h = luma.height();
    let ghost img = *luma;
    let mut min_x: u32 = u32::MAX;
    let mut min_y: u32 = u32::MAX;
    let mut max_x: u32 = 0;
    let mut max_y: u32 = 0;
    let mut found = false;
    let ghost mut w0: (int, int) = (0, 0);
    let ghost mut w1: (int, int) = (0, 0);
    let ghost mut w2: (int, int) = (0, 0);
    let ghost mut w3: (int, int) = (0, 0);
    let mut y: u32 = 0;
    while y < h
        invariant
            img == *luma,
            w == img.spec_width(),
            h == img.spec_height(),
            y <= h,
            found <==> exists|xx: int, yy: int| yy < y && #[trigger] darker(img, threshold, xx, yy),
            forall|xx: int, yy: int|
                yy < y && #[trigger] darker(img, threshold, xx, yy) ==> min_x <= xx <= max_x && min_y
                    <= yy <= max_y,
            found ==> darker(img, threshold, w0.0, w0.1) && w0.1 < y && w0.0 == min_x,
            found ==> darker(img, threshold, w1.0, w1.1) && w1.1 < y && w1.1 == min_y,
            found ==> darker(img, threshold, w2.0, w2.1) && w2.1 < y && w2.0 == max_x,
            found ==> darker(img, threshold, w3.0, w3.1) && w3.1 < y && w3.1 == max_y,
        decreases h - y,
    {
        let mut x: u32 = 0;
        while x < w
            invariant
                img == *luma,
                w == img.spec_width(),
                h == img.spec_height(),
                y < h,
                x <= w,
                found <==> exists|xx: int, yy: int|
                    (yy < y || (yy == y && xx < x)) && #[trigger] darker(img, threshold, xx, yy),
                forall|xx: int, yy: int|
                    (yy < y || (yy == y && xx < x)) && #[trigger] darker(img, threshold, xx, yy) ==> min_x
                        <= xx <= max_x && min_y <= yy <= max_y,
                found ==> darker(img, threshold, w0.0, w0.1) && w0.1 <= y && w0.0 == min_x,
                found ==> darker(img, threshold, w1.0, w1.1) && w1.1 <= y && w1.1 == min_y,
                found ==> darker(img, threshold, w2.0, w2.1) && w2.1 <= y && w2.0 == max_x,
                found ==> darker(img, threshold, w3.0, w3.1) && w3.1 <= y && w3.1 == max_y,
            decreases w - x,
        {
            if luma.luma(x, y) < threshold {
                let ghost p = (x as int, y as int);
                assert(darker(img, threshold, x as int, y as int));
                if !found || x < min_x {
                    min_x = x;
                    proof {
                        w0 = p;
                    }
                }
                if !found || y < min_y {
                    min_y = y;
                    proof {
                        w1 = p;
                    }
                }
                if !found || x > max_x {
                    max_x = x;
                    proof {
                        w2 = p;
                    }
                }
                if !found || y > max_y {
                    max_y = y;
                    proof {
                        w3 = p;
                    }
                }
                found = true;
            }
            x = x + 1;
        }
        y = y + 1;
    }
    if found {
        let b = (min_x, min_y, max_x, max_y);
        proof {
            assert(darker(img, threshold, w0.0, w0.1));
            assert(darker(img, threshold, w1.0, w1.1));
            assert(darker(img, threshold, w2.0, w2.1));
            assert(darker(img, threshold, w3.0, w3.1));
        }
        Some(b)
    } else {
        proof {
            assert forall|xx: int, yy: int| !#[trigger] darker(img, threshold, xx, yy) by {
                if darker(img, threshold, xx, yy) {
                    assert(yy < y);
                }
            }
        }
        None
    }
}

/// Whether pixel `(x, y)` is darker than `threshold` and in columns `start_x..=end_x`.
pub open spec fn darker_in(img: LumaImage, threshold: u8, start_x: u32, end_x: u32, x: int, y: int) -> bool {
    &&& start_x <= x <= end_x
    &&& darker(img, threshold, x, y)
}

/// The first and last rows holding a pixel darker than `threshold` in columns
/// `start_x..=end_x` (cut at the right edge), or `None` when there is none.
pub fn vertical_dark_extent(luma: &LumaImage, threshold: u8, start_x: u32, end_x: u32) -> (r: Option<
    (u32, u32),
>)
    ensures
        r is None <==> !exists|x: int, y: int| #[trigger] darker_in(*luma, threshold, start_x, end_x, x, y),
        r matches Some(e) ==> {
            &&& forall|x: int, y: int|
                #[trigger] darker_in(*luma, threshold, start_x, end_x, x, y) ==> e.0 <= y <= e.1
            &&& exists|x: int, y: int| #[trigger] darker_in(*luma, threshold, start_x, end_x, x, y) && y == e.0
            &&& exists|x: int, y: int| #[trigger] darker_in(*luma, threshold, start_x, end_x, x, y) && y == e.1
        },
{
    let w = luma.width();
    let h = luma.height();
    let ghost img = *luma;
    let last = if w == 0 {
        0
    } else if end_x < w - 1 {
        end_x
    } else {
        w - 1
    };
    let mut min_y: u32 = u32::MAX;
    let mut max_y: u32 = 0;
    let mut found = false;
    let ghost mut lo: (int, int) = (0, 0);
    let ghost mut hi: (int, int) = (0, 0);
    let mut y: u32 = 0;
    while y < h
        invariant
            img == *luma,
            w == img.spec_width(),
            h == img.spec_height(),
            w > 0 ==> last == (if end_x < w - 1 { end_x } else { (w - 1) as u32 }),
            y <= h,
            found <==> exists|xx: int, yy: int| yy < y && #[trigger] darker_in(img, threshold, start_x, end_x, xx, yy),
            forall|xx: int, yy: int|
                yy < y && #[trigger] darker_in(img, threshold, start_x, end_x, xx, yy) ==> min_y <= yy <= max_y,
            found ==> darker_in(img, threshold, start_x, end_x, lo.0, lo.1) && lo.1 == min_y,
            found ==> darker_in(img, threshold, start_x, end_x, hi.0, hi.1) && hi.1 == max_y,
        decreases h - y,
    {
        if w > 0 {
            let mut x: u32 = start_x;
            while x <= last
                invariant
                    img == *luma,
                    w == img.spec_width(),
                    h == img.spec_height(),
                    w > 0,
                    last == (if end_x < w - 1 { end_x } else { (w - 1) as u32 }),
                    y < h,
                    start_x <= x,
                    found <==> exists|xx: int, yy: int|
                        (yy < y || (yy == y && xx < x)) && #[trigger] darker_in(img, threshold, start_x, end_x, xx, yy),
                    forall|xx: int, yy: int|
                        (yy < y || (yy == y && xx < x)) && #[trigger] darker_in(img, threshold, start_x, end_x, xx, yy)
                            ==> min_y <= yy <= max_y,
                    found ==> darker_in(img, threshold, start_x, end_x, lo.0, lo.1) && lo.1 == min_y,
                    found ==> darker_in(img, threshold, start_x, end_x, hi.0, hi.1) && hi.1 == max_y,
                decreases last + 1 - x,
            {
                if luma.luma(x, y) < threshold {
                    assert(darker_in(img, threshold, start_x, end_x, x as int, y as int));
                    if !found || y < min_y {
                        min_y = y;
                        proof {
                            lo = (x as int, y as int);
                        }
                    }
                    if !found || y > max_y {
                        max_y = y;
                        proof {
                            hi = (x as int, y as int);
                        }
                    }
                    found = true;
                }
                x = x + 1;
            }
            assert(x > last);
        }
        y = y + 1;
    }
    if found {
        proof {
            assert(darker_in(img, threshold, start_x, end_x, lo.0, lo.1));
            assert(darker_in(img, threshold, start_x, end_x, hi.0, hi.1));
        }
        Some((min_y, max_y))
    } else {
        proof {
            assert forall|xx: int, yy: int| !#[trigger] darker_in(img, threshold, start_x, end_x, xx, yy) by {
                if darker_in(img, threshold, start_x, end_x, xx, yy) {
                    assert(yy < y);
                }
            }
        }
        None
    }
}

} // verus!
