//! The region of the background that a foreground covers at a given position.
use vstd::prelude::*;
use crate::position::ROIPosition;

verus! {

/// A rectangle in pixel coordinates: top-left corner and size.
#[derive(Debug, Clone, Copy, PartialEq, Eq, Structural)]
pub struct Rect {
    pub x: i32,
    pub y: i32,
    pub width: i32,
    pub height: i32,
}

/// Integer halving that rounds toward zero, as `/ 2` does on `i32`.
pub open spec fn half_toward_zero(d: int) -> int {
    if d >= 0 {
        d / 2
    } else {
        -((-d) / 2)
    }
}

/// Where a foreground of size `fw` x `fh` goes on a background of size `bw` x `bh`:
/// flush with the named edges and centred along the others.
pub open spec fn spec_roi(p: ROIPosition, fw: int, fh: int, bw: int, bh: int) -> (int, int) {
    let cx = half_toward_zero(bw - fw);
    let cy = half_toward_zero(bh - fh);
    let right = bw - fw;
    let bottom = bh - fh;
    match p {
        ROIPosition::Left => (0, cy),
        ROIPosition::Right => (right, cy),
        ROIPosition::Top => (cx, 0),
        ROIPosition::Bottom => (cx, bottom),
        ROIPosition::TopLeft => (0, 0),
        ROIPosition::TopRight => (right, 0),
        ROIPosition::BottomLeft => (0, bottom),
        ROIPosition::BottomRight => (right, bottom),
        ROIPosition::Center => (cx, cy),
    }
}

/// The region of interest on the background for a foreground pasted at `position`;
/// it has the foreground's size.
pub fn roi_for_position(
    position: &ROIPosition,
    f_width: i32,
    f_height: i32,
    b_width: i32,
    b_height: i32,
) -> (r: Rect)
    requires
        0 <= f_width,
        0 <= f_height,
        0 <= b_width,
        0 <= b_height,
    ensures
        (r.x as int, r.y as int) == spec_roi(
            *position,
            f_width as int,
            f_height as int,
            b_width as int,
            b_height as int,
        ),
        r.width == f_width,
        r.height == f_height,
        (*position == ROIPosition::Left || *position == ROIPosition::TopLeft || *position
            == ROIPosition::BottomLeft) ==> r.x == 0,
        (*position == ROIPosition::Right || *position == ROIPosition::TopRight || *position
            == ROIPosition::BottomRight) ==> r.x + r.width == b_width,
        (*position == ROIPosition::Top || *position == ROIPosition::TopLeft || *position
            == ROIPosition::TopRight) ==> r.y == 0,
        (*position == ROIPosition::Bottom || *position == ROIPosition::BottomLeft || *position
            == ROIPosition::BottomRight) ==> r.y + r.height == b_height,
{
    proof {
        lemma_roi_flush_with_named_edges(
            *position,
            f_width as int,
            f_height as int,
            b_width as int,
            b_height as int,
        );
    }
    let cx = (b_width - f_width) / 2;
    let cy = (b_height - f_height) / 2;
    assert(cx == half_toward_zero(b_width - f_width));
    assert(cy == half_toward_zero(b_height - f_height));
    let right = b_width - f_width;
    let bottom = b_height - f_height;
    let (x, y) = match position {
        ROIPosition::Left => (0, cy),
        ROIPosition::Right => (right, cy),
        ROIPosition::Top => (cx, 0),
        ROIPosition::Bottom => (cx, bottom),
        ROIPosition::TopLeft => (0, 0),
        ROIPosition::TopRight => (right, 0),
        ROIPosition::BottomLeft => (0, bottom),
        ROIPosition::BottomRight => (right, bottom),
        ROIPosition::Center => (cx, cy),
    };
    Rect { x, y, width: f_width, height: f_height }
}

/// At every position, the region lies within the background exactly when the
/// foreground is no wider and no taller than the background.
pub proof fn lemma_roi_inside_iff_fits(p: ROIPosition, fw: int, fh: int, bw: int, bh: int)
    requires
        0 <= fw,
        0 <= fh,
        0 <= bw,
        0 <= bh,
    ensures
        ({
            let (x, y) = spec_roi(p, fw, fh, bw, bh);
            rect_inside_values(x, y, fw, fh, bw, bh)
        }) <==> (fw <= bw && fh <= bh),
{
}

/// Every position is flush with the edges it names and centred along the others: the
/// left positions start at column 0, the right ones end at the background's width,
/// the top ones start at row 0, the bottom ones end at its height, and along an axis
/// that no edge is named for, the gaps on both sides differ by at most one pixel,
/// the one before the foreground being the smaller when it fits and the larger when it
/// does not (halving rounds toward zero).
pub proof fn lemma_roi_flush_with_named_edges(p: ROIPosition, fw: int, fh: int, bw: int, bh: int)
    ensures
        ({
            let (x, y) = spec_roi(p, fw, fh, bw, bh);
            &&& (p == ROIPosition::Left || p == ROIPosition::TopLeft || p == ROIPosition::BottomLeft)
                ==> x == 0
            &&& (p == ROIPosition::Right || p == ROIPosition::TopRight || p
                == ROIPosition::BottomRight) ==> x + fw == bw
            &&& (p == ROIPosition::Top || p == ROIPosition::TopLeft || p == ROIPosition::TopRight)
                ==> y == 0
            &&& (p == ROIPosition::Bottom || p == ROIPosition::BottomLeft || p
                == ROIPosition::BottomRight) ==> y + fh == bh
            &&& (p == ROIPosition::Top || p == ROIPosition::Bottom || p == ROIPosition::Center) ==> {
                &&& fw <= bw ==> 0 <= (bw - (x + fw)) - x <= 1
                &&& fw > bw ==> 0 <= x - (bw - (x + fw)) <= 1
            }
            &&& (p == ROIPosition::Left || p == ROIPosition::Right || p == ROIPosition::Center) ==> {
                &&& fh <= bh ==> 0 <= (bh - (y + fh)) - y <= 1
                &&& fh > bh ==> 0 <= y - (bh - (y + fh)) <= 1
            }
        }),
{
}

/// `rect_inside` on plain integers.
pub open spec fn rect_inside_values(x: int, y: int, w: int, h: int, bw: int, bh: int) -> bool {
    &&& 0 <= x
    &&& 0 <= y
    &&& 0 <= w
    &&& 0 <= h
    &&& x + w <= bw
    &&& y + h <= bh
}

} // verus!
