//! Choosing the part of a frame to show around a point of interest.

use vstd::prelude::*;
use crate::img::Rect;

verus! {

/// Where a window of `size` pixels starts along one axis of a source that is
/// `bound` pixels long, when it should be centred on `center`.
///
/// The window is centred where that fits. Near an edge it is moved just far
/// enough to lie inside the source. A window that is not shorter than the
/// source starts at zero and reaches to, or past, the far edge.
pub open spec fn origin(center: int, size: int, bound: int) -> int {
    let centred = center - size / 2;
    if size >= bound || centred < 0 {
        0
    } else if centred > bound - size {
        bound - size
    } else {
        centred
    }
}

/// A window that fits into the source lies inside it.
pub proof fn lemma_origin_inside(center: int, size: int, bound: int)
    requires
        0 <= center,
        0 <= size <= bound,
    ensures
        0 <= origin(center, size, bound),
        origin(center, size, bound) + size <= bound,
{
}

/// A window that can be centred on the point without leaving the source is
/// centred on it.
pub proof fn lemma_origin_centred(center: int, size: int, bound: int)
    requires
        0 <= size <= bound,
        0 <= center - size / 2,
        center - size / 2 + size <= bound,
    ensures
        origin(center, size, bound) == center - size / 2,
{
}

/// A window is moved towards the origin only: it never starts beyond the
/// position at which it would be centred, nor before zero.
pub proof fn lemma_origin_only_moves_back(center: int, size: int, bound: int)
    requires
        0 <= center,
        0 <= size,
        0 <= bound,
    ensures
        0 <= origin(center, size, bound),
        origin(center, size, bound) <= if center >= size / 2 { center - size / 2 } else { 0 },
{
}

/// The window of `size` round `center` within a source of `bounds`: along
/// each axis it starts at `origin`, and its size is `size` unchanged.
pub open spec fn window(center: (u32, u32), size: (u32, u32), bounds: (u32, u32)) -> Rect {
    Rect {
        x: origin(center.0 as int, size.0 as int, bounds.0 as int) as u32,
        y: origin(center.1 as int, size.1 as int, bounds.1 as int) as u32,
        w: size.0,
        h: size.1,
    }
}

fn axis(center: u32, size: u32, bound: u32) -> (start: u32)
    ensures
        start == origin(center as int, size as int, bound as int),
{
    let centred: u64 = center.saturating_sub(size / 2) as u64;
    let far: u64 = centred + size as u64;
    let overflow: u64 = far.saturating_sub(bound as u64);
    centred.saturating_sub(overflow) as u32
}

/// The crop rectangle of exactly `size`, centred on `center` and moved only
/// as far as needed to stay inside a source of `bounds`.
///
/// Each of `center`, `size` and `bounds` is a pair of a horizontal and a
/// vertical number. The size is never changed. Where the size exceeds the
/// source along an axis, the rectangle starts at zero on that axis and
/// reaches past the source.
pub fn pick(center: (u32, u32), size: (u32, u32), bounds: (u32, u32)) -> (r: Rect)
    ensures
        r == window(center, size, bounds),
        r.w == size.0,
        r.h == size.1,
        r.x == origin(center.0 as int, size.0 as int, bounds.0 as int),
        r.y == origin(center.1 as int, size.1 as int, bounds.1 as int),
        size.0 <= bounds.0 ==> r.x + r.w <= bounds.0,
        size.1 <= bounds.1 ==> r.y + r.h <= bounds.1,
{
    let x: u32 = axis(center.0, size.0, bounds.0);
    let y: u32 = axis(center.1, size.1, bounds.1);
    Rect { x, y, w: size.0, h: size.1 }
}

} // verus!
