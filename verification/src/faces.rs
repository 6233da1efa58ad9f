//! Face landmarks: the fixed set of points that a predictor reports for one
//! face, the regions of it that the pipeline follows, and their centres.

use vstd::prelude::*;
use vstd::slice::slice_subrange;
use itertools::Itertools;
use itertools::MinMaxResult;
use crate::img::{Pt, Rect};
use crate::ring::{mean_of, sum};

verus! {

/// The number of points that describe one face.
pub const POINTS: usize = 68;

/// `v` where it is a pixel coordinate, else the nearest one.
pub open spec fn clamp_u32(v: int) -> int {
    if v < 0 {
        0
    } else if v > u32::MAX {
        u32::MAX as int
    } else {
        v
    }
}

/// The pixel position nearest to the signed position `p`.
pub open spec fn clamp_pt(p: (i64, i64)) -> Pt {
    Pt { x: clamp_u32(p.0 as int) as u32, y: clamp_u32(p.1 as int) as u32 }
}

/// The horizontal coordinates of `points`.
pub open spec fn pt_xs(points: Seq<Pt>) -> Seq<u32> {
    points.map_values(|p: Pt| p.x)
}

/// The vertical coordinates of `points`.
pub open spec fn pt_ys(points: Seq<Pt>) -> Seq<u32> {
    points.map_values(|p: Pt| p.y)
}

/// The point whose coordinates are the means of the coordinates of
/// `points`, each rounded towards zero.
pub open spec fn centroid(points: Seq<Pt>) -> Pt {
    Pt { x: mean_of(pt_xs(points)) as u32, y: mean_of(pt_ys(points)) as u32 }
}

/// Brings a signed coordinate into the range of pixel coordinates: negative
/// ones become zero, too large ones the largest `u32`.
pub fn force_u32(v: i64) -> (r: u32)
    ensures
        r == clamp_u32(v as int),
{
    if v < 0 {
        0
    } else if v > 0xffff_ffff {
        u32::MAX
    } else {
        v as u32
    }
}

/// `at` is the first position in `keys` that holds a smallest key.
pub open spec fn is_first_min(keys: Seq<i64>, at: int) -> bool {
    &&& 0 <= at < keys.len()
    &&& forall|j: int| 0 <= j < keys.len() ==> keys[at] <= #[trigger] keys[j]
    &&& forall|j: int| 0 <= j < at ==> keys[at] < #[trigger] keys[j]
}

/// `at` is the last position in `keys` that holds a largest key.
pub open spec fn is_last_max(keys: Seq<i64>, at: int) -> bool {
    &&& 0 <= at < keys.len()
    &&& forall|j: int| 0 <= j < keys.len() ==> #[trigger] keys[j] <= keys[at]
    &&& forall|j: int| at < j < keys.len() ==> #[trigger] keys[j] < keys[at]
}

/// `keys` holds, for each of `items` in order, a key that `key` gives it.
pub open spec fn keyed<T, F: Fn(&T) -> i64>(items: Seq<T>, key: F, keys: Seq<i64>) -> bool {
    &&& keys.len() == items.len()
    &&& forall|i: int| 0 <= i < items.len() ==> key.ensures((&items[i],), #[trigger] keys[i])
}

/// The smallest of `keys`; zero where there are none.
pub open spec fn lowest(keys: Seq<i64>) -> int
    decreases keys.len(),
{
    if keys.len() == 0 {
        0
    } else if keys.len() == 1 || keys.last() < lowest(keys.drop_last()) {
        keys.last() as int
    } else {
        lowest(keys.drop_last())
    }
}

/// The largest of `keys`; zero where there are none.
pub open spec fn highest(keys: Seq<i64>) -> int
    decreases keys.len(),
{
    if keys.len() == 0 {
        0
    } else if keys.len() == 1 || keys.last() > highest(keys.drop_last()) {
        keys.last() as int
    } else {
        highest(keys.drop_last())
    }
}

/// The smallest and the largest key are among the keys and bound them all.
pub proof fn lemma_lowest_highest(keys: Seq<i64>)
    requires
        keys.len() > 0,
    ensures
        exists|i: int| 0 <= i < keys.len() && keys[i] == lowest(keys),
        exists|i: int| 0 <= i < keys.len() && keys[i] == highest(keys),
        forall|i: int| 0 <= i < keys.len() ==> lowest(keys) <= #[trigger] keys[i] <= highest(keys),
    decreases keys.len(),
{
    let last = keys.len() - 1;
    if keys.len() > 1 {
        let front = keys.drop_last();
        lemma_lowest_highest(front);
        let i = choose|i: int| 0 <= i < front.len() && front[i] == lowest(front);
        let j = choose|j: int| 0 <= j < front.len() && front[j] == highest(front);
        assert(keys[i] == front[i] && keys[j] == front[j]);
        assert(keys[if keys.last() < lowest(front) { last } else { i }] == lowest(keys));
        assert(keys[if keys.last() > highest(front) { last } else { j }] == highest(keys));
        assert forall|k: int| 0 <= k < keys.len() implies lowest(keys) <= #[trigger] keys[k]
            <= highest(keys) by {
            if k < last {
                assert(keys[k] == front[k]);
            }
        }
    } else {
        assert(keys[0] == lowest(keys) && keys[0] == highest(keys));
    }
}

/// The horizontal coordinates of the signed positions `points`.
pub open spec fn signed_xs(points: Seq<(i64, i64)>) -> Seq<i64> {
    points.map_values(|p: (i64, i64)| p.0)
}

/// The vertical coordinates of the signed positions `points`.
pub open spec fn signed_ys(points: Seq<(i64, i64)>) -> Seq<i64> {
    points.map_values(|p: (i64, i64)| p.1)
}

/// Calls `Itertools::minmax_by_key` on the keys paired with their positions.
/// Not proved, but taken from that function's description: it finds nothing
/// exactly when there are no keys, and otherwise the first of the elements
/// with the smallest key and the last of those with the largest, which for
/// a single key are the same element.
#[verifier::external_body]
fn minmax_positions(keys: &Vec<i64>) -> (r: Option<(usize, usize)>)
    ensures
        r is None <==> keys@.len() == 0,
        r matches Some((lo, hi)) ==> is_first_min(keys@, lo as int) && is_last_max(
            keys@,
            hi as int,
        ),
{
    match keys.iter().enumerate().minmax_by_key(|p| *p.1) {
        MinMaxResult::NoElements => None,
        MinMaxResult::OneElement(only) => Some((only.0, only.0)),
        MinMaxResult::MinMax(lo, hi) => Some((lo.0, hi.0)),
    }
}

/// The item with the smallest key and the item with the largest one, where
/// `key` gives each item its key. Among equal smallest keys the first item
/// wins, among equal largest keys the last.
pub fn minmax_by<'a, T, F: Fn(&T) -> i64>(items: &'a [T], key: F) -> (r: (&'a T, &'a T))
    requires
        items@.len() > 0,
        forall|i: int| 0 <= i < items@.len() ==> key.requires((&#[trigger] items@[i],)),
    ensures
        exists|keys: Seq<i64>, lo: int, hi: int|
            {
                &&& keyed(items@, key, keys)
                &&& is_first_min(keys, lo)
                &&& is_last_max(keys, hi)
                &&& *r.0 == items@[lo]
                &&& *r.1 == items@[hi]
            },
{
    let n: usize = items.len();
    let mut keys: Vec<i64> = Vec::new();
    let mut i: usize = 0;
    while i < n
        invariant
            i <= n,
            n == items@.len(),
            keys@.len() == i,
            forall|j: int| 0 <= j < n ==> key.requires((&#[trigger] items@[j],)),
            forall|j: int| 0 <= j < i ==> key.ensures((&items@[j],), #[trigger] keys@[j]),
        decreases n - i,
    {
        let k: i64 = key(&items[i]);
        keys.push(k);
        i = i + 1;
    }
    let (lo, hi): (usize, usize) = match minmax_positions(&keys) {
        Some(found) => found,
        None => (0, 0),
    };
    proof {
        assert(keyed(items@, key, keys@));
        assert(is_first_min(keys@, lo as int) && is_last_max(keys@, hi as int));
    }
    (&items[lo], &items[hi])
}

/// The smallest rectangle that holds all of `marks`, brought into the range
/// of pixel coordinates: its corner is the smallest coordinate on each axis,
/// its size the distance to the largest.
pub fn bounding_box(marks: &[(i64, i64)]) -> (r: Rect)
    requires
        marks@.len() > 0,
    ensures
        r.x == clamp_u32(lowest(signed_xs(marks@))),
        r.y == clamp_u32(lowest(signed_ys(marks@))),
        r.w == clamp_u32(highest(signed_xs(marks@)) - lowest(signed_xs(marks@))),
        r.h == clamp_u32(highest(signed_ys(marks@)) - lowest(signed_ys(marks@))),
{
    let by_x = |p: &(i64, i64)| -> (k: i64)
        ensures
            k == p.0,
        { p.0 };
    let by_y = |p: &(i64, i64)| -> (k: i64)
        ensures
            k == p.1,
        { p.1 };
    let (left, right) = minmax_by(marks, by_x);
    let (top, bottom) = minmax_by(marks, by_y);
    proof {
        let (keys, lo, hi) = choose|keys: Seq<i64>, lo: int, hi: int|
            {
                &&& keyed(marks@, by_x, keys)
                &&& is_first_min(keys, lo)
                &&& is_last_max(keys, hi)
                &&& *left == marks@[lo]
                &&& *right == marks@[hi]
            };
        assert(keys =~= signed_xs(marks@));
        lemma_lowest_highest(keys);
        let (keys, lo, hi) = choose|keys: Seq<i64>, lo: int, hi: int|
            {
                &&& keyed(marks@, by_y, keys)
                &&& is_first_min(keys, lo)
                &&& is_last_max(keys, hi)
                &&& *top == marks@[lo]
                &&& *bottom == marks@[hi]
            };
        assert(keys =~= signed_ys(marks@));
        lemma_lowest_highest(keys);
    }
    Rect {
        x: force_u32(left.0),
        y: force_u32(top.1),
        w: span(left.0, right.0),
        h: span(top.1, bottom.1),
    }
}

fn span(low: i64, high: i64) -> (r: u32)
    ensures
        r == clamp_u32(high - low),
{
    let d: i128 = high as i128 - low as i128;
    if d < 0 {
        0
    } else if d > 0xffff_ffff {
        u32::MAX
    } else {
        d as u32
    }
}

/// The landmarks of one face, in the predictor's fixed order.
#[derive(Copy, Clone)]
pub struct Landmarks {
    inner: [Pt; 68],
}

impl View for Landmarks {
    type V = Seq<Pt>;

    closed spec fn view(&self) -> Seq<Pt> {
        self.inner@
    }
}

impl Landmarks {
    /// There are always exactly `POINTS` landmarks.
    pub proof fn lemma_len(&self)
        ensures
            self@.len() == POINTS,
    {
    }

    /// The landmarks at the signed positions `points`, each brought into
    /// the range of pixel coordinates.
    pub fn from_points(points: &[(i64, i64)]) -> (marks: Landmarks)
        requires
            points@.len() == POINTS,
        ensures
            marks@.len() == POINTS,
            forall|i: int| 0 <= i < POINTS ==> marks@[i] == clamp_pt(#[trigger] points@[i]),
    {
        let mut inner: [Pt; 68] = [Pt { x: 0, y: 0 };68];
        let mut i: usize = 0;
        while i < POINTS
            invariant
                i <= POINTS,
                points@.len() == POINTS,
                forall|j: int| 0 <= j < i ==> inner@[j] == clamp_pt(#[trigger] points@[j]),
            decreases POINTS - i,
        {
            let p: (i64, i64) = points[i];
            inner[i] = Pt { x: force_u32(p.0), y: force_u32(p.1) };
            i = i + 1;
        }
        Landmarks { inner }
    }

    /// The six points round the left eye.
    pub fn left_eye(&self) -> (eye: &[Pt])
        ensures
            eye@ == self@.subrange(36, 42),
    {
        slice_subrange(self.inner.as_slice(), 36, 42)
    }

    /// The six points round the right eye.
    pub fn right_eye(&self) -> (eye: &[Pt])
        ensures
            eye@ == self@.subrange(42, 48),
    {
        slice_subrange(self.inner.as_slice(), 42, 48)
    }

    /// The twenty points round the mouth.
    pub fn mouth(&self) -> (lips: &[Pt])
        ensures
            lips@ == self@.subrange(48, 68),
    {
        slice_subrange(self.inner.as_slice(), 48, 68)
    }
}

impl AsRef<[Pt]> for Landmarks {
    /// All the landmarks.
    fn as_ref(&self) -> (all: &[Pt])
        ensures
            all@ == self@,
    {
        self.inner.as_slice()
    }
}

/// Something that has a centre among the pixels.
pub trait Fleek {
    /// The points whose centre is meant.
    spec fn points(&self) -> Seq<Pt>;

    /// The centroid of the points: the mean of each coordinate, rounded
    /// towards zero.
    fn centre(&self) -> (c: Pt)
        requires
            self.points().len() > 0,
        ensures
            c == centroid(self.points()),
    ;
}

impl Fleek for &[Pt] {
    open spec fn points(&self) -> Seq<Pt> {
        self@
    }

    fn centre(&self) -> (c: Pt) {
        let n: usize = self.len();
        let mut tx: u128 = 0;
        let mut ty: u128 = 0;
        let mut i: usize = 0;
        while i < n
            invariant
                i <= n,
                n == self@.len(),
                tx == sum(pt_xs(self@.take(i as int))),
                ty == sum(pt_ys(self@.take(i as int))),
                tx <= i * u32::MAX,
                ty <= i * u32::MAX,
            decreases n - i,
        {
            proof {
                assert(self@.take(i + 1).drop_last() =~= self@.take(i as int));
                assert(pt_xs(self@.take(i + 1)).drop_last() =~= pt_xs(self@.take(i as int)));
                assert(pt_ys(self@.take(i + 1)).drop_last() =~= pt_ys(self@.take(i as int)));
            }
            tx = tx + self[i].x as u128;
            ty = ty + self[i].y as u128;
            i = i + 1;
        }
        proof {
            assert(self@.take(n as int) =~= self@);
            crate::ring::lemma_sum_bound(pt_xs(self@));
            crate::ring::lemma_sum_bound(pt_ys(self@));
        }
        Pt { x: (tx / n as u128) as u32, y: (ty / n as u128) as u32 }
    }
}

} // verus!
