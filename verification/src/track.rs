//! Following the features of a face from frame to frame: one smoother per
//! feature, fed with the centre of the feature's landmarks, and the crop of
//! the frame round each smoothed centre.

use vstd::prelude::*;
use crate::faces::{centroid, Fleek, Landmarks};
use crate::img::{Pt, Rect};
use crate::ring::{mean_of, slide, xs, ys, Ring};
use crate::viewport::{pick, window};

verus! {

/// A part of the face that gets a view of its own.
#[derive(Copy, Clone, Debug, PartialEq, Eq, Structural)]
pub enum Feature {
    LeftEye,
    RightEye,
    Mouth,
}

/// The landmarks of `marks` that belong to `feature`.
pub open spec fn region(marks: Seq<Pt>, feature: Feature) -> Seq<Pt> {
    match feature {
        Feature::LeftEye => marks.subrange(36, 42),
        Feature::RightEye => marks.subrange(42, 48),
        Feature::Mouth => marks.subrange(48, 68),
    }
}

/// The centre of `feature` in `marks`, as a pair.
pub open spec fn centre_of(marks: Seq<Pt>, feature: Feature) -> (u32, u32) {
    (centroid(region(marks, feature)).x, centroid(region(marks, feature)).y)
}

/// The square of the distance between `a` and `b`.
pub open spec fn square_gap(a: (u32, u32), b: (u32, u32)) -> int {
    (a.0 - b.0) * (a.0 - b.0) + (a.1 - b.1) * (a.1 - b.1)
}

/// The mean position of `samples`; the origin where there are none.
pub open spec fn mean_point(samples: Seq<(u32, u32)>) -> (u32, u32) {
    (mean_of(xs(samples)) as u32, mean_of(ys(samples)) as u32)
}

fn square_of_difference(a: u32, b: u32) -> (sq: u128)
    ensures
        sq == (a - b) * (a - b),
        sq <= 0xffff_ffff * 0xffff_ffff,
{
    let d: u128 = if a >= b {
        (a - b) as u128
    } else {
        (b - a) as u128
    };
    assert(d * d == (a - b) * (a - b) && d * d <= 0xffff_ffff * 0xffff_ffff) by (nonlinear_arith)
        requires
            d == a - b || d == b - a,
            0 <= d <= 0xffff_ffff,
    ;
    d * d
}

/// The square of the distance between two pixels. Its root is the distance.
pub fn squared_distance(a: (u32, u32), b: (u32, u32)) -> (sq: u128)
    ensures
        sq == square_gap(a, b),
{
    square_of_difference(a.0, b.0) + square_of_difference(a.1, b.1)
}

/// The smoothed centres of the features of one face.
pub struct Tracker {
    left: Ring<(u32, u32)>,
    right: Ring<(u32, u32)>,
    mouth: Ring<(u32, u32)>,
}

impl Tracker {
    /// The centres retained for `feature`, oldest first.
    pub closed spec fn samples(&self, feature: Feature) -> Seq<(u32, u32)> {
        match feature {
            Feature::LeftEye => self.left@,
            Feature::RightEye => self.right@,
            Feature::Mouth => self.mouth@,
        }
    }

    /// How many centres are retained for each feature at most.
    pub closed spec fn capacity(&self) -> nat {
        self.left.capacity()
    }

    /// The three smoothers are well formed, of one capacity, and hold
    /// equally many centres.
    pub closed spec fn wf(&self) -> bool {
        &&& self.left.wf()
        &&& self.right.wf()
        &&& self.mouth.wf()
        &&& self.right.capacity() == self.left.capacity()
        &&& self.mouth.capacity() == self.left.capacity()
        &&& self.right@.len() == self.left@.len()
        &&& self.mouth@.len() == self.left@.len()
    }

    /// Each observation adds to all three features, so they always hold
    /// equally many centres, and never more than the capacity.
    pub proof fn lemma_len(&self, f: Feature, g: Feature)
        requires
            self.wf(),
        ensures
            self.samples(f).len() == self.samples(g).len(),
            self.samples(f).len() <= self.capacity(),
    {
        self.left.lemma_len();
    }

    /// A tracker that has seen no face yet and smooths over up to
    /// `capacity` observations.
    pub fn new(capacity: usize) -> (tracker: Tracker)
        ensures
            tracker.wf(),
            tracker.capacity() == capacity,
            forall|f: Feature| #[trigger] tracker.samples(f) == Seq::<(u32, u32)>::empty(),
    {
        Tracker {
            left: Ring::with_capacity(capacity),
            right: Ring::with_capacity(capacity),
            mouth: Ring::with_capacity(capacity),
        }
    }

    /// Records the centre of each feature of `marks`, and returns the
    /// square of the distance between the centres of the two eyes.
    pub fn observe(&mut self, marks: &Landmarks) -> (eyes_apart: u128)
        requires
            old(self).wf(),
            old(self).capacity() > 0,
        ensures
            final(self).wf(),
            final(self).capacity() == old(self).capacity(),
            forall|f: Feature| #[trigger]
                final(self).samples(f) == slide(
                    old(self).samples(f),
                    old(self).capacity(),
                    centre_of(marks@, f),
                ),
            eyes_apart == square_gap(
                centre_of(marks@, Feature::LeftEye),
                centre_of(marks@, Feature::RightEye),
            ),
    {
        proof {
            marks.lemma_len();
        }
        let left: (u32, u32) = marks.left_eye().centre().tuple();
        let right: (u32, u32) = marks.right_eye().centre().tuple();
        let mouth: (u32, u32) = marks.mouth().centre().tuple();
        self.left.push(left);
        self.right.push(right);
        self.mouth.push(mouth);
        squared_distance(left, right)
    }

    /// Whether no face was observed yet.
    pub fn is_empty(&self) -> (empty: bool)
        requires
            self.wf(),
        ensures
            forall|f: Feature| empty == (#[trigger] self.samples(f).len() == 0),
    {
        self.left.is_empty()
    }

    /// The smoothed centre of `feature`; the origin before the first
    /// observation.
    pub fn centre(&self, feature: Feature) -> (c: (u32, u32))
        requires
            self.wf(),
        ensures
            c == mean_point(self.samples(feature)),
    {
        match feature {
            Feature::LeftEye => self.left.mean(),
            Feature::RightEye => self.right.mean(),
            Feature::Mouth => self.mouth.mean(),
        }
    }

    /// The part of a frame of `bounds` to show for `feature` in a view of
    /// `size`. `None` while the smoothed centre is the origin, which is
    /// what it is before the first observation: that view is left as it is.
    pub fn crop(&self, feature: Feature, size: (u32, u32), bounds: (u32, u32)) -> (r: Option<Rect>)
        requires
            self.wf(),
        ensures
            r == if mean_point(self.samples(feature)) == (0u32, 0u32) {
                None
            } else {
                Some(window(mean_point(self.samples(feature)), size, bounds))
            },
    {
        let c: (u32, u32) = self.centre(feature);
        if c.0 == 0 && c.1 == 0 {
            None
        } else {
            Some(pick(c, size, bounds))
        }
    }
}

} // verus!
