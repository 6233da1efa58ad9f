//! A running mean over the last few samples of a signal.

use vstd::prelude::*;

verus! {

/// The sum of the numbers in `samples`.
pub open spec fn sum(samples: Seq<u32>) -> nat
    decreases samples.len(),
{
    if samples.len() == 0 {
        0
    } else {
        sum(samples.drop_last()) + samples.last() as nat
    }
}

/// The mean of `samples`, rounded towards zero; zero where there are none.
pub open spec fn mean_of(samples: Seq<u32>) -> nat {
    if samples.len() == 0 {
        0
    } else {
        sum(samples) / samples.len()
    }
}

/// The horizontal coordinates of `points`.
pub open spec fn xs(points: Seq<(u32, u32)>) -> Seq<u32> {
    points.map_values(|p: (u32, u32)| p.0)
}

/// The vertical coordinates of `points`.
pub open spec fn ys(points: Seq<(u32, u32)>) -> Seq<u32> {
    points.map_values(|p: (u32, u32)| p.1)
}

/// The samples that a smoother of capacity `cap` retains once `sample` joins
/// the retained samples `window`: all of them while there is room, and
/// otherwise all but the oldest.
pub open spec fn slide<T>(window: Seq<T>, cap: nat, sample: T) -> Seq<T> {
    if window.len() < cap {
        window.push(sample)
    } else {
        window.drop_first().push(sample)
    }
}

/// The samples retained after each of `samples` joined `window` in order.
pub open spec fn slide_all<T>(window: Seq<T>, cap: nat, samples: Seq<T>) -> Seq<T>
    decreases samples.len(),
{
    if samples.len() == 0 {
        window
    } else {
        slide(slide_all(window, cap, samples.drop_last()), cap, samples.last())
    }
}

/// The last `cap` of `samples`, or all of them where they are fewer.
pub open spec fn newest<T>(samples: Seq<T>, cap: nat) -> Seq<T> {
    if samples.len() <= cap {
        samples
    } else {
        samples.subrange(samples.len() - cap, samples.len() as int)
    }
}

/// A smoother that starts empty retains exactly the newest samples pushed
/// into it, as many as its capacity allows, oldest first. So it is empty
/// exactly when nothing was pushed.
pub proof fn lemma_retains_newest<T>(cap: nat, samples: Seq<T>)
    requires
        cap > 0,
    ensures
        slide_all(Seq::<T>::empty(), cap, samples) == newest(samples, cap),
        slide_all(Seq::<T>::empty(), cap, samples).len() == 0 <==> samples.len() == 0,
    decreases samples.len(),
{
    if samples.len() > 0 {
        lemma_retains_newest(cap, samples.drop_last());
        assert(slide(newest(samples.drop_last(), cap), cap, samples.last()) =~= newest(
            samples,
            cap,
        ));
    } else {
        assert(newest(samples, cap) =~= Seq::<T>::empty());
    }
}

/// The sum of two runs of samples one after the other is the sum of their
/// sums.
pub proof fn lemma_sum_concat(a: Seq<u32>, b: Seq<u32>)
    ensures
        sum(a + b) == sum(a) + sum(b),
    decreases b.len(),
{
    if b.len() == 0 {
        assert(a + b =~= a);
    } else {
        lemma_sum_concat(a, b.drop_last());
        assert((a + b).drop_last() =~= a + b.drop_last());
    }
}

/// No sample exceeds `u32::MAX`, so neither does a mean.
pub proof fn lemma_sum_bound(samples: Seq<u32>)
    ensures
        sum(samples) <= samples.len() * u32::MAX,
        mean_of(samples) <= u32::MAX,
    decreases samples.len(),
{
    if samples.len() > 0 {
        lemma_sum_bound(samples.drop_last());
        let total = sum(samples) as int;
        let count = samples.len() as int;
        assert(total / count <= u32::MAX) by (nonlinear_arith)
            requires
                0 <= total <= count * u32::MAX,
                count > 0,
        ;
    }
}

/// A sum does not depend on where a round of the samples starts.
pub proof fn lemma_sum_rotate(samples: Seq<u32>, start: int)
    requires
        0 <= start <= samples.len(),
    ensures
        sum(samples.subrange(start, samples.len() as int) + samples.subrange(0, start)) == sum(
            samples,
        ),
{
    let head = samples.subrange(0, start);
    let tail = samples.subrange(start, samples.len() as int);
    lemma_sum_concat(tail, head);
    lemma_sum_concat(head, tail);
    assert(head + tail =~= samples);
}

fn total(samples: &Vec<u32>) -> (t: u128)
    ensures
        t == sum(samples@),
        t <= samples@.len() * u32::MAX,
{
    let n: usize = samples.len();
    let mut t: u128 = 0;
    let mut i: usize = 0;
    while i < n
        invariant
            i <= n,
            n == samples@.len(),
            t == sum(samples@.take(i as int)),
            t <= i * u32::MAX,
        decreases n - i,
    {
        proof {
            assert(samples@.take(i + 1).drop_last() =~= samples@.take(i as int));
        }
        t = t + samples[i] as u128;
        i = i + 1;
    }
    proof {
        assert(samples@.take(n as int) =~= samples@);
    }
    t
}

fn totals(points: &Vec<(u32, u32)>) -> (t: (u128, u128))
    ensures
        t.0 == sum(xs(points@)),
        t.1 == sum(ys(points@)),
        t.0 <= points@.len() * u32::MAX,
        t.1 <= points@.len() * u32::MAX,
{
    let n: usize = points.len();
    let mut tx: u128 = 0;
    let mut ty: u128 = 0;
    let mut i: usize = 0;
    while i < n
        invariant
            i <= n,
            n == points@.len(),
            tx == sum(xs(points@.take(i as int))),
            ty == sum(ys(points@.take(i as int))),
            tx <= i * u32::MAX,
            ty <= i * u32::MAX,
        decreases n - i,
    {
        proof {
            assert(points@.take(i + 1).drop_last() =~= points@.take(i as int));
            assert(xs(points@.take(i + 1)).drop_last() =~= xs(points@.take(i as int)));
            assert(ys(points@.take(i + 1)).drop_last() =~= ys(points@.take(i as int)));
        }
        tx = tx + points[i].0 as u128;
        ty = ty + points[i].1 as u128;
        i = i + 1;
    }
    proof {
        assert(points@.take(n as int) =~= points@);
    }
    (tx, ty)
}

/// Fixed-capacity smoother over the most recent samples.
pub struct Ring<T> {
    buf: Vec<T>,
    cap: usize,
    idx: usize,
}

impl<T> View for Ring<T> {
    type V = Seq<T>;

    /// The retained samples, oldest first.
    closed spec fn view(&self) -> Seq<T> {
        if self.buf.len() < self.cap {
            self.buf@
        } else {
            self.buf@.subrange(self.idx as int, self.buf.len() as int) + self.buf@.subrange(
                0,
                self.idx as int,
            )
        }
    }
}

impl<T> Ring<T> {
    /// The number of samples that the smoother retains at most.
    pub closed spec fn capacity(&self) -> nat {
        self.cap as nat
    }

    /// The slots in use are a prefix of the capacity, and the cursor points
    /// at the slot that the next sample goes to.
    pub closed spec fn wf(&self) -> bool {
        &&& self.buf.len() <= self.cap
        &&& self.buf.len() < self.cap ==> self.idx == self.buf.len()
        &&& self.buf.len() == self.cap ==> (self.idx < self.cap || self.cap == 0)
        &&& self.cap == 0 ==> self.idx == 0
    }

    /// A well-formed smoother never retains more than its capacity.
    pub proof fn lemma_len(&self)
        requires
            self.wf(),
        ensures
            self@.len() <= self.capacity(),
            self.capacity() <= usize::MAX,
    {
    }

    /// An empty smoother that retains up to `cap` samples.
    pub fn with_capacity(cap: usize) -> (ring: Ring<T>)
        ensures
            ring.wf(),
            ring.capacity() == cap,
            ring@ == Seq::<T>::empty(),
    {
        Ring { buf: Vec::new(), cap, idx: 0 }
    }

    /// Records `val`. Once the smoother is full, the oldest sample makes
    /// room for it.
    pub fn push(&mut self, val: T)
        requires
            old(self).wf(),
            old(self).capacity() > 0,
        ensures
            final(self).wf(),
            final(self).capacity() == old(self).capacity(),
            final(self)@ == slide(old(self)@, old(self).capacity(), val),
    {
        if self.buf.len() < self.cap {
            self.buf.push(val);
        } else {
            self.buf.set(self.idx, val);
        }
        self.idx = self.idx + 1;
        if self.idx >= self.cap {
            self.idx = 0;
        }
        assert(self@ =~= slide(old(self)@, old(self).capacity(), val));
    }

    /// Whether no sample was recorded yet.
    pub fn is_empty(&self) -> (empty: bool)
        requires
            self.wf(),
        ensures
            empty == (self@.len() == 0),
    {
        self.buf.len() == 0
    }

    /// The number of retained samples.
    pub fn len(&self) -> (n: usize)
        requires
            self.wf(),
        ensures
            n == self@.len(),
    {
        self.buf.len()
    }

    /// The retained sample at position `i`, counted from the oldest.
    pub fn get(&self, i: usize) -> (sample: &T)
        requires
            self.wf(),
            i < self@.len(),
        ensures
            *sample == self@[i as int],
    {
        if self.buf.len() < self.cap {
            &self.buf[i]
        } else if i < self.buf.len() - self.idx {
            &self.buf[self.idx + i]
        } else {
            &self.buf[i - (self.buf.len() - self.idx)]
        }
    }
}

impl Ring<u32> {
    /// The mean of the retained samples, rounded towards zero. Zero while
    /// the smoother is empty.
    pub fn mean(&self) -> (m: u32)
        requires
            self.wf(),
        ensures
            m == mean_of(self@),
    {
        if self.is_empty() {
            return 0;
        }
        let count: u128 = self.buf.len() as u128;
        let t: u128 = total(&self.buf);
        proof {
            if self.buf.len() == self.cap {
                lemma_sum_rotate(self.buf@, self.idx as int);
            }
            lemma_sum_bound(self@);
        }
        (t / count) as u32
    }
}

impl Ring<(u32, u32)> {
    /// The mean position of the retained points, each coordinate rounded
    /// towards zero. The origin while the smoother is empty.
    pub fn mean(&self) -> (m: (u32, u32))
        requires
            self.wf(),
        ensures
            m.0 == mean_of(xs(self@)),
            m.1 == mean_of(ys(self@)),
    {
        if self.is_empty() {
            return (0, 0);
        }
        let count: u128 = self.buf.len() as u128;
        let t: (u128, u128) = totals(&self.buf);
        proof {
            if self.buf.len() == self.cap {
                let at = self.idx as int;
                let len = self.buf.len() as int;
                lemma_sum_rotate(xs(self.buf@), at);
                lemma_sum_rotate(ys(self.buf@), at);
                assert(xs(self@) =~= xs(self.buf@).subrange(at, len) + xs(self.buf@).subrange(
                    0,
                    at,
                ));
                assert(ys(self@) =~= ys(self.buf@).subrange(at, len) + ys(self.buf@).subrange(
                    0,
                    at,
                ));
            }
            lemma_sum_bound(xs(self@));
            lemma_sum_bound(ys(self@));
        }
        ((t.0 / count) as u32, (t.1 / count) as u32)
    }
}

} // verus!
