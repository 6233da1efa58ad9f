//! The mailbox: one slot that holds the newest value and counts its versions.
//!
//! A producer overwrites the slot; consumers ask for the value, or for the
//! value once its version differs from the one they saw last. Values that no
//! consumer picked up before the next one arrived are gone: the slot keeps no
//! history.
//!
//! The type here is the state that a lock guards. Its operations never wait:
//! where a consumer would have to, they answer `None`, and the caller sleeps
//! until the next `put` and asks again.

use vstd::prelude::*;

verus! {

/// The version that follows `version`: one more, and zero after the largest
/// number that a token can hold.
pub open spec fn next_version(version: nat) -> nat {
    if version >= usize::MAX {
        0
    } else {
        version + 1
    }
}

/// The version reached from `version` by `steps` updates.
pub open spec fn advance(version: nat, steps: nat) -> nat
    decreases steps,
{
    if steps == 0 {
        version
    } else {
        next_version(advance(version, (steps - 1) as nat))
    }
}

/// How many updates lead from the version `earlier` to the version `later`,
/// if fewer than a full round of the counter happened between them.
pub open spec fn gap(later: nat, earlier: nat) -> nat {
    if later >= earlier {
        (later - earlier) as nat
    } else {
        (later + usize::MAX + 1 - earlier) as nat
    }
}

/// Identifies one version of a mailbox's value. Tokens can be compared for
/// equality; which of two is the newer one cannot be read from them.
#[derive(Copy, Clone, Debug, PartialEq, Eq, Structural)]
pub struct Token(usize);

impl View for Token {
    type V = nat;

    closed spec fn view(&self) -> nat {
        self.0 as nat
    }
}

impl Default for Token {
    /// The token of a mailbox that nothing was put into yet.
    fn default() -> (t: Token)
        ensures
            t@ == 0,
    {
        Token(0)
    }
}

impl Token {
    /// A token is a machine word, and two tokens are equal exactly when their
    /// versions are.
    pub proof fn lemma_view(self, other: Token)
        ensures
            self@ <= usize::MAX,
            (self == other) <==> (self@ == other@),
    {
    }

    /// The number of updates between the version `earlier` and this one. One
    /// means that nothing was missed; each one more is an update that the
    /// holder of `earlier` never saw.
    pub fn gap_since(self, earlier: Token) -> (g: usize)
        ensures
            g == gap(self@, earlier@),
    {
        if self.0 >= earlier.0 {
            self.0 - earlier.0
        } else {
            usize::MAX - earlier.0 + self.0 + 1
        }
    }
}

/// What a mailbox holds: the version of its value, and the value once there
/// is one.
pub struct State<T> {
    pub version: nat,
    pub value: Option<T>,
}

impl<T> State<T> {
    /// The mailbox before the first `put`.
    pub open spec fn empty() -> State<T> {
        State { version: 0, value: None }
    }

    /// The version fits a token, and only a mailbox that was never written
    /// is without a value.
    pub open spec fn wf(self) -> bool {
        &&& self.version <= usize::MAX
        &&& self.value is None ==> self.version == 0
    }

    /// The mailbox after `value` was put into it.
    pub open spec fn put(self, value: T) -> State<T> {
        State { version: next_version(self.version), value: Some(value) }
    }

    /// The mailbox after each of `values` was put into it, in order.
    pub open spec fn put_all(self, values: Seq<T>) -> State<T>
        decreases values.len(),
    {
        if values.len() == 0 {
            self
        } else {
            self.put_all(values.drop_last()).put(values.last())
        }
    }

    /// There is a value, and its version is not `previous`.
    pub open spec fn changed_from(self, previous: nat) -> bool {
        self.value is Some && self.version != previous
    }
}

/// Counting updates: from a version that fits a token, `steps` updates lead
/// to a version that fits one too, and as long as they are fewer than a full
/// round of the counter, `gap` recovers their number.
pub proof fn lemma_advance_gap(version: nat, steps: nat)
    requires
        version <= usize::MAX,
        steps <= usize::MAX,
    ensures
        advance(version, steps) <= usize::MAX,
        gap(advance(version, steps), version) == steps,
    decreases steps,
{
    if steps > 0 {
        lemma_advance_gap(version, (steps - 1) as nat);
    }
}

impl<T> State<T> {
    /// Every `put` moves to the next version: after a number of them the
    /// version has advanced by that number.
    pub proof fn lemma_put_all_version(self, values: Seq<T>)
        ensures
            self.put_all(values).version == advance(self.version, values.len()),
        decreases values.len(),
    {
        if values.len() > 0 {
            self.lemma_put_all_version(values.drop_last());
        }
    }

    /// A value, once set, is never unset, and a mailbox stays well formed
    /// whatever is put into it.
    pub proof fn lemma_put_all_keeps(self, values: Seq<T>)
        requires
            self.wf(),
        ensures
            self.put_all(values).wf(),
            self.value is Some ==> self.put_all(values).value is Some,
            values.len() > 0 ==> self.put_all(values).value is Some,
        decreases values.len(),
    {
        if values.len() > 0 {
            self.lemma_put_all_keeps(values.drop_last());
        }
    }

    /// No lost final value, and no queue: after any run of `put`s the
    /// mailbox holds the value of the last one, and none of the earlier ones.
    pub proof fn lemma_last_put_wins(self, values: Seq<T>)
        requires
            values.len() > 0,
        ensures
            self.put_all(values).value == Some(values.last()),
    {
    }

    /// Putting `first` and then `rest` is putting them all.
    pub proof fn lemma_put_all_concat(self, first: Seq<T>, rest: Seq<T>)
        ensures
            self.put_all(first).put_all(rest) == self.put_all(first + rest),
        decreases rest.len(),
    {
        if rest.len() == 0 {
            assert(first + rest =~= first);
        } else {
            self.lemma_put_all_concat(first, rest.drop_last());
            assert((first + rest).drop_last() =~= first + rest.drop_last());
            assert((first + rest).last() == rest.last());
        }
    }

    /// A consumer that holds the token of this state and comes back after
    /// one or more `put`s finds a change: a version that differs from its
    /// token, at a gap that is the number of those `put`s, and the value of
    /// the last of them. This holds while fewer `put`s than a full round of
    /// the counter lie between its two visits.
    pub proof fn lemma_consumer_sees_newest(self, values: Seq<T>)
        requires
            self.wf(),
            0 < values.len() <= usize::MAX,
        ensures
            self.put_all(values).changed_from(self.version),
            self.put_all(values).value == Some(values.last()),
            gap(self.put_all(values).version, self.version) == values.len(),
    {
        self.lemma_put_all_version(values);
        lemma_advance_gap(self.version, values.len());
    }

    /// Tokens do not come back: the versions after the first `i` and after
    /// the first `j` of a run of `put`s differ, and their gap is `j - i`,
    /// while fewer `put`s than a full round of the counter lie between them.
    pub proof fn lemma_versions_never_repeat(self, values: Seq<T>, i: int, j: int)
        requires
            self.wf(),
            0 <= i < j <= values.len(),
            j - i <= usize::MAX,
        ensures
            self.put_all(values.take(j)).version != self.put_all(values.take(i)).version,
            gap(self.put_all(values.take(j)).version, self.put_all(values.take(i)).version) == j
                - i,
    {
        let seen = self.put_all(values.take(i));
        let between = values.subrange(i, j);
        assert(values.take(i) + between =~= values.take(j));
        self.lemma_put_all_concat(values.take(i), between);
        self.lemma_put_all_keeps(values.take(i));
        seen.lemma_put_all_version(between);
        lemma_advance_gap(seen.version, between.len());
    }
}

/// The mailbox. It starts empty; `put` replaces the value and moves to the
/// next version; `peek` and `when_changed_from` copy the value out.
pub struct Latest<T> {
    token: Token,
    value: Option<T>,
}

impl<T> View for Latest<T> {
    type V = State<T>;

    closed spec fn view(&self) -> State<T> {
        State { version: self.token@, value: self.value }
    }
}

impl<T> Default for Latest<T> {
    fn default() -> (m: Latest<T>)
        ensures
            m@ == State::<T>::empty(),
    {
        Latest { token: Token(0), value: None }
    }
}

impl<T> Latest<T> {
    /// An empty mailbox.
    pub fn new() -> (m: Latest<T>)
        ensures
            m@ == State::<T>::empty(),
    {
        Latest { token: Token(0), value: None }
    }

    /// The token of the current version.
    pub fn token(&self) -> (t: Token)
        ensures
            t@ == self@.version,
    {
        self.token
    }

    /// Makes `val` the current value under the next version. What was held
    /// before is dropped.
    pub fn put(&mut self, val: T)
        ensures
            final(self)@ == old(self)@.put(val),
            final(self)@.wf(),
    {
        let next: usize = if self.token.0 == usize::MAX {
            0
        } else {
            self.token.0 + 1
        };
        self.token = Token(next);
        self.value = Some(val);
    }
}

impl<T: Clone> Latest<T> {
    /// A copy of the current value, whether or not the caller saw it before.
    /// `None` while nothing was put yet: the caller waits for a `put`.
    pub fn peek(&self) -> (r: Option<T>)
        ensures
            r is Some <==> self@.value is Some,
            r matches Some(v) ==> cloned(self@.value->0, v),
    {
        match &self.value {
            Some(t) => Some(t.clone()),
            None => None,
        }
    }

    /// The current token and a copy of the current value, once the token
    /// differs from `previous`. `None` while there is no value or the token
    /// is still `previous`: the caller waits for a `put`.
    ///
    /// A consumer that hands back the token it got last sees every change of
    /// version at most once, and always the newest value, not each one that
    /// was put in between.
    pub fn when_changed_from(&self, previous: Token) -> (r: Option<(Token, T)>)
        ensures
            r is Some <==> self@.changed_from(previous@),
            r matches Some((t, v)) ==> t != previous && t@ == self@.version && cloned(
                self@.value->0,
                v,
            ),
    {
        match &self.value {
            Some(t) => {
                if self.token != previous {
                    Some((self.token, t.clone()))
                } else {
                    None
                }
            },
            None => None,
        }
    }
}

} // verus!
