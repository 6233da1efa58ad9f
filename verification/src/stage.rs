//! What the stages of the pipeline decide between two waits: how many
//! versions a consumer missed, which inputs a slower stage works on, and
//! where the presentation loop stands.

use vstd::prelude::*;
use crate::latest::{gap, Token};

verus! {

/// The number of versions that a consumer never saw, when it held `previous`
/// and now receives `current`: `None` where it missed nothing.
pub fn dropped_between(previous: Token, current: Token) -> (missed: Option<usize>)
    ensures
        missed is Some <==> gap(current@, previous@) > 1,
        missed matches Some(n) ==> n == gap(current@, previous@) - 1,
{
    let g: usize = current.gap_since(previous);
    if g > 1 {
        Some(g - 1)
    } else {
        None
    }
}

/// The position within a round of `every` inputs that follows `phase`.
pub open spec fn next_phase(every: nat, phase: nat) -> nat {
    if phase + 1 >= every {
        0
    } else {
        phase + 1
    }
}

/// The position within a round that is reached from `phase` by `inputs`
/// inputs.
pub open spec fn phase_after(every: nat, phase: nat, inputs: nat) -> nat
    decreases inputs,
{
    if inputs == 0 {
        phase
    } else {
        phase_after(every, next_phase(every, phase), (inputs - 1) as nat)
    }
}

/// How many of the next `inputs` inputs a stage works on, when it stands at
/// `phase` within a round of `every` and works on the first input of each
/// round.
pub open spec fn due_count(every: nat, phase: nat, inputs: nat) -> nat
    decreases inputs,
{
    if inputs == 0 {
        0
    } else {
        (if phase == 0 {
            1nat
        } else {
            0nat
        }) + due_count(every, next_phase(every, phase), (inputs - 1) as nat)
    }
}

/// A run of inputs can be counted in two parts.
pub proof fn lemma_due_count_split(every: nat, phase: nat, first: nat, rest: nat)
    ensures
        due_count(every, phase, first + rest) == due_count(every, phase, first) + due_count(
            every,
            phase_after(every, phase, first),
            rest,
        ),
        phase_after(every, phase, first + rest) == phase_after(
            every,
            phase_after(every, phase, first),
            rest,
        ),
    decreases first,
{
    if first > 0 {
        lemma_due_count_split(every, next_phase(every, phase), (first - 1) as nat, rest);
        assert((first + rest - 1) as nat == (first - 1) as nat + rest);
    }
}

/// From a position after the start of a round up to the end of that round
/// nothing is due.
pub proof fn lemma_rest_of_round(every: nat, phase: nat, inputs: nat)
    requires
        0 < phase < every,
        phase + inputs <= every,
    ensures
        due_count(every, phase, inputs) == 0,
        phase_after(every, phase, inputs) == if phase + inputs == every {
            0
        } else {
            phase + inputs
        },
    decreases inputs,
{
    if inputs > 0 {
        let then = next_phase(every, phase);
        if phase + 1 < every {
            lemma_rest_of_round(every, phase + 1, (inputs - 1) as nat);
        } else {
            assert(due_count(every, then, 0) == 0);
            assert(phase_after(every, then, 0) == then);
        }
    }
}

/// Cadence: in any `every` inputs in a row exactly one is due, whatever the
/// position they start at, and the stage is then back at that position.
pub proof fn lemma_one_due_per_round(every: nat, phase: nat)
    requires
        phase < every,
    ensures
        due_count(every, phase, every) == 1,
        phase_after(every, phase, every) == phase,
{
    let second = next_phase(every, 0);
    if phase == 0 {
        if every > 1 {
            lemma_rest_of_round(every, 1, (every - 1) as nat);
        } else {
            assert(due_count(every, second, 0) == 0);
            assert(phase_after(every, second, 0) == second);
        }
        assert(due_count(every, 0, every) == 1 + due_count(every, second, (every - 1) as nat));
        assert(phase_after(every, 0, every) == phase_after(every, second, (every - 1) as nat));
    } else {
        let to_end = (every - phase) as nat;
        lemma_rest_of_round(every, phase, to_end);
        lemma_due_count_split(every, phase, to_end, phase);
        if phase > 1 {
            lemma_rest_of_round(every, 1, (phase - 1) as nat);
        } else {
            assert(due_count(every, second, 0) == 0);
            assert(phase_after(every, second, 0) == second);
        }
        assert(due_count(every, 0, phase) == 1 + due_count(every, second, (phase - 1) as nat));
        assert(phase_after(every, 0, phase) == phase_after(every, second, (phase - 1) as nat));
    }
}

/// Cadence over a longer run: of `rounds * every` inputs in a row exactly
/// `rounds` are due. A stage that works on every third of thirty inputs
/// works ten times.
pub proof fn lemma_due_per_rounds(every: nat, phase: nat, rounds: nat)
    requires
        phase < every,
    ensures
        due_count(every, phase, rounds * every) == rounds,
        phase_after(every, phase, rounds * every) == phase,
    decreases rounds,
{
    if rounds > 0 {
        let before = (rounds - 1) as nat;
        lemma_due_per_rounds(every, phase, before);
        lemma_one_due_per_round(every, phase);
        lemma_due_count_split(every, phase, before * every, every);
        assert(before * every + every == rounds * every) by (nonlinear_arith)
            requires
                before + 1 == rounds,
        ;
    } else {
        assert(rounds * every == 0) by (nonlinear_arith)
            requires
                rounds == 0,
        ;
    }
}

/// Lets a stage work on the first of every so many inputs and pass over the
/// others, for which its last output stays in force.
pub struct Cadence {
    every: usize,
    phase: usize,
}

impl Cadence {
    /// The length of a round.
    pub closed spec fn every(&self) -> nat {
        self.every as nat
    }

    /// How many inputs of the current round have gone by.
    pub closed spec fn phase(&self) -> nat {
        self.phase as nat
    }

    /// A round has at least one input, and the position lies within it.
    pub open spec fn wf(&self) -> bool {
        self.phase() < self.every()
    }

    /// A cadence that is due on the next input and then on each `every`-th
    /// after it. `None` for a round of no inputs.
    pub fn new(every: usize) -> (c: Option<Cadence>)
        ensures
            c is Some <==> every > 0,
            c matches Some(cadence) ==> cadence.wf() && cadence.every() == every
                && cadence.phase() == 0,
    {
        if every == 0 {
            None
        } else {
            Some(Cadence { every, phase: 0 })
        }
    }

    /// Counts one input and says whether the stage works on it.
    pub fn tick(&mut self) -> (due: bool)
        requires
            old(self).wf(),
        ensures
            due == (old(self).phase() == 0),
            final(self).wf(),
            final(self).every() == old(self).every(),
            final(self).phase() == next_phase(old(self).every(), old(self).phase()),
    {
        let due: bool = self.phase == 0;
        if self.phase + 1 >= self.every {
            self.phase = 0;
        } else {
            self.phase = self.phase + 1;
        }
        due
    }
}

/// What a consumer learns when a new version reaches it.
#[derive(Copy, Clone, Debug, PartialEq, Eq, Structural)]
pub struct Intake {
    /// The number of versions between the last one it received and this
    /// one, none of which it saw.
    pub missed: usize,
    /// Whether the stage works on this input, or lets its last output stand.
    pub due: bool,
}

/// The place of one consumer in the stream of versions of a mailbox: the
/// token that it received last, and its cadence.
pub struct Follower {
    held: Token,
    cadence: Cadence,
}

impl Follower {
    /// The version that the consumer received last; zero before the first.
    pub closed spec fn held(&self) -> nat {
        self.held@
    }

    /// The length of a round of the consumer's cadence.
    pub closed spec fn every(&self) -> nat {
        self.cadence.every()
    }

    /// How many inputs of the current round have gone by.
    pub closed spec fn phase(&self) -> nat {
        self.cadence.phase()
    }

    /// The cadence is well formed.
    pub closed spec fn wf(&self) -> bool {
        self.cadence.wf()
    }

    /// A consumer that has received nothing yet and works on the first of
    /// every `every` inputs. `None` for a round of no inputs.
    pub fn new(every: usize) -> (f: Option<Follower>)
        ensures
            f is Some <==> every > 0,
            f matches Some(follower) ==> follower.wf() && follower.held() == 0 && follower.every()
                == every && follower.phase() == 0,
    {
        match Cadence::new(every) {
            Some(cadence) => Some(Follower { held: Token::default(), cadence }),
            None => None,
        }
    }

    /// The token to wait on: that of the version received last.
    pub fn token(&self) -> (t: Token)
        ensures
            t@ == self.held(),
    {
        self.held
    }

    /// Takes note of the version `current`, which the mailbox handed out
    /// for the token held so far. From now on `current` is the token held.
    pub fn accept(&mut self, current: Token) -> (intake: Intake)
        requires
            old(self).wf(),
        ensures
            final(self).wf(),
            final(self).held() == current@,
            final(self).every() == old(self).every(),
            final(self).phase() == next_phase(old(self).every(), old(self).phase()),
            intake.due == (old(self).phase() == 0),
            intake.missed == if gap(current@, old(self).held()) > 1 {
                gap(current@, old(self).held()) - 1
            } else {
                0
            },
    {
        let missed: usize = match dropped_between(self.held, current) {
            Some(n) => n,
            None => 0,
        };
        self.held = current;
        let due: bool = self.cadence.tick();
        Intake { missed, due }
    }
}

/// Where the presentation loop stands.
#[derive(Copy, Clone, Debug, PartialEq, Eq, Structural)]
pub enum Phase {
    /// No face was seen yet: there is nothing to show but the frame.
    Starting,
    /// A face was seen at least once: the smoothers hold positions.
    Steady,
    /// Quit was asked for, or a window was closed.
    Exiting,
}

impl Phase {
    /// The phase after an iteration in which a stop was asked for (`stop`)
    /// or a face was seen (`seen`). A stop wins; a loop that is exiting
    /// stays so; a face moves a starting loop to steady, and nothing moves
    /// it back.
    pub open spec fn step(self, stop: bool, seen: bool) -> Phase {
        if stop || self == Phase::Exiting {
            Phase::Exiting
        } else if seen || self == Phase::Steady {
            Phase::Steady
        } else {
            Phase::Starting
        }
    }

    /// The order in which the phases follow one another.
    pub open spec fn rank(self) -> nat {
        match self {
            Phase::Starting => 0,
            Phase::Steady => 1,
            Phase::Exiting => 2,
        }
    }

    /// The loop never goes back: each step leaves it where it is or moves
    /// it on, so a loop that left `Starting` does not come back to it, and
    /// one that is exiting stays so.
    pub proof fn lemma_one_way(self, stop: bool, seen: bool)
        ensures
            self.rank() <= self.step(stop, seen).rank(),
            self.step(stop, seen) == Phase::Starting ==> self == Phase::Starting && !stop && !seen,
            self == Phase::Exiting ==> self.step(stop, seen) == Phase::Exiting,
    {
    }

    /// The phase after one iteration of the loop.
    pub fn next(self, stop: bool, seen: bool) -> (after: Phase)
        ensures
            after == self.step(stop, seen),
    {
        if stop {
            Phase::Exiting
        } else {
            match self {
                Phase::Exiting => Phase::Exiting,
                Phase::Steady => Phase::Steady,
                Phase::Starting => if seen {
                    Phase::Steady
                } else {
                    Phase::Starting
                },
            }
        }
    }

    /// Whether the views that follow a face are drawn in this phase.
    pub fn shows_features(self) -> (shown: bool)
        ensures
            shown == (self == Phase::Steady),
    {
        match self {
            Phase::Steady => true,
            _ => false,
        }
    }
}

} // verus!
