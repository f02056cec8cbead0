use vstd::prelude::*;

use crate::units::ONE;

verus! {

/// Whether a timer stops at its duration or starts over.
#[derive(Clone, Copy, Debug, PartialEq, Eq, Structural)]
pub enum TimerMode {
    Once,
    Repeating,
}

/// A countdown over nanoseconds.
///
/// `done` is the level state of a `Once` timer that has run out;
/// `just_finished` is the edge: it holds only after the tick that
/// completed the countdown (or, for a repeating timer, completed a wrap).
#[derive(Clone, Copy, Debug)]
pub struct Timer {
    pub duration: u64,
    pub elapsed: u64,
    pub mode: TimerMode,
    pub done: bool,
    pub just_finished: bool,
}

impl Timer {
    pub open spec fn wf(self) -> bool {
        &&& self.elapsed <= self.duration
        &&& (self.done ==> self.mode == TimerMode::Once && self.elapsed == self.duration)
        &&& (self.mode == TimerMode::Repeating && self.duration > 0 ==> self.elapsed < self.duration)
    }

    /// A fresh timer of the given duration and mode.
    pub open spec fn fresh(duration: u64, mode: TimerMode) -> Timer {
        Timer { duration, elapsed: 0, mode, done: false, just_finished: false }
    }

    /// The timer after one tick of `dt` nanoseconds.
    pub open spec fn ticked(self, dt: u64) -> Timer {
        match self.mode {
            TimerMode::Once => {
                if self.done {
                    Timer { just_finished: false, ..self }
                } else if self.elapsed + dt >= self.duration {
                    Timer { elapsed: self.duration, done: true, just_finished: true, ..self }
                } else {
                    Timer { elapsed: (self.elapsed + dt) as u64, just_finished: false, ..self }
                }
            },
            TimerMode::Repeating => {
                if self.duration == 0 {
                    Timer { just_finished: true, ..self }
                } else {
                    Timer {
                        elapsed: ((self.elapsed + dt) % (self.duration as int)) as u64,
                        just_finished: self.elapsed + dt >= self.duration,
                        ..self
                    }
                }
            },
        }
    }

    /// Progress in millionths: elapsed over duration, and one for a timer
    /// of zero duration.
    pub open spec fn percent_spec(self) -> int {
        if self.duration == 0 {
            ONE as int
        } else {
            self.elapsed * ONE / self.duration as int
        }
    }

    pub fn new(duration: u64, mode: TimerMode) -> (r: Timer)
        ensures
            r == Timer::fresh(duration, mode),
            r.wf(),
    {
        Timer { duration, elapsed: 0, mode, done: false, just_finished: false }
    }

    /// Advances the timer by `dt` nanoseconds: a `Once` timer stops at its
    /// duration, a repeating one wraps around it.
    pub fn tick(&mut self, dt: u64)
        requires
            old(self).wf(),
        ensures
            *final(self) == old(self).ticked(dt),
            final(self).wf(),
    {
        match self.mode {
            TimerMode::Once => {
                if self.done {
                    self.just_finished = false;
                } else if dt >= self.duration - self.elapsed {
                    self.elapsed = self.duration;
                    self.done = true;
                    self.just_finished = true;
                } else {
                    self.elapsed = self.elapsed + dt;
                    self.just_finished = false;
                }
            },
            TimerMode::Repeating => {
                if self.duration == 0 {
                    self.just_finished = true;
                } else {
                    let total: u128 = self.elapsed as u128 + dt as u128;
                    let wrapped: u128 = total % (self.duration as u128);
                    self.just_finished = total >= self.duration as u128;
                    self.elapsed = wrapped as u64;
                }
            },
        }
    }

    /// True exactly after the tick that completed the countdown.
    pub fn finished(&self) -> (r: bool)
        ensures
            r == self.just_finished,
    {
        self.just_finished
    }

    /// Progress in millionths, from zero up to `ONE`.
    pub fn percent(&self) -> (r: u64)
        requires
            self.wf(),
        ensures
            r as int == self.percent_spec(),
            r <= ONE,
    {
        if self.duration == 0 {
            ONE
        } else {
            let scaled: u128 = self.elapsed as u128 * ONE as u128;
            let r: u128 = scaled / self.duration as u128;
            proof {
                assert(self.elapsed * ONE <= self.duration * ONE) by (nonlinear_arith)
                    requires self.elapsed <= self.duration;
                vstd::arithmetic::div_mod::lemma_div_is_ordered(
                    self.elapsed * ONE as int, self.duration * ONE as int, self.duration as int);
                vstd::arithmetic::div_mod::lemma_div_by_multiple(ONE as int, self.duration as int);
                assert(self.duration * ONE as int == ONE * self.duration) by (nonlinear_arith);
            }
            r as u64
        }
    }
}

/// The timer after the first `n` ticks of `dts`.
pub open spec fn run(t: Timer, dts: Seq<u64>, n: nat) -> Timer
    decreases n,
{
    if n == 0 {
        t
    } else {
        run(t, dts, (n - 1) as nat).ticked(dts[n - 1])
    }
}

/// Time accumulated over the first `n` ticks of `dts`.
pub open spec fn cumulative(dts: Seq<u64>, n: nat) -> int
    decreases n,
{
    if n == 0 {
        0
    } else {
        cumulative(dts, (n - 1) as nat) + dts[n - 1]
    }
}

pub proof fn lemma_cumulative_monotone(dts: Seq<u64>, i: nat, j: nat)
    requires
        i <= j,
    ensures
        cumulative(dts, i) <= cumulative(dts, j),
    decreases j,
{
    if i < j {
        lemma_cumulative_monotone(dts, i, (j - 1) as nat);
    }
}

/// State of a fresh `Once` timer after `n` ticks: it has stopped exactly when
/// the ticks add up to its duration, and fired on the tick that got there.
pub proof fn lemma_once_run(duration: u64, dts: Seq<u64>, n: nat)
    requires
        n <= dts.len(),
    ensures
        ({
            let t = run(Timer::fresh(duration, TimerMode::Once), dts, n);
            &&& t.wf()
            &&& t.duration == duration
            &&& t.mode == TimerMode::Once
            &&& t.done == (n > 0 && cumulative(dts, n) >= duration)
            &&& t.elapsed == (if t.done { duration as int } else { cumulative(dts, n) })
            &&& t.just_finished == (n > 0 && cumulative(dts, n) >= duration && (n == 1
                || cumulative(dts, (n - 1) as nat) < duration))
        }),
    decreases n,
{
    if n > 0 {
        lemma_once_run(duration, dts, (n - 1) as nat);
        lemma_cumulative_monotone(dts, (n - 1) as nat, n);
    }
}

/// A `Once` timer ticked through steps that add up to its duration reports
/// `finished` on exactly one tick: the first one whose cumulative time
/// reaches the duration.
pub proof fn lemma_once_timer_fires_once(duration: u64, dts: Seq<u64>)
    requires
        dts.len() > 0,
        cumulative(dts, dts.len()) == duration,
    ensures
        forall|i: nat|
            i < dts.len() ==> ((#[trigger] run(Timer::fresh(duration, TimerMode::Once), dts, i
                + 1)).just_finished <==> (cumulative(dts, i + 1) >= duration && forall|j: nat|
                j < i ==> #[trigger] cumulative(dts, j + 1) < duration)),
        exists|i: nat|
            i < dts.len() && (#[trigger] run(Timer::fresh(duration, TimerMode::Once), dts, i
                + 1)).just_finished,
        forall|i: nat, j: nat|
            i < dts.len() && j < dts.len() && (#[trigger] run(
                Timer::fresh(duration, TimerMode::Once),
                dts,
                i + 1,
            )).just_finished && (#[trigger] run(
                Timer::fresh(duration, TimerMode::Once),
                dts,
                j + 1,
            )).just_finished ==> i == j,
{
    let t0 = Timer::fresh(duration, TimerMode::Once);
    assert forall|i: nat| i < dts.len() implies ((#[trigger] run(t0, dts, i + 1)).just_finished
        <==> (cumulative(dts, i + 1) >= duration && forall|j: nat|
        j < i ==> #[trigger] cumulative(dts, j + 1) < duration)) by {
        lemma_once_run(duration, dts, i + 1);
        if i > 0 {
            assert(cumulative(dts, ((i - 1) as nat) + 1) == cumulative(dts, i));
            assert forall|j: nat| j < i implies #[trigger] cumulative(dts, j + 1) <= cumulative(
                dts,
                i,
            ) by {
                lemma_cumulative_monotone(dts, j + 1, i);
            }
        }
    }
    assert forall|i: nat, j: nat|
        i < dts.len() && j < dts.len() && (#[trigger] run(t0, dts, i + 1)).just_finished
            && (#[trigger] run(t0, dts, j + 1)).just_finished implies i == j by {
        lemma_once_run(duration, dts, i + 1);
        lemma_once_run(duration, dts, j + 1);
        if i < j {
            lemma_cumulative_monotone(dts, i + 1, j);
        } else if j < i {
            lemma_cumulative_monotone(dts, j + 1, i);
        }
    }
    lemma_once_fires_somewhere(duration, dts, (dts.len() - 1) as nat);
    assert(((dts.len() - 1) as nat) + 1 == dts.len());
}

/// Either some tick among the first `k + 1` fired, or the cumulative time
/// after them is still short of the duration.
proof fn lemma_once_fires_somewhere(duration: u64, dts: Seq<u64>, k: nat)
    requires
        k < dts.len(),
        cumulative(dts, k + 1) >= duration,
    ensures
        exists|i: nat|
            i <= k && (#[trigger] run(Timer::fresh(duration, TimerMode::Once), dts, i
                + 1)).just_finished,
    decreases k,
{
    lemma_once_run(duration, dts, k + 1);
    if !run(Timer::fresh(duration, TimerMode::Once), dts, k + 1).just_finished {
        assert(k > 0);
        assert(((k - 1) as nat) + 1 == k);
        lemma_once_fires_somewhere(duration, dts, (k - 1) as nat);
    }
}

} // verus!
