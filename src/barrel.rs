use vstd::prelude::*;

use crate::easing::{bounce_out, bounce_out_spec};
use crate::timer::{
    cumulative, lemma_once_run, lemma_once_timer_fires_once, run, Timer, TimerMode,
};
use crate::units::ONE;

verus! {

/// Length of the falling-in animation: 2.5 s.
pub const SPAWN_ANIMATION_DURATION: u64 = 2_500_000_000;

/// Length of the explosion: 5 s.
pub const EXPLOSION_DURATION: u64 = 5_000_000_000;

/// Capacity charged when a barrel appears, in quarter units (one whole unit).
pub const BARREL_CHARGE: u64 = 4;

/// Number of stacked sprite layers that draw one barrel.
pub const LAYER_COUNT: u64 = 12;

/// Height, in pixels, from which a barrel falls in (the window height).
pub const DROP_HEIGHT: u64 = 600;

/// Phase shift between neighbouring layers of an exploding barrel, in
/// millionths (0.11).
pub const LAYER_PHASE_STEP: u64 = 110_000;

/// Frequency factor of the explosion jitter.
pub const JITTER_FREQUENCY: u64 = 40;

/// Where a barrel is in its life. Each active phase owns a fresh timer.
#[derive(Clone, Copy, Debug)]
pub enum BarrelState {
    Spawning { timer: Timer },
    Alive { timer: Timer },
    Exploding { timer: Timer },
    Removed,
}

/// One barrel: its position in whole pixels, its rotation in quarter
/// turns, how long it stays alive once it has landed (nanoseconds), and
/// its phase.
#[derive(Clone, Copy, Debug)]
pub struct Barrel {
    pub x: i64,
    pub y: i64,
    pub quarter_turns: u64,
    pub alive_duration: u64,
    pub state: BarrelState,
}

/// Capacity, in quarter units, that a barrel in this phase still holds.
pub open spec fn state_charge(s: BarrelState) -> nat {
    match s {
        BarrelState::Spawning { .. } => 4,
        BarrelState::Alive { .. } => 3,
        BarrelState::Exploding { .. } => 2,
        BarrelState::Removed => 0,
    }
}

/// A timer that is running inside a phase: a `Once` timer of the given
/// duration that has not yet run out.
pub open spec fn running(t: Timer, duration: u64) -> bool {
    &&& t.wf()
    &&& t.mode == TimerMode::Once
    &&& t.duration == duration
    &&& !t.done
}

impl Barrel {
    pub open spec fn wf(self) -> bool {
        match self.state {
            BarrelState::Spawning { timer } => running(timer, SPAWN_ANIMATION_DURATION),
            BarrelState::Alive { timer } => running(timer, self.alive_duration),
            BarrelState::Exploding { timer } => running(timer, EXPLOSION_DURATION),
            BarrelState::Removed => true,
        }
    }

    pub open spec fn charge(self) -> nat {
        state_charge(self.state)
    }

    pub open spec fn is_removed_spec(self) -> bool {
        self.state is Removed
    }

    /// The barrel after a tick of `dt` nanoseconds, and the capacity, in
    /// quarter units, that the tick released. A phase whose timer runs out
    /// hands over to the next one with a fresh timer.
    pub open spec fn advanced(self, dt: u64) -> (Barrel, nat) {
        match self.state {
            BarrelState::Spawning { timer } => {
                let t = timer.ticked(dt);
                if t.just_finished {
                    (
                        Barrel {
                            state: BarrelState::Alive {
                                timer: Timer::fresh(self.alive_duration, TimerMode::Once),
                            },
                            ..self
                        },
                        1,
                    )
                } else {
                    (Barrel { state: BarrelState::Spawning { timer: t }, ..self }, 0)
                }
            },
            BarrelState::Alive { timer } => {
                let t = timer.ticked(dt);
                if t.just_finished {
                    (
                        Barrel {
                            state: BarrelState::Exploding {
                                timer: Timer::fresh(EXPLOSION_DURATION, TimerMode::Once),
                            },
                            ..self
                        },
                        1,
                    )
                } else {
                    (Barrel { state: BarrelState::Alive { timer: t }, ..self }, 0)
                }
            },
            BarrelState::Exploding { timer } => {
                let t = timer.ticked(dt);
                if t.just_finished {
                    (Barrel { state: BarrelState::Removed, ..self }, 2)
                } else {
                    (Barrel { state: BarrelState::Exploding { timer: t }, ..self }, 0)
                }
            },
            BarrelState::Removed => (self, 0),
        }
    }

    /// A barrel that has just appeared and starts falling in.
    pub open spec fn spawned(x: i64, y: i64, quarter_turns: u64, alive_duration: u64) -> Barrel {
        Barrel {
            x,
            y,
            quarter_turns,
            alive_duration,
            state: BarrelState::Spawning {
                timer: Timer::fresh(SPAWN_ANIMATION_DURATION, TimerMode::Once),
            },
        }
    }

    pub fn new(x: i64, y: i64, quarter_turns: u64, alive_duration: u64) -> (r: Barrel)
        ensures
            r == Barrel::spawned(x, y, quarter_turns, alive_duration),
            r.wf(),
    {
        Barrel {
            x,
            y,
            quarter_turns,
            alive_duration,
            state: BarrelState::Spawning {
                timer: Timer::new(SPAWN_ANIMATION_DURATION, TimerMode::Once),
            },
        }
    }

    pub fn is_removed(&self) -> (r: bool)
        ensures
            r == self.is_removed_spec(),
    {
        match self.state {
            BarrelState::Removed => true,
            _ => false,
        }
    }

    /// Advances the barrel's phase by `dt` nanoseconds and returns the
    /// capacity, in quarter units, released by a phase change.
    pub fn advance(&mut self, dt: u64) -> (released: u64)
        requires
            old(self).wf(),
        ensures
            (*final(self), released as nat) == old(self).advanced(dt),
            final(self).wf(),
            final(self).charge() + released == old(self).charge(),
    {
        match self.state {
            BarrelState::Spawning { timer } => {
                let mut t = timer;
                t.tick(dt);
                if t.finished() {
                    self.state = BarrelState::Alive {
                        timer: Timer::new(self.alive_duration, TimerMode::Once),
                    };
                    1
                } else {
                    self.state = BarrelState::Spawning { timer: t };
                    0
                }
            },
            BarrelState::Alive { timer } => {
                let mut t = timer;
                t.tick(dt);
                if t.finished() {
                    self.state = BarrelState::Exploding {
                        timer: Timer::new(EXPLOSION_DURATION, TimerMode::Once),
                    };
                    1
                } else {
                    self.state = BarrelState::Alive { timer: t };
                    0
                }
            },
            BarrelState::Exploding { timer } => {
                let mut t = timer;
                t.tick(dt);
                if t.finished() {
                    self.state = BarrelState::Removed;
                    2
                } else {
                    self.state = BarrelState::Exploding { timer: t };
                    0
                }
            },
            BarrelState::Removed => 0,
        }
    }
}

/// Height above its resting place, in millionths of a pixel, of a falling
/// barrel whose eased progress is `eased` millionths: max(0, H − H·eased).
pub open spec fn drop_height_spec(eased: int) -> int {
    if eased >= ONE {
        0
    } else {
        DROP_HEIGHT * (ONE - eased)
    }
}

pub fn drop_height(eased: u64) -> (r: u64)
    ensures
        r as int == drop_height_spec(eased as int),
{
    if eased >= ONE {
        0
    } else {
        DROP_HEIGHT * (ONE - eased)
    }
}

impl Barrel {
    /// Progress in millionths of the running phase's timer; zero once removed.
    pub open spec fn progress_spec(self) -> int {
        match self.state {
            BarrelState::Spawning { timer } => timer.percent_spec(),
            BarrelState::Alive { timer } => timer.percent_spec(),
            BarrelState::Exploding { timer } => timer.percent_spec(),
            BarrelState::Removed => 0,
        }
    }

    /// How far, in millionths of a pixel, the layers still hang above their
    /// resting place: the bounce-out fall while spawning, zero otherwise.
    pub open spec fn lift_spec(self) -> int {
        match self.state {
            BarrelState::Spawning { timer } => drop_height_spec(
                bounce_out_spec(timer.percent_spec()),
            ),
            _ => 0,
        }
    }

    /// Scale of the shadow in millionths: it grows with the eased fall,
    /// stays whole while alive, and swells to 2.5 while exploding.
    pub open spec fn shadow_scale_spec(self) -> int {
        match self.state {
            BarrelState::Spawning { timer } => bounce_out_spec(timer.percent_spec()),
            BarrelState::Alive { .. } => ONE as int,
            BarrelState::Exploding { timer } => ONE + timer.percent_spec() * 3 / 2,
            BarrelState::Removed => 0,
        }
    }

    /// Scale of every layer in millionths before its jitter: it grows by a
    /// quarter over the explosion and is whole otherwise.
    pub open spec fn layer_scale_spec(self) -> int {
        match self.state {
            BarrelState::Exploding { timer } => ONE + timer.percent_spec() / 4,
            _ => ONE as int,
        }
    }

    /// While exploding, the angle in millionths of a radian whose sine
    /// shakes layer `layer`: (progress + layer · 0.11) · 40.
    pub open spec fn jitter_phase_spec(self, layer: u64) -> Option<int> {
        match self.state {
            BarrelState::Exploding { timer } => Some(
                (timer.percent_spec() + layer * LAYER_PHASE_STEP) * JITTER_FREQUENCY,
            ),
            _ => None,
        }
    }

    pub fn progress(&self) -> (r: u64)
        requires
            self.wf(),
        ensures
            r as int == self.progress_spec(),
            r <= ONE,
    {
        match self.state {
            BarrelState::Spawning { timer } => timer.percent(),
            BarrelState::Alive { timer } => timer.percent(),
            BarrelState::Exploding { timer } => timer.percent(),
            BarrelState::Removed => 0,
        }
    }

    pub fn lift(&self) -> (r: u64)
        requires
            self.wf(),
        ensures
            r as int == self.lift_spec(),
    {
        match self.state {
            BarrelState::Spawning { timer } => drop_height(bounce_out(timer.percent())),
            _ => 0,
        }
    }

    pub fn shadow_scale(&self) -> (r: u64)
        requires
            self.wf(),
        ensures
            r as int == self.shadow_scale_spec(),
    {
        match self.state {
            BarrelState::Spawning { timer } => bounce_out(timer.percent()),
            BarrelState::Alive { .. } => ONE,
            BarrelState::Exploding { timer } => ONE + timer.percent() * 3 / 2,
            BarrelState::Removed => 0,
        }
    }

    pub fn layer_scale(&self) -> (r: u64)
        requires
            self.wf(),
        ensures
            r as int == self.layer_scale_spec(),
    {
        match self.state {
            BarrelState::Exploding { timer } => ONE + timer.percent() / 4,
            _ => ONE,
        }
    }

    pub fn jitter_phase(&self, layer: u64) -> (r: Option<u64>)
        requires
            self.wf(),
            layer < LAYER_COUNT,
        ensures
            r matches Some(v) ==> self.jitter_phase_spec(layer) == Some(v as int),
            r is None ==> self.jitter_phase_spec(layer) is None,
    {
        match self.state {
            BarrelState::Exploding { timer } => Some(
                (timer.percent() + layer * LAYER_PHASE_STEP) * JITTER_FREQUENCY,
            ),
            _ => None,
        }
    }
}

/// The barrel after the first `n` ticks of `dts`.
pub open spec fn barrel_run(b: Barrel, dts: Seq<u64>, n: nat) -> Barrel
    decreases n,
{
    if n == 0 {
        b
    } else {
        barrel_run(b, dts, (n - 1) as nat).advanced(dts[n - 1]).0
    }
}

/// Capacity, in quarter units, released over the first `n` ticks of `dts`.
pub open spec fn barrel_released(b: Barrel, dts: Seq<u64>, n: nat) -> nat
    decreases n,
{
    if n == 0 {
        0
    } else {
        barrel_released(b, dts, (n - 1) as nat) + barrel_run(b, dts, (n - 1) as nat).advanced(
            dts[n - 1],
        ).1
    }
}

proof fn lemma_advanced_keeps_charge(b: Barrel, dt: u64)
    requires
        b.wf(),
    ensures
        b.advanced(dt).0.wf(),
        b.advanced(dt).0.charge() + b.advanced(dt).1 == b.charge(),
{
}

/// Whatever the ticks, the capacity a new barrel has released plus the
/// capacity it still holds is one whole barrel (0.25 on landing, 0.25 on
/// starting to explode, 0.5 on removal); so a barrel that has reached
/// `Removed` has given back exactly the `BARREL_CHARGE` charged at spawn.
pub proof fn lemma_lifecycle_releases_charge(
    x: i64,
    y: i64,
    quarter_turns: u64,
    alive_duration: u64,
    dts: Seq<u64>,
    n: nat,
)
    requires
        n <= dts.len(),
    ensures
        ({
            let b = Barrel::spawned(x, y, quarter_turns, alive_duration);
            &&& barrel_released(b, dts, n) + barrel_run(b, dts, n).charge() == BARREL_CHARGE
            &&& barrel_run(b, dts, n).is_removed_spec() ==> barrel_released(b, dts, n)
                == BARREL_CHARGE
        }),
{
    let b = Barrel::spawned(x, y, quarter_turns, alive_duration);
    lemma_run_wf(b, dts, n);
}

proof fn lemma_run_wf(b: Barrel, dts: Seq<u64>, n: nat)
    requires
        b.wf(),
        n <= dts.len(),
    ensures
        barrel_run(b, dts, n).wf(),
        barrel_released(b, dts, n) + barrel_run(b, dts, n).charge() == b.charge(),
    decreases n,
{
    if n > 0 {
        lemma_run_wf(b, dts, (n - 1) as nat);
        lemma_advanced_keeps_charge(barrel_run(b, dts, (n - 1) as nat), dts[n - 1]);
    }
}

/// Place of a phase in the lifecycle.
pub open spec fn phase_index(s: BarrelState) -> nat {
    match s {
        BarrelState::Spawning { .. } => 0,
        BarrelState::Alive { .. } => 1,
        BarrelState::Exploding { .. } => 2,
        BarrelState::Removed => 3,
    }
}

/// The timer of a running phase (a stopped zero timer once removed).
pub open spec fn phase_timer(s: BarrelState) -> Timer {
    match s {
        BarrelState::Spawning { timer } => timer,
        BarrelState::Alive { timer } => timer,
        BarrelState::Exploding { timer } => timer,
        BarrelState::Removed => Timer::fresh(0, TimerMode::Once),
    }
}

/// Tick `i` of `dts` (counting from zero) takes the barrel out of the phase
/// it started in.
pub open spec fn leaves_phase(b: Barrel, dts: Seq<u64>, i: nat) -> bool {
    &&& phase_index(barrel_run(b, dts, i).state) == phase_index(b.state)
    &&& phase_index(barrel_run(b, dts, i + 1).state) != phase_index(b.state)
}

proof fn lemma_phase_follows_timer(b: Barrel, dts: Seq<u64>, n: nat)
    requires
        b.wf(),
        !b.is_removed_spec(),
        phase_timer(b.state) == Timer::fresh(phase_timer(b.state).duration, TimerMode::Once),
        n <= dts.len(),
    ensures
        ({
            let t0 = phase_timer(b.state);
            let c = barrel_run(b, dts, n);
            &&& c.wf()
            &&& phase_index(c.state) >= phase_index(b.state)
            &&& phase_index(c.state) == phase_index(b.state) <==> !run(t0, dts, n).done
            &&& phase_index(c.state) == phase_index(b.state) ==> phase_timer(c.state) == run(
                t0,
                dts,
                n,
            )
        }),
    decreases n,
{
    let t0 = phase_timer(b.state);
    lemma_once_run(t0.duration, dts, n);
    if n > 0 {
        lemma_phase_follows_timer(b, dts, (n - 1) as nat);
        lemma_once_run(t0.duration, dts, (n - 1) as nat);
        lemma_advanced_keeps_charge(barrel_run(b, dts, (n - 1) as nat), dts[n - 1]);
    }
}

/// A phase ends on exactly one tick. A barrel at the start of a phase (its
/// timer fresh: a new barrel, or one that just landed or just began to
/// explode), fed ticks that add up to the phase's length, leaves the phase on
/// the first tick whose cumulative time reaches that length, and on no other.
pub proof fn lemma_phase_ends_once(b: Barrel, dts: Seq<u64>)
    requires
        b.wf(),
        !b.is_removed_spec(),
        phase_timer(b.state) == Timer::fresh(phase_timer(b.state).duration, TimerMode::Once),
        dts.len() > 0,
        cumulative(dts, dts.len()) == phase_timer(b.state).duration,
    ensures
        forall|i: nat|
            i < dts.len() ==> (#[trigger] leaves_phase(b, dts, i) <==> (cumulative(dts, i + 1)
                >= phase_timer(b.state).duration && forall|j: nat|
                j < i ==> #[trigger] cumulative(dts, j + 1) < phase_timer(b.state).duration)),
{
    let t0 = phase_timer(b.state);
    let d = t0.duration;
    lemma_once_timer_fires_once(d, dts);
    assert forall|i: nat| i < dts.len() implies (#[trigger] leaves_phase(b, dts, i) <==> (
    cumulative(dts, i + 1) >= d && forall|j: nat| j < i ==> #[trigger] cumulative(dts, j + 1)
        < d)) by {
        lemma_phase_follows_timer(b, dts, i);
        lemma_phase_follows_timer(b, dts, i + 1);
        lemma_once_run(d, dts, i);
        lemma_once_run(d, dts, i + 1);
        assert(run(Timer::fresh(d, TimerMode::Once), dts, i + 1).just_finished <==> (cumulative(
            dts,
            i + 1,
        ) >= d && forall|j: nat| j < i ==> #[trigger] cumulative(dts, j + 1) < d));
    }
}

} // verus!
