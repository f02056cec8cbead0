use bevy_turborand::GlobalRng;
use vstd::prelude::*;

use crate::barrel::{Barrel, BARREL_CHARGE};
use crate::rng::{draw_plan, draw_spawn_jitter};
use crate::timer::{
    cumulative, lemma_cumulative_monotone, lemma_once_timer_fires_once, run, Timer, TimerMode,
};

verus! {

/// Shortest wait between two spawn decisions: 0.4 s.
pub const SPAWN_MIN_DELAY: u64 = 400_000_000;

/// Bound (exclusive) of the random extra wait added to each spawn delay: 1 s.
pub const SPAWN_JITTER_LIMIT: u64 = 1_000_000_000;

/// Capacity, in whole barrels, that the scheduler fills at most.
pub const DEFAULT_DIFFICULTY: u32 = 4;

/// Largest horizontal distance of a new barrel from the centre, in pixels.
pub const SPAWN_X_LIMIT: i64 = 384;

/// Largest vertical distance of a new barrel from the centre, in pixels.
pub const SPAWN_Y_LIMIT: i64 = 284;

/// Bound (exclusive) of a barrel's random alive time: 10 s.
pub const ALIVE_DURATION_LIMIT: u64 = 10_000_000_000;

/// The random choices behind one new barrel.
#[derive(Clone, Copy, Debug, PartialEq, Eq, Structural)]
pub struct BarrelPlan {
    pub x: i64,
    pub y: i64,
    pub quarter_turns: u64,
    pub alive_duration: u64,
}

impl BarrelPlan {
    /// The plan stays on screen, picks one of the four right angles, and an
    /// alive time under ten seconds.
    pub open spec fn valid(self) -> bool {
        &&& -SPAWN_X_LIMIT <= self.x <= SPAWN_X_LIMIT
        &&& -SPAWN_Y_LIMIT <= self.y <= SPAWN_Y_LIMIT
        &&& self.quarter_turns < 4
        &&& self.alive_duration < ALIVE_DURATION_LIMIT
    }

    pub open spec fn barrel(self) -> Barrel {
        Barrel::spawned(self.x, self.y, self.quarter_turns, self.alive_duration)
    }
}

/// Capacity, in quarter units, held by all barrels of `s`.
pub open spec fn total_charge(s: Seq<Barrel>) -> nat
    decreases s.len(),
{
    if s.len() == 0 {
        0
    } else {
        total_charge(s.drop_last()) + s.last().charge()
    }
}

/// The barrels of `s` after a tick of `dt`, those removed left out, in order.
pub open spec fn survivors(s: Seq<Barrel>, dt: u64) -> Seq<Barrel>
    decreases s.len(),
{
    if s.len() == 0 {
        Seq::empty()
    } else {
        let rest = survivors(s.drop_last(), dt);
        let b = s.last().advanced(dt).0;
        if b.is_removed_spec() {
            rest
        } else {
            rest.push(b)
        }
    }
}

/// Capacity, in quarter units, released by the barrels of `s` in a tick of `dt`.
pub open spec fn released_by(s: Seq<Barrel>, dt: u64) -> nat
    decreases s.len(),
{
    if s.len() == 0 {
        0
    } else {
        released_by(s.drop_last(), dt) + s.last().advanced(dt).1
    }
}

/// Every barrel is well formed and still on the field.
pub open spec fn all_live(s: Seq<Barrel>) -> bool {
    forall|i: int| 0 <= i < s.len() ==> (#[trigger] s[i]).wf() && !s[i].is_removed_spec()
}

proof fn lemma_survivors(s: Seq<Barrel>, dt: u64)
    requires
        all_live(s),
    ensures
        all_live(survivors(s, dt)),
        total_charge(survivors(s, dt)) + released_by(s, dt) == total_charge(s),
    decreases s.len(),
{
    if s.len() > 0 {
        let t = s.drop_last();
        assert forall|i: int| 0 <= i < t.len() implies (#[trigger] t[i]).wf()
            && !t[i].is_removed_spec() by {
            assert(t[i] == s[i]);
        }
        lemma_survivors(t, dt);
        assert(s.last() == s[s.len() - 1]);
        let rest = survivors(t, dt);
        let b = s.last().advanced(dt).0;
        if !b.is_removed_spec() {
            let r = rest.push(b);
            assert(r.drop_last() =~= rest);
            assert forall|i: int| 0 <= i < r.len() implies (#[trigger] r[i]).wf()
                && !r[i].is_removed_spec() by {
                if i < rest.len() {
                    assert(r[i] == rest[i]);
                }
            }
        }
    }
}

/// Owns the barrels on the field, the capacity they hold and the spawn
/// scheduler. `count` is the capacity in quarter units; `difficulty` is the
/// capacity, in whole barrels, above which nothing spawns.
pub struct BarrelManager {
    pub difficulty: u32,
    pub spawn_timer: Timer,
    pub barrels: Vec<Barrel>,
    pub count: u64,
}

impl BarrelManager {
    pub open spec fn wf(&self) -> bool {
        &&& self.spawn_timer.wf()
        &&& self.spawn_timer.mode == TimerMode::Once
        &&& !self.spawn_timer.done
        &&& all_live(self.barrels@)
        &&& self.count == total_charge(self.barrels@)
    }

    /// Capacity, in quarter units, at which the scheduler stops spawning.
    pub open spec fn limit(&self) -> int {
        BARREL_CHARGE * self.difficulty
    }

    pub fn new(difficulty: u32) -> (r: BarrelManager)
        ensures
            r.wf(),
            r.difficulty == difficulty,
            r.spawn_timer == Timer::fresh(SPAWN_MIN_DELAY, TimerMode::Once),
            r.barrels@ == Seq::<Barrel>::empty(),
            r.count == 0,
    {
        BarrelManager {
            difficulty,
            spawn_timer: Timer::new(SPAWN_MIN_DELAY, TimerMode::Once),
            barrels: Vec::new(),
            count: 0,
        }
    }

    /// Puts a new barrel on the field and charges one whole barrel of capacity.
    pub fn spawn(&mut self, plan: BarrelPlan)
        requires
            old(self).wf(),
            old(self).count <= u64::MAX - BARREL_CHARGE,
        ensures
            final(self).wf(),
            final(self).barrels@ == old(self).barrels@.push(plan.barrel()),
            final(self).count == old(self).count + BARREL_CHARGE,
            final(self).difficulty == old(self).difficulty,
            final(self).spawn_timer == old(self).spawn_timer,
    {
        let b = Barrel::new(plan.x, plan.y, plan.quarter_turns, plan.alive_duration);
        let ghost before = self.barrels@;
        self.barrels.push(b);
        self.count = self.count + BARREL_CHARGE;
        proof {
            assert(self.barrels@.drop_last() =~= before);
            assert forall|i: int| 0 <= i < self.barrels@.len() implies (
            #[trigger] self.barrels@[i]).wf() && !self.barrels@[i].is_removed_spec() by {
                if i < before.len() {
                    assert(self.barrels@[i] == before[i]);
                }
            }
        }
    }

    /// The spawn decision of one tick: the spawn timer advances by `dt`; when
    /// it runs out it is re-armed for `SPAWN_MIN_DELAY + jitter`, and a barrel
    /// following `plan` spawns if the capacity in use is below the limit.
    /// At most one barrel spawns per tick, however long the tick.
    pub fn schedule(&mut self, dt: u64, jitter: u64, plan: BarrelPlan) -> (spawned: bool)
        requires
            old(self).wf(),
            jitter < SPAWN_JITTER_LIMIT,
        ensures
            final(self).wf(),
            final(self).difficulty == old(self).difficulty,
            final(self).spawn_timer == next_spawn_timer(old(self).spawn_timer, dt, jitter),
            spawned == (old(self).spawn_timer.ticked(dt).just_finished && old(self).count
                < old(self).limit()),
            old(self).count >= old(self).limit() ==> !spawned,
            spawned ==> final(self).barrels@ == old(self).barrels@.push(plan.barrel())
                && final(self).count == old(self).count + BARREL_CHARGE,
            !spawned ==> final(self).barrels@ == old(self).barrels@ && final(self).count == old(
                self,
            ).count,
    {
        self.spawn_timer.tick(dt);
        if self.spawn_timer.finished() {
            self.spawn_timer = Timer::new(SPAWN_MIN_DELAY + jitter, TimerMode::Once);
            if self.count < BARREL_CHARGE * self.difficulty as u64 {
                self.spawn(plan);
                return true;
            }
        }
        false
    }

    /// Advances every barrel by `dt`, drops those that reached `Removed`,
    /// and gives back the capacity released; returns that capacity in
    /// quarter units.
    pub fn update(&mut self, dt: u64) -> (released: u64)
        requires
            old(self).wf(),
        ensures
            final(self).wf(),
            final(self).barrels@ == survivors(old(self).barrels@, dt),
            released == released_by(old(self).barrels@, dt),
            final(self).count == old(self).count - released,
            final(self).difficulty == old(self).difficulty,
            final(self).spawn_timer == old(self).spawn_timer,
    {
        let ghost old_barrels = self.barrels@;
        let n = self.barrels.len();
        let mut kept: Vec<Barrel> = Vec::new();
        let mut released: u64 = 0;
        let mut i: usize = 0;
        proof {
            assert(old_barrels.take(0) =~= Seq::<Barrel>::empty());
            lemma_survivors(old_barrels, dt);
        }
        while i < n
            invariant
                n == self.barrels@.len(),
                self.barrels@ == old_barrels,
                all_live(old_barrels),
                self.count == total_charge(old_barrels),
                0 <= i <= n,
                kept@ == survivors(old_barrels.take(i as int), dt),
                released == released_by(old_barrels.take(i as int), dt),
                all_live(kept@),
                total_charge(kept@) + released == total_charge(old_barrels.take(i as int)),
                total_charge(old_barrels.take(i as int)) <= total_charge(old_barrels),
            decreases n - i,
        {
            let mut b = self.barrels[i];
            let ghost prefix = old_barrels.take(i as int);
            let ghost next = old_barrels.take(i + 1);
            proof {
                assert(next.drop_last() =~= prefix);
                assert(next.last() == old_barrels[i as int]);
                lemma_survivors(next, dt);
                lemma_prefix_charge(old_barrels, i + 1);
            }
            let r = b.advance(dt);
            released = released + r;
            if !b.is_removed() {
                kept.push(b);
            }
            i = i + 1;
        }
        proof {
            assert(old_barrels.take(n as int) =~= old_barrels);
        }
        self.barrels = kept;
        self.count = self.count - released;
        released
    }

    /// One tick of the field: the barrels already there advance by `dt`,
    /// then the scheduler decides; a barrel spawned now starts advancing on
    /// the next tick.
    pub fn tick(&mut self, dt: u64, jitter: u64, plan: BarrelPlan) -> (spawned: bool)
        requires
            old(self).wf(),
            jitter < SPAWN_JITTER_LIMIT,
        ensures
            final(self).wf(),
            final(self).difficulty == old(self).difficulty,
            final(self).spawn_timer == next_spawn_timer(old(self).spawn_timer, dt, jitter),
            spawned == (old(self).spawn_timer.ticked(dt).just_finished && old(self).count
                - released_by(old(self).barrels@, dt) < old(self).limit()),
            spawned ==> final(self).barrels@ == survivors(old(self).barrels@, dt).push(
                plan.barrel(),
            ) && final(self).count == old(self).count - released_by(old(self).barrels@, dt)
                + BARREL_CHARGE,
            !spawned ==> final(self).barrels@ == survivors(old(self).barrels@, dt)
                && final(self).count == old(self).count - released_by(old(self).barrels@, dt),
    {
        self.update(dt);
        self.schedule(dt, jitter, plan)
    }

    /// `schedule` with the spawn delay's jitter and the new barrel's plan
    /// drawn from `rng`, each only when it is needed: whatever was drawn, the
    /// jitter is under a second and the plan is valid.
    pub fn schedule_random(&mut self, dt: u64, rng: &mut GlobalRng) -> (spawned: bool)
        requires
            old(self).wf(),
        ensures
            final(self).wf(),
            final(self).difficulty == old(self).difficulty,
            old(self).spawn_timer.ticked(dt).just_finished ==> final(self).spawn_timer
                == Timer::fresh(final(self).spawn_timer.duration, TimerMode::Once)
                && SPAWN_MIN_DELAY <= final(self).spawn_timer.duration < SPAWN_MIN_DELAY
                + SPAWN_JITTER_LIMIT,
            !old(self).spawn_timer.ticked(dt).just_finished ==> final(self).spawn_timer == old(
                self,
            ).spawn_timer.ticked(dt),
            spawned == (old(self).spawn_timer.ticked(dt).just_finished && old(self).count < old(
                self,
            ).limit()),
            spawned ==> exists|plan: BarrelPlan|
                plan.valid() && final(self).barrels@ == old(self).barrels@.push(plan.barrel()),
            spawned ==> final(self).count == old(self).count + BARREL_CHARGE,
            !spawned ==> final(self).barrels@ == old(self).barrels@ && final(self).count == old(
                self,
            ).count,
    {
        self.spawn_timer.tick(dt);
        if self.spawn_timer.finished() {
            let jitter = draw_spawn_jitter(rng);
            self.spawn_timer = Timer::new(SPAWN_MIN_DELAY + jitter, TimerMode::Once);
            if self.count < BARREL_CHARGE * self.difficulty as u64 {
                let plan = draw_plan(rng);
                self.spawn(plan);
                return true;
            }
        }
        false
    }

    /// `update`, then `schedule_random`: `tick` with the random choices
    /// drawn from `rng` when the spawn timer runs out.
    pub fn tick_random(&mut self, dt: u64, rng: &mut GlobalRng) -> (spawned: bool)
        requires
            old(self).wf(),
        ensures
            final(self).wf(),
            final(self).difficulty == old(self).difficulty,
            old(self).spawn_timer.ticked(dt).just_finished ==> final(self).spawn_timer
                == Timer::fresh(final(self).spawn_timer.duration, TimerMode::Once)
                && SPAWN_MIN_DELAY <= final(self).spawn_timer.duration < SPAWN_MIN_DELAY
                + SPAWN_JITTER_LIMIT,
            !old(self).spawn_timer.ticked(dt).just_finished ==> final(self).spawn_timer == old(
                self,
            ).spawn_timer.ticked(dt),
            spawned == (old(self).spawn_timer.ticked(dt).just_finished && old(self).count
                - released_by(old(self).barrels@, dt) < old(self).limit()),
            spawned ==> exists|plan: BarrelPlan|
                plan.valid() && final(self).barrels@ == survivors(old(self).barrels@, dt).push(
                    plan.barrel(),
                ),
            spawned ==> final(self).count == old(self).count - released_by(old(self).barrels@, dt)
                + BARREL_CHARGE,
            !spawned ==> final(self).barrels@ == survivors(old(self).barrels@, dt)
                && final(self).count == old(self).count - released_by(old(self).barrels@, dt),
    {
        self.update(dt);
        self.schedule_random(dt, rng)
    }
}

proof fn lemma_prefix_charge(s: Seq<Barrel>, k: int)
    requires
        0 <= k <= s.len(),
    ensures
        total_charge(s.take(k)) <= total_charge(s),
    decreases s.len() - k,
{
    if k < s.len() {
        lemma_prefix_charge(s, k + 1);
        assert(s.take(k + 1).drop_last() =~= s.take(k));
    } else {
        assert(s.take(k) =~= s);
    }
}

/// The spawn timer after one `schedule` call of `dt` with `jitter`.
pub open spec fn next_spawn_timer(t: Timer, dt: u64, jitter: u64) -> Timer {
    if t.ticked(dt).just_finished {
        Timer::fresh((SPAWN_MIN_DELAY + jitter) as u64, TimerMode::Once)
    } else {
        t.ticked(dt)
    }
}

/// The spawn timer after the first `n` `schedule` calls of `dts` and `jitters`.
pub open spec fn spawn_timer_run(t: Timer, dts: Seq<u64>, jitters: Seq<u64>, n: nat) -> Timer
    decreases n,
{
    if n == 0 {
        t
    } else {
        next_spawn_timer(spawn_timer_run(t, dts, jitters, (n - 1) as nat), dts[n - 1], jitters[n - 1])
    }
}

/// Call `i` (counting from zero) takes a spawn decision: its spawn timer runs out.
pub open spec fn decides(t: Timer, dts: Seq<u64>, jitters: Seq<u64>, i: nat) -> bool {
    spawn_timer_run(t, dts, jitters, i).ticked(dts[i as int]).just_finished
}

proof fn lemma_spawn_run_before(d: u64, dts: Seq<u64>, jitters: Seq<u64>, n: nat)
    requires
        n <= dts.len(),
        forall|j: nat|
            j < n ==> !(#[trigger] run(Timer::fresh(d, TimerMode::Once), dts, j + 1)).just_finished,
    ensures
        spawn_timer_run(Timer::fresh(d, TimerMode::Once), dts, jitters, n) == run(
            Timer::fresh(d, TimerMode::Once),
            dts,
            n,
        ),
    decreases n,
{
    if n > 0 {
        lemma_spawn_run_before(d, dts, jitters, (n - 1) as nat);
        assert(((n - 1) as nat) + 1 == n);
        assert(!run(Timer::fresh(d, TimerMode::Once), dts, ((n - 1) as nat) + 1).just_finished);
    }
}

proof fn lemma_spawn_run_after(d: u64, dts: Seq<u64>, jitters: Seq<u64>, first: nat, n: nat)
    requires
        first < n <= dts.len(),
        jitters.len() == dts.len(),
        forall|i: int| 0 <= i < jitters.len() ==> #[trigger] jitters[i] < SPAWN_JITTER_LIMIT,
        cumulative(dts, dts.len()) == d,
        cumulative(dts, first + 1) >= d,
        spawn_timer_run(Timer::fresh(d, TimerMode::Once), dts, jitters, first) == run(
            Timer::fresh(d, TimerMode::Once),
            dts,
            first,
        ),
        run(Timer::fresh(d, TimerMode::Once), dts, first + 1).just_finished,
    ensures
        ({
            let t = spawn_timer_run(Timer::fresh(d, TimerMode::Once), dts, jitters, n);
            &&& t.mode == TimerMode::Once
            &&& t.elapsed == 0
            &&& !t.done
            &&& t.duration >= SPAWN_MIN_DELAY
        }),
        n < dts.len() ==> !decides(Timer::fresh(d, TimerMode::Once), dts, jitters, n),
    decreases n,
{
    let t0 = Timer::fresh(d, TimerMode::Once);
    if n > first + 1 {
        lemma_spawn_run_after(d, dts, jitters, first, (n - 1) as nat);
        lemma_cumulative_monotone(dts, first + 1, (n - 1) as nat);
        lemma_cumulative_monotone(dts, n, dts.len());
    } else {
        assert(run(t0, dts, first + 1) == run(t0, dts, first).ticked(dts[first as int]));
        assert(jitters[first as int] < SPAWN_JITTER_LIMIT);
    }
    if n < dts.len() {
        lemma_cumulative_monotone(dts, first + 1, n);
        lemma_cumulative_monotone(dts, n + 1, dts.len());
    }
}

/// The scheduler takes its spawn decision on exactly one call. Starting from
/// a fresh spawn timer of length `d`, over calls whose ticks add up to `d`,
/// the timer runs out on the first call whose cumulative time reaches `d`,
/// and on no other: only there is it re-armed, and only there can a barrel
/// spawn.
pub proof fn lemma_spawn_decision_once(d: u64, dts: Seq<u64>, jitters: Seq<u64>)
    requires
        dts.len() > 0,
        jitters.len() == dts.len(),
        forall|i: int| 0 <= i < jitters.len() ==> #[trigger] jitters[i] < SPAWN_JITTER_LIMIT,
        cumulative(dts, dts.len()) == d,
    ensures
        forall|i: nat|
            i < dts.len() ==> (#[trigger] decides(Timer::fresh(d, TimerMode::Once), dts, jitters, i)
                <==> (cumulative(dts, i + 1) >= d && forall|j: nat|
                j < i ==> #[trigger] cumulative(dts, j + 1) < d)),
{
    let t0 = Timer::fresh(d, TimerMode::Once);
    lemma_once_timer_fires_once(d, dts);
    let first = choose|i: nat| i < dts.len() && (#[trigger] run(t0, dts, i + 1)).just_finished;
    assert forall|i: nat| i < dts.len() implies (#[trigger] decides(t0, dts, jitters, i) <==> (
    cumulative(dts, i + 1) >= d && forall|j: nat| j < i ==> #[trigger] cumulative(dts, j + 1)
        < d)) by {
        if i <= first {
            assert forall|j: nat| j < i implies !(#[trigger] run(t0, dts, j + 1)).just_finished by {
                if run(t0, dts, j + 1).just_finished {
                    assert(j == first);
                }
            }
            lemma_spawn_run_before(d, dts, jitters, i);
            assert(run(t0, dts, i + 1) == run(t0, dts, i).ticked(dts[i as int]));
        } else {
            assert forall|j: nat| j < first implies !(#[trigger] run(t0, dts, j + 1)).just_finished by {
                if run(t0, dts, j + 1).just_finished {
                    assert(j == first);
                }
            }
            lemma_spawn_run_before(d, dts, jitters, first);
            lemma_spawn_run_after(d, dts, jitters, first, i);
            assert(cumulative(dts, first + 1) >= d);
        }
    }
}

} // verus!
