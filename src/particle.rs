use bevy_turborand::GlobalRng;
use vstd::prelude::*;

use crate::rng::draw_burst;

use crate::timer::{cumulative, lemma_once_run, run, Timer, TimerMode};
use crate::units::NANOS_PER_SECOND;

verus! {

/// Lifetime of a fire particle: 0.5 s.
pub const PARTICLE_LIFE: u64 = 500_000_000;

/// Fewest particles in one burst.
pub const BURST_MIN: usize = 20;

/// Bound (exclusive) of the number of particles in one burst.
pub const BURST_LIMIT: usize = 30;

/// Half the side of the cube particles start in, in millionths of a pixel
/// (half a 32 px tile).
pub const SPREAD: i64 = 16_000_000;

/// How far above the burst the cube sits in depth: 30 px.
pub const DEPTH_LIFT: i64 = 30_000_000;

/// Bound on the horizontal speed: 150 px/s, in millionths of a pixel per second.
pub const SIDE_SPEED: i64 = 150_000_000;

/// Slowest upward speed: 150 px/s.
pub const RISE_MIN: i64 = 150_000_000;

/// Bound (exclusive) of the upward speed: 250 px/s.
pub const RISE_LIMIT: i64 = 250_000_000;

/// Bound on the coordinates of a burst, in millionths of a pixel.
pub const COORD_LIMIT: i64 = 4_000_000_000_000_000_000;

/// A point in millionths of a pixel.
#[derive(Clone, Copy, Debug, PartialEq, Eq, Structural)]
pub struct Point3 {
    pub x: i64,
    pub y: i64,
    pub z: i64,
}

impl Point3 {
    pub open spec fn in_bounds(self) -> bool {
        &&& -COORD_LIMIT <= self.x <= COORD_LIMIT
        &&& -COORD_LIMIT <= self.y <= COORD_LIMIT
        &&& -COORD_LIMIT <= self.z <= COORD_LIMIT
    }
}

/// The random choices behind one particle: its offset from the burst and
/// its velocity, in millionths of a pixel (per second).
#[derive(Clone, Copy, Debug, PartialEq, Eq, Structural)]
pub struct ParticleDraw {
    pub dx: i64,
    pub dy: i64,
    pub dz: i64,
    pub vx: i64,
    pub vy: i64,
}

impl ParticleDraw {
    /// Offsets within the cube around the burst; a horizontal speed under
    /// 150 px/s either way and an upward speed from 150 up to 250 px/s.
    pub open spec fn valid(self) -> bool {
        &&& -SPREAD <= self.dx < SPREAD
        &&& -SPREAD <= self.dy < SPREAD
        &&& -SPREAD <= self.dz < SPREAD
        &&& -SIDE_SPEED <= self.vx < SIDE_SPEED
        &&& RISE_MIN <= self.vy < RISE_LIMIT
    }

    /// The particle that this draw makes at a burst at `at`.
    pub open spec fn particle(self, at: Point3) -> Particle {
        Particle {
            origin: Point3 {
                x: (at.x + self.dx) as i64,
                y: (at.y + self.dy) as i64,
                z: (at.z + self.dz + DEPTH_LIFT) as i64,
            },
            vx: self.vx,
            vy: self.vy,
            timer: Timer::fresh(PARTICLE_LIFE, TimerMode::Once),
        }
    }
}

/// A short-lived fire particle: where it started, its velocity, and the
/// timer of its life.
#[derive(Clone, Copy, Debug)]
pub struct Particle {
    pub origin: Point3,
    pub vx: i64,
    pub vy: i64,
    pub timer: Timer,
}

/// Distance covered at speed `v` over `e` nanoseconds, rounded toward zero.
pub open spec fn travelled(v: int, e: int) -> int {
    if v >= 0 {
        v * e / NANOS_PER_SECOND as int
    } else {
        -((-v) * e / NANOS_PER_SECOND as int)
    }
}

impl Particle {
    pub open spec fn wf(self) -> bool {
        &&& self.timer.wf()
        &&& self.timer.mode == TimerMode::Once
        &&& self.timer.duration == PARTICLE_LIFE
        &&& !self.timer.done
        &&& -SIDE_SPEED <= self.vx < SIDE_SPEED
        &&& RISE_MIN <= self.vy < RISE_LIMIT
        &&& -COORD_LIMIT - SPREAD <= self.origin.x <= COORD_LIMIT + SPREAD
        &&& -COORD_LIMIT - SPREAD <= self.origin.y <= COORD_LIMIT + SPREAD
    }

    /// The particle after a tick of `dt`, or `None` once its life is over.
    pub open spec fn ticked(self, dt: u64) -> Option<Particle> {
        let t = self.timer.ticked(dt);
        if t.just_finished {
            None
        } else {
            Some(Particle { timer: t, ..self })
        }
    }

    /// Where the particle is: its origin moved by its velocity over the time
    /// it has lived.
    pub open spec fn position_spec(self) -> Point3 {
        Point3 {
            x: (self.origin.x + travelled(self.vx as int, self.timer.elapsed as int)) as i64,
            y: (self.origin.y + travelled(self.vy as int, self.timer.elapsed as int)) as i64,
            z: self.origin.z,
        }
    }

    pub fn position(&self) -> (r: Point3)
        requires
            self.wf(),
        ensures
            r == self.position_spec(),
    {
        let dx: i128 = travel(self.vx, self.timer.elapsed);
        let dy: i128 = travel(self.vy, self.timer.elapsed);
        Point3 {
            x: (self.origin.x as i128 + dx) as i64,
            y: (self.origin.y as i128 + dy) as i64,
            z: self.origin.z,
        }
    }
}

fn travel(v: i64, e: u64) -> (r: i128)
    requires
        -RISE_LIMIT <= v <= RISE_LIMIT,
        e <= PARTICLE_LIFE,
    ensures
        r == travelled(v as int, e as int),
        -125_000_000 <= r <= 125_000_000,
{
    proof {
        assert(-125_000_000_000_000_000 <= v * e <= 125_000_000_000_000_000) by (nonlinear_arith)
            requires
                -250_000_000 <= v <= 250_000_000,
                0 <= e <= 500_000_000,
        ;
    }
    if v >= 0 {
        let r: i128 = (v as i128 * e as i128) / NANOS_PER_SECOND as i128;
        proof {
            vstd::arithmetic::div_mod::lemma_div_is_ordered(
                v * e,
                125_000_000_000_000_000,
                1_000_000_000,
            );
        }
        r
    } else {
        proof {
            assert((-v) * e == -(v * e)) by (nonlinear_arith);
        }
        let r: i128 = ((-(v as i128)) * e as i128) / NANOS_PER_SECOND as i128;
        proof {
            vstd::arithmetic::div_mod::lemma_div_is_ordered(
                (-v) * e,
                125_000_000_000_000_000,
                1_000_000_000,
            );
        }
        -r
    }
}

/// The particles of `s` after a tick of `dt`, those whose life ended left
/// out, in order.
pub open spec fn particles_after(s: Seq<Particle>, dt: u64) -> Seq<Particle>
    decreases s.len(),
{
    if s.len() == 0 {
        Seq::empty()
    } else {
        let rest = particles_after(s.drop_last(), dt);
        match s.last().ticked(dt) {
            Some(p) => rest.push(p),
            None => rest,
        }
    }
}

/// The particles that `draws` make at a burst at `at`, in order.
pub open spec fn burst_particles(draws: Seq<ParticleDraw>, at: Point3) -> Seq<Particle>
    decreases draws.len(),
{
    if draws.len() == 0 {
        Seq::empty()
    } else {
        burst_particles(draws.drop_last(), at).push(draws.last().particle(at))
    }
}

pub open spec fn all_wf(s: Seq<Particle>) -> bool {
    forall|i: int| 0 <= i < s.len() ==> (#[trigger] s[i]).wf()
}

/// The pool of live particles, shared by every burst.
pub struct Particles {
    pub particles: Vec<Particle>,
}

impl Particles {
    pub open spec fn wf(&self) -> bool {
        all_wf(self.particles@)
    }

    pub fn new() -> (r: Particles)
        ensures
            r.wf(),
            r.particles@ == Seq::<Particle>::empty(),
    {
        Particles { particles: Vec::new() }
    }

    /// Adds one particle for each draw at a burst at `at`.
    pub fn burst(&mut self, at: Point3, draws: &Vec<ParticleDraw>)
        requires
            old(self).wf(),
            at.in_bounds(),
            forall|i: int| 0 <= i < draws@.len() ==> (#[trigger] draws@[i]).valid(),
        ensures
            final(self).wf(),
            final(self).particles@ == old(self).particles@ + burst_particles(draws@, at),
    {
        let ghost base = self.particles@;
        let n = draws.len();
        let mut i: usize = 0;
        while i < n
            invariant
                n == draws@.len(),
                0 <= i <= n,
                at.in_bounds(),
                forall|k: int| 0 <= k < draws@.len() ==> (#[trigger] draws@[k]).valid(),
                self.particles@ == base + burst_particles(draws@.take(i as int), at),
                all_wf(self.particles@),
            decreases n - i,
        {
            proof {
                assert(draws@.take(i + 1).drop_last() =~= draws@.take(i as int));
            }
            let d = draws[i];
            let p = Particle {
                origin: Point3 { x: at.x + d.dx, y: at.y + d.dy, z: at.z + d.dz + DEPTH_LIFT },
                vx: d.vx,
                vy: d.vy,
                timer: Timer::new(PARTICLE_LIFE, TimerMode::Once),
            };
            let ghost before = self.particles@;
            self.particles.push(p);
            i = i + 1;
            proof {
                assert(self.particles@ =~= base + burst_particles(draws@.take(i as int), at));
                assert forall|k: int| 0 <= k < self.particles@.len() implies (
                #[trigger] self.particles@[k]).wf() by {
                    if k < before.len() {
                        assert(self.particles@[k] == before[k]);
                    }
                }
            }
        }
        proof {
            assert(draws@.take(n as int) =~= draws@);
        }
    }

    /// A burst at `at`: from 20 up to 29 particles with random offsets and
    /// velocities, each at the start of its life. Returns how many were added.
    pub fn emit(&mut self, at: Point3, rng: &mut GlobalRng) -> (count: usize)
        requires
            old(self).wf(),
            at.in_bounds(),
        ensures
            final(self).wf(),
            BURST_MIN <= count < BURST_LIMIT,
            exists|draws: Seq<ParticleDraw>|
                {
                    &&& draws.len() == count
                    &&& forall|i: int| 0 <= i < draws.len() ==> (#[trigger] draws[i]).valid()
                    &&& final(self).particles@ == old(self).particles@ + burst_particles(draws, at)
                },
    {
        let draws = draw_burst(rng);
        self.burst(at, &draws);
        draws.len()
    }

    /// Advances every particle's life by `dt` and drops those whose life
    /// ended on this tick.
    pub fn update(&mut self, dt: u64)
        requires
            old(self).wf(),
        ensures
            final(self).wf(),
            final(self).particles@ == particles_after(old(self).particles@, dt),
    {
        let ghost old_particles = self.particles@;
        let n = self.particles.len();
        let mut kept: Vec<Particle> = Vec::new();
        let mut i: usize = 0;
        while i < n
            invariant
                n == self.particles@.len(),
                self.particles@ == old_particles,
                all_wf(old_particles),
                0 <= i <= n,
                kept@ == particles_after(old_particles.take(i as int), dt),
                all_wf(kept@),
            decreases n - i,
        {
            proof {
                assert(old_particles.take(i + 1).drop_last() =~= old_particles.take(i as int));
            }
            let mut p = self.particles[i];
            p.timer.tick(dt);
            if !p.timer.finished() {
                let ghost before = kept@;
                kept.push(p);
                proof {
                    assert forall|k: int| 0 <= k < kept@.len() implies (#[trigger] kept@[k]).wf() by {
                        if k < before.len() {
                            assert(kept@[k] == before[k]);
                        }
                    }
                }
            }
            i = i + 1;
        }
        proof {
            assert(old_particles.take(n as int) =~= old_particles);
        }
        self.particles = kept;
    }
}

/// The particle after the first `n` ticks of `dts`, or `None` once its life
/// has ended.
pub open spec fn particle_run(p: Particle, dts: Seq<u64>, n: nat) -> Option<Particle>
    decreases n,
{
    if n == 0 {
        Some(p)
    } else {
        match particle_run(p, dts, (n - 1) as nat) {
            Some(q) => q.ticked(dts[n - 1]),
            None => None,
        }
    }
}

proof fn lemma_particle_run_timer(p: Particle, dts: Seq<u64>, n: nat)
    requires
        p.timer == Timer::fresh(PARTICLE_LIFE, TimerMode::Once),
        n <= dts.len(),
    ensures
        particle_run(p, dts, n) is Some <==> !run(p.timer, dts, n).done,
        particle_run(p, dts, n) is Some ==> particle_run(p, dts, n).unwrap().timer == run(
            p.timer,
            dts,
            n,
        ),
    decreases n,
{
    if n > 0 {
        lemma_particle_run_timer(p, dts, (n - 1) as nat);
        lemma_once_run(PARTICLE_LIFE, dts, (n - 1) as nat);
    }
}

/// A particle of a burst stays in the pool exactly while the time it has
/// lived is under `PARTICLE_LIFE`: it is never dropped before any time has
/// passed, and always dropped on the tick that brings it to 0.5 s.
pub proof fn lemma_particle_lifetime(d: ParticleDraw, at: Point3, dts: Seq<u64>, n: nat)
    requires
        n <= dts.len(),
    ensures
        particle_run(d.particle(at), dts, n) is Some <==> cumulative(dts, n) < PARTICLE_LIFE,
{
    lemma_particle_run_timer(d.particle(at), dts, n);
    lemma_once_run(PARTICLE_LIFE, dts, n);
}

} // verus!
