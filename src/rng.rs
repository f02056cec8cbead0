use bevy_turborand::DelegatedRng;
use bevy_turborand::GlobalRng;
use vstd::prelude::*;

use crate::manager::{
    BarrelPlan, ALIVE_DURATION_LIMIT, SPAWN_JITTER_LIMIT, SPAWN_X_LIMIT, SPAWN_Y_LIMIT,
};
use crate::particle::{
    ParticleDraw, BURST_LIMIT, BURST_MIN, RISE_LIMIT, RISE_MIN, SIDE_SPEED, SPREAD,
};

verus! {

#[verifier::external_type_specification]
#[verifier::external_body]
pub struct ExGlobalRng(GlobalRng);

/// Relies on bevy_turborand's `DelegatedRng::u64` (turborand's
/// `TurboRand::u64`): a value in `lo..hi`; it panics on an empty range.
#[verifier::external_body]
fn random_u64(rng: &mut GlobalRng, lo: u64, hi: u64) -> (r: u64)
    requires
        lo < hi,
    ensures
        lo <= r < hi,
{
    rng.u64(lo..hi)
}

/// Relies on bevy_turborand's `DelegatedRng::i64` (turborand's
/// `TurboRand::i64`): a value in `lo..hi`; it panics on an empty range.
#[verifier::external_body]
fn random_i64(rng: &mut GlobalRng, lo: i64, hi: i64) -> (r: i64)
    requires
        lo < hi,
    ensures
        lo <= r < hi,
{
    rng.i64(lo..hi)
}

/// Relies on bevy_turborand's `DelegatedRng::usize` (turborand's
/// `TurboRand::usize`): a value in `lo..hi`; it panics on an empty range.
#[verifier::external_body]
fn random_usize(rng: &mut GlobalRng, lo: usize, hi: usize) -> (r: usize)
    requires
        lo < hi,
    ensures
        lo <= r < hi,
{
    rng.usize(lo..hi)
}

/// The random part of the next spawn delay, under one second.
pub fn draw_spawn_jitter(rng: &mut GlobalRng) -> (r: u64)
    ensures
        r < SPAWN_JITTER_LIMIT,
{
    random_u64(rng, 0, SPAWN_JITTER_LIMIT)
}

/// A random place, right-angle rotation and alive time for a new barrel.
pub fn draw_plan(rng: &mut GlobalRng) -> (r: BarrelPlan)
    ensures
        r.valid(),
{
    let x = random_i64(rng, -SPAWN_X_LIMIT, SPAWN_X_LIMIT + 1);
    let y = random_i64(rng, -SPAWN_Y_LIMIT, SPAWN_Y_LIMIT + 1);
    let quarter_turns = random_u64(rng, 0, 4);
    let alive_duration = random_u64(rng, 0, ALIVE_DURATION_LIMIT);
    BarrelPlan { x, y, quarter_turns, alive_duration }
}

/// The random choices of one burst: from 20 up to 29 particles, each with
/// its own offset and velocity.
pub fn draw_burst(rng: &mut GlobalRng) -> (r: Vec<ParticleDraw>)
    ensures
        BURST_MIN <= r@.len() < BURST_LIMIT,
        forall|i: int| 0 <= i < r@.len() ==> (#[trigger] r@[i]).valid(),
{
    let n = random_usize(rng, BURST_MIN, BURST_LIMIT);
    let mut draws: Vec<ParticleDraw> = Vec::new();
    let mut i: usize = 0;
    while i < n
        invariant
            BURST_MIN <= n < BURST_LIMIT,
            0 <= i <= n,
            draws@.len() == i,
            forall|k: int| 0 <= k < draws@.len() ==> (#[trigger] draws@[k]).valid(),
        decreases n - i,
    {
        let dx = random_i64(rng, -SPREAD, SPREAD);
        let dy = random_i64(rng, -SPREAD, SPREAD);
        let dz = random_i64(rng, -SPREAD, SPREAD);
        let vx = random_i64(rng, -SIDE_SPEED, SIDE_SPEED);
        let vy = random_i64(rng, RISE_MIN, RISE_LIMIT);
        draws.push(ParticleDraw { dx, dy, dz, vx, vy });
        i = i + 1;
    }
    draws
}

} // verus!
