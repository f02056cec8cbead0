use bevy_turborand::GlobalRng;
use oxi_car::barrel::{drop_height, Barrel, BarrelState, DROP_HEIGHT};
use oxi_car::manager::{BarrelManager, BarrelPlan, DEFAULT_DIFFICULTY, SPAWN_MIN_DELAY};
use oxi_car::rng::{draw_plan, draw_spawn_jitter};
use oxi_car::units::ONE;

const MS: u64 = 1_000_000;

fn plan(alive_ms: u64) -> BarrelPlan {
    BarrelPlan { x: 10, y: -20, quarter_turns: 1, alive_duration: alive_ms * MS }
}

fn phase(b: &Barrel) -> &'static str {
    match b.state {
        BarrelState::Spawning { .. } => "spawning",
        BarrelState::Alive { .. } => "alive",
        BarrelState::Exploding { .. } => "exploding",
        BarrelState::Removed => "removed",
    }
}

#[test]
fn barrel_lifecycle_releases_one_whole_barrel() {
    let mut b = Barrel::new(0, 0, 0, 3000 * MS);
    let mut released = Vec::new();
    let mut phases = Vec::new();
    while !b.is_removed() {
        let r = b.advance(500 * MS);
        if r > 0 {
            released.push(r);
            phases.push(phase(&b));
        }
    }
    assert_eq!(released, vec![1, 1, 2]);
    assert_eq!(released.iter().sum::<u64>(), 4);
    assert_eq!(phases, vec!["alive", "exploding", "removed"]);
}

#[test]
fn barrel_with_zero_alive_time_explodes_on_the_next_tick() {
    let mut b = Barrel::new(0, 0, 0, 0);
    assert_eq!(b.advance(2500 * MS), 1);
    assert_eq!(phase(&b), "alive");
    assert_eq!(b.advance(0), 1);
    assert_eq!(phase(&b), "exploding");
}

#[test]
fn barrel_spawned_at_zero_is_removed_at_ten_and_a_half_seconds() {
    let mut m = BarrelManager::new(DEFAULT_DIFFICULTY);
    let before = m.count;
    m.spawn(plan(3000));
    assert_eq!(m.count, before + 4);
    let mut t = 0;
    while !m.barrels.is_empty() {
        m.update(500 * MS);
        t += 500 * MS;
        if t < 10_500 * MS {
            assert_eq!(m.barrels.len(), 1, "gone early at {} ms", t / MS);
            assert!(m.count > before);
        }
    }
    assert_eq!(t, 10_500 * MS);
    assert_eq!(m.count, before);
}

#[test]
fn capacity_steps_down_by_quarters() {
    let mut m = BarrelManager::new(DEFAULT_DIFFICULTY);
    m.spawn(plan(1000));
    assert_eq!(m.count, 4);
    assert_eq!(m.update(2500 * MS), 1);
    assert_eq!(m.count, 3);
    assert_eq!(m.update(1000 * MS), 1);
    assert_eq!(m.count, 2);
    assert_eq!(m.update(5000 * MS), 2);
    assert_eq!(m.count, 0);
    assert!(m.barrels.is_empty());
}

#[test]
fn scheduler_spawns_when_its_timer_runs_out() {
    let mut m = BarrelManager::new(DEFAULT_DIFFICULTY);
    assert!(!m.schedule(300 * MS, 0, plan(1000)));
    assert!(m.schedule(100 * MS, 250 * MS, plan(1000)));
    assert_eq!(m.count, 4);
    assert_eq!(m.barrels.len(), 1);
    assert_eq!(m.barrels[0].x, 10);
    assert_eq!(m.spawn_timer.duration, SPAWN_MIN_DELAY + 250 * MS);
    assert_eq!(m.spawn_timer.elapsed, 0);
}

#[test]
fn scheduler_spawns_at_most_once_per_tick() {
    let mut m = BarrelManager::new(DEFAULT_DIFFICULTY);
    assert!(m.schedule(60_000 * MS, 0, plan(1000)));
    assert_eq!(m.barrels.len(), 1);
    assert_eq!(m.count, 4);
}

#[test]
fn scheduler_never_spawns_with_zero_difficulty() {
    let mut m = BarrelManager::new(0);
    for _ in 0..100 {
        assert!(!m.tick(400 * MS, 0, plan(1000)));
    }
    assert!(m.barrels.is_empty());
    assert_eq!(m.count, 0);
}

#[test]
fn scheduler_stops_at_the_difficulty() {
    let mut m = BarrelManager::new(2);
    let mut spawned = 0;
    for _ in 0..10 {
        if m.schedule(400 * MS, 0, plan(1000)) {
            spawned += 1;
        }
    }
    assert_eq!(spawned, 2);
    assert_eq!(m.count, 8);
}

#[test]
fn scheduler_checks_fractional_capacity() {
    let mut m = BarrelManager::new(1);
    m.spawn(plan(60_000));
    m.update(2500 * MS);
    assert_eq!(m.count, 3);
    assert!(m.schedule(400 * MS, 0, plan(1000)));
    assert_eq!(m.count, 7);
}

#[test]
fn falling_barrel_lift_and_shadow_follow_bounce_out() {
    let mut b = Barrel::new(0, 0, 0, 1000 * MS);
    assert_eq!(b.lift(), DROP_HEIGHT * ONE);
    assert_eq!(b.shadow_scale(), 0);
    b.advance(1250 * MS);
    assert_eq!(b.progress(), 500_000);
    assert_eq!(b.shadow_scale(), 718_750);
    assert_eq!(b.lift(), 600 * (ONE - 718_750));
    assert_eq!(b.layer_scale(), ONE);
    assert_eq!(b.jitter_phase(3), None);
}

#[test]
fn landed_barrel_rests_with_whole_shadow() {
    let mut b = Barrel::new(0, 0, 0, 1000 * MS);
    b.advance(2500 * MS);
    assert_eq!(b.lift(), 0);
    assert_eq!(b.shadow_scale(), ONE);
}

#[test]
fn exploding_barrel_grows_and_shakes() {
    let mut b = Barrel::new(0, 0, 0, 0);
    b.advance(2500 * MS);
    b.advance(0);
    assert_eq!(b.jitter_phase(1), Some(110_000 * 40));
    b.advance(2500 * MS);
    assert_eq!(b.progress(), 500_000);
    assert_eq!(b.layer_scale(), ONE + 125_000);
    assert_eq!(b.shadow_scale(), ONE + 750_000);
    assert_eq!(b.jitter_phase(2), Some((500_000 + 220_000) * 40));
}

#[test]
fn drop_height_is_clamped_at_zero() {
    assert_eq!(drop_height(0), 600 * ONE);
    assert_eq!(drop_height(250_000), 450 * ONE);
    assert_eq!(drop_height(ONE), 0);
    assert_eq!(drop_height(ONE + 5), 0);
}

#[test]
fn drawn_plans_cover_the_screen_and_stay_on_it() {
    let mut rng = GlobalRng::with_seed(7);
    let plans: Vec<BarrelPlan> = (0..64).map(|_| draw_plan(&mut rng)).collect();
    for p in &plans {
        assert!(-384 <= p.x && p.x <= 384);
        assert!(-284 <= p.y && p.y <= 284);
        assert!(p.quarter_turns < 4);
        assert!(p.alive_duration < 10_000 * MS);
    }
    assert!(plans.iter().any(|p| p.x != -384));
    assert!(plans.iter().any(|p| p.y != -284));
    assert!(plans.iter().any(|p| p.quarter_turns != 0));
    assert!(plans.iter().any(|p| p.alive_duration != 0));
}

#[test]
fn drawn_jitter_stays_under_a_second() {
    let mut rng = GlobalRng::with_seed(11);
    let draws: Vec<u64> = (0..32).map(|_| draw_spawn_jitter(&mut rng)).collect();
    assert!(draws.iter().all(|&j| j < 1000 * MS));
    assert!(draws.iter().any(|&j| j != 0));
}

#[test]
fn random_ticks_keep_capacity_consistent() {
    let mut rng = GlobalRng::with_seed(3);
    let mut m = BarrelManager::new(DEFAULT_DIFFICULTY);
    let mut spawned = 0;
    for _ in 0..2000 {
        if m.tick_random(16 * MS, &mut rng) {
            spawned += 1;
        }
        assert!(m.count <= 4 * DEFAULT_DIFFICULTY as u64 + 4);
    }
    assert!(spawned > 0);
}

#[test]
fn scheduler_decides_once_over_ticks_that_fill_its_delay() {
    let mut m = BarrelManager::new(0);
    let mut decided = Vec::new();
    for dt in [100 * MS, 300 * MS, 0, 0] {
        let before = m.spawn_timer;
        m.schedule(dt, 500 * MS, plan(1000));
        decided.push(m.spawn_timer.duration != before.duration);
    }
    assert_eq!(decided, vec![false, true, false, false]);
    assert_eq!(m.spawn_timer.duration, SPAWN_MIN_DELAY + 500 * MS);
    assert_eq!(m.spawn_timer.elapsed, 0);
}

#[test]
fn random_schedule_spawns_valid_barrels() {
    let mut rng = GlobalRng::with_seed(9);
    let mut m = BarrelManager::new(DEFAULT_DIFFICULTY);
    assert!(!m.schedule_random(100 * MS, &mut rng));
    assert!(m.schedule_random(300 * MS, &mut rng));
    assert_eq!(m.count, 4);
    let d = m.spawn_timer.duration;
    assert!(SPAWN_MIN_DELAY <= d && d < SPAWN_MIN_DELAY + 1000 * MS);
    assert!(m.barrels[0].x.abs() <= 384 && m.barrels[0].y.abs() <= 284);
}
