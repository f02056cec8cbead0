use bevy_turborand::GlobalRng;
use oxi_car::particle::{ParticleDraw, Particles, Point3, PARTICLE_LIFE};
use oxi_car::score::ScoreKeeper;
use oxi_car::shake::{CameraShake, SHAKE_AMPLITUDE};
use oxi_car::units::ONE;

const MS: u64 = 1_000_000;
const FRAME: u64 = 16_666_667;

#[test]
fn shake_lasts_as_long_as_the_longest_impulse_then_relaxes() {
    let dt = 10 * MS;
    let mut cam = CameraShake::new();
    cam.tick(dt, &vec![1000 * MS, 2000 * MS]);
    let mut t = dt;
    while !cam.queue.is_empty() {
        assert!(t <= 2000 * MS + dt, "still shaking at {} ns", t);
        cam.tick(dt, &vec![]);
        t += dt;
    }
    assert!(t + dt >= 2000 * MS, "stopped early at {} ns", t);
    for _ in 0..100 {
        cam.tick(dt, &vec![]);
    }
    assert_eq!(cam.offset, 0);
}

#[test]
fn shake_queue_drops_expired_impulses_and_counts_down() {
    let mut cam = CameraShake::new();
    cam.tick(100 * MS, &vec![150 * MS, 300 * MS]);
    assert_eq!(cam.queue, vec![50 * MS, 200 * MS]);
    cam.tick(100 * MS, &vec![]);
    assert_eq!(cam.queue, vec![0, 100 * MS]);
    cam.tick(100 * MS, &vec![]);
    assert_eq!(cam.queue, vec![0]);
    cam.tick(100 * MS, &vec![]);
    assert!(cam.queue.is_empty());
}

#[test]
fn shake_moves_toward_target_and_flips_on_arrival() {
    let mut cam = CameraShake::new();
    cam.tick(10 * MS, &vec![10_000 * MS]);
    // 130 px/s for 10 ms is 1.3 px toward +7 px.
    assert_eq!(cam.offset, 1_300_000);
    assert!(cam.positive);
    for _ in 0..4 {
        cam.tick(10 * MS, &vec![]);
    }
    assert_eq!(cam.offset, 6_500_000);
    cam.tick(1 * MS, &vec![]);
    cam.tick(2 * MS, &vec![]);
    assert_eq!(cam.offset, 6_890_000);
    cam.tick(0, &vec![]);
    assert_eq!(cam.offset, SHAKE_AMPLITUDE);
    assert!(!cam.positive);
    cam.tick(10 * MS, &vec![]);
    assert_eq!(cam.offset, SHAKE_AMPLITUDE - 1_300_000);
}

#[test]
fn idle_camera_stays_at_centre() {
    let mut cam = CameraShake::new();
    for _ in 0..10 {
        cam.tick(FRAME, &vec![]);
        assert_eq!(cam.offset, 0);
    }
}

#[test]
fn burst_yields_twenty_to_twenty_nine_particles_that_live_half_a_second() {
    for seed in 0..20 {
        let mut rng = GlobalRng::with_seed(seed);
        let mut pool = Particles::new();
        let n = pool.emit(Point3 { x: 0, y: 0, z: 0 }, &mut rng);
        assert!((20..30).contains(&n));
        assert_eq!(pool.particles.len(), n);
        pool.update(0);
        assert_eq!(pool.particles.len(), n);
        for _ in 0..4 {
            pool.update(100 * MS);
        }
        assert_eq!(pool.particles.len(), n);
        pool.update(99 * MS);
        assert_eq!(pool.particles.len(), n);
        pool.update(1 * MS);
        assert!(pool.particles.is_empty());
    }
}

#[test]
fn bursts_differ_in_size_and_shape() {
    let mut rng = GlobalRng::with_seed(5);
    let mut sizes = Vec::new();
    let mut pool = Particles::new();
    for _ in 0..10 {
        sizes.push(pool.emit(Point3 { x: 0, y: 0, z: 0 }, &mut rng));
    }
    assert!(sizes.iter().any(|&n| n != 20));
    let first = pool.particles[0];
    assert!(pool.particles.iter().any(|p| p.origin != first.origin || p.vx != first.vx));
    for p in &pool.particles {
        assert!(-16 * (ONE as i64) <= p.origin.x && p.origin.x < 16 * ONE as i64);
        assert!(14 * (ONE as i64) <= p.origin.z && p.origin.z < 46 * ONE as i64);
        assert!(150 * (ONE as i64) <= p.vy && p.vy < 250 * ONE as i64);
    }
}

#[test]
fn burst_places_particles_from_draws() {
    let mut pool = Particles::new();
    let at = Point3 { x: 5 * ONE as i64, y: -3 * ONE as i64, z: 0 };
    let draw = ParticleDraw { dx: 1, dy: 2, dz: -3, vx: -100 * ONE as i64, vy: 200 * ONE as i64 };
    pool.burst(at, &vec![draw, draw]);
    assert_eq!(pool.particles.len(), 2);
    let p = pool.particles[1];
    assert_eq!(p.origin, Point3 { x: 5 * ONE as i64 + 1, y: -3 * ONE as i64 + 2, z: 30 * ONE as i64 - 3 });
    assert_eq!(p.timer.duration, PARTICLE_LIFE);
    pool.update(250 * MS);
    let moved = pool.particles[0].position();
    assert_eq!(moved.x, 5 * ONE as i64 + 1 - 25 * ONE as i64);
    assert_eq!(moved.y, -3 * ONE as i64 + 2 + 50 * ONE as i64);
    assert_eq!(moved.z, 30 * ONE as i64 - 3);
}

#[test]
fn score_grows_once_per_second() {
    let mut s = ScoreKeeper::new();
    assert_eq!(s.tick(600 * MS), None);
    assert_eq!(s.tick(400 * MS), Some(1));
    assert_eq!(s.tick(999 * MS), None);
    assert_eq!(s.tick(2500 * MS), Some(2));
    assert_eq!(s.score, 2);
    assert_eq!(s.timer.elapsed, 499 * MS);
}

#[test]
fn camera_takes_the_longest_tick() {
    let mut cam = CameraShake::new();
    cam.tick(u64::MAX, &vec![u64::MAX]);
    assert_eq!(cam.queue, vec![0]);
    assert_eq!(cam.offset, SHAKE_AMPLITUDE);
    cam.tick(u64::MAX, &vec![]);
    assert!(cam.queue.is_empty());
    assert_eq!(cam.offset, 0);
}

#[test]
fn camera_settles_at_centre_from_an_uneven_offset() {
    let mut cam = CameraShake::new();
    cam.tick(3 * MS, &vec![3 * MS]);
    assert_eq!(cam.offset, 390_000);
    let mut ticks = 0;
    while cam.offset != 0 {
        cam.tick(FRAME, &vec![]);
        ticks += 1;
        assert!(ticks <= 3, "not settled after {} ticks", ticks);
    }
    for _ in 0..100 {
        cam.tick(FRAME, &vec![]);
        assert_eq!(cam.offset, 0);
    }
}

#[test]
fn camera_swings_from_side_to_side_at_frame_rate() {
    let mut cam = CameraShake::new();
    cam.tick(FRAME, &vec![10_000 * MS]);
    let mut reached = Vec::new();
    for _ in 0..200 {
        cam.tick(FRAME, &vec![]);
        assert!(cam.offset.abs() <= SHAKE_AMPLITUDE);
        if cam.offset.abs() == SHAKE_AMPLITUDE && reached.last() != Some(&cam.offset) {
            reached.push(cam.offset);
        }
    }
    assert!(reached.len() >= 4, "swings: {:?}", reached);
    for pair in reached.windows(2) {
        assert_eq!(pair[0], -pair[1]);
    }
}
