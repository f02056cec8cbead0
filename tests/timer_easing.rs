use interpolation::Ease;
use oxi_car::easing::bounce_out;
use oxi_car::timer::{Timer, TimerMode};
use oxi_car::units::ONE;

const MS: u64 = 1_000_000;

#[test]
fn once_timer_fires_on_the_tick_that_reaches_duration() {
    let mut t = Timer::new(1000 * MS, TimerMode::Once);
    let mut fired = Vec::new();
    for dt in [300 * MS, 300 * MS, 400 * MS, 0, 0] {
        t.tick(dt);
        fired.push(t.finished());
    }
    assert_eq!(fired, vec![false, false, true, false, false]);
    assert_eq!(t.elapsed, 1000 * MS);
}

#[test]
fn once_timer_fires_once_when_a_tick_overshoots() {
    let mut t = Timer::new(1000 * MS, TimerMode::Once);
    t.tick(600 * MS);
    assert!(!t.finished());
    t.tick(700 * MS);
    assert!(t.finished());
    assert_eq!(t.elapsed, 1000 * MS);
    t.tick(700 * MS);
    assert!(!t.finished());
    assert_eq!(t.elapsed, 1000 * MS);
}

#[test]
fn zero_duration_once_timer_fires_on_first_tick() {
    let mut t = Timer::new(0, TimerMode::Once);
    assert!(!t.finished());
    t.tick(0);
    assert!(t.finished());
    t.tick(0);
    assert!(!t.finished());
    assert_eq!(t.percent(), ONE);
}

#[test]
fn repeating_timer_wraps_and_fires() {
    let mut t = Timer::new(1000 * MS, TimerMode::Repeating);
    t.tick(400 * MS);
    assert!(!t.finished());
    t.tick(2100 * MS);
    assert!(t.finished());
    assert_eq!(t.elapsed, 500 * MS);
    t.tick(100 * MS);
    assert!(!t.finished());
    assert_eq!(t.elapsed, 600 * MS);
}

#[test]
fn timer_percent_is_elapsed_over_duration() {
    let mut t = Timer::new(2000 * MS, TimerMode::Once);
    assert_eq!(t.percent(), 0);
    t.tick(500 * MS);
    assert_eq!(t.percent(), 250_000);
    t.tick(5000 * MS);
    assert_eq!(t.percent(), ONE);
}

#[test]
fn bounce_out_starts_at_zero_and_ends_at_one() {
    assert_eq!(bounce_out(0), 0);
    assert_eq!(bounce_out(ONE), ONE);
}

#[test]
fn bounce_out_exact_values() {
    // 121/16 · 0.16 = 1.21
    assert_eq!(bounce_out(200_000), 302_500);
    // 363/40 · 0.25 − 99/10 · 0.5 + 17/5 = 0.71875
    assert_eq!(bounce_out(500_000), 718_750);
    // 54/5 · 0.9025 − 513/25 · 0.95 + 268/25 = 0.973
    assert_eq!(bounce_out(950_000), 973_000);
}

#[test]
fn bounce_out_has_no_jump_at_breakpoints() {
    for (n, d) in [(4u64, 11u64), (8, 11), (9, 10)] {
        let at = n * ONE / d;
        let below = bounce_out(at - 1);
        let above = bounce_out(at + 1);
        assert!(below.abs_diff(above) <= 100, "jump at {}/{}", n, d);
    }
}

#[test]
fn bounce_out_stays_within_unit_range() {
    let mut p = 0;
    while p <= ONE {
        assert!(bounce_out(p) <= ONE);
        p += 997;
    }
}

#[test]
fn bounce_out_matches_the_float_curve() {
    let mut p = 0;
    while p <= ONE {
        let float = (p as f64 / ONE as f64).bounce_out();
        let fixed = bounce_out(p) as f64 / ONE as f64;
        assert!((float - fixed).abs() < 2e-6, "at {}", p);
        p += 1_001;
    }
}

#[test]
fn timers_take_the_longest_tick() {
    let mut once = Timer::new(1000 * MS, TimerMode::Once);
    once.tick(u64::MAX);
    assert!(once.finished());
    assert_eq!(once.elapsed, 1000 * MS);
    let mut repeating = Timer::new(1000 * MS, TimerMode::Repeating);
    repeating.tick(600 * MS);
    repeating.tick(u64::MAX);
    assert!(repeating.finished());
    assert_eq!(repeating.elapsed, 309_551_615);
}
