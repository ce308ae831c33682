use capsule_pulse::duration::Duration;
use capsule_pulse::reminder::{ReminderConfig, ReminderFire};

fn config() -> ReminderConfig {
    ReminderConfig::from_minutes(50)
}

fn mins(n: u64) -> Duration {
    Duration::from_secs(n * 60)
}

#[test]
fn fires_exactly_at_threshold() {
    let mut fire = ReminderFire::default();
    assert!(!fire.evaluate(mins(49), &config()));
    assert!(fire.evaluate(mins(50), &config()));
    assert_eq!(fire.last_fired(), Some(mins(50)));
}

#[test]
fn repeat_respects_five_minute_interval() {
    let mut fire = ReminderFire::default();
    assert!(fire.evaluate(mins(50), &config()));
    assert!(!fire.evaluate(mins(54), &config()));
    assert!(fire.evaluate(mins(55), &config()));
    assert!(!fire.evaluate(mins(59), &config()));
    assert!(fire.evaluate(mins(60), &config()));
}

#[test]
fn clear_resets_for_new_segment() {
    let mut fire = ReminderFire::default();
    assert!(fire.evaluate(mins(50), &config()));
    fire.clear();
    assert_eq!(fire.last_fired(), None);
    assert!(!fire.evaluate(mins(49), &config()));
    assert!(fire.evaluate(mins(50), &config()));
}

#[test]
fn stale_fire_point_never_underflows() {
    let mut fire = ReminderFire::default();
    assert!(fire.evaluate(mins(50), &config()));
    assert!(!fire.evaluate(mins(10), &config()));
    assert!(!fire.evaluate(mins(50), &config()));
    assert!(fire.evaluate(mins(55), &config()));
}

// ---- further cases: edges, laws and exact values ----

#[test]
fn config_from_minutes_values() {
    let c = ReminderConfig::from_minutes(30);
    assert_eq!(c.threshold, Duration::from_secs(1_800));
    assert_eq!(c.repeat, Duration::from_secs(300));
}

#[test]
fn quiet_evaluation_keeps_firing_point() {
    let mut fire = ReminderFire::default();
    assert!(fire.evaluate(mins(50), &config()));
    assert!(!fire.evaluate(mins(52), &config()));
    assert_eq!(fire.last_fired(), Some(mins(50)));
}
