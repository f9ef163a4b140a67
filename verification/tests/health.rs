use dack::health::{DutyInfo, HealthRegistry, HealthSnapshot};
use serde_json::Value;

fn duty(id: &str, trigger: &str) -> DutyInfo {
    DutyInfo { id: id.to_string(), trigger: trigger.to_string(), entry: "perceive".to_string() }
}

fn snapshot_value(s: &HealthSnapshot) -> Value {
    let mut secrets = serde_json::Map::new();
    for i in 0..s.secrets.len() {
        let h = s.secrets.value_at(i);
        let mut m = serde_json::Map::new();
        m.insert("consecutive_failures".to_string(), Value::from(h.consecutive_failures));
        m.insert("last_ok".to_string(), Value::from(h.last_ok));
        secrets.insert(s.secrets.key_at(i).clone(), Value::Object(m));
    }
    let mut top = serde_json::Map::new();
    top.insert("secrets".to_string(), Value::Object(secrets));
    top.insert("cycles_ok".to_string(), Value::from(s.cycles_ok));
    top.insert("cycles_err".to_string(), Value::from(s.cycles_err));
    top.insert("booted_at".to_string(), Value::from(s.booted_at));
    Value::Object(top)
}

#[test]
fn secret_health_tracks_failure_streak_and_recovery() {
    let mut reg = HealthRegistry::new(1000);
    reg.record_secret_ok("x", 1000);
    assert!(reg.snapshot().secrets.get("x").unwrap().is_ok());

    reg.record_secret_err("x", "invalid_grant — re-auth needed", 1100);
    reg.record_secret_err("x", "in cooldown 3600s", 1200);
    let snap = reg.snapshot();
    let h = snap.secrets.get("x").unwrap();
    assert_eq!(h.consecutive_failures, 2);
    assert!(!h.is_ok());
    assert_eq!(h.last_error.as_deref(), Some("in cooldown 3600s"));
    assert_eq!(h.last_ok, Some(1000));

    reg.record_secret_ok("x", 1300);
    let snap = reg.snapshot();
    let h = snap.secrets.get("x").unwrap();
    assert_eq!(h.consecutive_failures, 0);
    assert!(h.is_ok());
    assert!(h.last_error.is_none());
}

#[test]
fn stimulus_health_counts_fires_and_errors() {
    let mut reg = HealthRegistry::new(0);
    reg.record_stimulus_fired("twitter-mentions", 10);
    reg.record_stimulus_err("twitter-mentions", "mcp twitter-read: X_BEARER_TOKEN not set");
    reg.record_stimulus_fired("twitter-mentions", 20);
    reg.record_stimulus_err("twitter-mentions", "still dead");
    let snap = reg.snapshot();
    let h = snap.stimuli.get("twitter-mentions").unwrap();
    assert_eq!(h.fire_count, 2);
    assert_eq!(h.error_count, 2);
    assert_eq!(h.consecutive_failures, 2);
    assert!(!h.is_ok());

    reg.record_stimulus_fired("twitter-mentions", 30);
    reg.record_stimulus_ok("twitter-mentions", 31);
    let snap = reg.snapshot();
    let h = snap.stimuli.get("twitter-mentions").unwrap();
    assert_eq!(h.fire_count, 3);
    assert_eq!(h.consecutive_failures, 0);
    assert!(h.is_ok());
}

#[test]
fn cycle_tally_and_snapshot_serializes() {
    let mut reg = HealthRegistry::new(42);
    reg.record_cycle(true);
    reg.record_cycle(true);
    reg.record_cycle(false);
    reg.record_secret_ok("cove_read", 5);
    let snap = reg.snapshot();
    assert_eq!(snap.cycles_ok, 2);
    assert_eq!(snap.cycles_err, 1);
    assert_eq!(snap.booted_at, 42);
    let json = snapshot_value(&snap).to_string();
    assert!(json.contains("\"cove_read\""));
    assert!(json.contains("\"cycles_ok\":2"));
}

#[test]
fn render_flags_failures_and_lists_the_whole_roster() {
    let now = 100_000;
    let mut reg = HealthRegistry::new(now - 3600);
    reg.set_duties(vec![
        duty("twitter-mentions", "cron */2 * * * *"),
        duty("heartbeat", "cron 0 * * * *"),
        duty("ghost-duty", "cron 0 0 30 2 *"),
    ]);
    reg.record_secret_ok("cove_read", now - 200);
    reg.record_secret_err("x", "refresh rejected (invalid_grant) — RE-AUTH NEEDED", now - 50);
    reg.record_stimulus_fired("twitter-mentions", now - 60);
    reg.record_stimulus_err("twitter-mentions", "mcp twitter-read: X_BEARER_TOKEN not set");
    reg.record_stimulus_fired("heartbeat", now - 120);
    reg.record_stimulus_ok("heartbeat", now - 119);

    let out = reg.snapshot().render(now);
    assert!(out.contains("x: FAILING"), "{out}");
    assert!(out.contains("RE-AUTH NEEDED"), "{out}");
    assert!(out.contains("twitter-mentions [cron */2 * * * * → perceive]: FAILING"), "{out}");
    assert!(out.contains("heartbeat [cron 0 * * * * → perceive]: ok"), "{out}");
    assert!(out.contains("ghost-duty") && out.contains("never fired since boot"), "{out}");
    assert!(out.contains("Uptime 1h0m"), "{out}");
}

#[test]
fn render_stays_terse_when_all_green() {
    let now = 500;
    let mut reg = HealthRegistry::new(now - 120);
    reg.set_duties(vec![duty("heartbeat", "cron 0 * * * *")]);
    reg.record_secret_ok("x", now - 10);
    reg.record_secret_ok("cove_read", now - 10);
    reg.record_stimulus_fired("heartbeat", now - 30);
    reg.record_stimulus_ok("heartbeat", now - 29);
    let out = reg.snapshot().render(now);
    assert!(out.contains("Secrets: all ok — cove_read, x"), "{out}");
    assert!(!out.contains("FAILING"), "{out}");
}

#[test]
fn a_success_leaves_other_records_alone() {
    let mut reg = HealthRegistry::new(0);
    reg.record_secret_err("a", "down", 1);
    reg.record_secret_err("b", "down", 1);
    reg.record_secret_ok("a", 2);
    let snap = reg.snapshot();
    assert!(snap.secrets.get("a").unwrap().is_ok());
    assert!(!snap.secrets.get("b").unwrap().is_ok());
}

#[test]
fn every_record_agrees_with_itself() {
    let mut reg = HealthRegistry::new(0);
    reg.record_stimulus_err("early", "boom");
    reg.record_stimulus_fired("late", 3);
    reg.record_stimulus_ok("late", 4);
    reg.record_secret_err("x", "down", 5);
    reg.record_secret_ok("x", 6);
    reg.record_secret_err("y", "down", 7);
    reg.set_duties(vec![duty("late", "cron")]);
    reg.record_cycle(false);
    let s = reg.snapshot();
    for name in ["x", "y"] {
        let h = s.secrets.get(name).unwrap();
        assert_eq!(h.is_ok(), h.consecutive_failures == 0);
        assert_eq!(h.consecutive_failures == 0, h.last_error.is_none());
        assert!(h.last_checked.is_some());
    }
    for id in ["early", "late"] {
        let h = s.stimuli.get(id).unwrap();
        assert_eq!(h.consecutive_failures == 0, h.last_error.is_none());
        assert!(h.consecutive_failures as u64 <= h.error_count);
        assert_eq!(h.fire_count == 0, h.last_fired.is_none());
    }
    assert_eq!(snapshot_value(&s), snapshot_value(&reg.snapshot()), "taking it changes nothing");
}

#[test]
fn a_duty_outside_the_roster_is_still_reported() {
    let mut reg = HealthRegistry::new(0);
    reg.record_stimulus_fired("stray", 1);
    reg.record_stimulus_err("stray", "boom");
    let out = reg.snapshot().render(10);
    assert!(out.contains("stray"), "{out}");
    assert!(out.starts_with("Uptime 0m. Cycles since boot: 0 ok, 0 errored.\n"), "{out}");
}
