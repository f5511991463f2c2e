use timewise::config::Config;
use timewise::model::{
    ConfigResponse, GoalConfig, Thresholds, UsageTotals,
};
use timewise::notify::Outbox;
use timewise::shell::complete_pairing;
use timewise::store::worker::{unsynced_for, WorkerDb};
use timewise::tracker::ActiveWindow;
use timewise::worker_runtime::WorkerRuntime;

fn win(app: &str) -> Option<ActiveWindow> {
    Some(ActiveWindow { app_name: app.into(), title: "t".into() })
}

fn runtime() -> WorkerRuntime {
    let mut cfg = Config::first_run_as("me".into());
    complete_pairing(&mut cfg, "http://a".into(), "ta".into());
    complete_pairing(&mut cfg, "http://b".into(), "tb".into());
    WorkerRuntime::new(cfg, WorkerDb::new())
}

fn told(today_s: i64) -> Option<ConfigResponse> {
    Some(ConfigResponse {
        rules: vec![],
        overrides: vec![],
        goal: GoalConfig { daily_min: Some(10), weekly_min: None },
        thresholds: Thresholds::default(),
        usage: UsageTotals { today_s, week_s: today_s },
        break_prompt_after_min: 40,
        points_balance: 0,
    })
}

#[test]
fn ticks_record_what_has_the_focus() {
    let mut rt = runtime();
    let mut out = Outbox::new();
    rt.tick(1000, win("Roblox"), 0, 0, &mut out);
    rt.tick(1002, win("Roblox"), 0, 0, &mut out);
    rt.tick(1010, win("timewise"), 0, 0, &mut out); // its own window
    rt.tick(1020, win("Safari"), 300, 0, &mut out);
    rt.tick(1030, win("Safari"), 301, 0, &mut out); // idle
    let rows = unsynced_for(&rt.db, "http://a", 10);
    assert_eq!(rows.len(), 2);
    assert_eq!((rows[0].app_name.as_str(), rows[0].duration_s), ("Roblox", 10));
    assert_eq!((rows[1].app_name.as_str(), rows[1].duration_s), ("Safari", 10));
    rt.tick(1040, win("Safari"), 0, 0, &mut out);
    assert!(rt.can_shut_down(1045));
    rt.shut_down(1045);
    assert_eq!(unsynced_for(&rt.db, "http://b", 10).len(), 3);
    assert!(out.waiting.is_empty());
}

#[test]
fn warnings_go_by_the_live_usage() {
    let mut rt = runtime();
    let mut out = Outbox::new();
    rt.masters[1].last_config = told(530);
    rt.tick(1000, win("Roblox"), 0, 0, &mut out); // 530 of 600 s
    assert!(out.waiting.is_empty());
    rt.tick(1010, win("Roblox"), 0, 0, &mut out); // 540: 90%
    assert_eq!(out.waiting.len(), 1);
    rt.tick(1070, win("Roblox"), 0, 0, &mut out); // 600: 100%
    assert_eq!(out.waiting.len(), 2);
    rt.tick(1075, win("Safari"), 0, 0, &mut out); // the new session begins at zero
    assert_eq!(out.waiting.len(), 2);
    // The first master that has told a configuration counts.
    rt.masters[0].last_config = told(0);
    rt.tick(2000, win("Safari"), 0, 0, &mut out);
    assert_eq!(out.waiting.len(), 3);
}

#[test]
fn breaks_are_suggested() {
    let mut rt = runtime();
    let mut out = Outbox::new();
    rt.tick(1000, win("A"), 0, 0, &mut out);
    rt.tick(1000 + 2399, win("A"), 0, 0, &mut out);
    assert!(out.waiting.is_empty());
    rt.tick(1000 + 2400, win("B"), 0, 0, &mut out);
    assert_eq!(out.waiting[0].0, "Time for a quick break?");
}

#[test]
fn cycles_run_at_the_interval() {
    let mut rt = runtime();
    let mut out = Outbox::new();
    assert_eq!(rt.tick(59, None, 0, 0, &mut out), [false, false]);
    assert_eq!(rt.tick(60, None, 0, 0, &mut out), [true, true]);
    // The cycles succeed, and one master approves.
    rt.masters[1].approved = true;
    for now in (62..120).step_by(2) {
        assert_eq!(rt.tick(now, None, 0, 0, &mut out), [false, false]);
    }
    assert_eq!(rt.tick(120, None, 0, 0, &mut out), [true, true]);
}

#[test]
fn a_failed_cycle_is_tried_again_when_the_backoff_allows() {
    let mut rt = runtime();
    let mut out = Outbox::new();
    rt.masters[1].approved = true;
    assert_eq!(rt.tick(60, None, 0, 0, &mut out), [true, true]);
    rt.masters[0].backoff.on_failure(60);
    rt.masters[1].backoff.on_failure(60);
    assert!(rt.masters[1].backoff.failing());
    assert_eq!(rt.tick(89, None, 0, 0, &mut out), [false, false]);
    // Only the master that has approved is not kept waiting.
    assert_eq!(rt.tick(90, None, 0, 0, &mut out), [false, true]);
    rt.masters[1].backoff.on_success();
    assert!(!rt.masters[1].backoff.failing());
    assert_eq!(rt.tick(119, None, 0, 0, &mut out), [false, false]);
    assert_eq!(rt.tick(120, None, 0, 0, &mut out), [true, false]);
    assert_eq!(rt.tick(149, None, 0, 0, &mut out), [false, false]);
    assert_eq!(rt.tick(150, None, 0, 0, &mut out), [false, true]);
    // A backoff that is longer than the interval.
    for _ in 0..3 {
        rt.masters[1].backoff.on_failure(150);
    }
    assert_eq!(rt.tick(269, None, 0, 0, &mut out), [true, false]);
    assert_eq!(rt.tick(270, None, 0, 0, &mut out), [false, true]);
}

#[test]
fn heartbeats_go_to_masters_that_have_approved() {
    let mut rt = runtime();
    assert!(rt.heartbeat_targets().is_empty());
    rt.masters[1].approved = true;
    let targets = rt.heartbeat_targets();
    assert_eq!(targets.len(), 1);
    assert_eq!((targets[0].base_url.as_str(), targets[0].token.as_str()), ("http://b", "tb"));
}

#[test]
fn ticks_that_cannot_be_made() {
    let mut rt = runtime();
    let mut out = Outbox::new();
    assert!(rt.can_tick(1000, &None, 0, 0));
    assert!(!rt.can_tick(i64::MIN, &None, 0, 0));
    rt.tick(-1000, win("A"), 0, 0, &mut out);
    assert!(!rt.can_tick(i64::MAX, &win("A"), 0, 0));
    assert!(!rt.can_shut_down(i64::MAX));
    rt.masters[0].last_config = told(i64::MAX);
    assert!(!rt.can_tick(-999, &win("A"), 0, 0));
    // Another window begins at zero.
    assert!(rt.can_tick(-999, &win("B"), 0, 0));
    assert!(rt.can_tick(-999, &win("A"), 301, 0));
}
