use timewise::categorize::Categorizer;
use timewise::model::{Category, RegisterRequest, SessionRecord};
use timewise::points_engine::{
    can_evaluate, evaluate_all, DAILY_POINTS, DAILY_REASON, WEEKLY_POINTS, WEEKLY_REASON,
};
use timewise::store::master as store;
use timewise::store::master::MasterDb;
use timewise::timeutil::{self, SECS_PER_DAY};

fn request(id: &str, user: &str) -> RegisterRequest {
    RegisterRequest {
        worker_id: id.into(),
        hostname: "pc".into(),
        os: "macos".into(),
        os_user: user.into(),
        token: "t".into(),
    }
}

fn setup() -> (MasterDb, i64) {
    let mut db = MasterDb::new();
    store::upsert_worker(&mut db, &request("w1", "ada"), 1);
    // The worker's child has the id of the worker.
    let child = store::find_or_create_child_with(&mut db, "Ada", "w1".into(), 1).unwrap();
    store::assign_worker_to_child(&mut db, "w1", &child);
    // Anchor: some mid-day instant; boundaries derived by timeutil.
    let now = 1_784_952_000;
    (db, now)
}

fn put_session(db: &mut MasterDb, id: &str, start: i64, dur: i64) {
    store::insert_sessions(db, "w1", &[SessionRecord {
        id: id.into(),
        app_name: "Safari".into(),
        window_title: "Docs".into(),
        category: Category::Browsers,
        start_ts: start,
        end_ts: start + dur,
        duration_s: dur,
    }], &Categorizer::from_bundled());
}

#[test]
fn br13_daily_awarded_for_completed_day_only() {
    let (mut db, now) = setup();
    let tz = 0;
    let today_start = timeutil::day_start(now, tz);
    store::set_goal(&mut db, "w1", Some(60), None); // 60 min daily
    // Yesterday: 30 min (within goal) -> +1.
    put_session(&mut db, "y1", today_start - SECS_PER_DAY + 3600, 1800);
    // Today: also within goal, but NOT evaluated yet.
    put_session(&mut db, "t1", today_start + 100, 600);
    evaluate_all(&mut db, now, tz);
    assert_eq!(store::points_balance(&db, "w1").unwrap(), 1);
    let hist = store::points_history(&db, "w1");
    assert_eq!(hist[0].reason, DAILY_REASON);
    // Idempotent re-run (hourly timer, dashboard loads).
    evaluate_all(&mut db, now + 3600, tz);
    assert_eq!(store::points_balance(&db, "w1").unwrap(), 1);
}

#[test]
fn br13_daily_not_awarded_when_over_goal() {
    let (mut db, now) = setup();
    let tz = 0;
    let today_start = timeutil::day_start(now, tz);
    store::set_goal(&mut db, "w1", Some(60), None);
    put_session(&mut db, "y1", today_start - SECS_PER_DAY + 3600, 3700); // 61m40s > 60m
    evaluate_all(&mut db, now, tz);
    assert_eq!(store::points_balance(&db, "w1").unwrap(), 0);
}

#[test]
fn br13_weekly_awarded_for_completed_week() {
    let (mut db, now) = setup();
    let tz = 0;
    let week_start = timeutil::week_start(now, tz);
    store::set_goal(&mut db, "w1", None, Some(600)); // 10h weekly
    // 5 x 60 min inside last week (safe margin from boundaries).
    for i in 0..5 {
        put_session(&mut db, &format!("w{i}"), week_start - 7 * SECS_PER_DAY + 3600 + i * 86400, 3600);
    }
    evaluate_all(&mut db, now, tz);
    assert_eq!(store::points_balance(&db, "w1").unwrap(), 5);
    evaluate_all(&mut db, now + 7200, tz); // idempotent
    assert_eq!(store::points_balance(&db, "w1").unwrap(), 5);
}

#[test]
fn no_goal_no_points() {
    let (mut db, now) = setup();
    evaluate_all(&mut db, now, 0);
    assert_eq!(store::points_balance(&db, "w1").unwrap(), 0);
}

#[test]
fn unapproved_worker_skipped() {
    let mut db = MasterDb::new();
    store::upsert_worker(&mut db, &request("w2", "x"), 1);
    store::set_goal(&mut db, "w2", Some(60), None);
    evaluate_all(&mut db, 1_784_952_000, 0);
    assert_eq!(store::points_balance(&db, "w2").unwrap(), 0);
}

#[test]
fn awards_bear_the_date_of_their_period() {
    let (mut db, now) = setup();
    store::set_goal(&mut db, "w1", Some(0), Some(0));
    evaluate_all(&mut db, now, 0);
    let hist = store::points_history(&db, "w1");
    assert_eq!(hist.len(), 2);
    // 2026-07-25 was a Saturday.
    assert_eq!((hist[0].date.as_str(), hist[0].points), ("2026-07-24", DAILY_POINTS));
    assert_eq!(hist[0].reason, DAILY_REASON);
    assert_eq!((hist[1].date.as_str(), hist[1].points), ("2026-07-13", WEEKLY_POINTS));
    assert_eq!(hist[1].reason, WEEKLY_REASON);
    // The next day brings the next award.
    evaluate_all(&mut db, now + SECS_PER_DAY, 0);
    assert_eq!(store::points_balance(&db, "w1").unwrap(), 7);
}

#[test]
fn a_goal_is_shared_by_all_devices() {
    let (mut db, now) = setup();
    store::upsert_worker(&mut db, &request("w2", "ada"), 2);
    store::assign_worker_to_child(&mut db, "w2", "w1");
    let yesterday = timeutil::day_start(now, 0) - SECS_PER_DAY;
    store::set_goal(&mut db, "w1", Some(60), None);
    put_session(&mut db, "a", yesterday + 100, 3600);
    evaluate_all(&mut db, now, 0);
    assert_eq!(store::points_balance(&db, "w1").unwrap(), 1); // exactly the goal
    let cat = Categorizer::from_bundled();
    let one_more = SessionRecord {
        id: "b".into(),
        app_name: "Roblox".into(),
        window_title: "Roblox".into(),
        category: Category::Games,
        start_ts: yesterday + SECS_PER_DAY + 5000,
        end_ts: yesterday + SECS_PER_DAY + 8601,
        duration_s: 3601,
    };
    store::insert_sessions(&mut db, "w2", &[one_more], &cat);
    evaluate_all(&mut db, now + SECS_PER_DAY, 0); // over the goal on the other device
    assert_eq!(store::points_balance(&db, "w1").unwrap(), 1);
}

#[test]
fn clocks_that_cannot_be_evaluated() {
    assert!(can_evaluate(1_784_952_000, 3600));
    assert!(!can_evaluate(i64::MIN + 100_000, 0));
    assert!(!can_evaluate(i64::MAX, 3600));
}
