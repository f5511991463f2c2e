use timewise::categorize::Categorizer;
use timewise::model::{Category, GoalConfig, PointsEntry, RegisterRequest, SessionRecord, WorkerInfo};
use timewise::store::master::legacy::{
    backfill_children, carry_over, migrate, restore_child, restore_goal, restore_session,
    restore_worker, LegacyGoal, LegacyPoints,
};
use timewise::store::master::rows::{ChildRow, GoalRow, SessionRow, WorkerRow};
use timewise::store::master::{
    app_breakdown, apps_with_categories, assign_worker_to_child, award_points, child_name,
    child_summaries, find_or_create_child, find_or_create_child_with, get_goal, get_worker,
    insert_sessions, list_children, list_overrides, list_workers, pending_workers, points_balance,
    points_history, recategorize_sessions, set_goal, set_override, tod_distribution, token_valid,
    touch_heartbeat, uncategorized_apps, upsert_worker, usage_totals, workers_of_child, MasterDb,
    StoreError,
};
use timewise::timeutil;

fn no_legacy(db: &mut MasterDb) {
    migrate(db, &Vec::new(), &Vec::new()).unwrap();
}

fn setup() -> MasterDb {
    let mut db = MasterDb::new();
    no_legacy(&mut db);
    db
}

fn register(db: &mut MasterDb, id: &str) -> RegisterRequest {
    let req = RegisterRequest {
        worker_id: id.into(),
        hostname: format!("host-{id}"),
        os: "macos".into(),
        os_user: format!("user-{id}"),
        token: format!("tok-{id}"),
    };
    upsert_worker(db, &req, 1000);
    req
}

fn approve_named(db: &mut MasterDb, worker_id: &str, child_name: &str) -> String {
    let child_id = find_or_create_child(db, child_name).unwrap();
    assign_worker_to_child(db, worker_id, &child_id);
    child_id
}

fn session(id: &str, app: &str, start: i64, dur: i64) -> SessionRecord {
    SessionRecord {
        id: id.into(),
        app_name: app.into(),
        window_title: app.into(),
        category: Category::Other,
        start_ts: start,
        end_ts: start + dur,
        duration_s: dur,
    }
}

#[test]
fn schema_creation_idempotent() {
    let mut db = setup();
    no_legacy(&mut db);
    no_legacy(&mut db);
}

#[test]
fn reregister_preserves_approval_and_assignment() {
    let mut db = setup();
    let req = register(&mut db, "w1");
    let child_id = approve_named(&mut db, "w1", "Ada");
    upsert_worker(&mut db, &req, 2000);
    let w = get_worker(&db, "w1").unwrap();
    assert!(w.approved);
    assert_eq!(w.child_id.as_deref(), Some(child_id.as_str()));
}

#[test]
fn find_or_create_child_reuses_case_insensitively() {
    let mut db = setup();
    let a = find_or_create_child(&mut db, "Ada").unwrap();
    let b = find_or_create_child(&mut db, "ADA").unwrap();
    let c = find_or_create_child(&mut db, "Bob").unwrap();
    assert_eq!(a, b);
    assert_ne!(a, c);
    assert_eq!(list_children(&db).len(), 2);
}

#[test]
fn merge_two_workers_one_child_aggregates() {
    let mut db = setup();
    register(&mut db, "w1");
    register(&mut db, "w2");
    let c1 = approve_named(&mut db, "w1", "Ada");
    let c2 = approve_named(&mut db, "w2", "ada"); // same child, different case
    assert_eq!(c1, c2);
    let cat = Categorizer::from_bundled();
    let now = 1_784_952_000;
    let day_from = timeutil::day_start(now, 0);
    insert_sessions(&mut db, "w1", &[session("s1", "Roblox", day_from + 100, 300)], &cat);
    insert_sessions(&mut db, "w2", &[session("s2", "Safari", day_from + 200, 600)], &cat);
    let u = usage_totals(&db, &c1, now, 0).unwrap();
    assert_eq!(u.today_s, 900); // summed across devices
    // Online if ANY worker online.
    touch_heartbeat(&mut db, "w2", now);
    let sums = child_summaries(&db, now + 30, 0, 90).unwrap();
    assert_eq!(sums.len(), 1);
    assert_eq!(sums[0].name, "Ada");
    assert!(sums[0].online);
    assert_eq!(sums[0].today_s, 900);
}

#[test]
fn pending_lists_only_unapproved() {
    let mut db = setup();
    register(&mut db, "w1");
    register(&mut db, "w2");
    approve_named(&mut db, "w1", "Ada");
    let pending = pending_workers(&db);
    assert_eq!(pending.len(), 1);
    assert_eq!(pending[0].worker_id, "w2");
    assert_eq!(pending[0].hostname, "host-w2");
    assert_eq!(pending[0].os_user, "user-w2");
}

#[test]
fn br1_idempotent_session_insert() {
    let mut db = setup();
    register(&mut db, "w1");
    approve_named(&mut db, "w1", "Ada");
    let cat = Categorizer::from_bundled();
    let batch = vec![session("s1", "Roblox", 100, 60), session("s2", "Safari", 200, 30)];
    assert_eq!(insert_sessions(&mut db, "w1", &batch, &cat), 2);
    assert_eq!(insert_sessions(&mut db, "w1", &batch, &cat), 0);
}

#[test]
fn br3_points_per_child_awarded_once() {
    let mut db = setup();
    register(&mut db, "w1");
    let child = approve_named(&mut db, "w1", "Ada");
    assert!(award_points(&mut db, &child, "2026-07-25", 1, "daily_goal_met"));
    assert!(!award_points(&mut db, &child, "2026-07-25", 1, "daily_goal_met"));
    assert_eq!(points_balance(&db, &child).unwrap(), 1);
}

#[test]
fn master_override_wins_on_insert() {
    let mut db = setup();
    register(&mut db, "w1");
    let child = approve_named(&mut db, "w1", "Ada");
    set_override(&mut db, "Roblox", Category::Educational);
    let overrides = list_overrides(&db);
    let cat = Categorizer::from_bundled().with_overrides(&overrides);
    insert_sessions(&mut db, "w1", &[session("s1", "Roblox", 100, 60)], &cat);
    let bd = app_breakdown(&db, &child, 0, 1000).unwrap();
    assert_eq!(bd[0].category, Category::Educational);
}

fn legacy_worker(id: &str, name: Option<&str>, child_id: Option<&str>, approved: bool) -> WorkerRow {
    WorkerRow {
        info: WorkerInfo {
            worker_id: id.into(),
            hostname: "pc".into(),
            os: "macos".into(),
            os_user: "ada".into(),
            child_name: name.map(String::from),
            child_id: child_id.map(String::from),
            approved,
            last_seen: None,
            created_at: 1,
        },
        token: "t".into(),
    }
}

fn points(date: &str, n: i64, reason: &str) -> PointsEntry {
    PointsEntry { date: date.into(), points: n, reason: reason.into() }
}

#[test]
fn legacy_v1_migration_backfills_children_goals_points() {
    let mut db = MasterDb::new();
    // Rows of the first version.
    restore_worker(&mut db, legacy_worker("w1", Some("Ada"), None, true));
    let goals = vec![LegacyGoal {
        worker_id: "w1".into(),
        goal: GoalConfig { daily_min: Some(120), weekly_min: Some(600) },
    }];
    let earned = vec![LegacyPoints {
        worker_id: "w1".into(),
        entry: points("2026-07-25", 1, "daily_goal_met"),
    }];
    migrate(&mut db, &goals, &earned).unwrap();
    let children = list_children(&db);
    assert_eq!(children.len(), 1);
    assert_eq!(children[0].name, "Ada");
    let child_id = &children[0].id;
    let w = get_worker(&db, "w1").unwrap();
    assert_eq!(w.child_id.as_deref(), Some(child_id.as_str()));
    assert!(w.approved);
    assert_eq!(get_goal(&db, child_id).daily_min, Some(120));
    assert_eq!(points_balance(&db, child_id).unwrap(), 1);
    // Idempotent: second migrate is a no-op.
    no_legacy(&mut db);
    assert_eq!(list_children(&db).len(), 1);
}

#[test]
fn apps_editor_reflects_override_and_latest() {
    let mut db = setup();
    register(&mut db, "w1");
    let child = approve_named(&mut db, "w1", "Ada");
    let cat = Categorizer::from_bundled();
    // Safari recorded as Browsers (two sessions), MysteryApp as Other.
    insert_sessions(&mut db, "w1", &[
        session("s1", "Safari", 100, 60),
        session("s2", "MysteryApp", 200, 30),
    ], &cat);
    let apps = apps_with_categories(&db, &child).unwrap();
    let safari = apps.iter().find(|a| a.app_name == "Safari").unwrap();
    assert_eq!(safari.category, Category::Browsers);
    assert!(!safari.is_override);
    // Override wins and is flagged.
    set_override(&mut db, "Safari", Category::Educational);
    let apps = apps_with_categories(&db, &child).unwrap();
    let safari = apps.iter().find(|a| a.app_name == "Safari").unwrap();
    assert_eq!(safari.category, Category::Educational);
    assert!(safari.is_override);
}

#[test]
fn recategorize_moves_history() {
    let mut db = setup();
    register(&mut db, "w1");
    let child = approve_named(&mut db, "w1", "Ada");
    let cat = Categorizer::from_bundled();
    insert_sessions(&mut db, "w1", &[
        session("s1", "MysteryApp", 0, 60),
        session("s2", "Roblox", 100, 60),
    ], &cat);
    set_override(&mut db, "MysteryApp", Category::Productivity);
    let moved = recategorize_sessions(&mut db, "MysteryApp", Category::Productivity);
    assert_eq!(moved, 1);
    // Gone from the uncategorized list; Roblox untouched.
    assert!(uncategorized_apps(&db, &child).unwrap().is_empty());
    let bd = app_breakdown(&db, &child, 0, 1000).unwrap();
    assert_eq!(bd.iter().find(|b| b.app_name == "MysteryApp").unwrap().category, Category::Productivity);
    assert_eq!(bd.iter().find(|b| b.app_name == "Roblox").unwrap().category, Category::Games);
}

#[test]
fn usage_clamps_to_day_and_week() {
    let mut db = setup();
    register(&mut db, "w1");
    let child = approve_named(&mut db, "w1", "Ada");
    let now = 1_784_952_000;
    let day_from = timeutil::day_start(now, 0);
    let cat = Categorizer::from_bundled();
    insert_sessions(&mut db, "w1", &[session("s1", "Safari", day_from + 100, 300)], &cat);
    insert_sessions(&mut db, "w1", &[session("s2", "Safari", day_from - 120, 240)], &cat);
    let u = usage_totals(&db, &child, now, 0).unwrap();
    assert_eq!(u.today_s, 300 + 120);
    let week_from = timeutil::week_start(now, 0);
    assert!(day_from - 120 >= week_from, "test assumes straddler is inside the week");
    assert_eq!(u.week_s, 300 + 240);
}

// ---- Beyond the usual ----

#[test]
fn child_ids_are_not_taken_twice() {
    let mut db = setup();
    assert_eq!(find_or_create_child_with(&mut db, "Ada", "c1".into(), 5), Ok("c1".to_string()));
    assert_eq!(
        find_or_create_child_with(&mut db, "Bob", "c1".into(), 6),
        Err(StoreError::DuplicateId)
    );
    assert_eq!(find_or_create_child_with(&mut db, "aDA", "c2".into(), 7), Ok("c1".to_string()));
    assert_eq!(db.child_rows().len(), 1);
    assert_eq!(db.child_rows()[0].created_at, 5);
    assert_eq!(child_name(&db, "c1").as_deref(), Some("Ada"));
    assert_eq!(child_name(&db, "c2"), None);
    // Only ASCII letters are folded.
    assert_eq!(find_or_create_child_with(&mut db, "\u{c9}va", "c3".into(), 8), Ok("c3".to_string()));
    assert_eq!(find_or_create_child_with(&mut db, "\u{e9}va", "c4".into(), 8), Ok("c4".to_string()));
}

#[test]
fn new_children_get_a_uuid_and_the_time() {
    let mut db = setup();
    let before = chrono::Utc::now().timestamp();
    let id = find_or_create_child(&mut db, "Ada").unwrap();
    let after = chrono::Utc::now().timestamp();
    assert_eq!(uuid::Uuid::parse_str(&id).unwrap().get_version_num(), 4);
    let row = &db.child_rows()[0];
    assert_eq!(row.id, id);
    assert!(before <= row.created_at && row.created_at <= after);
}

#[test]
fn children_by_name_and_workers_by_age() {
    let mut db = setup();
    for (name, id) in [("bob", "1"), ("Zoe", "2"), ("Ada", "3"), ("Ad", "4")] {
        find_or_create_child_with(&mut db, name, id.into(), 0).unwrap();
    }
    let names: Vec<String> = list_children(&db).into_iter().map(|c| c.name).collect();
    assert_eq!(names, ["Ad", "Ada", "Zoe", "bob"]);
    for (id, at) in [("w1", 30), ("w2", 10), ("w3", 20)] {
        let req = RegisterRequest {
            worker_id: id.into(),
            hostname: "h".into(),
            os: "o".into(),
            os_user: "u".into(),
            token: "t".into(),
        };
        upsert_worker(&mut db, &req, at);
        assign_worker_to_child(&mut db, id, "3");
    }
    let ids: Vec<String> = list_workers(&db).into_iter().map(|w| w.worker_id).collect();
    assert_eq!(ids, ["w2", "w3", "w1"]);
    assert_eq!(workers_of_child(&db, "3").len(), 3);
    assert_eq!(assign_worker_to_child(&mut db, "w2", "4"), 1);
    assert_eq!(workers_of_child(&db, "3")[0].worker_id, "w3");
    assert_eq!(assign_worker_to_child(&mut db, "ghost", "4"), 0);
    assert_eq!(touch_heartbeat(&mut db, "ghost", 1), 0);
    assert_eq!(touch_heartbeat(&mut db, "w1", 1), 1);
    assert_eq!(get_worker(&db, "w1").unwrap().last_seen, Some(1));
    assert!(get_worker(&db, "ghost").is_none());
}

#[test]
fn only_the_last_token_is_valid() {
    let mut db = setup();
    let mut req = register(&mut db, "w1");
    assert!(token_valid(&db, "w1", "tok-w1"));
    assert!(!token_valid(&db, "w1", ""));
    assert!(!token_valid(&db, "w2", "tok-w1"));
    req.token = "fresh".into();
    req.hostname = "other".into();
    upsert_worker(&mut db, &req, 9);
    assert!(!token_valid(&db, "w1", "tok-w1"));
    assert!(token_valid(&db, "w1", "fresh"));
    let w = get_worker(&db, "w1").unwrap();
    assert_eq!((w.hostname.as_str(), w.created_at), ("other", 1000));
}

#[test]
fn goals_replace_each_other() {
    let mut db = setup();
    assert_eq!(get_goal(&db, "c"), GoalConfig::default());
    set_goal(&mut db, "c", Some(60), Some(u32::MAX));
    set_goal(&mut db, "d", None, Some(5));
    assert_eq!(get_goal(&db, "c"), GoalConfig { daily_min: Some(60), weekly_min: Some(u32::MAX) });
    set_goal(&mut db, "c", None, None);
    assert_eq!(get_goal(&db, "c"), GoalConfig::default());
    assert_eq!(get_goal(&db, "d").weekly_min, Some(5));
    assert_eq!(db.goal_rows().len(), 2);
}

#[test]
fn points_history_is_latest_first_and_balances_fit() {
    let mut db = setup();
    award_points(&mut db, "c", "2026-07-24", 1, "daily_goal_met");
    award_points(&mut db, "c", "2026-07-26", 5, "weekly_goal_met");
    award_points(&mut db, "c", "2026-07-25", 1, "daily_goal_met");
    award_points(&mut db, "d", "2026-07-25", -3, "redeemed");
    let dates: Vec<String> = points_history(&db, "c").into_iter().map(|p| p.date).collect();
    assert_eq!(dates, ["2026-07-26", "2026-07-25", "2026-07-24"]);
    assert_eq!(points_balance(&db, "c"), Ok(7));
    assert_eq!(points_balance(&db, "d"), Ok(-3));
    assert_eq!(points_balance(&db, "e"), Ok(0));
    award_points(&mut db, "c", "2026-07-27", i64::MAX, "gift");
    assert_eq!(points_balance(&db, "c"), Err(StoreError::Overflow));
    award_points(&mut db, "c", "2026-07-28", -7, "redeemed");
    assert_eq!(points_balance(&db, "c"), Ok(i64::MAX));
}

#[test]
fn breakdown_adds_up_and_takes_the_earliest_category() {
    let mut db = setup();
    register(&mut db, "w1");
    let child = approve_named(&mut db, "w1", "Ada");
    let plain = Categorizer::from_bundled();
    insert_sessions(&mut db, "w1", &[
        session("s1", "Roblox", 500, 100),
        session("s2", "Safari", 0, 50),
        session("s3", "Roblox", 900, 200),
        session("s4", "Late", 5000, 10),
    ], &plain);
    // An older session of Roblox under another category.
    restore_session(&mut db, SessionRow {
        worker_id: "w1".into(),
        session: SessionRecord { category: Category::Educational, ..session("s0", "Roblox", 10, 5) },
    });
    let bd = app_breakdown(&db, &child, 20, 1000).unwrap();
    assert_eq!(bd.len(), 2);
    assert_eq!((bd[0].app_name.as_str(), bd[0].duration_s, bd[0].total_s), ("Roblox", 200, 230));
    assert_eq!(bd[0].category, Category::Games); // the older one ends before the range
    assert_eq!((bd[1].app_name.as_str(), bd[1].duration_s, bd[1].total_s), ("Safari", 30, 230));
    let bd = app_breakdown(&db, &child, 0, 1000).unwrap();
    assert_eq!(bd[0].category, Category::Educational);
    assert_eq!(bd.iter().map(|b| b.duration_s).sum::<i64>(), bd[0].total_s);
    assert!(app_breakdown(&db, "nobody", 0, 1000).unwrap().is_empty());
    // The editor goes by the latest session.
    let apps = apps_with_categories(&db, &child).unwrap();
    assert_eq!(apps[0].app_name, "Roblox");
    assert_eq!((apps[0].category, apps[0].total_s), (Category::Games, 305));
}

#[test]
fn times_of_day_go_by_the_local_start() {
    let mut db = setup();
    register(&mut db, "w1");
    let child = approve_named(&mut db, "w1", "Ada");
    let cat = Categorizer::from_bundled();
    insert_sessions(&mut db, "w1", &[
        session("s1", "A", 5 * 3600, 60),
        session("s2", "A", 12 * 3600 - 1, 120),
        session("s3", "A", 17 * 3600, 30),
        session("s4", "A", 22 * 3600, 7200),
    ], &cat);
    let d = tod_distribution(&db, &child, 0, 23 * 3600, 0).unwrap();
    assert_eq!((d.morning_s, d.afternoon_s, d.evening_s, d.night_s), (180, 0, 30, 3600));
    let d = tod_distribution(&db, &child, 0, 23 * 3600, 3600).unwrap();
    assert_eq!((d.morning_s, d.afternoon_s, d.evening_s, d.night_s), (60, 120, 30, 3600));
}

#[test]
fn totals_that_cannot_be_held_are_errors() {
    let mut db = setup();
    register(&mut db, "w1");
    let child = approve_named(&mut db, "w1", "Ada");
    let cat = Categorizer::from_bundled();
    for id in ["a", "b", "c"] {
        let s = SessionRecord {
            start_ts: i64::MIN,
            end_ts: i64::MAX,
            duration_s: i64::MAX,
            ..session(id, "Mystery", 0, 0)
        };
        insert_sessions(&mut db, "w1", &[s], &cat);
    }
    assert_eq!(app_breakdown(&db, &child, i64::MIN, i64::MAX).err(), Some(StoreError::Overflow));
    assert_eq!(
        tod_distribution(&db, &child, i64::MIN, i64::MAX, 0).err(),
        Some(StoreError::Overflow)
    );
    assert_eq!(apps_with_categories(&db, &child).err(), Some(StoreError::Overflow));
    assert_eq!(uncategorized_apps(&db, &child).err(), Some(StoreError::Overflow));
    assert_eq!(app_breakdown(&db, &child, 0, 100).unwrap()[0].duration_s, 300);
    let u = usage_totals(&db, &child, 1_784_952_000, 0).unwrap();
    assert_eq!(u.today_s, 3 * (1_784_952_000 - timeutil::day_start(1_784_952_000, 0)));
}

#[test]
fn uncategorized_apps_by_time() {
    let mut db = setup();
    register(&mut db, "w1");
    let child = approve_named(&mut db, "w1", "Ada");
    let cat = Categorizer::from_bundled();
    insert_sessions(&mut db, "w1", &[
        session("s1", "Mystery A", 0, 10),
        session("s2", "Mystery B", 20, 30),
        session("s3", "Mystery A", 60, 15),
        session("s4", "Roblox", 80, 100),
    ], &cat);
    assert_eq!(
        uncategorized_apps(&db, &child).unwrap(),
        vec![("Mystery B".to_string(), 30), ("Mystery A".to_string(), 25)]
    );
}

#[test]
fn override_matching_in_the_editor_ignores_case() {
    let mut db = setup();
    register(&mut db, "w1");
    let child = approve_named(&mut db, "w1", "Ada");
    let cat = Categorizer::from_bundled();
    insert_sessions(&mut db, "w1", &[session("s1", "Safari", 0, 10)], &cat);
    set_override(&mut db, "safari", Category::Games);
    set_override(&mut db, "SAFARI", Category::Educational);
    set_override(&mut db, "SAFARI", Category::Productivity);
    let names: Vec<String> = list_overrides(&db).into_iter().map(|o| o.app_name).collect();
    assert_eq!(names, ["SAFARI", "safari"]);
    // The first by name counts.
    let apps = apps_with_categories(&db, &child).unwrap();
    assert_eq!((apps[0].category, apps[0].is_override), (Category::Productivity, true));
    // Moving history goes by the exact name.
    assert_eq!(recategorize_sessions(&mut db, "safari", Category::Games), 0);
}

#[test]
fn online_needs_a_recent_heartbeat() {
    let mut db = setup();
    register(&mut db, "w1");
    let child = approve_named(&mut db, "w1", "Ada");
    let now = 1_784_952_000;
    assert!(!child_summaries(&db, now, 0, 90).unwrap()[0].online);
    touch_heartbeat(&mut db, "w1", now);
    assert!(child_summaries(&db, now + 90, 0, 90).unwrap()[0].online);
    assert!(!child_summaries(&db, now + 91, 0, 90).unwrap()[0].online);
    let other = find_or_create_child(&mut db, "Bob").unwrap();
    assign_worker_to_child(&mut db, "w1", &other);
    let sums = child_summaries(&db, now, 0, 90).unwrap();
    assert_eq!((sums[0].id.as_str(), sums[0].online), (child.as_str(), false));
    assert_eq!((sums[1].id.as_str(), sums[1].online), (other.as_str(), true));
}

#[test]
fn migration_reuses_children_and_keeps_what_is_there() {
    let mut db = MasterDb::new();
    restore_child(&mut db, ChildRow { id: "c1".into(), name: "Ada".into(), created_at: 1 });
    assert!(!restore_child(&mut db, ChildRow { id: "c1".into(), name: "X".into(), created_at: 2 }));
    restore_worker(&mut db, legacy_worker("w1", Some("ADA"), None, true));
    restore_worker(&mut db, legacy_worker("w2", Some("Bob"), None, false));
    restore_worker(&mut db, legacy_worker("w3", None, None, false));
    restore_worker(&mut db, legacy_worker("w4", Some("Ada"), Some("c9"), true));
    assert!(!restore_worker(&mut db, legacy_worker("w4", None, None, false)));
    backfill_children(&mut db).unwrap();
    assert_eq!(get_worker(&db, "w1").unwrap().child_id.as_deref(), Some("c1"));
    let bob = get_worker(&db, "w2").unwrap();
    assert!(!bob.approved);
    assert_eq!(child_name(&db, &bob.child_id.unwrap()).as_deref(), Some("Bob"));
    assert_eq!(get_worker(&db, "w3").unwrap().child_id, None);
    assert_eq!(get_worker(&db, "w4").unwrap().child_id.as_deref(), Some("c9"));

    let goal = |m| GoalConfig { daily_min: Some(m), weekly_min: None };
    assert!(restore_goal(&mut db, GoalRow { child_id: "c9".into(), goal: goal(9) }));
    let goals = vec![
        LegacyGoal { worker_id: "w1".into(), goal: goal(1) },
        LegacyGoal { worker_id: "w3".into(), goal: goal(3) },
        LegacyGoal { worker_id: "w4".into(), goal: goal(4) },
        LegacyGoal { worker_id: "ghost".into(), goal: goal(5) },
    ];
    let earned = vec![
        LegacyPoints { worker_id: "w1".into(), entry: points("d", 1, "r") },
        LegacyPoints { worker_id: "w1".into(), entry: points("d", 9, "r") },
        LegacyPoints { worker_id: "w3".into(), entry: points("d", 1, "r") },
    ];
    carry_over(&mut db, &goals, &earned);
    assert_eq!(get_goal(&db, "c1").daily_min, Some(1));
    assert_eq!(get_goal(&db, "c9").daily_min, Some(9));
    assert_eq!(db.goal_rows().len(), 2);
    assert_eq!(points_balance(&db, "c1"), Ok(1));
    assert_eq!(db.points_rows().len(), 1);
}

#[test]
fn uploads_keep_the_first_version_of_a_session() {
    let mut db = setup();
    register(&mut db, "w1");
    register(&mut db, "w2");
    let cat = Categorizer::from_bundled();
    let batch = [session("s1", "Roblox", 0, 5), session("s1", "Safari", 9, 9)];
    assert_eq!(insert_sessions(&mut db, "w1", &batch, &cat), 1);
    assert_eq!(insert_sessions(&mut db, "w2", &batch, &cat), 0);
    let rows = db.session_rows();
    assert_eq!(rows.len(), 1);
    assert_eq!(rows[0].worker_id, "w1");
    assert_eq!(rows[0].session.app_name, "Roblox");
    // The master's own categorizer decides.
    assert_eq!(rows[0].session.category, Category::Games);
    assert_eq!(db.worker_rows().len(), 2);
}
