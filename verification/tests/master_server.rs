use timewise::master_server::{
    approve_worker, approve_worker_with, assign_worker, authenticate, dashboard_apps,
    dashboard_child, dashboard_summary, dashboard_uncategorized, get_config, heartbeat,
    list_all_children, list_all_workers, post_batch, register, register_status, set_category_override,
    set_child_goal, AppState, Credentials, Refusal, ONLINE_THRESHOLD_S,
};
use timewise::model::{
    BatchUpload, Category, CategoryOverride, GoalConfig, RegisterRequest, RegistrationStatus,
    SessionRecord,
};
use timewise::store::master::MasterDb;

const NOW: i64 = 1_784_952_000;

fn test_state() -> AppState {
    AppState::new(MasterDb::new(), 0, 40)
}

fn authed(worker_id: &str, token: &str) -> Credentials {
    Credentials {
        authorization: Some(format!("Bearer {token}")),
        worker_id: Some(worker_id.to_string()),
    }
}

fn register_body(id: &str) -> RegisterRequest {
    RegisterRequest {
        worker_id: id.into(),
        hostname: "kid-pc".into(),
        os: "macos".into(),
        os_user: "ada".into(),
        token: "tok-1".into(),
    }
}

fn session(id: &str, app: &str, start: i64, dur: i64) -> SessionRecord {
    SessionRecord {
        id: id.into(),
        app_name: app.into(),
        window_title: app.into(),
        category: Category::Games,
        start_ts: start,
        end_ts: start + dur,
        duration_s: dur,
    }
}

#[test]
fn full_pairing_flow() {
    let mut app = test_state();
    // 1. Register -> pending.
    let v = register(&mut app, &register_body("w1"), NOW);
    assert_eq!(v.status, RegistrationStatus::Pending);
    // 2. Status poll -> pending.
    let v = register_status(&app, &authed("w1", "tok-1")).unwrap();
    assert_eq!(v.status, RegistrationStatus::Pending);
    // 3. Upload before approval -> 403.
    let batch = BatchUpload { sessions: vec![] };
    let resp = post_batch(&mut app, &authed("w1", "tok-1"), &batch);
    assert_eq!(resp.err().map(Refusal::code), Some(403));
    // 4. Approve (by name -> creates the child).
    assert_eq!(approve_worker(&mut app, "w1", "Ada"), Ok(()));
    // 5. Status poll -> approved with name.
    let v = register_status(&app, &authed("w1", "tok-1")).unwrap();
    assert_eq!(v.status, RegistrationStatus::Approved);
    assert_eq!(v.child_name.as_deref(), Some("Ada"));
    // 6. Re-register keeps approval.
    let v = register(&mut app, &register_body("w1"), NOW + 5);
    assert_eq!(v.status, RegistrationStatus::Approved);
}

#[test]
fn bad_token_rejected() {
    let mut app = test_state();
    register(&mut app, &register_body("w1"), NOW);
    let resp = get_config(&app, &authed("w1", "wrong"), NOW);
    assert_eq!(resp.err().map(Refusal::code), Some(401));
    let nothing = Credentials { authorization: None, worker_id: None };
    let resp = get_config(&app, &nothing, NOW);
    assert_eq!(resp.err().map(Refusal::code), Some(401));
}

#[test]
fn batch_upload_idempotent_and_config_reflects_goal() {
    let mut app = test_state();
    register(&mut app, &register_body("w1"), NOW);
    approve_worker(&mut app, "w1", "Ada").unwrap();
    // Goal path takes the CHILD id now; resolve it.
    let children = list_all_children(&app);
    let child_id = children[0].id.clone();
    let goal = GoalConfig { daily_min: Some(120), weekly_min: Some(600) };
    set_child_goal(&mut app, &child_id, &goal);

    let batch = BatchUpload { sessions: vec![session("s1", "Roblox", 100, 60)] };
    let resp = post_batch(&mut app, &authed("w1", "tok-1"), &batch).unwrap();
    assert_eq!(resp.accepted, 1);
    // Retry: idempotent.
    let resp = post_batch(&mut app, &authed("w1", "tok-1"), &batch).unwrap();
    assert_eq!(resp.accepted, 0);
    // Config carries goal + thresholds + points.
    let v = get_config(&app, &authed("w1", "tok-1"), NOW).unwrap();
    assert_eq!(v.goal.daily_min, Some(120));
    assert_eq!(v.thresholds.nudge_pct, 90);
    assert_eq!(v.break_prompt_after_min, 40);
    assert_eq!(v.points_balance, 0);
}

#[test]
fn heartbeat_flips_online_status() {
    let mut app = test_state();
    register(&mut app, &register_body("w1"), NOW);
    approve_worker(&mut app, "w1", "Ada").unwrap();
    // Offline before any heartbeat.
    let v = dashboard_summary(&mut app, NOW).unwrap();
    assert_eq!(v.children[0].online, false);
    // Heartbeat -> online.
    let v = heartbeat(&mut app, &authed("w1", "tok-1"), NOW).unwrap();
    assert!(v.server_time > 0);
    let v = dashboard_summary(&mut app, NOW).unwrap();
    assert_eq!(v.children[0].online, true);
}

#[test]
fn approve_unknown_worker_404() {
    let mut app = test_state();
    let resp = approve_worker(&mut app, "ghost", "X");
    assert_eq!(resp.err().map(Refusal::code), Some(404));
}

#[test]
fn credentials_must_be_complete() {
    let mut app = test_state();
    register(&mut app, &register_body("w1"), NOW);
    let of = |a: Option<&str>, w: Option<&str>| Credentials {
        authorization: a.map(String::from),
        worker_id: w.map(String::from),
    };
    assert!(authenticate(&app, &of(Some("Bearer tok-1"), Some("w1"))).is_ok());
    for bad in [
        of(Some("Bearer tok-1"), None),
        of(None, Some("w1")),
        of(Some("tok-1"), Some("w1")),
        of(Some("bearer tok-1"), Some("w1")),
        of(Some("Bearer  tok-1"), Some("w1")),
        of(Some("Bearer "), Some("w1")),
        of(Some("Bearer tok-1"), Some("w2")),
    ] {
        assert_eq!(authenticate(&app, &bad).err(), Some(Refusal::Unauthorized));
        assert_eq!(heartbeat(&mut app, &bad, NOW).err(), Some(Refusal::Unauthorized));
    }
}

#[test]
fn every_refusal_has_its_code() {
    let codes: Vec<u16> = [
        Refusal::Unauthorized,
        Refusal::Forbidden,
        Refusal::NotFound,
        Refusal::Conflict,
        Refusal::Internal,
    ]
    .into_iter()
    .map(Refusal::code)
    .collect();
    assert_eq!(codes, [401, 403, 404, 409, 500]);
}

#[test]
fn config_needs_approval_a_child_and_a_clock() {
    let mut app = test_state();
    register(&mut app, &register_body("w1"), NOW);
    let who = authed("w1", "tok-1");
    assert_eq!(get_config(&app, &who, NOW).err(), Some(Refusal::Forbidden));
    // A worker of the first version can be approved without a child.
    let mut info = list_all_workers(&app)[0].clone();
    info.worker_id = "w9".into();
    info.approved = true;
    timewise::store::master::legacy::restore_worker(
        &mut app.db,
        timewise::store::master::rows::WorkerRow { info, token: "t9".into() },
    );
    assert_eq!(get_config(&app, &authed("w9", "t9"), NOW).err(), Some(Refusal::Conflict));
    approve_worker(&mut app, "w1", "Ada").unwrap();
    assert_eq!(get_config(&app, &who, i64::MIN).err(), Some(Refusal::Internal));
    assert!(get_config(&app, &who, NOW).is_ok());
    app.break_prompt_after_min = (1 << 32) + 7;
    assert_eq!(get_config(&app, &who, NOW).unwrap().break_prompt_after_min, 7);
}

#[test]
fn unknown_workers_are_refused_but_the_child_stays() {
    let mut app = test_state();
    assert_eq!(approve_worker_with(&mut app, "ghost", "Ada", "c1".into(), NOW), Err(Refusal::NotFound));
    assert_eq!(list_all_children(&app)[0].id, "c1");
    register(&mut app, &register_body("w1"), NOW);
    assert_eq!(approve_worker_with(&mut app, "w1", "Bob", "c1".into(), NOW), Err(Refusal::Internal));
    assert_eq!(approve_worker_with(&mut app, "w1", "ADA", "c2".into(), NOW), Ok(()));
    assert_eq!(list_all_children(&app).len(), 1);
    assert_eq!(assign_worker(&mut app, "ghost", "c1"), Err(Refusal::NotFound));
    assert_eq!(assign_worker(&mut app, "w1", "c7"), Ok(()));
    assert_eq!(list_all_workers(&app)[0].child_id.as_deref(), Some("c7"));
    // The name of a child that is not there is not told.
    let v = register_status(&app, &authed("w1", "tok-1")).unwrap();
    assert_eq!((v.status, v.child_name), (RegistrationStatus::Approved, None));
}

#[test]
fn an_override_holds_for_past_and_future() {
    let mut app = test_state();
    register(&mut app, &register_body("w1"), NOW);
    approve_worker_with(&mut app, "w1", "Ada", "c1".into(), NOW).unwrap();
    let who = authed("w1", "tok-1");
    let first = BatchUpload { sessions: vec![session("s1", "MysteryApp", 0, 60)] };
    post_batch(&mut app, &who, &first).unwrap();
    let apps = dashboard_uncategorized(&app, "c1").unwrap();
    assert_eq!((apps[0].app_name.as_str(), apps[0].total_s), ("MysteryApp", 60));
    let o = CategoryOverride { app_name: "MysteryApp".into(), category: Category::Educational };
    set_category_override(&mut app, &o);
    assert!(dashboard_uncategorized(&app, "c1").unwrap().is_empty());
    let second = BatchUpload { sessions: vec![session("s2", "mysteryapp", 100, 60)] };
    post_batch(&mut app, &who, &second).unwrap();
    assert!(dashboard_uncategorized(&app, "c1").unwrap().is_empty());
    let apps = dashboard_apps(&app, "c1").unwrap();
    assert_eq!(apps.len(), 2);
    assert!(apps.iter().all(|a| a.is_override && a.category == Category::Educational));
}

#[test]
fn the_detail_of_a_child() {
    let mut app = test_state();
    register(&mut app, &register_body("w1"), NOW);
    approve_worker_with(&mut app, "w1", "Ada", "c1".into(), NOW).unwrap();
    let batch = BatchUpload {
        sessions: vec![session("s1", "Roblox", NOW - 600, 300), session("s2", "Safari", NOW - 200_000, 60)],
    };
    post_batch(&mut app, &authed("w1", "tok-1"), &batch).unwrap();
    set_child_goal(&mut app, "c1", &GoalConfig { daily_min: Some(60), weekly_min: None });
    // Without a range: today so far.
    let d = dashboard_child(&app, "c1", None, None, NOW).unwrap();
    assert_eq!(d.breakdown.len(), 1);
    assert_eq!((d.breakdown[0].duration_s, d.breakdown[0].total_s), (300, 300));
    assert_eq!((d.usage.today_s, d.usage.week_s), (300, 360));
    assert_eq!(d.goal.daily_min, Some(60));
    assert_eq!(d.points_balance, 0);
    // With a range.
    let d = dashboard_child(&app, "c1", Some(0), Some(NOW - 450), NOW).unwrap();
    assert_eq!(d.breakdown.iter().map(|b| b.duration_s).sum::<i64>(), 210);
    let tod = d.tod.morning_s + d.tod.afternoon_s + d.tod.evening_s + d.tod.night_s;
    assert_eq!(tod, 210);
    assert_eq!(dashboard_child(&app, "c1", None, Some(i64::MIN), NOW).err(), Some(Refusal::Internal));
    assert_eq!(dashboard_child(&app, "c1", Some(0), None, i64::MIN).err(), Some(Refusal::Internal));
}

#[test]
fn the_overview_settles_points() {
    let mut app = test_state();
    assert_eq!(app.online_threshold_s, ONLINE_THRESHOLD_S);
    register(&mut app, &register_body("w1"), NOW);
    register(&mut app, &register_body("w2"), NOW);
    approve_worker_with(&mut app, "w1", "Ada", "c1".into(), NOW).unwrap();
    set_child_goal(&mut app, "c1", &GoalConfig { daily_min: Some(60), weekly_min: Some(60) });
    let v = dashboard_summary(&mut app, NOW).unwrap();
    assert_eq!(v.children[0].points_balance, 6);
    assert_eq!(v.pending.len(), 1);
    assert_eq!(v.pending[0].worker_id, "w2");
    let v = dashboard_summary(&mut app, NOW + 60).unwrap();
    assert_eq!(v.children[0].points_balance, 6);
    let d = dashboard_child(&app, "c1", None, None, NOW).unwrap();
    assert_eq!(d.points_history.len(), 2);
    assert_eq!(dashboard_summary(&mut app, i64::MIN).err(), Some(Refusal::Internal));
}
