use timewise::categorize::Categorizer;
use timewise::model::Category;
use timewise::store::worker as store;
use timewise::store::worker::WorkerDb;
use timewise::tracker::{ActiveWindow, Tracker};

fn setup() -> WorkerDb {
    WorkerDb::new()
}

fn win(app: &str, title: &str) -> Option<ActiveWindow> {
    Some(ActiveWindow { app_name: app.into(), title: title.into() })
}

#[test]
fn br6_closes_on_app_change_and_buffers() {
    let mut db = setup();
    let mut t = Tracker::new(Categorizer::from_bundled());
    assert!(t.poll(&mut db, 1000, win("Roblox", "Roblox")).is_none());
    assert!(t.poll(&mut db, 1002, win("Roblox", "Roblox")).is_none()); // no change
    let done = t.poll(&mut db, 1030, win("Safari", "Docs")).unwrap();
    assert_eq!(done.app_name, "Roblox");
    assert_eq!(done.start_ts, 1000);
    assert_eq!(done.end_ts, 1030);
    assert_eq!(done.duration_s, 30);
    assert_eq!(done.category, Category::Games); // categorized at record time
    // Buffer holds exactly the completed session.
    let unsynced = store::unsynced_for(&db, "m", 10);
    assert_eq!(unsynced.len(), 1);
    assert_eq!(unsynced[0].id, done.id);
}

#[test]
fn br6_closes_on_title_change_same_app() {
    let mut db = setup();
    let mut t = Tracker::new(Categorizer::from_bundled());
    t.poll(&mut db, 1000, win("Safari", "Tab A"));
    let done = t.poll(&mut db, 1010, win("Safari", "Tab B")).unwrap();
    assert_eq!(done.window_title, "Tab A");
    assert_eq!(done.duration_s, 10);
}

#[test]
fn br6_drops_subsecond_sessions() {
    let mut db = setup();
    let mut t = Tracker::new(Categorizer::from_bundled());
    t.poll(&mut db, 1000, win("A", "a"));
    assert!(t.poll(&mut db, 1000, win("B", "b")).is_none()); // 0s -> dropped
    assert!(store::unsynced_for(&db, "m", 10).is_empty());
}

#[test]
fn window_loss_closes_session_and_reopens_cleanly() {
    let mut db = setup();
    let mut t = Tracker::new(Categorizer::from_bundled());
    t.poll(&mut db, 1000, win("A", "a"));
    let done = t.poll(&mut db, 1060, None).unwrap(); // lock screen
    assert_eq!(done.duration_s, 60);
    assert!(t.poll(&mut db, 1062, None).is_none()); // stays closed
    t.poll(&mut db, 1100, win("A", "a")); // new session, new id
    let done2 = t.poll(&mut db, 1110, None).unwrap();
    assert_ne!(done.id, done2.id);
}

#[test]
fn current_elapsed_tracks_open_session() {
    let mut db = setup();
    let mut t = Tracker::new(Categorizer::from_bundled());
    assert_eq!(t.current_elapsed(1000), 0);
    t.poll(&mut db, 1000, win("A", "a"));
    assert_eq!(t.current_elapsed(1015), 15);
}

#[test]
fn given_id_and_clock_that_goes_back() {
    let mut db = setup();
    let mut t = Tracker::new(Categorizer::from_bundled());
    assert!(t.poll_with_id(&mut db, 1000, win("A", "a"), "id-1".into()).is_none());
    assert_eq!(t.current_elapsed(990), 0);
    assert_eq!(t.length(990), Some(-10));
    // A clock that went back leaves no session behind.
    assert!(t.poll_with_id(&mut db, 990, win("B", "b"), "id-2".into()).is_none());
    let done = t.close_current(&mut db, 991).unwrap();
    assert_eq!(done.id, "id-2");
    assert_eq!(done.duration_s, 1);
    assert!(t.close_current(&mut db, 992).is_none());
    assert_eq!(store::unsynced_for(&db, "m", 10).len(), 1);
}

#[test]
fn session_ids_are_random_uuids() {
    let mut db = setup();
    let mut t = Tracker::new(Categorizer::from_bundled());
    t.poll(&mut db, 1, win("A", "a"));
    let done = t.poll(&mut db, 5, None).unwrap();
    let id = uuid::Uuid::parse_str(&done.id).unwrap();
    assert_eq!(id.get_version_num(), 4);
    assert_eq!(done.id.len(), 36);
}

#[test]
fn lengths_that_cannot_be_held() {
    let mut db = setup();
    let mut t = Tracker::new(Categorizer::from_bundled());
    t.poll_with_id(&mut db, i64::MIN, win("A", "a"), "x".into());
    assert_eq!(t.length(0), None);
    assert_eq!(t.length(-1), Some(i64::MAX));
    assert!(t.would_change(None));
}
