use timewise::model::{Category, SessionRecord};
use timewise::store::worker::{buffer_insert, mark_synced, unsynced_for, WorkerDb};

fn setup() -> WorkerDb {
    WorkerDb::new()
}

fn session(id: &str, start: i64) -> SessionRecord {
    SessionRecord {
        id: id.into(),
        app_name: "App".into(),
        window_title: "Win".into(),
        category: Category::Other,
        start_ts: start,
        end_ts: start + 60,
        duration_s: 60,
    }
}

#[test]
fn br2_per_master_backlog_isolation() {
    let mut db = setup();
    buffer_insert(&mut db, &session("s1", 100));
    buffer_insert(&mut db, &session("s2", 200));

    let m1 = "http://192.168.1.10:47820";
    let m2 = "http://192.168.1.20:47820";

    // Both masters initially see the full backlog.
    assert_eq!(unsynced_for(&db, m1, 200).len(), 2);
    assert_eq!(unsynced_for(&db, m2, 200).len(), 2);

    // Marking synced for m1 must not affect m2.
    mark_synced(&mut db, m1, &["s1".into(), "s2".into()], 1000);
    assert_eq!(unsynced_for(&db, m1, 200).len(), 0);
    assert_eq!(unsynced_for(&db, m2, 200).len(), 2);
}

#[test]
fn unsynced_respects_limit_and_order() {
    let mut db = setup();
    buffer_insert(&mut db, &session("s2", 200));
    buffer_insert(&mut db, &session("s1", 100));
    buffer_insert(&mut db, &session("s3", 300));
    let batch = unsynced_for(&db, "m", 2);
    assert_eq!(batch.len(), 2);
    assert_eq!(batch[0].id, "s1"); // oldest first
    assert_eq!(batch[1].id, "s2");
}

#[test]
fn mark_synced_idempotent() {
    let mut db = setup();
    buffer_insert(&mut db, &session("s1", 100));
    mark_synced(&mut db, "m", &["s1".into()], 1);
    mark_synced(&mut db, "m", &["s1".into()], 2); // retry-safe
    assert_eq!(unsynced_for(&db, "m", 10).len(), 0);
}

#[test]
fn a_known_session_is_not_buffered_again() {
    let mut db = setup();
    buffer_insert(&mut db, &session("s1", 100));
    buffer_insert(&mut db, &session("s1", 500));
    let batch = unsynced_for(&db, "m", 10);
    assert_eq!(batch.len(), 1);
    assert_eq!(batch[0].start_ts, 100);
}

#[test]
fn marks_of_unknown_sessions_count_later() {
    let mut db = setup();
    mark_synced(&mut db, "m", &["s1".into()], 1);
    buffer_insert(&mut db, &session("s1", 100));
    assert!(unsynced_for(&db, "m", 10).is_empty());
    assert_eq!(unsynced_for(&db, "n", 10), vec![session("s1", 100)]);
    assert!(unsynced_for(&db, "n", 0).is_empty());
}
