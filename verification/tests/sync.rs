use timewise::config::MasterRegistration;
use timewise::model::{
    BatchAccepted, Category, ConfigResponse, GoalConfig, RegisterResponse, RegistrationStatus,
    SessionRecord, Thresholds, UsageTotals,
};
use timewise::store::worker as store;
use timewise::store::worker::WorkerDb;
use timewise::sync::{
    api_base, api_url, begin_when_due, check_status, conclude, Backoff, Cycle, CycleAction,
    CycleEvent, CycleOutcome, MasterSync, SyncError, BATCH_SIZE,
};

struct FakeClient {
    approved: bool,
    fail_config: bool,
    fail_upload: bool,
    posted: Vec<Vec<String>>,
    status_calls: usize,
}

impl FakeClient {
    fn new(approved: bool) -> Self {
        FakeClient {
            approved,
            fail_config: false,
            fail_upload: false,
            posted: Vec::new(),
            status_calls: 0,
        }
    }

    fn answer(&mut self, action: CycleAction) -> Result<CycleEvent, Result<CycleOutcome, SyncError>> {
        match action {
            CycleAction::CheckStatus => {
                self.status_calls += 1;
                Ok(CycleEvent::Status(Ok(RegisterResponse {
                    status: if self.approved {
                        RegistrationStatus::Approved
                    } else {
                        RegistrationStatus::Pending
                    },
                    child_name: None,
                })))
            }
            CycleAction::PullConfig => {
                if self.fail_config {
                    return Ok(CycleEvent::Config(Err(SyncError::Transport("master down".into()))));
                }
                Ok(CycleEvent::Config(Ok(ConfigResponse {
                    rules: vec![],
                    overrides: vec![],
                    goal: GoalConfig::default(),
                    thresholds: Thresholds::default(),
                    usage: UsageTotals::default(),
                    break_prompt_after_min: 40,
                    points_balance: 0,
                })))
            }
            CycleAction::Upload(batch) => {
                if self.fail_upload {
                    return Ok(CycleEvent::Uploaded(Err(SyncError::Http(503))));
                }
                self.posted.push(batch.sessions.iter().map(|s| s.id.clone()).collect());
                Ok(CycleEvent::Uploaded(Ok(BatchAccepted { accepted: batch.sessions.len() })))
            }
            CycleAction::Finish(result) => Err(result),
        }
    }

    fn drive(
        &mut self,
        db: &mut WorkerDb,
        m: &mut MasterSync,
        begun: (Cycle, CycleAction),
        now: i64,
    ) -> Result<CycleOutcome, SyncError> {
        let (mut cycle, mut action) = begun;
        loop {
            match self.answer(action) {
                Ok(event) => action = cycle.step(db, m, now, event),
                Err(result) => return result,
            }
        }
    }

    fn run_cycle(
        &mut self,
        db: &mut WorkerDb,
        m: &mut MasterSync,
        now: i64,
    ) -> Result<CycleOutcome, SyncError> {
        let begun = Cycle::begin(m);
        self.drive(db, m, begun, now)
    }

    fn run_cycle_with_backoff(
        &mut self,
        db: &mut WorkerDb,
        m: &mut MasterSync,
        now: i64,
    ) -> Option<Result<CycleOutcome, SyncError>> {
        let begun = begin_when_due(m, now)?;
        let result = self.drive(db, m, begun, now);
        conclude(m, result.is_ok(), now);
        Some(result)
    }
}

fn setup() -> WorkerDb {
    WorkerDb::new()
}

fn reg(url: &str) -> MasterRegistration {
    MasterRegistration { base_url: url.into(), token: "tok".into() }
}

fn buffer_session(db: &mut WorkerDb, id: &str, start: i64) {
    store::buffer_insert(db, &SessionRecord {
        id: id.into(),
        app_name: "App".into(),
        window_title: "Win".into(),
        category: Category::Other,
        start_ts: start,
        end_ts: start + 60,
        duration_s: 60,
    });
}

fn unsynced_len(db: &WorkerDb, url: &str) -> usize {
    store::unsynced_for(db, url, 10).len()
}

#[test]
fn br8_nothing_uploads_before_approval() {
    let mut db = setup();
    buffer_session(&mut db, "s1", 100);
    let mut client = FakeClient::new(false);
    let mut m = MasterSync::new(reg("http://m1"));
    let out = client.run_cycle(&mut db, &mut m, 1000).unwrap();
    assert_eq!(out, CycleOutcome::PendingApproval);
    assert!(client.posted.is_empty());
    assert_eq!(unsynced_len(&db, "http://m1"), 1);
}

#[test]
fn approval_then_backlog_flows_and_marks() {
    let mut db = setup();
    for i in 0..3 {
        buffer_session(&mut db, &format!("s{i}"), 100 + i * 60);
    }
    let mut client = FakeClient::new(true);
    let mut m = MasterSync::new(reg("http://m1"));
    let out = client.run_cycle(&mut db, &mut m, 1000).unwrap();
    assert_eq!(out, CycleOutcome::Synced { uploaded: 3 });
    assert!(m.last_config.is_some());
    assert_eq!(unsynced_len(&db, "http://m1"), 0);
    // Second cycle: nothing left, no posts.
    let before = client.posted.len();
    let out = client.run_cycle(&mut db, &mut m, 1060).unwrap();
    assert_eq!(out, CycleOutcome::Synced { uploaded: 0 });
    assert_eq!(client.posted.len(), before);
}

#[test]
fn br7_failure_backs_off_independently() {
    let mut db = setup();
    let mut client = FakeClient::new(true);
    client.fail_config = true;
    let mut m = MasterSync::new(reg("http://m1"));

    // First attempt runs immediately (default backoff is due).
    let r = client.run_cycle_with_backoff(&mut db, &mut m, 1000);
    assert!(matches!(r, Some(Err(_))));
    assert!(!m.backoff.due(1000 + 29));
    assert!(m.backoff.due(1000 + 30));
    assert_eq!(Backoff::delay_after_failures(0), 30);
    assert_eq!(Backoff::delay_after_failures(1), 60);
    assert_eq!(Backoff::delay_after_failures(2), 120);
    assert_eq!(Backoff::delay_after_failures(10), 900); // capped

    // A different master is unaffected.
    let m2 = MasterSync::new(reg("http://m2"));
    assert!(m2.backoff.due(1000));
}

#[test]
fn backoff_resets_on_success() {
    let mut db = setup();
    let mut client = FakeClient::new(true);
    let mut m = MasterSync::new(reg("http://m1"));
    m.backoff.on_failure(1000);
    m.backoff.on_failure(1030);
    assert!(m.backoff.due(1030 + 60));
    client.fail_config = false;
    let r = client.run_cycle_with_backoff(&mut db, &mut m, 1090);
    assert!(matches!(r, Some(Ok(_))));
    assert!(m.backoff.due(1090)); // reset: immediately due for next regular cycle
}

#[test]
fn delays_double_up_to_the_cap() {
    let mut b = Backoff::default();
    assert!(b.due(i64::MIN));
    for delay in [30, 60, 120, 240, 480, 900, 900, 900] {
        b.on_failure(10_000);
        assert!(!b.due(10_000 + delay - 1));
        assert!(b.due(10_000 + delay));
    }
    b.on_success();
    assert!(b.due(i64::MIN));
    assert_eq!(Backoff::delay_after_failures(4), 480);
    assert_eq!(Backoff::delay_after_failures(5), 900);
    assert_eq!(Backoff::delay_after_failures(u32::MAX), 900);
}

#[test]
fn a_master_that_is_not_due_is_left_alone() {
    let mut db = setup();
    let mut client = FakeClient::new(true);
    let mut m = MasterSync::new(reg("http://m1"));
    m.backoff.on_failure(1000);
    assert!(client.run_cycle_with_backoff(&mut db, &mut m, 1029).is_none());
    assert_eq!(client.status_calls, 0);
}

#[test]
fn large_backlogs_go_in_batches_oldest_first() {
    let mut db = setup();
    let total = BATCH_SIZE * 2 + 5;
    for i in 0..total {
        buffer_session(&mut db, &format!("s{i}"), (total - i) as i64);
    }
    let mut client = FakeClient::new(true);
    let mut m = MasterSync::new(reg("http://m1"));
    let out = client.run_cycle(&mut db, &mut m, 1000).unwrap();
    assert_eq!(out, CycleOutcome::Synced { uploaded: total });
    let sizes: Vec<usize> = client.posted.iter().map(|b| b.len()).collect();
    assert_eq!(sizes, [BATCH_SIZE, BATCH_SIZE, 5]);
    assert_eq!(client.posted[0][0], format!("s{}", total - 1));
    assert_eq!(client.posted[2][4], "s0");
    assert_eq!(unsynced_len(&db, "http://m2"), 10);
}

#[test]
fn a_failed_upload_marks_nothing() {
    let mut db = setup();
    buffer_session(&mut db, "s1", 100);
    let mut client = FakeClient::new(true);
    client.fail_upload = true;
    let mut m = MasterSync::new(reg("http://m1"));
    let r = client.run_cycle(&mut db, &mut m, 1000);
    assert_eq!(r, Err(SyncError::Http(503)));
    assert_eq!(unsynced_len(&db, "http://m1"), 1);
    assert!(m.approved);
    // The next cycle need not ask for the status again.
    client.fail_upload = false;
    let calls = client.status_calls;
    assert_eq!(client.run_cycle(&mut db, &mut m, 1030), Ok(CycleOutcome::Synced { uploaded: 1 }));
    assert_eq!(client.status_calls, calls);
}

#[test]
fn an_error_of_the_status_check_ends_the_cycle() {
    let mut db = setup();
    let mut m = MasterSync::new(reg("http://m1"));
    let (mut cycle, action) = Cycle::begin(&m);
    assert!(matches!(action, CycleAction::CheckStatus));
    let action = cycle.step(&mut db, &mut m, 1, CycleEvent::Status(Err(SyncError::Http(401))));
    assert!(matches!(action, CycleAction::Finish(Err(SyncError::Http(401)))));
    assert!(!m.approved);
}

#[test]
fn addresses_and_statuses() {
    assert_eq!(api_base("http://h:1///"), "http://h:1");
    assert_eq!(api_base("///"), "");
    assert_eq!(api_url("http://h:1/", "/register/status"), "http://h:1/api/v1/register/status");
    assert_eq!(check_status(200), Ok(()));
    assert_eq!(check_status(204), Ok(()));
    assert_eq!(check_status(299), Ok(()));
    assert_eq!(check_status(199), Err(SyncError::Http(199)));
    assert_eq!(check_status(300), Err(SyncError::Http(300)));
    assert_eq!(check_status(403), Err(SyncError::Http(403)));
}
