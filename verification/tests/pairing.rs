use timewise::model::{RegisterResponse, RegistrationStatus};
use timewise::pairing::{
    browse_wait_ms, note_address, url_of, ApprovalPoll, PollAction, MDNS_SERVICE_TYPE,
};
use timewise::sync::SyncError;

struct ApprovesOnNth {
    approve_on: usize,
    calls: usize,
}

impl ApprovesOnNth {
    fn register_status(&mut self) -> Result<RegisterResponse, SyncError> {
        self.calls += 1;
        Ok(if self.calls >= self.approve_on {
            RegisterResponse { status: RegistrationStatus::Approved, child_name: Some("Ada".into()) }
        } else {
            RegisterResponse { status: RegistrationStatus::Pending, child_name: None }
        })
    }
}

/// Polls to the end; returns the result and how often there was a pause.
fn poll_until_approved(
    client: &mut ApprovesOnNth,
    max_attempts: u32,
) -> (Result<RegisterResponse, SyncError>, usize) {
    let mut sleeps = 0;
    let (mut poll, mut action) = ApprovalPoll::begin(max_attempts);
    loop {
        match action {
            PollAction::Finish(result) => return (result, sleeps),
            PollAction::SleepThenAsk => sleeps += 1,
            PollAction::Ask => {}
        }
        action = poll.answered(client.register_status());
    }
}

#[test]
fn polls_until_approved() {
    let mut client = ApprovesOnNth { approve_on: 3, calls: 0 };
    let (resp, sleeps) = poll_until_approved(&mut client, 10);
    let resp = resp.unwrap();
    assert_eq!(resp.status, RegistrationStatus::Approved);
    assert_eq!(resp.child_name.as_deref(), Some("Ada"));
    assert_eq!(client.calls, 3);
    assert_eq!(sleeps, 2);
}

#[test]
fn gives_up_after_max_attempts_still_pending() {
    let mut client = ApprovesOnNth { approve_on: 100, calls: 0 };
    let (resp, sleeps) = poll_until_approved(&mut client, 4);
    assert_eq!(resp.unwrap().status, RegistrationStatus::Pending);
    assert_eq!(client.calls, 4);
    assert_eq!(sleeps, 3);
}

#[test]
fn no_attempts_no_questions() {
    let mut client = ApprovesOnNth { approve_on: 1, calls: 0 };
    let (resp, sleeps) = poll_until_approved(&mut client, 0);
    assert_eq!(resp.unwrap().status, RegistrationStatus::Pending);
    assert_eq!((client.calls, sleeps), (0, 0));
}

#[test]
fn an_error_ends_the_wait() {
    let (mut poll, action) = ApprovalPoll::begin(5);
    assert!(matches!(action, PollAction::Ask));
    let action = poll.answered(Err(SyncError::Http(401)));
    assert!(matches!(action, PollAction::Finish(Err(SyncError::Http(401)))));
}

#[test]
fn discovery_lists_each_master_once() {
    let mut urls = Vec::new();
    note_address(&mut urls, "192.168.1.10", true, 47820);
    note_address(&mut urls, "fe80::1", false, 47820);
    note_address(&mut urls, "192.168.1.10", true, 47820);
    note_address(&mut urls, "192.168.1.10", true, 80);
    assert_eq!(urls, ["http://192.168.1.10:47820", "http://192.168.1.10:80"]);
    assert_eq!(url_of("127.0.0.1", 0), "http://127.0.0.1:0");
    assert_eq!(url_of("h", u16::MAX), "http://h:65535");
    assert_eq!(MDNS_SERVICE_TYPE, "_timewise._tcp.local.");
}

#[test]
fn browsing_lasts_until_the_time_is_up() {
    assert_eq!(browse_wait_ms(4000, false), Some(200));
    assert_eq!(browse_wait_ms(200, false), Some(200));
    assert_eq!(browse_wait_ms(199, false), Some(199));
    assert_eq!(browse_wait_ms(1, false), Some(1));
    assert_eq!(browse_wait_ms(0, false), None);
    assert_eq!(browse_wait_ms(4000, true), None);
    // Nothing answers: the slices add up to the whole time.
    let (mut left, mut slices) = (4100, 0);
    while let Some(ms) = browse_wait_ms(left, false) {
        left -= ms;
        slices += 1;
    }
    assert_eq!((left, slices), (0, 21));
}
