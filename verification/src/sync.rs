//! Synchronization with one master: status check, configuration pull, upload
//! of the backlog in batches, and exponential backoff after failures. Each
//! master has a state of its own.
//!
//! A cycle is a state machine: it says what to ask the master next, and takes
//! the answer.
use crate::config::{MasterRegistration, RegistrationView};
use crate::model::{
    BatchAccepted, BatchUpload, ConfigResponse, ConfigResponseView, RegisterResponse,
    RegistrationStatus, SessionRecord, SessionView,
};
use crate::seqs::{
    distinct, lemma_distinct_permuted, lemma_filter_contains, lemma_permuted_contains,
    lemma_sum_permuted, opt_view, sorted_copy, sum, views, Ordered,
};
use crate::store::worker::{
    backlog_is_what_has_no_mark, backlogs_are_independent, mark_synced, marking_adds_its_sessions,
    marking_shrinks_the_backlog, new_marks_bear_the_time, unsynced, unsynced_for, with_marks,
    WorkerDb, WorkerTables,
};
use crate::timeutil::fits_i64;
use vstd::arithmetic::power2::{lemma2_to64, pow2};
use vstd::prelude::*;
use vstd::string::*;

verus! {

pub const BATCH_SIZE: usize = 200;

pub const BACKOFF_BASE_S: i64 = 30;

pub const BACKOFF_CAP_S: i64 = 900;

#[derive(Debug, PartialEq)]
pub enum SyncError {
    /// The master answered with a status that is not a success.
    Http(u16),
    /// The master could not be reached, or its answer could not be read.
    Transport(String),
}

// ---- Requests ----
/// A text without the slashes at its end.
pub open spec fn without_slashes(s: Seq<char>) -> Seq<char>
    decreases s.len(),
{
    if s.len() > 0 && s.last() == '/' {
        without_slashes(s.drop_last())
    } else {
        s
    }
}

/// The address of an endpoint of a master.
pub open spec fn endpoint(base_url: Seq<char>, path: Seq<char>) -> Seq<char> {
    without_slashes(base_url) + "/api/v1"@ + path
}

/// The address under which a master is called.
pub fn api_base(base_url: &str) -> (res: String)
    ensures
        res@ == without_slashes(base_url@),
{
    let mut n: usize = base_url.unicode_len();
    assert(base_url@.take(base_url@.len() as int) =~= base_url@);
    while n > 0 && base_url.get_char(n - 1) == '/'
        invariant
            n <= base_url@.len(),
            without_slashes(base_url@.take(n as int)) == without_slashes(base_url@),
        decreases n,
    {
        assert(base_url@.take(n as int).drop_last() =~= base_url@.take(n - 1));
        n -= 1;
    }
    let res = base_url.substring_char(0, n).to_owned();
    assert(res@ =~= base_url@.take(n as int));
    res
}

pub fn api_url(base_url: &str, path: &str) -> (res: String)
    ensures
        res@ == endpoint(base_url@, path@),
{
    api_base(base_url).concat("/api/v1").concat(path)
}

/// Whether a status means success.
pub open spec fn is_success(status: u16) -> bool {
    200 <= status < 300
}

/// A status that is not a success is an error.
pub fn check_status(status: u16) -> (res: Result<(), SyncError>)
    ensures
        res == if is_success(status) {
            Ok(())
        } else {
            Err(SyncError::Http(status))
        },
{
    if 200 <= status && status < 300 {
        Ok(())
    } else {
        Err(SyncError::Http(status))
    }
}

// ---- Backoff ----
/// How long to wait after a failure, and from when on to try again.
#[derive(Debug, Clone, Copy)]
pub struct Backoff {
    failures: u32,
    next_attempt_at: i64,
}

pub struct BackoffView {
    pub failures: u32,
    pub next_attempt_at: i64,
}

impl View for Backoff {
    type V = BackoffView;

    closed spec fn view(&self) -> BackoffView {
        BackoffView { failures: self.failures, next_attempt_at: self.next_attempt_at }
    }
}

/// No failure so far; an attempt is due at any time.
pub open spec fn rested() -> BackoffView {
    BackoffView { failures: 0, next_attempt_at: i64::MIN }
}

/// The delay after a failure that follows so many others: it doubles each
/// time, up to the cap.
pub open spec fn backoff_delay(failures: u32) -> int {
    let d = BACKOFF_BASE_S * pow2(
        if failures < 5 {
            failures as nat
        } else {
            5
        },
    );
    if d < BACKOFF_CAP_S {
        d
    } else {
        BACKOFF_CAP_S as int
    }
}

/// The state after a failure.
pub open spec fn failed(b: BackoffView, now: i64) -> BackoffView {
    BackoffView {
        failures: if b.failures < 5 {
            (b.failures + 1) as u32
        } else {
            6
        },
        next_attempt_at: (now + backoff_delay(b.failures)) as i64,
    }
}

impl Default for Backoff {
    fn default() -> (res: Self)
        ensures
            res@ == rested(),
    {
        Backoff { failures: 0, next_attempt_at: i64::MIN }
    }
}

impl Backoff {
    /// Whether an attempt may be made.
    pub fn due(&self, now: i64) -> (yes: bool)
        ensures
            yes == (now >= self@.next_attempt_at),
    {
        now >= self.next_attempt_at
    }

    /// Whether the last attempt failed.
    pub fn failing(&self) -> (yes: bool)
        ensures
            yes == (self@.failures > 0),
    {
        self.failures > 0
    }

    pub fn on_success(&mut self)
        ensures
            final(self)@ == rested(),
    {
        self.failures = 0;
        self.next_attempt_at = i64::MIN;
    }

    /// Waits 30, 60, 120, 240, 480 seconds, then 15 minutes each time.
    pub fn on_failure(&mut self, now: i64)
        requires
            fits_i64(now + backoff_delay(old(self)@.failures)),
        ensures
            final(self)@ == failed(old(self)@, now),
    {
        let delay = Backoff::delay_after_failures(self.failures);
        self.failures = if self.failures < 5 {
            self.failures + 1
        } else {
            6
        };
        self.next_attempt_at = now + delay;
    }

    pub fn delay_after_failures(failures: u32) -> (delay: i64)
        ensures
            delay == backoff_delay(failures),
    {
        proof {
            lemma2_to64();
        }
        match failures {
            0 => 30,
            1 => 60,
            2 => 120,
            3 => 240,
            4 => 480,
            _ => BACKOFF_CAP_S,
        }
    }
}

// ---- State of one master ----
#[derive(Debug)]
pub struct MasterSync {
    pub registration: MasterRegistration,
    pub approved: bool,
    pub backoff: Backoff,
    pub last_config: Option<ConfigResponse>,
}

pub struct MasterSyncView {
    pub registration: RegistrationView,
    pub approved: bool,
    pub backoff: BackoffView,
    pub last_config: Option<ConfigResponseView>,
}

impl View for MasterSync {
    type V = MasterSyncView;

    open spec fn view(&self) -> MasterSyncView {
        MasterSyncView {
            registration: self.registration@,
            approved: self.approved,
            backoff: self.backoff@,
            last_config: opt_view(self.last_config),
        }
    }
}

impl MasterSync {
    pub fn new(registration: MasterRegistration) -> (res: Self)
        ensures
            res@ == (MasterSyncView {
                registration: registration@,
                approved: false,
                backoff: rested(),
                last_config: None,
            }),
    {
        MasterSync { registration, approved: false, backoff: Backoff::default(), last_config: None }
    }
}

// ---- Cycle ----
#[derive(Debug, Clone, Copy, PartialEq, Eq, Structural)]
pub enum CycleOutcome {
    PendingApproval,
    Synced { uploaded: usize },
}

/// What to ask the master next, or how the cycle ended.
#[derive(Debug)]
pub enum CycleAction {
    CheckStatus,
    PullConfig,
    Upload(BatchUpload),
    Finish(Result<CycleOutcome, SyncError>),
}

/// What the master answered.
#[derive(Debug)]
pub enum CycleEvent {
    Status(Result<RegisterResponse, SyncError>),
    Config(Result<ConfigResponse, SyncError>),
    Uploaded(Result<BatchAccepted, SyncError>),
}

#[derive(Debug, Clone, Copy, PartialEq, Eq, Structural)]
pub enum CycleStage {
    AwaitingStatus,
    AwaitingConfig,
    AwaitingUpload,
    Done,
}

/// One cycle in progress: what it waits for, how many sessions it has
/// uploaded, and which are on their way.
#[derive(Debug)]
pub struct Cycle {
    stage: CycleStage,
    uploaded: usize,
    in_flight: Vec<String>,
}

pub struct CycleView {
    pub stage: CycleStage,
    pub uploaded: usize,
    pub in_flight: Seq<Seq<char>>,
}

impl View for Cycle {
    type V = CycleView;

    closed spec fn view(&self) -> CycleView {
        CycleView {
            stage: self.stage,
            uploaded: self.uploaded,
            in_flight: views(self.in_flight@),
        }
    }
}

/// The ids of sessions.
pub open spec fn ids_of(sessions: Seq<SessionView>) -> Seq<Seq<char>> {
    sessions.map_values(|s: SessionView| s.id)
}

/// A batch: the oldest sessions that the master has not received, as many as
/// fit.
pub open spec fn is_batch(t: WorkerTables, url: Seq<char>, batch: Seq<SessionView>) -> bool {
    exists|all: Seq<SessionView>| #[trigger]
        sorted_copy::<SessionRecord>(all, unsynced(t, url)) && batch == all.take(
            if BATCH_SIZE < all.len() {
                BATCH_SIZE as int
            } else {
                all.len() as int
            },
        )
}

/// The answer is to what was asked.
pub open spec fn expects(c: CycleView, event: CycleEvent) -> bool {
    match event {
        CycleEvent::Status(_) => c.stage == CycleStage::AwaitingStatus,
        CycleEvent::Config(_) => c.stage == CycleStage::AwaitingConfig,
        CycleEvent::Uploaded(_) => c.stage == CycleStage::AwaitingUpload && c.uploaded
            + c.in_flight.len() <= usize::MAX,
    }
}

/// The master after an answer: an approval is remembered, and so is a
/// configuration.
pub open spec fn informed(m: MasterSyncView, event: CycleEvent) -> MasterSyncView {
    match event {
        CycleEvent::Status(Ok(r)) => MasterSyncView {
            approved: r.status == RegistrationStatus::Approved || m.approved,
            ..m
        },
        CycleEvent::Config(Ok(c)) => MasterSyncView { last_config: Some(c@), ..m },
        _ => m,
    }
}

/// The buffer after an answer: sessions that the master has accepted are
/// marked, for this master only.
pub open spec fn settled(
    t: WorkerTables,
    c: CycleView,
    url: Seq<char>,
    event: CycleEvent,
    now: i64,
) -> WorkerTables {
    match event {
        CycleEvent::Uploaded(Ok(_)) => WorkerTables {
            synced: with_marks(t.synced, url, c.in_flight, now),
            ..t
        },
        _ => t,
    }
}

/// How many sessions are uploaded after an answer.
pub open spec fn uploaded_after(c: CycleView, event: CycleEvent) -> int {
    match event {
        CycleEvent::Uploaded(Ok(_)) => c.uploaded + c.in_flight.len(),
        _ => c.uploaded as int,
    }
}

/// The error of an answer, if it is one.
pub open spec fn failure(event: CycleEvent) -> Option<SyncError> {
    match event {
        CycleEvent::Status(Err(e)) => Some(e),
        CycleEvent::Config(Err(e)) => Some(e),
        CycleEvent::Uploaded(Err(e)) => Some(e),
        _ => None,
    }
}

/// What follows an answer, given the buffer after it: an error ends the
/// cycle, as does a missing approval; after the approval the configuration is
/// pulled, and then batches are uploaded until nothing is left.
pub open spec fn follows(
    c: CycleView,
    t: WorkerTables,
    url: Seq<char>,
    event: CycleEvent,
    after: CycleView,
    action: CycleAction,
) -> bool {
    match failure(event) {
        Some(e) => action == CycleAction::Finish(Err(e)) && after == (CycleView {
            stage: CycleStage::Done,
            in_flight: Seq::empty(),
            ..c
        }),
        None => match event {
            CycleEvent::Status(Ok(r)) => if r.status == RegistrationStatus::Approved {
                action == CycleAction::PullConfig && after == (CycleView {
                    stage: CycleStage::AwaitingConfig,
                    ..c
                })
            } else {
                action == CycleAction::Finish(Ok(CycleOutcome::PendingApproval)) && after == (
                CycleView { stage: CycleStage::Done, ..c })
            },
            _ => {
                &&& after.uploaded == uploaded_after(c, event)
                &&& match action {
                    CycleAction::Upload(batch) => {
                        &&& is_batch(t, url, views(batch.sessions@))
                        &&& batch.sessions@.len() > 0
                        &&& after.stage == CycleStage::AwaitingUpload
                        &&& after.in_flight == ids_of(views(batch.sessions@))
                    },
                    CycleAction::Finish(Ok(CycleOutcome::Synced { uploaded })) => {
                        &&& uploaded == after.uploaded
                        &&& unsynced(t, url).len() == 0
                        &&& after.stage == CycleStage::Done
                        &&& after.in_flight == Seq::<Seq<char>>::empty()
                    },
                    _ => false,
                }
            },
        },
    }
}

impl Cycle {
    /// Begins a cycle. A master that has not approved the worker yet is asked
    /// for the status first.
    pub fn begin(master: &MasterSync) -> (res: (Cycle, CycleAction))
        ensures
            res.0@ == (CycleView {
                stage: if master.approved {
                    CycleStage::AwaitingConfig
                } else {
                    CycleStage::AwaitingStatus
                },
                uploaded: 0,
                in_flight: Seq::empty(),
            }),
            res.1 == if master.approved {
                CycleAction::PullConfig
            } else {
                CycleAction::CheckStatus
            },
    {
        let stage = if master.approved {
            CycleStage::AwaitingConfig
        } else {
            CycleStage::AwaitingStatus
        };
        let action = if master.approved {
            CycleAction::PullConfig
        } else {
            CycleAction::CheckStatus
        };
        let cycle = Cycle { stage, uploaded: 0, in_flight: Vec::new() };
        assert(cycle@.in_flight =~= Seq::<Seq<char>>::empty());
        (cycle, action)
    }

    fn next_batch(&mut self, db: &WorkerDb, url: &str) -> (action: CycleAction)
        requires
            db.wf(),
        ensures
            final(self)@.uploaded == old(self)@.uploaded,
            match action {
                CycleAction::Upload(batch) => {
                    &&& is_batch(db@, url@, views(batch.sessions@))
                    &&& batch.sessions@.len() > 0
                    &&& final(self)@.stage == CycleStage::AwaitingUpload
                    &&& final(self)@.in_flight == ids_of(views(batch.sessions@))
                },
                CycleAction::Finish(Ok(CycleOutcome::Synced { uploaded })) => {
                    &&& uploaded == final(self)@.uploaded
                    &&& unsynced(db@, url@).len() == 0
                    &&& final(self)@.stage == CycleStage::Done
                    &&& final(self)@.in_flight == Seq::<Seq<char>>::empty()
                },
                _ => false,
            },
    {
        let sessions = unsynced_for(db, url, BATCH_SIZE);
        if sessions.len() == 0 {
            proof {
                let all = choose|all: Seq<SessionView>| #[trigger]
                    sorted_copy::<SessionRecord>(all, unsynced(db@, url@)) && views(sessions@)
                        == all.take(
                        if BATCH_SIZE < all.len() {
                            BATCH_SIZE as int
                        } else {
                            all.len() as int
                        },
                    );
                assert(views(sessions@).len() == 0);
                vstd::seq_lib::to_multiset_len(all);
                vstd::seq_lib::to_multiset_len(unsynced(db@, url@));
            }
            self.stage = CycleStage::Done;
            self.in_flight = Vec::new();
            assert(self@.in_flight =~= Seq::<Seq<char>>::empty());
            return CycleAction::Finish(Ok(CycleOutcome::Synced { uploaded: self.uploaded }));
        }
        let mut ids: Vec<String> = Vec::new();
        let mut i: usize = 0;
        while i < sessions.len()
            invariant
                i <= sessions.len(),
                views(ids@) == ids_of(views(sessions@)).take(i as int),
            decreases sessions.len() - i,
        {
            let id = sessions[i].id.clone();
            proof {
                crate::seqs::lemma_views_push(ids@, id);
                assert(ids_of(views(sessions@)).take(i + 1) =~= ids_of(views(sessions@)).take(
                    i as int,
                ).push(id@));
            }
            ids.push(id);
            i += 1;
        }
        assert(views(ids@) =~= ids_of(views(sessions@)));
        self.stage = CycleStage::AwaitingUpload;
        self.in_flight = ids;
        CycleAction::Upload(BatchUpload { sessions })
    }

    fn stop(&mut self, e: SyncError) -> (action: CycleAction)
        ensures
            action == CycleAction::Finish(Err(e)),
            final(self)@ == (CycleView {
                stage: CycleStage::Done,
                in_flight: Seq::empty(),
                ..old(self)@
            }),
    {
        self.stage = CycleStage::Done;
        self.in_flight = Vec::new();
        assert(self@.in_flight =~= Seq::<Seq<char>>::empty());
        CycleAction::Finish(Err(e))
    }

    /// Takes an answer of the master and says what follows.
    pub fn step(
        &mut self,
        db: &mut WorkerDb,
        master: &mut MasterSync,
        now: i64,
        event: CycleEvent,
    ) -> (action: CycleAction)
        requires
            old(db).wf(),
            expects(old(self)@, event),
        ensures
            final(db).wf(),
            final(master)@ == informed(old(master)@, event),
            final(db)@ == settled(
                old(db)@,
                old(self)@,
                old(master)@.registration.base_url,
                event,
                now,
            ),
            follows(
                old(self)@,
                final(db)@,
                old(master)@.registration.base_url,
                event,
                final(self)@,
                action,
            ),
    {
        match event {
            CycleEvent::Status(answer) => match answer {
                Err(e) => self.stop(e),
                Ok(r) => {
                    if r.status == RegistrationStatus::Approved {
                        master.approved = true;
                        self.stage = CycleStage::AwaitingConfig;
                        CycleAction::PullConfig
                    } else {
                        self.stage = CycleStage::Done;
                        CycleAction::Finish(Ok(CycleOutcome::PendingApproval))
                    }
                },
            },
            CycleEvent::Config(answer) => match answer {
                Err(e) => self.stop(e),
                Ok(c) => {
                    master.last_config = Some(c);
                    self.next_batch(db, master.registration.base_url.as_str())
                },
            },
            CycleEvent::Uploaded(answer) => match answer {
                Err(e) => self.stop(e),
                Ok(_) => {
                    mark_synced(
                        db,
                        master.registration.base_url.as_str(),
                        self.in_flight.as_slice(),
                        now,
                    );
                    self.uploaded = self.uploaded + self.in_flight.len();
                    self.next_batch(db, master.registration.base_url.as_str())
                },
            },
        }
    }
}

/// Begins a cycle if the backoff of the master allows one.
pub fn begin_when_due(master: &MasterSync, now: i64) -> (res: Option<(Cycle, CycleAction)>)
    ensures
        res is Some <==> now >= master@.backoff.next_attempt_at,
        res matches Some(c) ==> c.0@ == (CycleView {
            stage: if master.approved {
                CycleStage::AwaitingConfig
            } else {
                CycleStage::AwaitingStatus
            },
            uploaded: 0,
            in_flight: Seq::empty(),
        }) && c.1 == if master.approved {
            CycleAction::PullConfig
        } else {
            CycleAction::CheckStatus
        },
{
    if master.backoff.due(now) {
        Some(Cycle::begin(master))
    } else {
        None
    }
}

/// Notes how a cycle with a master ended, in the backoff of this master.
pub fn conclude(master: &mut MasterSync, succeeded: bool, now: i64)
    requires
        !succeeded ==> fits_i64(now + backoff_delay(old(master)@.backoff.failures)),
    ensures
        final(master)@ == (MasterSyncView {
            backoff: if succeeded {
                rested()
            } else {
                failed(old(master)@.backoff, now)
            },
            ..old(master)@
        }),
{
    if succeeded {
        master.backoff.on_success();
    } else {
        master.backoff.on_failure(now);
    }
}

// ---- Laws ----
/// The delay begins at half a minute, doubles with each failure, and stays at
/// a quarter of an hour once it is there.
pub proof fn delay_doubles_up_to_the_cap(failures: u32)
    requires
        failures < u32::MAX,
    ensures
        BACKOFF_BASE_S <= backoff_delay(failures) <= BACKOFF_CAP_S,
        backoff_delay(0) == BACKOFF_BASE_S,
        backoff_delay((failures + 1) as u32) == if 2 * backoff_delay(failures) < BACKOFF_CAP_S {
            2 * backoff_delay(failures)
        } else {
            BACKOFF_CAP_S as int
        },
{
    lemma2_to64();
    if failures < 5 {
        assert(failures == 0 || failures == 1 || failures == 2 || failures == 3 || failures == 4);
    }
}

/// After a failure an attempt is due once the delay has passed and not
/// before; after a success it is due at once.
pub proof fn due_after_the_delay(b: BackoffView, now: i64, then: i64)
    requires
        fits_i64(now + backoff_delay(b.failures)),
    ensures
        then >= failed(b, now).next_attempt_at <==> then - now >= backoff_delay(b.failures),
        then >= rested().next_attempt_at,
{
}

/// The state of a cycle goes with that of its master: beyond the status check
/// the master has approved.
pub open spec fn sound(c: CycleView, m: MasterSyncView) -> bool {
    c.stage == CycleStage::AwaitingConfig || c.stage == CycleStage::AwaitingUpload ==> m.approved
}

/// Nothing is uploaded before the approval: a cycle begins sound, stays so
/// with every answer, and asks for an upload only if the master has approved.
pub proof fn nothing_uploads_before_approval(
    c: CycleView,
    m: MasterSyncView,
    t: WorkerTables,
    event: CycleEvent,
    after: CycleView,
    action: CycleAction,
)
    requires
        sound(c, m),
        expects(c, event),
        follows(c, t, m.registration.base_url, event, after, action),
    ensures
        sound(after, informed(m, event)),
        action is Upload ==> informed(m, event).approved,
        !m.approved && !informed(m, event).approved ==> action is Finish,
{
}

/// An answer of one master changes nothing in the backlog of another.
pub proof fn masters_are_independent(
    t: WorkerTables,
    c: CycleView,
    url: Seq<char>,
    event: CycleEvent,
    now: i64,
    other: Seq<char>,
)
    requires
        other != url,
    ensures
        unsynced(settled(t, c, url, event, now), other) == unsynced(t, other),
{
    backlogs_are_independent(t, url, c.in_flight, now, other);
}

/// A failure changes neither the buffer nor what is known of the master.
pub proof fn failure_changes_nothing(
    t: WorkerTables,
    c: CycleView,
    m: MasterSyncView,
    url: Seq<char>,
    event: CycleEvent,
    now: i64,
)
    requires
        failure(event) is Some,
    ensures
        settled(t, c, url, event, now) == t,
        informed(m, event) == m,
{
}

proof fn lemma_filter_len<T>(s: Seq<T>, p: spec_fn(T) -> bool, f: spec_fn(T) -> int)
    requires
        forall|x: T| #[trigger]
            f(x) == if p(x) {
                1int
            } else {
                0
            },
    ensures
        s.filter(p).len() == sum(s, f),
    decreases s.len(),
{
    reveal(Seq::filter);
    if s.len() > 0 {
        lemma_filter_len(s.drop_last(), p, f);
        assert(f(s.last()) == if p(s.last()) {
            1int
        } else {
            0
        });
    }
}

proof fn lemma_sum_split<T>(s: Seq<T>, f: spec_fn(T) -> int, n: int)
    requires
        0 <= n <= s.len(),
        forall|i: int| 0 <= i < n ==> f(#[trigger] s[i]) == 0,
        forall|i: int| n <= i < s.len() ==> f(#[trigger] s[i]) == 1,
    ensures
        sum(s, f) == s.len() - n,
    decreases s.len(),
{
    if s.len() > 0 {
        let front = s.drop_last();
        let k = s.len() - 1;
        if n == s.len() {
            assert(f(s[k]) == 0);
            lemma_sum_split(front, f, k);
        } else {
            assert(f(s[k]) == 1);
            lemma_sum_split(front, f, n);
        }
    }
}

/// An accepted batch leaves the backlog, no more and no less: the sessions
/// that were uploaded and those that remain always add up to the same.
pub proof fn uploads_account_for_the_backlog(
    t: WorkerTables,
    c: CycleView,
    url: Seq<char>,
    batch: Seq<SessionView>,
    accepted: BatchAccepted,
    now: i64,
)
    requires
        distinct(t.sessions, |s: SessionView| s.id),
        is_batch(t, url, batch),
        c.in_flight == ids_of(batch),
    ensures
        ({
            let event = CycleEvent::Uploaded(Ok(accepted));
            let after = settled(t, c, url, event, now);
            &&& unsynced(after, url).len() == unsynced(t, url).len() - batch.len()
            &&& uploaded_after(c, event) + unsynced(after, url).len() == c.uploaded + unsynced(
                t,
                url,
            ).len()
        }),
{
    let ids = c.in_flight;
    let backlog = unsynced(t, url);
    let r = |s: SessionView| !ids.contains(s.id);
    let f = |s: SessionView|
        if r(s) {
            1int
        } else {
            0
        };
    let key = |s: SessionView| s.id;
    marking_shrinks_the_backlog(t, url, ids, now);
    let all = choose|all: Seq<SessionView>| #[trigger]
        sorted_copy::<SessionRecord>(all, backlog) && batch == all.take(
            if BATCH_SIZE < all.len() {
                BATCH_SIZE as int
            } else {
                all.len() as int
            },
        );
    vstd::seq_lib::to_multiset_len(all);
    vstd::seq_lib::to_multiset_len(backlog);
    lemma_filter_distinct(t.sessions, |s: SessionView| !t.synced.contains_key((url, s.id)), key);
    lemma_distinct_permuted(backlog, all, key);
    lemma_filter_len(backlog, r, f);
    lemma_sum_permuted(backlog, all, f);
    let n = batch.len() as int;
    assert forall|i: int| 0 <= i < n implies f(#[trigger] all[i]) == 0 by {
        assert(ids[i] == all[i].id);
    }
    assert forall|i: int| n <= i < all.len() implies f(#[trigger] all[i]) == 1 by {
        if ids.contains(all[i].id) {
            let j = choose|j: int| 0 <= j < ids.len() && ids[j] == all[i].id;
            assert(all[j].id == ids[j]);
            assert(key(all[i]) != key(all[j]));
        }
    }
    lemma_sum_split(all, f, n);
}

/// What a cycle has uploaded and what the master still lacks add up to
/// `backlog`, and what is on its way is a batch of what it lacks.
pub open spec fn accounts_for(c: CycleView, t: WorkerTables, url: Seq<char>, backlog: int) -> bool {
    &&& distinct(t.sessions, |s: SessionView| s.id)
    &&& c.uploaded + unsynced(t, url).len() == backlog
    &&& c.stage == CycleStage::AwaitingUpload ==> exists|batch: Seq<SessionView>| #[trigger]
        is_batch(t, url, batch) && c.in_flight == ids_of(batch)
}

/// A cycle that meets no failure keeps the account with every answer, and
/// when it ends it has uploaded exactly the backlog that it began with.
pub proof fn cycle_uploads_the_backlog(
    c: CycleView,
    t: WorkerTables,
    url: Seq<char>,
    event: CycleEvent,
    now: i64,
    after: CycleView,
    action: CycleAction,
    backlog: int,
)
    requires
        expects(c, event),
        failure(event) is None,
        accounts_for(c, t, url, backlog),
        follows(c, settled(t, c, url, event, now), url, event, after, action),
    ensures
        accounts_for(after, settled(t, c, url, event, now), url, backlog),
        action matches CycleAction::Finish(Ok(CycleOutcome::Synced { uploaded })) ==> uploaded
            == backlog,
{
    if let CycleEvent::Uploaded(Ok(accepted)) = event {
        let batch = choose|batch: Seq<SessionView>| #[trigger]
            is_batch(t, url, batch) && c.in_flight == ids_of(batch);
        uploads_account_for_the_backlog(t, c, url, batch, accepted, now);
    }
}

proof fn lemma_filter_distinct<T, K>(s: Seq<T>, p: spec_fn(T) -> bool, key: spec_fn(T) -> K)
    requires
        distinct(s, key),
    ensures
        distinct(s.filter(p), key),
    decreases s.len(),
{
    reveal(Seq::filter);
    if s.len() > 0 {
        let front = s.drop_last();
        assert forall|i: int, j: int|
            0 <= i < front.len() && 0 <= j < front.len() && i != j implies key(
            #[trigger] front[i],
        ) != key(#[trigger] front[j]) by {
            assert(key(s[i]) != key(s[j]));
        }
        lemma_filter_distinct(front, p, key);
        let kept = front.filter(p);
        let all = s.filter(p);
        assert forall|i: int, j: int|
            0 <= i < all.len() && 0 <= j < all.len() && i != j implies key(#[trigger] all[i])
            != key(#[trigger] all[j]) by {
            if i < kept.len() && j < kept.len() {
                assert(key(kept[i]) != key(kept[j]));
            } else {
                let m = if i < kept.len() { i } else { j };
                assert(kept.contains(kept[m]));
                lemma_filter_contains(front, p, kept[m]);
                let k = choose|k: int| 0 <= k < front.len() && front[k] == kept[m];
                assert(key(s[k]) != key(s[s.len() - 1]));
            }
        }
    }
}

// ---- What answers do ----
/// What is known of a master's configuration is its last answer, whatever was
/// known before; nothing else changes with it.
pub proof fn configuration_is_the_last_answer(
    m: MasterSyncView,
    c: ConfigResponse,
    later: ConfigResponse,
)
    ensures
        ({
            let once = informed(m, CycleEvent::Config(Ok(c)));
            let twice = informed(once, CycleEvent::Config(Ok(later)));
            &&& once.last_config == Some(c@)
            &&& twice.last_config == Some(later@)
            &&& once.registration == m.registration && once.approved == m.approved && once.backoff
                == m.backoff
        }),
{
}

/// An approval is remembered and never taken back; nothing else changes with
/// a status, and nothing at all with the answer to an upload.
pub proof fn approval_is_remembered(m: MasterSyncView, r: RegisterResponse, event: CycleEvent)
    ensures
        ({
            let after = informed(m, CycleEvent::Status(Ok(r)));
            &&& after.approved <==> m.approved || r.status == RegistrationStatus::Approved
            &&& after.registration == m.registration && after.last_config == m.last_config
                && after.backoff == m.backoff
        }),
        m.approved ==> informed(m, event).approved,
        event is Uploaded ==> informed(m, event) == m,
{
}

/// The answer to an upload marks what was on its way, for this master and with
/// the time of the answer. Other marks stay, the sessions stay, and no other
/// answer changes the buffer.
pub proof fn accepted_sessions_are_marked(
    t: WorkerTables,
    c: CycleView,
    url: Seq<char>,
    event: CycleEvent,
    now: i64,
    other: Seq<char>,
    id: Seq<char>,
)
    ensures
        ({
            let after = settled(t, c, url, event, now);
            let marked = event matches CycleEvent::Uploaded(Ok(_)) && other == url
                && c.in_flight.contains(id);
            &&& after.sessions == t.sessions
            &&& after.synced.contains_key((other, id)) <==> t.synced.contains_key((other, id))
                || marked
            &&& t.synced.contains_key((other, id)) ==> after.synced[(other, id)] == t.synced[(
                other,
                id,
            )]
            &&& marked && !t.synced.contains_key((other, id)) ==> after.synced[(other, id)] == now
        }),
{
    marking_adds_its_sessions(t.synced, url, c.in_flight, now, (other, id));
    if other == url && c.in_flight.contains(id) && !t.synced.contains_key((other, id)) {
        new_marks_bear_the_time(t.synced, url, c.in_flight, now, id);
    }
}

/// A batch holds the oldest sessions without a mark for the master, oldest
/// first, two hundred at most and all of them if there are fewer.
pub proof fn batch_holds_the_oldest(
    t: WorkerTables,
    url: Seq<char>,
    batch: Seq<SessionView>,
    x: SessionView,
)
    requires
        is_batch(t, url, batch),
    ensures
        batch.len() <= 200,
        batch.contains(x) ==> t.sessions.contains(x) && !t.synced.contains_key((url, x.id)),
        forall|i: int, j: int|
            0 <= i < j < batch.len() ==> (#[trigger] batch[i]).start_ts <= (
            #[trigger] batch[j]).start_ts,
        t.sessions.contains(x) && !t.synced.contains_key((url, x.id)) && !batch.contains(x)
            ==> batch.len() == 200 && forall|i: int|
            0 <= i < batch.len() ==> (#[trigger] batch[i]).start_ts <= x.start_ts,
        batch.len() == if unsynced(t, url).len() < 200 {
            unsynced(t, url).len()
        } else {
            200nat
        },
{
    let backlog = unsynced(t, url);
    let all = choose|all: Seq<SessionView>| #[trigger]
        sorted_copy::<SessionRecord>(all, backlog) && batch == all.take(
            if BATCH_SIZE < all.len() {
                BATCH_SIZE as int
            } else {
                all.len() as int
            },
        );
    vstd::seq_lib::to_multiset_len(all);
    vstd::seq_lib::to_multiset_len(backlog);
    backlog_is_what_has_no_mark(t, url, x);
    lemma_permuted_contains(all, backlog, x);
    if batch.contains(x) {
        let i = choose|i: int| 0 <= i < batch.len() && batch[i] == x;
        assert(all[i] == x);
    }
    assert forall|i: int, j: int| 0 <= i < j < batch.len() implies (#[trigger] batch[i]).start_ts <= (
    #[trigger] batch[j]).start_ts by {
        assert(<SessionRecord as Ordered>::leq(all[i], all[j]));
    }
    if backlog.contains(x) && !batch.contains(x) {
        let k = choose|k: int| 0 <= k < all.len() && all[k] == x;
        if k < batch.len() {
            assert(batch[k] == x);
        }
        assert forall|i: int| 0 <= i < batch.len() implies (#[trigger] batch[i]).start_ts
            <= x.start_ts by {
            assert(<SessionRecord as Ordered>::leq(all[i], all[k]));
        }
    }
}

/// The course of a cycle: an error ends it and is told; without approval it
/// ends; after the approval the configuration is pulled; then the backlog is
/// uploaded batch by batch, and the cycle ends when nothing is left, telling
/// how many sessions were uploaded.
pub proof fn cycle_takes_its_course(
    c: CycleView,
    t: WorkerTables,
    url: Seq<char>,
    event: CycleEvent,
    after: CycleView,
    action: CycleAction,
    x: SessionView,
)
    requires
        follows(c, t, url, event, after, action),
    ensures
        event matches CycleEvent::Status(Err(e)) ==> action == CycleAction::Finish(Err(e)),
        event matches CycleEvent::Config(Err(e)) ==> action == CycleAction::Finish(Err(e)),
        event matches CycleEvent::Uploaded(Err(e)) ==> action == CycleAction::Finish(Err(e)),
        event matches CycleEvent::Status(Ok(r)) ==> if r.status == RegistrationStatus::Approved {
            action == CycleAction::PullConfig && after.stage == CycleStage::AwaitingConfig
        } else {
            action == CycleAction::Finish(Ok(CycleOutcome::PendingApproval)) && after.stage
                == CycleStage::Done
        },
        (event matches CycleEvent::Config(Ok(_)) || event matches CycleEvent::Uploaded(Ok(_))) ==> {
            let done = c.uploaded + if event is Uploaded {
                c.in_flight.len() as int
            } else {
                0
            };
            &&& after.uploaded == done
            &&& t.sessions.contains(x) && !t.synced.contains_key((url, x.id))
                ==> action is Upload
            &&& action matches CycleAction::Upload(b) ==> {
                &&& is_batch(t, url, views(b.sessions@))
                &&& b.sessions@.len() > 0
                &&& after.stage == CycleStage::AwaitingUpload
                &&& after.in_flight.len() == b.sessions@.len()
                &&& forall|i: int|
                    0 <= i < b.sessions@.len() ==> #[trigger] after.in_flight[i]
                        == b.sessions@[i].id@
            }
            &&& action !is Upload ==> (action matches CycleAction::Finish(
                Ok(CycleOutcome::Synced { uploaded }),
            ) && uploaded == done && after.stage == CycleStage::Done)
        },
{
    backlog_is_what_has_no_mark(t, url, x);
}

// ---- Numbers and addresses ----
/// The waits after one failure and after several in a row, in seconds.
pub proof fn waits_in_seconds(b: BackoffView, now: i64)
    ensures
        backoff_delay(0) == 30,
        backoff_delay(1) == 60,
        backoff_delay(2) == 120,
        backoff_delay(3) == 240,
        backoff_delay(4) == 480,
        b.failures >= 5 ==> backoff_delay(b.failures) == 900,
        failed(b, now).failures > 0,
        b.failures < 5 ==> failed(b, now).failures == b.failures + 1,
        b.failures >= 5 ==> failed(b, now).failures >= 5,
        rested().failures == 0,
        now >= rested().next_attempt_at,
{
    lemma2_to64();
}

/// After a failure the next attempt is due exactly after the wait.
pub proof fn failure_postpones_by_the_wait(b: BackoffView, now: i64)
    requires
        fits_i64(now + 900),
    ensures
        failed(b, now).next_attempt_at - now == match b.failures {
            0 => 30int,
            1 => 60,
            2 => 120,
            3 => 240,
            4 => 480,
            _ => 900,
        },
{
    waits_in_seconds(b, now);
}

/// The address of an endpoint follows the base address, and slashes at the end
/// of that do not matter.
pub proof fn endpoint_follows_the_base(base_url: Seq<char>, path: Seq<char>)
    ensures
        base_url.len() == 0 || base_url.last() != '/' ==> endpoint(base_url, path) == base_url
            + "/api/v1"@ + path,
        endpoint(base_url.push('/'), path) == endpoint(base_url, path),
{
    assert(base_url.push('/').drop_last() =~= base_url);
}

/// An endpoint is called under the base address without slashes at its end.
pub proof fn endpoint_is_called_under_the_base(base_url: &str, path: &str, res: String, base: Seq<char>)
    requires
        call_ensures(api_url, (base_url, path), res),
        base_url@ == base || base_url@ == base.push('/'),
        base.len() == 0 || base.last() != '/',
    ensures
        res@ == base + "/api/v1"@ + path@,
{
    endpoint_follows_the_base(base, path@);
}

/// An attempt is due from the time that was set, a failure sets it back by a
/// wait that doubles up to a quarter of an hour, and a success clears it.
pub proof fn attempts_are_spaced_out(
    b: Backoff,
    now: i64,
    due: bool,
    failing: bool,
    failed: &mut Backoff,
    rested: &mut Backoff,
    failures: u32,
    delay: i64,
)
    requires
        fits_i64(now + 900),
        call_ensures(Backoff::due, (&b, now), due),
        call_ensures(Backoff::failing, (&b,), failing),
        call_ensures(Backoff::on_failure, (failed, now), ()),
        call_ensures(Backoff::on_success, (rested,), ()),
        call_ensures(Backoff::delay_after_failures, (failures,), delay),
    ensures
        due <==> now >= b@.next_attempt_at,
        failing <==> b@.failures > 0,
        final(failed)@.failures > 0,
        final(failed)@.next_attempt_at - now == match old(failed)@.failures {
            0 => 30int,
            1 => 60,
            2 => 120,
            3 => 240,
            4 => 480,
            _ => 900,
        },
        old(failed)@.failures < 5 ==> final(failed)@.failures == old(failed)@.failures + 1,
        old(failed)@.failures >= 5 ==> final(failed)@.failures >= 5,
        final(rested)@.failures == 0,
        now >= final(rested)@.next_attempt_at,
        delay == match failures {
            0 => 30int,
            1 => 60,
            2 => 120,
            3 => 240,
            4 => 480,
            _ => 900,
        },
{
    waits_in_seconds(old(failed)@, now);
    failure_postpones_by_the_wait(old(failed)@, now);
    waits_in_seconds(BackoffView { failures, next_attempt_at: 0 }, now);
}

/// A master is called under its address, without the slashes at the end.
pub proof fn base_has_no_slashes_at_its_end(
    base_url: &str,
    res: String,
    base: Seq<char>,
    slashes: Seq<char>,
)
    requires
        call_ensures(api_base, (base_url,), res),
        base_url@ == base + slashes,
        base.len() > 0 ==> base.last() != '/',
        forall|i: int| 0 <= i < slashes.len() ==> #[trigger] slashes[i] == '/',
    ensures
        res@ == base,
{
    lemma_slashes_fall(base, slashes);
}

proof fn lemma_slashes_fall(base: Seq<char>, slashes: Seq<char>)
    requires
        base.len() > 0 ==> base.last() != '/',
        forall|i: int| 0 <= i < slashes.len() ==> #[trigger] slashes[i] == '/',
    ensures
        without_slashes(base + slashes) == base,
    decreases slashes.len(),
{
    if slashes.len() == 0 {
        assert(base + slashes =~= base);
    } else {
        let s = base + slashes;
        assert(s.last() == slashes[slashes.len() - 1]);
        assert(s.drop_last() =~= base + slashes.drop_last());
        assert forall|i: int| 0 <= i < slashes.len() - 1 implies #[trigger] slashes.drop_last()[i]
            == '/' by {
            assert(slashes[i] == '/');
        }
        lemma_slashes_fall(base, slashes.drop_last());
    }
}

} // verus!
