//! What calls of a worker's functions do, from their arguments to their
//! results.
use crate::config::{Config, MasterRegistration, RegistrationView};
use crate::idle::{gated_window, own_name};
use crate::model::{
    ConfigResponse, ConfigResponseView, GoalConfig, RegisterResponse, RegistrationStatus,
    SessionRecord, SessionView, Thresholds,
};
use crate::notify::{
    break_notice, notice_of, notices_are_those_that_fire, prompts, share_of,
    tier_fires_at_its_share_of_the_goal, BreakPrompt, Notifier, WarningLadder, WarningTier,
};
use crate::seqs::{
    lemma_filter_contains, lemma_permuted_contains, opt_view, sorted_copy, views, Ordered,
};
use crate::store::worker::{
    backlog_is_what_has_no_mark, buffer_insert, buffering_appends, mark_synced,
    marking_adds_its_sessions, new_marks_bear_the_time, unsynced, unsynced_for, WorkerDb,
};
use crate::sync::{
    accepted_sessions_are_marked, approval_is_remembered, batch_holds_the_oldest, begin_when_due,
    check_status, conclude, configuration_is_the_last_answer, cycle_takes_its_course, failed,
    failure_postpones_by_the_wait, waits_in_seconds, Cycle, CycleAction, CycleEvent, CycleOutcome,
    CycleStage, MasterSync, MasterSyncView, SyncError,
};
use crate::timeutil::is_local_date;
use crate::tracker::{
    change_opens_the_next_session, completed, differs, ended_session_tells_what_was_open,
    length_fits, ActiveWindow, Tracker,
};
use crate::worker_runtime::{
    focus, notices_of, told_first, warnings_go_by_today_s_usage, WorkerRuntime,
};
use vstd::prelude::*;

verus! {

// ---- Cycles ----
/// After an answer with a configuration, that configuration is what is known
/// of the master, whatever was known before.
pub proof fn step_takes_the_configuration(
    cycle: &mut Cycle,
    db: &mut WorkerDb,
    master: &mut MasterSync,
    now: i64,
    c: ConfigResponse,
    action: CycleAction,
)
    requires
        call_ensures(Cycle::step, (cycle, db, master, now, CycleEvent::Config(Ok(c))), action),
    ensures
        final(master)@.last_config == Some(c@),
        final(master)@.approved == old(master)@.approved,
        final(master)@.registration == old(master)@.registration,
        final(master)@.backoff == old(master)@.backoff,
        final(db)@ == old(db)@,
        action is Upload || action is Finish,
        action matches CycleAction::Finish(r) ==> r is Ok,
{
    configuration_is_the_last_answer(old(master)@, c, c);
}

/// After an answer with a status, the worker counts as approved exactly if it
/// did before or if the status says so; without approval the cycle ends.
pub proof fn step_takes_the_approval(
    cycle: &mut Cycle,
    db: &mut WorkerDb,
    master: &mut MasterSync,
    now: i64,
    r: RegisterResponse,
    action: CycleAction,
)
    requires
        call_ensures(Cycle::step, (cycle, db, master, now, CycleEvent::Status(Ok(r))), action),
    ensures
        final(master)@.approved <==> old(master)@.approved || r.status
            == RegistrationStatus::Approved,
        final(master)@.last_config == old(master)@.last_config,
        final(master)@.registration == old(master)@.registration,
        final(db)@ == old(db)@,
        r.status == RegistrationStatus::Approved ==> action == CycleAction::PullConfig,
        r.status != RegistrationStatus::Approved ==> action == CycleAction::Finish(
            Ok(CycleOutcome::PendingApproval),
        ),
{
    approval_is_remembered(old(master)@, r, CycleEvent::Status(Ok(r)));
}

/// After an upload was accepted, what was on its way is marked for this master
/// with the time of the answer, and nothing else is.
pub proof fn step_marks_what_was_accepted(
    cycle: &mut Cycle,
    db: &mut WorkerDb,
    master: &mut MasterSync,
    now: i64,
    event: CycleEvent,
    action: CycleAction,
    url: Seq<char>,
    id: Seq<char>,
)
    requires
        call_ensures(Cycle::step, (cycle, db, master, now, event), action),
        event matches CycleEvent::Uploaded(Ok(_)),
    ensures
        final(db)@.sessions == old(db)@.sessions,
        final(db)@.synced.contains_key((url, id)) <==> old(db)@.synced.contains_key((url, id)) || (
        url == old(master)@.registration.base_url && old(cycle)@.in_flight.contains(id)),
        old(db)@.synced.contains_key((url, id)) ==> final(db)@.synced[(url, id)]
            == old(db)@.synced[(url, id)],
        !old(db)@.synced.contains_key((url, id)) && final(db)@.synced.contains_key((url, id))
            ==> final(db)@.synced[(url, id)] == now,
        final(master)@ == old(master)@,
        final(cycle)@.uploaded == old(cycle)@.uploaded + old(cycle)@.in_flight.len(),
{
    accepted_sessions_are_marked(
        old(db)@,
        old(cycle)@,
        old(master)@.registration.base_url,
        event,
        now,
        url,
        id,
    );
    approval_is_remembered(
        old(master)@,
        RegisterResponse { status: RegistrationStatus::Pending, child_name: None },
        event,
    );
}

/// What a step asks to upload is a batch of the oldest sessions that the
/// master has no mark for; as long as there is one, it asks for an upload.
pub proof fn step_uploads_the_oldest(
    cycle: &mut Cycle,
    db: &mut WorkerDb,
    master: &mut MasterSync,
    now: i64,
    event: CycleEvent,
    action: CycleAction,
    x: SessionView,
)
    requires
        call_ensures(Cycle::step, (cycle, db, master, now, event), action),
        event matches CycleEvent::Config(Ok(_)) || event matches CycleEvent::Uploaded(Ok(_)),
    ensures
        ({
            let t = final(db)@;
            let url = old(master)@.registration.base_url;
            let missing = t.sessions.contains(x) && !t.synced.contains_key((url, x.id));
            &&& missing ==> action is Upload
            &&& action matches CycleAction::Upload(b) ==> {
                let batch = views(b.sessions@);
                &&& 0 < batch.len() <= 200
                &&& batch.contains(x) ==> missing
                &&& missing && !batch.contains(x) ==> batch.len() == 200 && forall|i: int|
                    0 <= i < batch.len() ==> (#[trigger] batch[i]).start_ts <= x.start_ts
                &&& final(cycle)@.in_flight.len() == batch.len()
                &&& forall|i: int|
                    0 <= i < batch.len() ==> #[trigger] final(cycle)@.in_flight[i] == batch[i].id
            }
            &&& action !is Upload ==> action == CycleAction::Finish(
                Ok(CycleOutcome::Synced { uploaded: final(cycle)@.uploaded }),
            )
        }),
{
    let t = final(db)@;
    let url = old(master)@.registration.base_url;
    cycle_takes_its_course(old(cycle)@, t, url, event, final(cycle)@, action, x);
    if let CycleAction::Upload(b) = action {
        let batch = views(b.sessions@);
        batch_holds_the_oldest(t, url, batch, x);
        assert forall|i: int| 0 <= i < batch.len() implies #[trigger] final(cycle)@.in_flight[i]
            == batch[i].id by {
            assert(batch[i] == b.sessions@[i]@);
        }
    }
}

/// An error ends the cycle with that error, and changes neither the buffer nor
/// what is known of the master.
pub proof fn step_stops_at_an_error(
    cycle: &mut Cycle,
    db: &mut WorkerDb,
    master: &mut MasterSync,
    now: i64,
    event: CycleEvent,
    e: SyncError,
    action: CycleAction,
)
    requires
        call_ensures(Cycle::step, (cycle, db, master, now, event), action),
        event == CycleEvent::Status(Err(e)) || event == CycleEvent::Config(Err(e)) || event
            == CycleEvent::Uploaded(Err(e)),
    ensures
        action == CycleAction::Finish(Err(e)),
        final(db)@ == old(db)@,
        final(master)@ == old(master)@,
{
}

/// A cycle begins with the status as long as the master has not approved, and
/// with the configuration afterwards; it begins only when the backoff allows.
pub proof fn cycle_begins_when_due(
    master: MasterSync,
    now: i64,
    begun: (Cycle, CycleAction),
    when_due: Option<(Cycle, CycleAction)>,
)
    requires
        call_ensures(Cycle::begin, (&master,), begun),
        call_ensures(begin_when_due, (&master, now), when_due),
    ensures
        begun.1 == if master.approved {
            CycleAction::PullConfig
        } else {
            CycleAction::CheckStatus
        },
        begun.0@.uploaded == 0 && begun.0@.in_flight.len() == 0,
        begun.0@.stage == if master.approved {
            CycleStage::AwaitingConfig
        } else {
            CycleStage::AwaitingStatus
        },
        when_due is Some <==> now >= master@.backoff.next_attempt_at,
        when_due matches Some(c) ==> c.0@ == begun.0@ && c.1 == begun.1,
{
}

/// A success clears the backoff; a failure postpones the next attempt by the
/// wait that follows so many failures. Nothing else of the master changes.
pub proof fn cycle_ends_in_the_backoff(master: &mut MasterSync, succeeded: bool, now: i64)
    requires
        call_ensures(conclude, (master, succeeded, now), ()),
        now <= i64::MAX - 900,
        now >= i64::MIN + 900,
    ensures
        final(master)@ == (MasterSyncView { backoff: final(master)@.backoff, ..old(master)@ }),
        succeeded ==> final(master)@.backoff.failures == 0 && final(master)@.backoff.next_attempt_at
            <= now,
        !succeeded ==> final(master)@.backoff.failures > 0
            && final(master)@.backoff.next_attempt_at - now == match old(master)@.backoff.failures {
            0 => 30int,
            1 => 60,
            2 => 120,
            3 => 240,
            4 => 480,
            _ => 900,
        },
{
    failure_postpones_by_the_wait(old(master)@.backoff, now);
    waits_in_seconds(old(master)@.backoff, now);
}

/// A status is a success exactly if it is in the two hundreds.
pub proof fn two_hundreds_are_successes(status: u16, res: Result<(), SyncError>)
    requires
        call_ensures(check_status, (status,), res),
    ensures
        res is Ok <==> status / 100 == 2,
        res matches Err(e) ==> e == SyncError::Http(status),
{
}

// ---- Buffer ----
/// A buffered session is in the backlog of every master that has no mark for
/// it, and marking takes it out for one master alone.
pub proof fn marking_takes_out_for_one_master(
    db: &mut WorkerDb,
    url: &str,
    ids: &[String],
    now: i64,
    other: Seq<char>,
    s: SessionView,
)
    requires
        call_ensures(mark_synced, (db, url, ids, now), ()),
    ensures
        final(db)@.sessions == old(db)@.sessions,
        unsynced(final(db)@, url@).contains(s) <==> unsynced(old(db)@, url@).contains(s)
            && !views(ids@).contains(s.id),
        other != url@ ==> (unsynced(final(db)@, other).contains(s) <==> unsynced(
            old(db)@,
            other,
        ).contains(s)),
        views(ids@).contains(s.id) && !old(db)@.synced.contains_key((url@, s.id))
            ==> final(db)@.synced[(url@, s.id)] == now,
{
    backlog_is_what_has_no_mark(old(db)@, url@, s);
    backlog_is_what_has_no_mark(final(db)@, url@, s);
    backlog_is_what_has_no_mark(old(db)@, other, s);
    backlog_is_what_has_no_mark(final(db)@, other, s);
    marking_adds_its_sessions(old(db)@.synced, url@, views(ids@), now, (url@, s.id));
    marking_adds_its_sessions(old(db)@.synced, url@, views(ids@), now, (other, s.id));
    if views(ids@).contains(s.id) && !old(db)@.synced.contains_key((url@, s.id)) {
        new_marks_bear_the_time(old(db)@.synced, url@, views(ids@), now, s.id);
    }
}

/// What is handed out for a master are its oldest sessions without a mark, as
/// many as asked for.
pub proof fn oldest_are_handed_out(
    db: WorkerDb,
    url: &str,
    limit: usize,
    res: Vec<SessionRecord>,
    x: SessionView,
)
    requires
        call_ensures(unsynced_for, (&db, url, limit), res),
    ensures
        ({
            let out = views(res@);
            let missing = db@.sessions.contains(x) && !db@.synced.contains_key((url@, x.id));
            &&& out.len() <= limit
            &&& out.contains(x) ==> missing
            &&& missing && !out.contains(x) ==> out.len() == limit && forall|i: int|
                0 <= i < out.len() ==> (#[trigger] out[i]).start_ts <= x.start_ts
            &&& forall|i: int, j: int|
                0 <= i < j < out.len() ==> (#[trigger] out[i]).start_ts <= (
                #[trigger] out[j]).start_ts
        }),
{
    let out = views(res@);
    let backlog = unsynced(db@, url@);
    let all = choose|all: Seq<SessionView>| #[trigger]
        sorted_copy::<SessionRecord>(all, backlog) && out == all.take(
            if limit < all.len() {
                limit as int
            } else {
                all.len() as int
            },
        );
    backlog_is_what_has_no_mark(db@, url@, x);
    lemma_permuted_contains(all, backlog, x);
    if out.contains(x) {
        let i = choose|i: int| 0 <= i < out.len() && out[i] == x;
        assert(all[i] == x);
    }
    assert forall|i: int, j: int| 0 <= i < j < out.len() implies (#[trigger] out[i]).start_ts <= (
    #[trigger] out[j]).start_ts by {
        assert(<SessionRecord as Ordered>::leq(all[i], all[j]));
    }
    if backlog.contains(x) && !out.contains(x) {
        let k = choose|k: int| 0 <= k < all.len() && all[k] == x;
        if k < out.len() {
            assert(out[k] == x);
        }
        assert forall|i: int| 0 <= i < out.len() implies (#[trigger] out[i]).start_ts
            <= x.start_ts by {
            assert(<SessionRecord as Ordered>::leq(all[i], all[k]));
        }
    }
}

/// A session is buffered at the end, unless its id is there.
pub proof fn session_is_buffered_once(db: &mut WorkerDb, s: &SessionRecord)
    requires
        call_ensures(buffer_insert, (db, s), ()),
    ensures
        final(db)@.synced == old(db)@.synced,
        (forall|i: int|
            0 <= i < old(db)@.sessions.len() ==> (#[trigger] old(db)@.sessions[i]).id != s.id@)
            ==> final(db)@.sessions == old(db)@.sessions.push(s@),
        (exists|i: int|
            0 <= i < old(db)@.sessions.len() && (#[trigger] old(db)@.sessions[i]).id == s.id@)
            ==> final(db)@.sessions == old(db)@.sessions,
{
    buffering_appends(old(db)@.sessions, s@);
}

// ---- Tracker ----
/// An observation ends a session exactly if another window, or none, has the
/// focus and the session lasted a second. What it ends covers the time from
/// its beginning to now, and the session that it opens begins now.
pub proof fn poll_cuts_at_changes(
    tracker: &mut Tracker,
    db: &mut WorkerDb,
    now: i64,
    window: Option<ActiveWindow>,
    id: String,
    res: Option<SessionRecord>,
)
    requires
        length_fits(old(tracker)@, now),
        call_ensures(Tracker::poll_with_id, (tracker, db, now, window, id), res),
    ensures
        ({
            let seen = opt_view(window);
            let same = match (old(tracker)@.current, seen) {
                (None, None) => true,
                (Some(open), Some(w)) => open.window.app_name == w.app_name && open.window.title
                    == w.title,
                _ => false,
            };
            &&& same ==> res is None && final(tracker)@ == old(tracker)@ && final(db)@ == old(db)@
            &&& !same ==> {
                &&& res is Some <==> (old(tracker)@.current matches Some(open) && now
                    - open.start_ts >= 1)
                &&& seen is None ==> final(tracker)@.current is None
                &&& seen matches Some(w) ==> (final(tracker)@.current matches Some(open)
                    && open.window == w && open.start_ts == now && open.id == id@)
            }
            &&& res matches Some(s) ==> {
                let open = old(tracker)@.current->0;
                &&& s@.id == open.id && s@.app_name == open.window.app_name && s@.window_title
                    == open.window.title
                &&& s@.start_ts == open.start_ts && s@.end_ts == now && s@.duration_s == now
                    - open.start_ts
                &&& final(db)@.sessions.contains(s@) || exists|i: int|
                    0 <= i < old(db)@.sessions.len() && (#[trigger] old(db)@.sessions[i]).id
                        == s@.id
            }
        }),
{
    let seen = opt_view(window);
    let t = old(tracker)@;
    if let (Some(open), Some(w)) = (t.current, seen) {
        if open.window.app_name == w.app_name && open.window.title == w.title {
            assert(open.window == w);
        }
    }
    if differs(t, seen) {
        change_opens_the_next_session(t, old(db)@, now, seen, id@);
        ended_session_tells_what_was_open(t, now);
        if let Some(s) = res {
            assert(opt_view(res) == completed(t, now));
            if !(exists|i: int|
                0 <= i < old(db)@.sessions.len() && (#[trigger] old(db)@.sessions[i]).id == s@.id) {
                assert(final(db)@.sessions[old(db)@.sessions.len() as int] == s@);
            }
        }
    }
}

/// A window is tracked exactly if there was input within the threshold and the
/// window is not the application's own.
pub proof fn idle_time_and_own_windows_are_left_out(
    window: Option<ActiveWindow>,
    idle_s: i64,
    threshold_s: i64,
    res: Option<ActiveWindow>,
)
    requires
        call_ensures(gated_window, (window, idle_s, threshold_s), res),
    ensures
        res is Some <==> idle_s <= threshold_s && (window matches Some(w) && !own_name(
            w.app_name@,
        )),
        res is Some ==> res == window,
{
}

// ---- Notices ----
/// An evaluation shows the notice of a tier exactly if there is a daily goal,
/// the usage has reached the tier's percentage of it, and the tier has not
/// fired on the date; and it shows no other notice.
pub proof fn evaluation_warns_at_the_shares<N: Notifier>(
    ladder: &mut WarningLadder,
    date: &str,
    usage_s: i64,
    goal: &GoalConfig,
    notifier: &mut N,
    tier: WarningTier,
)
    requires
        usage_s >= 0,
        call_ensures(WarningLadder::evaluate::<N>, (ladder, date, usage_s, goal, notifier), ()),
    ensures
        ({
            let before = old(notifier).notices();
            let after = final(notifier).notices();
            let due = (goal.daily_min matches Some(m) && m > 0 && usage_s * 100 >= share_of(
                old(ladder)@.thresholds,
                tier,
            ) * (m * 60)) && !old(ladder)@.fired.contains((date@, tier));
            &&& before.is_prefix_of(after)
            &&& after.len() <= before.len() + 3
            &&& due <==> exists|i: int|
                before.len() <= i < after.len() && #[trigger] after[i] == notice_of(tier)
            &&& final(ladder)@.thresholds == old(ladder)@.thresholds
            &&& final(ladder)@.fired.contains((date@, tier)) <==> old(ladder)@.fired.contains(
                (date@, tier),
            ) || due
        }),
{
    let l = old(ladder)@;
    tier_fires_at_its_share_of_the_goal(l, date@, usage_s as int, *goal, tier);
    notices_are_those_that_fire(l, date@, usage_s as int, *goal, tier, false);
    let before = old(notifier).notices();
    let after = final(notifier).notices();
    let shown = crate::notify::warnings(l, date@, usage_s as int, *goal);
    assert(after == before + shown);
    assert(before =~= after.subrange(0, before.len() as int));
    if shown.contains(notice_of(tier)) {
        let k = choose|k: int| 0 <= k < shown.len() && shown[k] == notice_of(tier);
        assert(after[before.len() + k] == notice_of(tier));
    }
    if exists|i: int| before.len() <= i < after.len() && #[trigger] after[i] == notice_of(tier) {
        let i = choose|i: int|
            before.len() <= i < after.len() && #[trigger] after[i] == notice_of(tier);
        assert(shown[i - before.len()] == notice_of(tier));
    }
}

// ---- Ticks ----
/// A warning comes with a tick exactly if today's time, as the first master
/// told it, with the seconds of the session in progress, has reached the
/// tier's percentage of the daily goal.
pub proof fn tick_warns_by_today_s_usage<N: Notifier>(
    rt: &mut WorkerRuntime,
    now: i64,
    raw: Option<ActiveWindow>,
    idle_s: i64,
    tz: i32,
    notifier: &mut N,
    cycles: Vec<bool>,
    i: int,
    c: ConfigResponseView,
    date: Seq<char>,
    tier: WarningTier,
)
    requires
        call_ensures(WorkerRuntime::tick::<N>, (rt, now, raw, idle_s, tz, notifier), cycles),
        told_first(old(rt)@.masters, i, c),
        is_local_date(date, now as int, tz as int),
        c.usage.today_s >= 0,
        old(rt)@.config.idle_threshold_s <= i64::MAX,
    ensures
        ({
            let r = old(rt)@;
            let before = old(notifier).notices();
            let after = final(notifier).notices();
            let window = match opt_view(raw) {
                Some(w) => if idle_s > r.config.idle_threshold_s || own_name(w.app_name) {
                    None
                } else {
                    Some(w)
                },
                None => None,
            };
            let in_progress: int = match (r.tracker.current, window) {
                (Some(open), Some(w)) => if open.window.app_name == w.app_name && open.window.title
                    == w.title && now > open.start_ts {
                    now - open.start_ts
                } else {
                    0
                },
                _ => 0,
            };
            let due = (c.goal.daily_min matches Some(m) && m > 0 && (c.usage.today_s + in_progress)
                * 100 >= share_of(r.ladder.thresholds, tier) * (m * 60))
                && !r.ladder.fired.contains((date, tier));
            &&& before.is_prefix_of(after)
            &&& due <==> exists|k: int|
                before.len() <= k < after.len() && #[trigger] after[k] == notice_of(tier)
            &&& prompts(r.breaks, now, window is Some) <==> exists|k: int|
                before.len() <= k < after.len() && #[trigger] after[k] == break_notice()
        }),
{
    let r = old(rt)@;
    let window = focus(r, opt_view(raw), idle_s);
    warnings_go_by_today_s_usage(r, i, c, now, window, tz, date, tier);
    let before = old(notifier).notices();
    let after = final(notifier).notices();
    let shown = notices_of(r, now, window, tz);
    assert(after == before + shown);
    assert(before =~= after.subrange(0, before.len() as int));
    assert forall|n: crate::notify::Notice| #[trigger] shown.contains(n) == exists|k: int|
        before.len() <= k < after.len() && #[trigger] after[k] == n by {
        if shown.contains(n) {
            let k = choose|k: int| 0 <= k < shown.len() && shown[k] == n;
            assert(after[before.len() + k] == n);
        }
        if exists|k: int| before.len() <= k < after.len() && #[trigger] after[k] == n {
            let k = choose|k: int| before.len() <= k < after.len() && #[trigger] after[k] == n;
            assert(shown[k - before.len()] == n);
        }
    }
    assert(shown.contains(notice_of(tier)) == exists|k: int|
        before.len() <= k < after.len() && #[trigger] after[k] == notice_of(tier));
    assert(shown.contains(break_notice()) == exists|k: int|
        before.len() <= k < after.len() && #[trigger] after[k] == break_notice());
}

/// A tick wants a cycle with a master exactly if the master's backoff allows
/// one and the interval has passed since the last, or the master has approved
/// and the last one failed; it notes the attempt, and leaves the master as it
/// is.
pub proof fn tick_wants_cycles_at_the_interval<N: Notifier>(
    rt: &mut WorkerRuntime,
    now: i64,
    raw: Option<ActiveWindow>,
    idle_s: i64,
    tz: i32,
    notifier: &mut N,
    cycles: Vec<bool>,
    i: int,
)
    requires
        call_ensures(WorkerRuntime::tick::<N>, (rt, now, raw, idle_s, tz, notifier), cycles),
        0 <= i < old(rt)@.masters.len(),
    ensures
        ({
            let m = old(rt)@.masters[i];
            &&& cycles@.len() == old(rt)@.masters.len()
            &&& cycles@[i] <==> now >= m.backoff.next_attempt_at && (now
                - old(rt)@.last_attempts[i] >= old(rt)@.config.sync_interval_s || (m.approved
                && m.backoff.failures > 0))
            &&& final(rt)@.last_attempts[i] == if cycles@[i] {
                now
            } else {
                old(rt)@.last_attempts[i]
            }
            &&& final(rt)@.masters == old(rt)@.masters
            &&& final(rt)@.config == old(rt)@.config
        }),
{
}

/// A heartbeat goes to exactly the masters that have approved.
pub proof fn heartbeats_go_to_approved_masters(
    rt: WorkerRuntime,
    res: Vec<MasterRegistration>,
    r: RegistrationView,
)
    requires
        call_ensures(WorkerRuntime::heartbeat_targets, (&rt,), res),
    ensures
        views(res@).contains(r) <==> exists|i: int|
            0 <= i < rt@.masters.len() && (#[trigger] rt@.masters[i]).approved
                && rt@.masters[i].registration == r,
{
    let p = |m: MasterSyncView| m.approved;
    let reg = |m: MasterSyncView| m.registration;
    let all = rt@.masters;
    let kept = all.filter(p);
    let out = views(res@);
    assert(out == kept.map_values(reg));
    if out.contains(r) {
        let k = choose|k: int| 0 <= k < out.len() && out[k] == r;
        assert(kept.contains(kept[k]));
        lemma_filter_contains(all, p, kept[k]);
        let i = choose|i: int| 0 <= i < all.len() && all[i] == kept[k];
        assert(all[i].approved && all[i].registration == r);
    }
    if exists|i: int|
        0 <= i < all.len() && (#[trigger] all[i]).approved && all[i].registration == r {
        let i = choose|i: int|
            0 <= i < all.len() && (#[trigger] all[i]).approved && all[i].registration == r;
        assert(all.contains(all[i]));
        lemma_filter_contains(all, p, all[i]);
        let k = choose|k: int| 0 <= k < kept.len() && kept[k] == all[i];
        assert(out[k] == r);
    }
}

/// A new worker knows of each of its masters the registration and nothing
/// else: no approval, no configuration, no failure, no attempt. Nothing is in
/// progress, nothing has fired, warnings come at 90, 100 and 110 percent, the
/// break prompt after the configured minutes, and a gap ends a streak after
/// five minutes.
pub proof fn new_worker_knows_nothing_yet(config: Config, db: WorkerDb, rt: WorkerRuntime, i: int)
    requires
        call_ensures(WorkerRuntime::new, (config, db), rt),
        config.break_prompt_after_min <= 0x1_0000_0000,
    ensures
        rt@.config == config@,
        rt@.tables == db@,
        rt@.masters.len() == config@.masters.len(),
        rt@.last_attempts.len() == config@.masters.len(),
        0 <= i < config@.masters.len() ==> {
            let m = rt@.masters[i];
            &&& m.registration == config@.masters[i]
            &&& !m.approved && m.last_config is None && m.backoff.failures == 0
                && m.backoff.next_attempt_at == i64::MIN
            &&& rt@.last_attempts[i] == 0
        },
        rt@.tracker.current is None,
        rt@.tracker.categorizer.overrides == Map::<Seq<char>, crate::model::Category>::empty(),
        forall|p: (Seq<char>, WarningTier)| !(#[trigger] rt@.ladder.fired.contains(p)),
        rt@.ladder.thresholds == (Thresholds { nudge_pct: 90, limit_pct: 100, over_pct: 110 }),
        rt@.breaks.threshold_s == config.break_prompt_after_min * 60,
        rt@.breaks.reset_gap_s == 300,
        rt@.breaks.continuous_start is None && !rt@.breaks.prompted,
{
}

/// At the end the session in progress is buffered, if it lasted a second.
pub proof fn end_closes_the_session(rt: &mut WorkerRuntime, now: i64)
    requires
        length_fits(old(rt)@.tracker, now),
        call_ensures(WorkerRuntime::shut_down, (rt, now), ()),
    ensures
        final(rt)@.tracker.current is None,
        final(rt)@.tables.synced == old(rt)@.tables.synced,
        old(rt)@.tracker.current matches Some(open) ==> (now - open.start_ts >= 1 && (forall|i: int|
            0 <= i < old(rt)@.tables.sessions.len() ==> (
            #[trigger] old(rt)@.tables.sessions[i]).id != open.id) ==> {
            let s = final(rt)@.tables.sessions.last();
            &&& final(rt)@.tables.sessions.len() == old(rt)@.tables.sessions.len() + 1
            &&& s.id == open.id && s.app_name == open.window.app_name && s.window_title
                == open.window.title && s.start_ts == open.start_ts && s.end_ts == now
                && s.duration_s == now - open.start_ts
        }),
        (old(rt)@.tracker.current matches Some(open) ==> now - open.start_ts < 1)
            ==> final(rt)@.tables.sessions == old(rt)@.tables.sessions,
        final(rt)@.masters == old(rt)@.masters,
{
    ended_session_tells_what_was_open(old(rt)@.tracker, now);
    if let Some(s) = completed(old(rt)@.tracker, now) {
        buffering_appends(old(rt)@.tables.sessions, s);
    }
}

/// A break prompt comes exactly when an unbroken streak is as long as the
/// threshold, once; a gap of the reset time, seen while it lasts or when a
/// window comes back, begins a new streak.
pub proof fn break_prompt_follows_the_streak<N: Notifier>(
    b: &mut BreakPrompt,
    now: i64,
    in_session: bool,
    notifier: &mut N,
)
    requires
        call_ensures(BreakPrompt::tick::<N>, (b, now, in_session, notifier), ()),
    ensures
        ({
            let was = old(b)@;
            let after = final(b)@;
            let over = was.away_since matches Some(away) && now - away >= was.reset_gap_s;
            let start: i64 = match was.continuous_start {
                Some(s) => if over {
                    now
                } else {
                    s
                },
                None => now,
            };
            let due = in_session && !(was.prompted && !over) && now - start >= was.threshold_s;
            &&& final(notifier).notices() == if due {
                old(notifier).notices().push(break_notice())
            } else {
                old(notifier).notices()
            }
            &&& in_session ==> after.continuous_start == Some(start) && after.away_since is None
                && after.last_active == Some(now) && (after.prompted <==> due || (was.prompted
                && !over))
            &&& !in_session ==> if was.last_active matches Some(last) && now - last
                >= was.reset_gap_s {
                after.continuous_start is None && !after.prompted
            } else {
                after.continuous_start == was.continuous_start && after.prompted == was.prompted
            }
        }),
{
}

/// Closing the session in progress gives it back as it was, up to now.
pub proof fn closing_gives_the_session_back(
    tracker: &mut Tracker,
    db: &mut WorkerDb,
    now: i64,
    res: Option<SessionRecord>,
)
    requires
        length_fits(old(tracker)@, now),
        call_ensures(Tracker::close_current, (tracker, db, now), res),
    ensures
        final(tracker)@.current is None,
        res is Some <==> (old(tracker)@.current matches Some(open) && now - open.start_ts >= 1),
        res matches Some(s) ==> {
            let open = old(tracker)@.current->0;
            &&& s@.id == open.id && s@.app_name == open.window.app_name && s@.window_title
                == open.window.title && s@.start_ts == open.start_ts && s@.end_ts == now
                && s@.duration_s == now - open.start_ts
            &&& crate::categorize::category_owed(
                old(tracker)@.categorizer,
                s@.app_name,
                s@.window_title,
                s@.category,
            )
        },
        res is None ==> final(db)@ == old(db)@,
{
    ended_session_tells_what_was_open(old(tracker)@, now);
}

/// An ordinary tick and an ordinary end can be made.
pub proof fn ordinary_ticks_are_accepted(
    rt: WorkerRuntime,
    now: i64,
    raw: Option<ActiveWindow>,
    idle_s: i64,
    tz: i32,
    fits: bool,
    ends: bool,
)
    requires
        call_ensures(WorkerRuntime::can_tick, (&rt, now, &raw, idle_s, tz), fits),
        call_ensures(WorkerRuntime::can_shut_down, (&rt, now), ends),
        -0x1000_0000_0000_0000 <= now <= 0x1000_0000_0000_0000,
        rt@.tracker.current matches Some(open) ==> -0x1000_0000_0000_0000 <= open.start_ts
            <= 0x1000_0000_0000_0000,
        forall|i: int|
            0 <= i < rt@.masters.len() ==> ((#[trigger] rt@.masters[i]).last_config matches Some(c)
                ==> -0x1000_0000_0000_0000 <= c.usage.today_s <= 0x1000_0000_0000_0000),
    ensures
        fits && ends,
{
    crate::worker_runtime::ordinary_ticks_fit(
        rt@,
        now,
        focus(rt@, opt_view(raw), idle_s),
        tz,
    );
}

/// The seconds of the session in progress count from its beginning.
pub proof fn session_in_progress_counts(tracker: Tracker, now: i64, secs: i64)
    requires
        call_ensures(Tracker::current_elapsed, (&tracker, now), secs),
    ensures
        tracker@.current is None ==> secs == 0,
        tracker@.current matches Some(open) ==> (now >= open.start_ts ==> secs == now
            - open.start_ts) && (now <= open.start_ts ==> secs == 0),
{
}

} // verus!
