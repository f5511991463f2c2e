//! What calls of a master's functions do, from their arguments to their
//! results.
use crate::answer_laws::{
    approval_links_the_named_child, approved_caller_is_approved, approved_children_get_what_is_owed,
    caller_is_who_bears_the_token, comes_from, configuration_tells_the_child_s_numbers,
    decision_holds_for_past_and_future, details_tell_the_child_s_numbers, overview_has_every_child,
    range_is_the_day_so_far, standing_tells_approval_and_child, stored_right,
    upload_goes_by_the_parent_s_choice,
};
use crate::categorize::{category_owed, layers_decide_in_turn, Categorizer};
use crate::master_server::{
    approval, approve_worker, approve_worker_with, assign_worker, authenticate, config_fits,
    dashboard_apps, dashboard_child, dashboard_summary, dashboard_uncategorized, get_config,
    heartbeat, list_all_children, list_all_workers, overview_fits, post_batch, range_of, register,
    register_status, require_approved, set_category_override, set_child_goal, status_of, AppState,
    Credentials, Refusal,
};
use crate::model::{
    AppBreakdown, BatchAccepted, BatchUpload, Category, CategoryOverride, ChildDetail, ChildInfo,
    ChildInfoView, ChildSummary, ConfigResponse, DashboardSummary, GoalConfig, HeartbeatResponse,
    OverrideView, PointsEntry, PointsEntryView, RegisterRequest, RegisterResponse,
    RegistrationStatus, SessionRecord, SessionView, TodBucket, TodDistribution, UncategorizedApp,
    UsageTotals, WorkerInfo, WorkerInfoView,
};
use crate::points_engine::{completed_periods, evaluate_all, goal_stands, has_points, periods_fit};
use crate::seqs::{lemma_permuted_contains, opt_view, sorted_copy, views};
use crate::store::master::{
    app_breakdown, apps_with_categories, assign_worker_to_child, award_points, child_name,
    child_summaries, find_or_create_child, find_or_create_child_with, get_goal, get_worker,
    insert_sessions, list_children, list_overrides, list_workers, pending_workers, points_balance,
    points_history, recategorize_sessions, set_goal, set_override, tod_distribution, token_valid,
    touch_heartbeat, uncategorized_apps, upsert_worker, usage_totals, workers_of_child,
    AppCategoryRow, MasterDb, MasterTables, StoreError,
};
use crate::store::master::laws::registration_keeps_approval;
use crate::store::master::legacy::{restore_child, restore_goal, restore_session, restore_worker};
use crate::store::master::people::{child_infos, worker_info, worker_infos};
use crate::store::master::reports::{app_total, summary_of, time_of};
use crate::store::master::row_laws::{
    as_sent, award_is_recorded, children_are_listed_by_name, history_has_the_child_s_entries,
    is_new, moved_sessions_are_counted, name_finds_or_makes_a_child, name_is_that_of_the_row,
    override_is_what_was_set, overrides_are_listed_by_name, upload_goes_by_name_and_title,
    worker_changes_field_by_field, workers_are_listed_by_registration,
};
use crate::store::master::rows::{
    ChildRow, GoalRow, PointsRowView, SessionRow, SessionRowView, WorkerRow, WorkerRowView,
};
use crate::store::master::selection::{
    in_range, lemma_from_table, lemma_to_list, owned, selected, sessions_in_range,
    sessions_of_child, uncategorized, uncategorized_sessions,
};
use crate::store::master::usage_laws::{
    added_up, app_list_tells_every_app, app_part, balance_adds_all_points,
    breakdown_line_counts_its_app, breakdown_lists_every_app_once, child_seconds, lemma_owned,
    length_part, on_device_of, seen, seen_in, summary_tells_the_child, time_counts_every_session,
    time_of_day_goes_by_the_beginning, time_of_day_part, totals_add_recorded_lengths,
    uncategorized_list_tells_every_app, usage_counts_from_midnight_and_monday,
};
use crate::text::{ascii_fold, text_leq};
use crate::timeutil::{day_start, local_hour, week_start};
use vstd::prelude::*;

verus! {

// ---- Clock ----
/// The beginning of a day is the last local midnight, the beginning of a week
/// the last local Monday midnight, and the hour counts from midnight.
pub proof fn clock_follows_local_time(
    ts: i64,
    tz: i32,
    day: i64,
    week: i64,
    hour: u32,
)
    requires
        call_ensures(day_start, (ts, tz), day),
        call_ensures(week_start, (ts, tz), week),
        call_ensures(local_hour, (ts, tz), hour),
    ensures
        (day + tz) % 86_400 == 0,
        day <= ts < day + 86_400,
        (week + tz) % 604_800 == 345_600,
        week <= ts < week + 604_800,
        day + hour * 3600 <= ts < day + (hour + 1) * 3600,
{
    crate::timeutil::day_begins_at_local_midnight(ts as int, tz as int);
    crate::timeutil::week_begins_on_monday(ts as int, tz as int);
    crate::timeutil::hour_counts_from_midnight(ts as int, tz as int, day as int);
}

// ---- Uploads ----
/// An upload stores every session that is new as it was sent, under the
/// category that its name and its own title call for.
pub proof fn insertion_goes_by_name_and_title(
    db: &mut MasterDb,
    worker_id: &str,
    sessions: &[SessionRecord],
    categorizer: &Categorizer,
    accepted: usize,
    k: int,
)
    requires
        call_ensures(insert_sessions, (db, worker_id, sessions, categorizer), accepted),
        is_new(old(db)@.sessions, views(sessions@), k),
    ensures
        ({
            let s = views(sessions@)[k];
            exists|i: int|
                old(db)@.sessions.len() <= i < final(db)@.sessions.len() && as_sent(
                    #[trigger] final(db)@.sessions[i],
                    worker_id@,
                    s,
                ) && category_owed(
                    categorizer@,
                    s.app_name,
                    s.window_title,
                    final(db)@.sessions[i].session.category,
                )
        }),
        old(db)@.sessions.is_prefix_of(final(db)@.sessions),
        accepted == final(db)@.sessions.len() - old(db)@.sessions.len(),
        final(db)@ == (MasterTables { sessions: final(db)@.sessions, ..old(db)@ }),
{
    upload_goes_by_name_and_title(
        old(db)@.sessions,
        worker_id@,
        views(sessions@),
        categorizer@,
        k,
    );
    crate::store::master::laws::upload_keeps_what_is_stored(
        old(db)@.sessions,
        worker_id@,
        views(sessions@),
        categorizer@,
    );
}

/// A categorizer gives a name and a title the category that it owes them.
pub proof fn categorizer_gives_what_it_owes(
    c: Categorizer,
    app_name: &str,
    title: &str,
    res: Category,
)
    requires
        call_ensures(Categorizer::categorize, (&c, app_name, title), res),
    ensures
        category_owed(c@, app_name@, title@, res),
{
    layers_decide_in_turn(c@, app_name@, title@);
}

/// An upload is taken from an approved worker that bears its token, under the
/// worker's own id; others are refused and change nothing.
pub proof fn batch_is_taken_from_approved_workers(
    state: &mut AppState,
    credentials: &Credentials,
    batch: &BatchUpload,
    res: Result<BatchAccepted, Refusal>,
    i: int,
    k: int,
)
    requires
        old(state).db.wf(),
        call_ensures(post_batch, (state, credentials, batch), res),
    ensures
        ({
            let before = old(state).db@;
            let after = final(state).db@;
            let sessions = views(batch.sessions@);
            &&& comes_from(before, credentials@, i) && before.workers[i].info.approved ==> {
                &&& res matches Ok(a) && a.accepted == after.sessions.len() - before.sessions.len()
                &&& after == (MasterTables { sessions: after.sessions, ..before }) || !is_new(
                    before.sessions,
                    sessions,
                    k,
                )
                &&& is_new(before.sessions, sessions, k) ==> exists|j: int|
                    before.sessions.len() <= j < after.sessions.len() && as_sent(
                        #[trigger] after.sessions[j],
                        before.workers[i].info.worker_id,
                        sessions[k],
                    ) && stored_right(
                        before.overrides,
                        sessions[k],
                        after.sessions[j].session.category,
                    )
            }
            &&& comes_from(before, credentials@, i) && !before.workers[i].info.approved ==> res
                == Err::<BatchAccepted, Refusal>(Refusal::Forbidden) && after == before
            &&& (forall|j: int| !comes_from(before, credentials@, j)) ==> res == Err::<
                BatchAccepted,
                Refusal,
            >(Refusal::Unauthorized) && after == before
        }),
{
    let before = old(state).db@;
    let after = final(state).db@;
    let sessions = views(batch.sessions@);
    caller_is_who_bears_the_token(before, credentials@);
    if comes_from(before, credentials@, i) {
        approved_caller_is_approved(before, credentials@, i);
        if before.workers[i].info.approved && is_new(before.sessions, sessions, k) {
            upload_goes_by_the_parent_s_choice(
                before,
                before.workers[i].info.worker_id,
                sessions,
                after,
                k,
            );
        }
    }
}

// ---- Usage ----
/// Today's usage counts the child's seconds since local midnight, this week's
/// those since Monday, on all of its devices and in every time zone.
pub proof fn usage_is_of_the_local_day_and_week(
    db: MasterDb,
    child_id: &str,
    now: i64,
    tz: i32,
    res: Result<UsageTotals, StoreError>,
    midnight: int,
    monday: int,
)
    requires
        db.wf(),
        call_ensures(usage_totals, (&db, child_id, now, tz), res),
        (midnight + tz) % 86_400 == 0,
        midnight <= now < midnight + 86_400,
        (monday + tz) % 604_800 == 345_600,
        monday <= now < monday + 604_800,
    ensures
        res is Ok <==> child_seconds(db@, child_id@, monday, now as int) <= i64::MAX,
        res matches Ok(u) ==> u.today_s == child_seconds(db@, child_id@, midnight, now as int)
            && u.week_s == child_seconds(db@, child_id@, monday, now as int),
{
    usage_counts_from_midnight_and_monday(
        db@,
        child_id@,
        now as int,
        tz as int,
        midnight,
        monday,
    );
}

/// A breakdown lists each application with a session in the range once, with
/// its seconds there, and those of all.
pub proof fn breakdown_counts_the_range(
    db: MasterDb,
    child_id: &str,
    from: i64,
    to: i64,
    list: Vec<AppBreakdown>,
    i: int,
    app: Seq<char>,
)
    requires
        db.wf(),
        call_ensures(app_breakdown, (&db, child_id, from, to), Ok(list)),
    ensures
        0 <= i < list@.len() ==> views(list@)[i].duration_s == added_up(
            db@.sessions,
            app_part(db@, child_id@, views(list@)[i].app_name, from as int, to as int),
        ) && views(list@)[i].total_s == child_seconds(db@, child_id@, from as int, to as int),
        (exists|k: int| 0 <= k < views(list@).len() && (#[trigger] views(list@)[k]).app_name == app)
            <==> (exists|k: int| seen_in(db@, child_id@, app, from as int, to as int, k)),
        forall|a: int, b: int|
            0 <= a < b < list@.len() ==> (#[trigger] views(list@)[a]).app_name != (
            #[trigger] views(list@)[b]).app_name && views(list@)[a].duration_s
                >= views(list@)[b].duration_s,
{
    if 0 <= i < list@.len() {
        breakdown_line_counts_its_app(
            db@,
            child_id@,
            from as int,
            to as int,
            views(list@),
            i,
        );
    }
    breakdown_lists_every_app_once(
        db@,
        child_id@,
        from as int,
        to as int,
        views(list@),
        app,
    );
}

/// The times of day count sessions by the local time at which they began.
pub proof fn times_of_day_go_by_the_beginning(
    db: MasterDb,
    child_id: &str,
    from: i64,
    to: i64,
    tz: i32,
    d: TodDistribution,
)
    requires
        db.wf(),
        call_ensures(tod_distribution, (&db, child_id, from, to, tz), Ok(d)),
    ensures
        ({
            let began = |b: TodBucket|
                added_up(
                    db@.sessions,
                    time_of_day_part(db@, child_id@, from as int, to as int, tz as int, b),
                );
            &&& d.morning_s == began(TodBucket::Morning)
            &&& d.afternoon_s == began(TodBucket::Afternoon)
            &&& d.evening_s == began(TodBucket::Evening)
            &&& d.night_s == began(TodBucket::Night)
        }),
{
    let (f, t, z) = (from as int, to as int, tz as int);
    time_of_day_goes_by_the_beginning(db@, child_id@, f, t, z, TodBucket::Morning);
    time_of_day_goes_by_the_beginning(db@, child_id@, f, t, z, TodBucket::Afternoon);
    time_of_day_goes_by_the_beginning(db@, child_id@, f, t, z, TodBucket::Evening);
    time_of_day_goes_by_the_beginning(db@, child_id@, f, t, z, TodBucket::Night);
}

// ---- Points and goals ----
/// An evaluation gives a child the points for last week exactly if one of its
/// workers is approved and its seconds in all seven days of it are within the
/// weekly goal; likewise for yesterday and the daily goal. What is there stays
/// and is not given again.
pub proof fn evaluation_gives_what_is_owed(
    db: &mut MasterDb,
    now: i64,
    tz: i32,
    child_id: Seq<char>,
    goal: GoalConfig,
    yesterday: int,
    monday: int,
    day_date: Seq<char>,
    week_date: Seq<char>,
)
    requires
        old(db).wf(),
        call_ensures(evaluate_all, (db, now, tz), ()),
        goal_stands(old(db)@, child_id, goal),
        completed_periods(now as int, tz as int, yesterday, monday, day_date, week_date),
    ensures
        ({
            let before = old(db)@;
            let after = final(db)@;
            let approved = exists|i: int|
                0 <= i < before.workers.len() && (#[trigger] before.workers[i]).info.approved
                    && before.workers[i].info.child_id == Some(child_id);
            &&& before.points.is_prefix_of(after.points)
            &&& after == (MasterTables { points: after.points, ..before })
            &&& has_points(after.points, child_id, week_date, "weekly_goal_met"@) <==> has_points(
                before.points,
                child_id,
                week_date,
                "weekly_goal_met"@,
            ) || (approved && (goal.weekly_min matches Some(m) && child_seconds(
                before,
                child_id,
                monday,
                monday + 604_800,
            ) <= m * 60))
            &&& has_points(after.points, child_id, day_date, "daily_goal_met"@) <==> has_points(
                before.points,
                child_id,
                day_date,
                "daily_goal_met"@,
            ) || (approved && (goal.daily_min matches Some(m) && child_seconds(
                before,
                child_id,
                yesterday,
                yesterday + 86_400,
            ) <= m * 60))
        }),
{
    approved_children_get_what_is_owed(
        old(db)@,
        now,
        tz,
        final(db)@,
        child_id,
        goal,
        yesterday,
        monday,
        day_date,
        week_date,
    );
}

/// What an evaluation adds is one point for yesterday or five for last week.
pub proof fn evaluation_gives_one_or_five(
    db: &mut MasterDb,
    now: i64,
    tz: i32,
    yesterday: int,
    monday: int,
    day_date: Seq<char>,
    week_date: Seq<char>,
    i: int,
)
    requires
        old(db).wf(),
        call_ensures(evaluate_all, (db, now, tz), ()),
        completed_periods(now as int, tz as int, yesterday, monday, day_date, week_date),
        old(db)@.points.len() <= i < final(db)@.points.len(),
    ensures
        final(db)@.points[i].entry == (PointsEntryView {
            date: day_date,
            points: 1,
            reason: "daily_goal_met"@,
        }) || final(db)@.points[i].entry == (PointsEntryView {
            date: week_date,
            points: 5,
            reason: "weekly_goal_met"@,
        }),
{
    let before = old(db)@;
    let workers = choose|workers: Seq<WorkerInfoView>| #[trigger]
        crate::seqs::sorted_copy::<WorkerInfo>(
            workers,
            crate::store::master::people::worker_infos(before.workers),
        ) && final(db)@ == crate::points_engine::evaluated(
            before,
            crate::points_engine::approved_children(workers),
            now as int,
            tz as int,
        );
    let c = final(db)@.points[i].child_id;
    crate::points_engine::lemma_goal_of_stands(before, c);
    crate::points_engine::evaluated_children_have_what_is_owed(
        before,
        crate::points_engine::approved_children(workers),
        c,
        crate::store::master::ledger::goal_of(before.goals, c),
        now as int,
        tz as int,
        yesterday,
        monday,
        day_date,
        week_date,
    );
}

/// A goal that was set is the goal that is read.
pub proof fn goal_reads_as_it_was_set(
    db: &mut MasterDb,
    child_id: &str,
    daily_min: Option<u32>,
    weekly_min: Option<u32>,
    after: MasterDb,
    got: GoalConfig,
    other: &str,
    kept: GoalConfig,
    was: GoalConfig,
)
    requires
        old(db).wf(),
        call_ensures(set_goal, (db, child_id, daily_min, weekly_min), ()),
        after == *final(db),
        call_ensures(get_goal, (&after, child_id), got),
        other@ != child_id@,
        call_ensures(get_goal, (old(db), other), was),
        call_ensures(get_goal, (&after, other), kept),
    ensures
        got.daily_min == daily_min,
        got.weekly_min == weekly_min,
        kept == was,
{
    crate::store::master::laws::goal_is_what_was_set(
        old(db)@,
        child_id@,
        GoalConfig { daily_min, weekly_min },
        other@,
    );
}

/// An award counts once: it raises the balance of its child by its amount if
/// there were no such points, and not at all otherwise.
pub proof fn award_raises_the_balance_once(
    db: &mut MasterDb,
    child_id: &str,
    date: &str,
    points: i64,
    reason: &str,
    new: bool,
    other: &str,
    before: i64,
    after_db: MasterDb,
    after: i64,
)
    requires
        call_ensures(award_points, (db, child_id, date, points, reason), new),
        call_ensures(points_balance, (old(db), other), Ok(before)),
        after_db == *final(db),
        call_ensures(points_balance, (&after_db, other), Ok(after)),
    ensures
        after == before + if new && other@ == child_id@ {
            points as int
        } else {
            0
        },
        new <==> !has_points(old(db)@.points, child_id@, date@, reason@),
        has_points(final(db)@.points, child_id@, date@, reason@),
{
    award_is_recorded(old(db)@, child_id@, date@, points, reason@);
    crate::points_engine::lemma_has_points(old(db)@.points, child_id@, date@, reason@);
    let row = PointsRowView {
        child_id: child_id@,
        entry: PointsEntryView { date: date@, points, reason: reason@ },
    };
    if new {
        crate::store::master::laws::new_points_add_to_the_balance(old(db)@, row, other@);
        let n = old(db)@.points.len() as int;
        assert(final(db)@.points[n] == row);
    }
}

/// The balance adds all points of the child.
pub proof fn balance_is_the_sum(db: MasterDb, child_id: &str, res: Result<i64, StoreError>)
    requires
        call_ensures(points_balance, (&db, child_id), res),
    ensures
        res matches Ok(n) ==> n == db@.points.fold_left(
            0int,
            |acc: int, p: PointsRowView|
                acc + if p.child_id == child_id@ {
                    p.entry.points as int
                } else {
                    0
                },
        ),
{
    balance_adds_all_points(db@.points, child_id@);
}

// ---- Workers ----
/// After a registration exactly the token that was registered is valid for the
/// worker, and the tokens of other workers stay as they were.
pub proof fn registration_sets_the_token(
    db: &mut MasterDb,
    req: &RegisterRequest,
    now: i64,
    after: MasterDb,
    worker_id: &str,
    token: &str,
    was: bool,
    valid: bool,
)
    requires
        call_ensures(upsert_worker, (db, req, now), ()),
        after == *final(db),
        call_ensures(token_valid, (old(db), worker_id, token), was),
        call_ensures(token_valid, (&after, worker_id, token), valid),
    ensures
        worker_id@ == req.worker_id@ ==> (valid <==> token@ == req.token@),
        worker_id@ != req.worker_id@ ==> valid == was,
{
    let other = req@.worker_id.push('x');
    assert(other.len() != req@.worker_id.len());
    if worker_id@ == req.worker_id@ {
        registration_keeps_approval(old(db)@, req@, now, other);
    } else {
        registration_keeps_approval(old(db)@, req@, now, worker_id@);
    }
}

/// After a registration a worker that was known has the child, the approval
/// and the times that it had; a new one has no child, waits for approval and
/// was never seen.
pub proof fn registration_keeps_what_is_known(
    db: &mut MasterDb,
    req: &RegisterRequest,
    now: i64,
    after: MasterDb,
    worker_id: &str,
    was: Option<WorkerInfo>,
    info: Option<WorkerInfo>,
)
    requires
        call_ensures(upsert_worker, (db, req, now), ()),
        after == *final(db),
        call_ensures(get_worker, (old(db), worker_id), was),
        call_ensures(get_worker, (&after, worker_id), info),
    ensures
        worker_id@ != req.worker_id@ ==> opt_view(info) == opt_view(was),
        worker_id@ == req.worker_id@ ==> (info matches Some(w) && {
            &&& w@.worker_id == req.worker_id@ && w@.hostname == req.hostname@ && w@.os == req.os@
                && w@.os_user == req.os_user@
            &&& was matches Some(v) ==> w@.approved == v@.approved && w@.child_id == v@.child_id
                && w@.child_name == v@.child_name && w@.last_seen == v@.last_seen && w@.created_at
                == v@.created_at
            &&& was is None ==> !w@.approved && w@.child_id is None && w@.child_name is None
                && w@.last_seen is None && w@.created_at == now
        }),
{
    let other = req@.worker_id.push('x');
    assert(other.len() != req@.worker_id.len());
    let p = |w: WorkerRowView| w.info.worker_id == req@.worker_id;
    crate::seqs::lemma_first(old(db)@.workers, p);
    if worker_id@ == req.worker_id@ {
        registration_keeps_approval(old(db)@, req@, now, other);
    } else {
        registration_keeps_approval(old(db)@, req@, now, worker_id@);
    }
}

/// A heartbeat with a valid token is answered with the time, and notes it for
/// the worker that it comes from and for no other.
pub proof fn heartbeat_notes_the_time(
    state: &mut AppState,
    credentials: &Credentials,
    now: i64,
    res: Result<HeartbeatResponse, Refusal>,
    i: int,
    j: int,
)
    requires
        old(state).db.wf(),
        call_ensures(heartbeat, (state, credentials, now), res),
        0 <= j < old(state).db@.workers.len(),
    ensures
        ({
            let before = old(state).db@;
            let after = final(state).db@;
            &&& comes_from(before, credentials@, i) ==> {
                &&& res matches Ok(r) && r.server_time == now
                &&& after.workers.len() == before.workers.len()
                &&& after.workers[j] == if j == i {
                    WorkerRowView {
                        info: WorkerInfoView { last_seen: Some(now), ..before.workers[j].info },
                        ..before.workers[j]
                    }
                } else {
                    before.workers[j]
                }
                &&& after == (MasterTables { workers: after.workers, ..before })
            }
            &&& (forall|k: int| !comes_from(before, credentials@, k)) ==> res == Err::<
                HeartbeatResponse,
                Refusal,
            >(Refusal::Unauthorized) && after == before
        }),
{
    let before = old(state).db@;
    caller_is_who_bears_the_token(before, credentials@);
    if comes_from(before, credentials@, i) {
        let id = before.workers[i].info.worker_id;
        worker_changes_field_by_field(before, id, id, now, j);
        if j != i {
            assert(crate::store::master::worker_key()(before.workers[j])
                != crate::store::master::worker_key()(before.workers[i]));
        }
    }
}

/// A registration is answered with the standing of the worker: approved or
/// pending as before, pending if it is new.
pub proof fn registration_answers_the_standing(
    state: &mut AppState,
    req: &RegisterRequest,
    now: i64,
    res: RegisterResponse,
)
    requires
        old(state).db.wf(),
        call_ensures(register, (state, req, now), res),
    ensures
        match worker_info(old(state).db@.workers, req.worker_id@) {
            Some(w) => res.status == RegistrationStatus::Approved <==> w.approved,
            None => res.status == RegistrationStatus::Pending && res.child_name is None,
        },
        final(state).tz_offset_s == old(state).tz_offset_s,
        final(state).online_threshold_s == old(state).online_threshold_s,
{
    let other = req@.worker_id.push('x');
    assert(other.len() != req@.worker_id.len());
    registration_keeps_approval(old(state).db@, req@, now, other);
    let w = worker_info(final(state).db@.workers, req@.worker_id)->0;
    standing_tells_approval_and_child(final(state).db@, w);
}

/// A worker with a valid token is told whether it is approved and the name of
/// its child; without one it is refused.
pub proof fn status_tells_the_standing(
    state: AppState,
    credentials: &Credentials,
    res: Result<RegisterResponse, Refusal>,
    i: int,
    k: int,
)
    requires
        state.db.wf(),
        call_ensures(register_status, (&state, credentials), res),
    ensures
        ({
            let t = state.db@;
            &&& comes_from(t, credentials@, i) ==> (res matches Ok(r) && {
                &&& r.status == RegistrationStatus::Approved <==> t.workers[i].info.approved
                &&& t.workers[i].info.child_id is None ==> r.child_name is None
                &&& 0 <= k < t.children.len() && t.workers[i].info.child_id == Some(
                    t.children[k].id,
                ) ==> opt_view(r.child_name) == Some(t.children[k].name)
            })
            &&& (forall|j: int| !comes_from(t, credentials@, j)) ==> res == Err::<
                RegisterResponse,
                Refusal,
            >(Refusal::Unauthorized)
        }),
{
    let t = state.db@;
    caller_is_who_bears_the_token(t, credentials@);
    if comes_from(t, credentials@, i) {
        standing_tells_approval_and_child(t, t.workers[i].info);
    }
}

// ---- Answers ----
/// An approved worker with a child is told the child's goal, its seconds of
/// the local day and week, and its points. Without a child there is a
/// conflict; without approval or token it is refused.
pub proof fn configuration_is_that_of_the_child(
    state: AppState,
    credentials: &Credentials,
    now: i64,
    res: Result<ConfigResponse, Refusal>,
    i: int,
    goal: GoalConfig,
    midnight: int,
    monday: int,
    o: OverrideView,
)
    requires
        state.db.wf(),
        call_ensures(get_config, (&state, credentials, now), res),
        comes_from(state.db@, credentials@, i),
        (midnight + state.tz_offset_s) % 86_400 == 0,
        midnight <= now < midnight + 86_400,
        (monday + state.tz_offset_s) % 604_800 == 345_600,
        monday <= now < monday + 604_800,
        state.break_prompt_after_min <= u32::MAX,
    ensures
        ({
            let t = state.db@;
            let w = t.workers[i].info;
            &&& !w.approved ==> res == Err::<ConfigResponse, Refusal>(Refusal::Forbidden)
            &&& w.approved && w.child_id is None ==> res == Err::<ConfigResponse, Refusal>(
                Refusal::Conflict,
            )
            &&& w.approved && w.child_id is Some ==> {
                let id = w.child_id->0;
                &&& config_fits(t, id, now, state.tz_offset_s) <==> res is Ok
                &&& goal_stands(t, id, goal) ==> (res matches Ok(c) ==> {
                    &&& c.goal == goal
                    &&& c.usage.today_s == child_seconds(t, id, midnight, now as int)
                    &&& c.usage.week_s == child_seconds(t, id, monday, now as int)
                    &&& c.points_balance == t.points.fold_left(
                        0int,
                        |acc: int, p: PointsRowView|
                            acc + if p.child_id == id {
                                p.entry.points as int
                            } else {
                                0
                            },
                    )
                    &&& c.thresholds.nudge_pct == 90 && c.thresholds.limit_pct == 100
                        && c.thresholds.over_pct == 110
                    &&& c.break_prompt_after_min == state.break_prompt_after_min
                    &&& views(c.overrides@).contains(o) <==> t.overrides.contains(o)
                })
            }
        }),
{
    let t = state.db@;
    let w = t.workers[i].info;
    approved_caller_is_approved(t, credentials@, i);
    if w.approved && w.child_id is Some {
        let id = w.child_id->0;
        if goal_stands(t, id, goal) {
            if let Ok(c) = res {
                configuration_tells_the_child_s_numbers(
                    t,
                    id,
                    now,
                    state.tz_offset_s,
                    state.break_prompt_after_min,
                    c,
                    goal,
                    midnight,
                    monday,
                    o,
                );
            }
        }
    }
}

/// The overview has a line for each child, with its seconds of the local day
/// and week, its points after the evaluation, and whether one of its workers
/// was heard of in time; and it lists who waits for approval.
pub proof fn overview_tells_every_child(
    state: &mut AppState,
    now: i64,
    s: DashboardSummary,
    i: int,
    midnight: int,
    monday: int,
    w: WorkerInfoView,
)
    requires
        old(state).db.wf(),
        final(state).db.wf(),
        periods_fit(now as int, old(state).tz_offset_s as int),
        call_ensures(dashboard_summary, (state, now), Ok(s)),
        0 <= i < final(state).db@.children.len(),
        (midnight + old(state).tz_offset_s) % 86_400 == 0,
        midnight <= now < midnight + 86_400,
        (monday + old(state).tz_offset_s) % 604_800 == 345_600,
        monday <= now < monday + 604_800,
    ensures
        ({
            let t = final(state).db@;
            let id = t.children[i].id;
            &&& s.children@.len() == t.children.len()
            &&& exists|k: int|
                0 <= k < s.children@.len() && (#[trigger] s.children@[k])@.id == id
                    && s.children@[k]@.name == t.children[i].name && s.children@[k]@.today_s
                    == child_seconds(t, id, midnight, now as int) && s.children@[k]@.week_s
                    == child_seconds(t, id, monday, now as int) && (s.children@[k]@.online
                    <==> exists|m: int|
                    0 <= m < t.workers.len() && (#[trigger] t.workers[m]).info.child_id == Some(id)
                        && (t.workers[m].info.last_seen matches Some(seen) && now - seen
                        <= old(state).online_threshold_s))
            &&& views(s.pending@).contains(w) <==> !w.approved && exists|m: int|
                0 <= m < t.workers.len() && (#[trigger] t.workers[m]).info == w
        }),
{
    let t = final(state).db@;
    let tz = old(state).tz_offset_s;
    let threshold = old(state).online_threshold_s;
    let c = ChildInfoView { id: t.children[i].id, name: t.children[i].name };
    overview_has_every_child(t, now, tz, threshold, s, i, w);
    let k = choose|k: int|
        0 <= k < s.children@.len() && (#[trigger] s.children@[k])@ == summary_of(
            t,
            c,
            now,
            tz,
            threshold,
        );
    assert(overview_fits(t, now, tz));
    assert(crate::store::master::reports::summary_fits(t, t.children[i].id, now, tz));
    summary_tells_the_child(t, c, now, tz, threshold, midnight, monday);
    assert(s.children@[k]@.id == c.id);
}

/// The details of a child: the breakdown and the times of day of the range,
/// and goal, usage and points of the child.
pub proof fn details_are_those_of_the_child(
    state: AppState,
    child_id: &str,
    from: Option<i64>,
    to: Option<i64>,
    now: i64,
    d: ChildDetail,
    goal: GoalConfig,
    midnight: int,
    monday: int,
    range_midnight: int,
    e: PointsEntryView,
    i: int,
)
    requires
        state.db.wf(),
        call_ensures(dashboard_child, (&state, child_id, from, to, now), Ok(d)),
        goal_stands(state.db@, child_id@, goal),
        (midnight + state.tz_offset_s) % 86_400 == 0,
        midnight <= now < midnight + 86_400,
        (monday + state.tz_offset_s) % 604_800 == 345_600,
        monday <= now < monday + 604_800,
        ({
            let end = match to {
                Some(n) => n,
                None => now,
            };
            (range_midnight + state.tz_offset_s) % 86_400 == 0 && range_midnight <= end
                < range_midnight + 86_400
        }),
    ensures
        ({
            let t = state.db@;
            let end: int = match to {
                Some(n) => n as int,
                None => now as int,
            };
            let begin: int = match from {
                Some(n) => n as int,
                None => range_midnight,
            };
            let began = |b: TodBucket|
                added_up(
                    t.sessions,
                    time_of_day_part(t, child_id@, begin, end, state.tz_offset_s as int, b),
                );
            &&& d.tod.morning_s == began(TodBucket::Morning)
            &&& d.tod.afternoon_s == began(TodBucket::Afternoon)
            &&& d.tod.evening_s == began(TodBucket::Evening)
            &&& d.tod.night_s == began(TodBucket::Night)
            &&& 0 <= i < d.breakdown@.len() ==> d.breakdown@[i].duration_s == added_up(
                t.sessions,
                app_part(t, child_id@, d.breakdown@[i].app_name@, begin, end),
            ) && d.breakdown@[i].total_s == child_seconds(t, child_id@, begin, end)
            &&& d.goal == goal
            &&& d.usage.today_s == child_seconds(t, child_id@, midnight, now as int)
            &&& d.usage.week_s == child_seconds(t, child_id@, monday, now as int)
            &&& d.points_balance == t.points.fold_left(
                0int,
                |acc: int, p: PointsRowView|
                    acc + if p.child_id == child_id@ {
                        p.entry.points as int
                    } else {
                        0
                    },
            )
            &&& views(d.points_history@).contains(e) <==> exists|k: int|
                0 <= k < t.points.len() && (#[trigger] t.points[k]).child_id == child_id@
                    && t.points[k].entry == e
        }),
{
    let t = state.db@;
    let tz = state.tz_offset_s;
    range_is_the_day_so_far(from, to, now, tz, range_midnight);
    let (begin, end) = range_of(from, to, now, tz);
    details_tell_the_child_s_numbers(
        t,
        child_id@,
        from,
        to,
        now,
        tz,
        d,
        goal,
        midnight,
        monday,
        e,
    );
    if 0 <= i < d.breakdown@.len() {
        let lines = views(d.breakdown@);
        assert(lines[i] == d.breakdown@[i]@);
        breakdown_line_counts_its_app(t, child_id@, begin, end, lines, i);
    }
}

// ---- Decisions ----
/// A parent's decision sets the override and moves all sessions of the
/// application, and nothing else.
pub proof fn decision_sets_and_moves(
    state: &mut AppState,
    o: &CategoryOverride,
    other: OverrideView,
    k: int,
)
    requires
        old(state).db.wf(),
        call_ensures(set_category_override, (state, o), ()),
        0 <= k < old(state).db@.sessions.len(),
    ensures
        ({
            let before = old(state).db@;
            let after = final(state).db@;
            &&& after.overrides.contains(other) <==> if other.app_name == o.app_name@ {
                other.category == o.category
            } else {
                before.overrides.contains(other)
            }
            &&& after.sessions.len() == before.sessions.len()
            &&& after.sessions[k].worker_id == before.sessions[k].worker_id
            &&& after.sessions[k].session == (SessionView {
                category: if before.sessions[k].session.app_name == o.app_name@ {
                    o.category
                } else {
                    before.sessions[k].session.category
                },
                ..before.sessions[k].session
            })
            &&& after.workers == before.workers && after.children == before.children && after.goals
                == before.goals && after.points == before.points
        }),
{
    decision_holds_for_past_and_future(old(state).db@, o@, other, k);
}

/// An approval under a name gives the worker the child of that name, up to
/// case; an unknown worker is not found.
pub proof fn approval_gives_the_named_child(
    state: &mut AppState,
    worker_id: &str,
    name: &str,
    id: String,
    now: i64,
    res: Result<(), Refusal>,
    i: int,
)
    requires
        old(state).db.wf(),
        call_ensures(approve_worker_with, (state, worker_id, name, id, now), res),
        0 <= i < old(state).db@.workers.len(),
        res != Err::<(), Refusal>(Refusal::Internal),
    ensures
        ({
            let before = old(state).db@;
            let after = final(state).db@;
            &&& before.workers[i].info.worker_id == worker_id@ ==> {
                &&& res is Ok
                &&& after.workers[i].info.approved
                &&& exists|k: int|
                    0 <= k < after.children.len() && after.workers[i].info.child_id == Some(
                        (#[trigger] after.children[k]).id,
                    ) && ascii_fold(after.children[k].name) == ascii_fold(name@)
            }
            &&& before.workers[i].info.worker_id != worker_id@ ==> after.workers[i]
                == before.workers[i]
            &&& (forall|j: int|
                0 <= j < before.workers.len() ==> (#[trigger] before.workers[j]).info.worker_id
                    != worker_id@) ==> res == Err::<(), Refusal>(Refusal::NotFound)
        }),
{
    approval_links_the_named_child(old(state).db@, worker_id@, name@, id@, now, i);
}

/// Moving a worker to a child approves it and changes no other worker.
pub proof fn assignment_moves_one_worker(
    state: &mut AppState,
    worker_id: &str,
    child_id: &str,
    res: Result<(), Refusal>,
    i: int,
)
    requires
        call_ensures(assign_worker, (state, worker_id, child_id), res),
        0 <= i < old(state).db@.workers.len(),
    ensures
        ({
            let before = old(state).db@.workers[i];
            let after = final(state).db@.workers[i];
            &&& before.info.worker_id == worker_id@ ==> res is Ok && after.info.approved
                && after.info.child_id == Some(child_id@) && after.token == before.token
                && after.info.last_seen == before.info.last_seen
            &&& before.info.worker_id != worker_id@ ==> after == before
        }),
{
    let t = old(state).db@;
    worker_changes_field_by_field(t, worker_id@, child_id@, 0, i);
    if t.workers[i].info.worker_id == worker_id@ {
        assert(crate::store::master::worker_key()(t.workers[i]) == worker_id@);
    }
}

/// The goal that the dashboard sets is the goal of the child.
pub proof fn dashboard_sets_the_goal(
    state: &mut AppState,
    child_id: &str,
    goal: &GoalConfig,
    after: AppState,
    got: GoalConfig,
)
    requires
        old(state).db.wf(),
        call_ensures(set_child_goal, (state, child_id, goal), ()),
        after == *final(state),
        call_ensures(get_goal, (&after.db, child_id), got),
    ensures
        got == *goal,
        final(state).db@ == (MasterTables { goals: final(state).db@.goals, ..old(state).db@ }),
{
    let other = child_id@.push('x');
    assert(other.len() != child_id@.len());
    crate::store::master::laws::goal_is_what_was_set(old(state).db@, child_id@, *goal, other);
}

// ---- Tables ----
/// A child is found by its name, up to case, or made with the id and the time
/// given.
pub proof fn child_is_found_or_made(
    db: &mut MasterDb,
    name: &str,
    id: String,
    now: i64,
    res: Result<String, StoreError>,
    k: int,
)
    requires
        old(db).wf(),
        call_ensures(find_or_create_child_with, (db, name, id, now), res),
    ensures
        ({
            let before = old(db)@.children;
            let known = exists|i: int|
                0 <= i < before.len() && ascii_fold((#[trigger] before[i]).name) == ascii_fold(
                    name@,
                );
            &&& known ==> final(db)@ == old(db)@ && (res matches Ok(found) && exists|i: int|
                0 <= i < before.len() && (#[trigger] before[i]).id == found@ && ascii_fold(
                    before[i].name,
                ) == ascii_fold(name@))
            &&& !known && res is Ok ==> {
                &&& (res matches Ok(found) && found@ == id@)
                &&& final(db)@.children == before.push(
                    crate::store::master::rows::ChildRowView {
                        id: id@,
                        name: name@,
                        created_at: now,
                    },
                )
            }
            &&& !known && res is Err ==> final(db)@ == old(db)@ && exists|i: int|
                0 <= i < before.len() && (#[trigger] before[i]).id == id@
        }),
{
    name_finds_or_makes_a_child(old(db)@, name@, id@, now);
}

/// An override that was set is listed, with its category, and by name.
pub proof fn override_is_listed(
    db: &mut MasterDb,
    app_name: &str,
    category: Category,
    after: MasterDb,
    listed: Vec<CategoryOverride>,
    o: OverrideView,
)
    requires
        old(db).wf(),
        call_ensures(set_override, (db, app_name, category), ()),
        after == *final(db),
        call_ensures(list_overrides, (&after,), listed),
    ensures
        views(listed@).contains(o) <==> if o.app_name == app_name@ {
            o.category == category
        } else {
            old(db)@.overrides.contains(o)
        },
        forall|i: int, j: int|
            0 <= i < j < listed@.len() ==> text_leq(
                (#[trigger] views(listed@)[i]).app_name,
                (#[trigger] views(listed@)[j]).app_name,
            ),
{
    override_is_what_was_set(old(db)@, app_name@, category, o);
    overrides_are_listed_by_name(views(listed@), final(db)@.overrides, o);
}

/// Moving the sessions of an application counts them and changes their
/// category alone.
pub proof fn sessions_are_moved_and_counted(
    db: &mut MasterDb,
    app_name: &str,
    category: Category,
    n: usize,
    k: int,
)
    requires
        call_ensures(recategorize_sessions, (db, app_name, category), n),
        0 <= k < old(db)@.sessions.len(),
    ensures
        n == old(db)@.sessions.filter(
            |r: SessionRowView| r.session.app_name == app_name@,
        ).len(),
        final(db)@.sessions.len() == old(db)@.sessions.len(),
        final(db)@.sessions[k].worker_id == old(db)@.sessions[k].worker_id,
        final(db)@.sessions[k].session == (SessionView {
            category: if old(db)@.sessions[k].session.app_name == app_name@ {
                category
            } else {
                old(db)@.sessions[k].session.category
            },
            ..old(db)@.sessions[k].session
        }),
        final(db)@ == (MasterTables { sessions: final(db)@.sessions, ..old(db)@ }),
{
    moved_sessions_are_counted(old(db)@.sessions, app_name@);
}

/// The history of a child lists its entries, latest date first.
pub proof fn history_lists_latest_first(
    db: MasterDb,
    child_id: &str,
    res: Vec<PointsEntry>,
    e: PointsEntryView,
)
    requires
        call_ensures(points_history, (&db, child_id), res),
    ensures
        views(res@).contains(e) <==> exists|i: int|
            0 <= i < db@.points.len() && (#[trigger] db@.points[i]).child_id == child_id@
                && db@.points[i].entry == e,
        forall|i: int, j: int|
            0 <= i < j < res@.len() ==> text_leq(
                (#[trigger] views(res@)[j]).date,
                (#[trigger] views(res@)[i]).date,
            ),
{
    history_has_the_child_s_entries(db@.points, child_id@, views(res@), e);
}

/// Listings of children and workers are complete and in order: children by
/// name, workers by the time of their registration.
pub proof fn listings_are_complete(
    db: MasterDb,
    child_id: &str,
    children: Vec<ChildInfo>,
    all: Vec<WorkerInfo>,
    mine: Vec<WorkerInfo>,
    waiting: Vec<WorkerInfo>,
    c: ChildInfoView,
    w: WorkerInfoView,
)
    requires
        call_ensures(list_children, (&db,), children),
        call_ensures(list_workers, (&db,), all),
        call_ensures(workers_of_child, (&db, child_id), mine),
        call_ensures(pending_workers, (&db,), waiting),
    ensures
        views(children@).contains(c) <==> exists|i: int|
            0 <= i < db@.children.len() && (#[trigger] db@.children[i]).id == c.id
                && db@.children[i].name == c.name,
        ({
            let there = exists|i: int|
                0 <= i < db@.workers.len() && (#[trigger] db@.workers[i]).info == w;
            &&& views(all@).contains(w) <==> there
            &&& views(mine@).contains(w) <==> there && w.child_id == Some(child_id@)
            &&& views(waiting@).contains(w) <==> there && !w.approved
        }),
        forall|i: int, j: int|
            0 <= i < j < children@.len() ==> text_leq(
                (#[trigger] views(children@)[i]).name,
                (#[trigger] views(children@)[j]).name,
            ),
        forall|i: int, j: int|
            0 <= i < j < all@.len() ==> (#[trigger] views(all@)[i]).created_at <= (
            #[trigger] views(all@)[j]).created_at,
        forall|i: int, j: int|
            0 <= i < j < waiting@.len() ==> (#[trigger] views(waiting@)[i]).created_at <= (
            #[trigger] views(waiting@)[j]).created_at,
{
    children_are_listed_by_name(db@.children, views(children@), c);
    workers_are_listed_by_registration(
        db@.workers,
        child_id@,
        views(all@),
        views(mine@),
        views(waiting@),
        w,
    );
}

/// The name of a child is the one in its row.
pub proof fn name_reads_as_it_stands(db: MasterDb, id: &str, res: Option<String>, i: int)
    requires
        db.wf(),
        call_ensures(child_name, (&db, id), res),
    ensures
        0 <= i < db@.children.len() && db@.children[i].id == id@ ==> opt_view(res) == Some(
            db@.children[i].name,
        ),
        res is Some ==> exists|k: int|
            0 <= k < db@.children.len() && (#[trigger] db@.children[k]).id == id@,
{
    name_is_that_of_the_row(db@, id@);
}

/// A heartbeat of a worker is noted for it alone; the answer says whether
/// there is such a worker.
pub proof fn touch_notes_the_time(db: &mut MasterDb, worker_id: &str, now: i64, n: usize, i: int)
    requires
        call_ensures(touch_heartbeat, (db, worker_id, now), n),
        0 <= i < old(db)@.workers.len(),
    ensures
        old(db)@.workers[i].info.worker_id == worker_id@ ==> n == 1 && final(db)@.workers[i] == (
        WorkerRowView {
            info: WorkerInfoView { last_seen: Some(now), ..old(db)@.workers[i].info },
            ..old(db)@.workers[i]
        }),
        old(db)@.workers[i].info.worker_id != worker_id@ ==> final(db)@.workers[i]
            == old(db)@.workers[i],
{
    worker_changes_field_by_field(old(db)@, worker_id@, worker_id@, now, i);
    if old(db)@.workers[i].info.worker_id == worker_id@ {
        assert(crate::store::master::worker_key()(old(db)@.workers[i]) == worker_id@);
    }
}

/// The lists of applications count the recorded length of the sessions of each
/// application, all of them or those without a category.
pub proof fn app_lists_count_recorded_lengths(
    db: MasterDb,
    child_id: &str,
    all: Vec<AppCategoryRow>,
    open: Vec<(String, i64)>,
    app: Seq<char>,
    i: int,
    j: int,
)
    requires
        db.wf(),
        call_ensures(apps_with_categories, (&db, child_id), Ok(all)),
        call_ensures(uncategorized_apps, (&db, child_id), Ok(open)),
    ensures
        0 <= i < all@.len() && all@[i].app_name@ == app ==> all@[i].total_s == added_up(
            db@.sessions,
            length_part(db@, child_id@, app, false),
        ),
        0 <= j < open@.len() && open@[j].0@ == app ==> open@[j].1 == added_up(
            db@.sessions,
            length_part(db@, child_id@, app, true),
        ),
        (exists|k: int| 0 <= k < all@.len() && (#[trigger] views(all@)[k]).app_name == app) <==> (
        exists|k: int| seen(db@, child_id@, app, k)),
        (exists|k: int| 0 <= k < open@.len() && (#[trigger] views(open@)[k]).0 == app) <==> (exists|
            k: int,
        |
            seen(db@, child_id@, app, k) && db@.sessions[k].session.category == Category::Other),
{
    app_list_tells_every_app(db@, child_id@, views(all@), app);
    uncategorized_list_tells_every_app(db@, child_id@, views(open@), app);
    if 0 <= i < all@.len() {
        assert(views(all@)[i] == all@[i]@);
    }
    if 0 <= j < open@.len() {
        assert(views(open@)[j] == open@[j]@);
    }
}

// ---- When answers are owed ----
/// A breakdown and the times of day are owed as long as the seconds in the
/// range can be held, the balance as long as the sum of the points can.
pub proof fn reports_are_owed(
    db: MasterDb,
    child_id: &str,
    from: i64,
    to: i64,
    tz: i32,
    lines: Result<Vec<AppBreakdown>, StoreError>,
    times: Result<TodDistribution, StoreError>,
    points: Result<i64, StoreError>,
)
    requires
        db.wf(),
        call_ensures(app_breakdown, (&db, child_id, from, to), lines),
        call_ensures(tod_distribution, (&db, child_id, from, to, tz), times),
        call_ensures(points_balance, (&db, child_id), points),
    ensures
        lines is Ok <==> child_seconds(db@, child_id@, from as int, to as int) <= i64::MAX,
        child_seconds(db@, child_id@, from as int, to as int) <= i64::MAX ==> times is Ok,
        points is Ok <==> i64::MIN <= db@.points.fold_left(
            0int,
            |acc: int, p: PointsRowView|
                acc + if p.child_id == child_id@ {
                    p.entry.points as int
                } else {
                    0
                },
        ) <= i64::MAX,
{
    let (f, t, z) = (from as int, to as int, tz as int);
    time_counts_every_session(db@, child_id@, f, t);
    balance_adds_all_points(db@.points, child_id@);
    if time_of(db@, child_id@, f, t) <= i64::MAX {
        assert forall|b: TodBucket| #[trigger]
            crate::store::master::reports::time_at(db@, child_id@, f, t, z, b) <= i64::MAX by {
            crate::master_server::lemma_time_at_bounded(db@, child_id@, f, t, z, b);
        }
    }
}

/// The details of a child are owed at every ordinary time, as long as its
/// numbers can be held.
pub proof fn details_are_owed(
    state: AppState,
    child_id: &str,
    from: Option<i64>,
    to: Option<i64>,
    now: i64,
    res: Result<ChildDetail, Refusal>,
    range_midnight: int,
)
    requires
        state.db.wf(),
        call_ensures(dashboard_child, (&state, child_id, from, to, now), res),
        -0x4000_0000_0000_0000 <= now <= 0x4000_0000_0000_0000,
        ({
            let end = match to {
                Some(n) => n,
                None => now,
            };
            &&& -0x4000_0000_0000_0000 <= end <= 0x4000_0000_0000_0000
            &&& (range_midnight + state.tz_offset_s) % 86_400 == 0
            &&& range_midnight <= end < range_midnight + 86_400
        }),
    ensures
        ({
            let end: int = match to {
                Some(n) => n as int,
                None => now as int,
            };
            let begin: int = match from {
                Some(n) => n as int,
                None => range_midnight,
            };
            res is Ok <==> child_seconds(state.db@, child_id@, begin, end) <= i64::MAX
                && config_fits(state.db@, child_id@, now, state.tz_offset_s)
        }),
        res matches Err(e) ==> e == Refusal::Internal,
{
    let tz = state.tz_offset_s;
    range_is_the_day_so_far(from, to, now, tz, range_midnight);
    let (begin, end) = range_of(from, to, now, tz);
    crate::timeutil::ordinary_times_fit(end, tz as int);
    crate::timeutil::ordinary_times_fit(now as int, tz as int);
    time_counts_every_session(state.db@, child_id@, begin, end);
}

/// The overview is owed at every ordinary time, as long as the numbers of
/// every child can be held.
pub proof fn overview_is_owed(
    state: &mut AppState,
    now: i64,
    res: Result<DashboardSummary, Refusal>,
)
    requires
        call_ensures(dashboard_summary, (state, now), res),
        -0x3000_0000_0000_0000 <= now <= 0x3000_0000_0000_0000,
    ensures
        res is Ok <==> forall|i: int|
            0 <= i < final(state).db@.children.len() ==> config_fits(
                final(state).db@,
                (#[trigger] final(state).db@.children[i]).id,
                now,
                old(state).tz_offset_s,
            ),
        res matches Err(e) ==> e == Refusal::Internal,
        final(state).tz_offset_s == old(state).tz_offset_s,
{
    let tz = old(state).tz_offset_s;
    let t = final(state).db@;
    crate::points_engine::ordinary_periods_fit(now as int, tz as int);
    crate::timeutil::ordinary_times_fit(now as int, tz as int);
    assert forall|i: int| 0 <= i < t.children.len() implies config_fits(
        t,
        (#[trigger] t.children[i]).id,
        now,
        tz,
    ) == crate::store::master::reports::summary_fits(t, t.children[i].id, now, tz) by {
    }
    if res is Ok {
        assert(overview_fits(t, now, tz));
    }
    if forall|i: int|
        0 <= i < t.children.len() ==> config_fits(t, (#[trigger] t.children[i]).id, now, tz) {
        assert(overview_fits(t, now, tz));
    }
}

/// Ordinary times can be placed in their day and week, and evaluated.
pub proof fn ordinary_times_are_accepted(
    now: i64,
    tz: i32,
    day: bool,
    week: bool,
    periods: bool,
)
    requires
        call_ensures(crate::timeutil::day_clock_fits, (now, tz), day),
        call_ensures(crate::timeutil::clock_fits, (now, tz), week),
        call_ensures(crate::points_engine::can_evaluate, (now, tz), periods),
        -0x3000_0000_0000_0000 <= now <= 0x3000_0000_0000_0000,
    ensures
        day && week && periods,
{
    crate::timeutil::ordinary_times_fit(now as int, tz as int);
    crate::points_engine::ordinary_periods_fit(now as int, tz as int);
}

// ---- Stored rows ----
/// A stored row is taken over as it is, unless its id is there.
pub proof fn stored_rows_are_taken_over(
    a: &mut MasterDb,
    child: ChildRow,
    new_child: bool,
    b: &mut MasterDb,
    worker: WorkerRow,
    new_worker: bool,
    c: &mut MasterDb,
    session: SessionRow,
    new_session: bool,
    d: &mut MasterDb,
    goal: GoalRow,
    new_goal: bool,
)
    requires
        call_ensures(restore_child, (a, child), new_child),
        call_ensures(restore_worker, (b, worker), new_worker),
        call_ensures(restore_session, (c, session), new_session),
        call_ensures(restore_goal, (d, goal), new_goal),
    ensures
        final(a)@ == (MasterTables {
            children: if new_child {
                old(a)@.children.push(child@)
            } else {
                old(a)@.children
            },
            ..old(a)@
        }),
        final(b)@ == (MasterTables {
            workers: if new_worker {
                old(b)@.workers.push(worker@)
            } else {
                old(b)@.workers
            },
            ..old(b)@
        }),
        final(c)@ == (MasterTables {
            sessions: if new_session {
                old(c)@.sessions.push(session@)
            } else {
                old(c)@.sessions
            },
            ..old(c)@
        }),
        final(d)@ == (MasterTables {
            goals: if new_goal {
                old(d)@.goals.push(goal@)
            } else {
                old(d)@.goals
            },
            ..old(d)@
        }),
        new_child <==> forall|i: int|
            0 <= i < old(a)@.children.len() ==> (#[trigger] old(a)@.children[i]).id != child.id@,
        new_session <==> forall|i: int|
            0 <= i < old(c)@.sessions.len() ==> (#[trigger] old(c)@.sessions[i]).session.id
                != session.session.id@,
{
    if !new_child {
        let i = choose|i: int|
            0 <= i < old(a)@.children.len() && crate::store::master::child_key()(
                #[trigger] old(a)@.children[i],
            ) == child@.id;
        assert(old(a)@.children[i].id == child.id@);
    } else {
        assert forall|i: int| 0 <= i < old(a)@.children.len() implies (
        #[trigger] old(a)@.children[i]).id != child.id@ by {
            assert(crate::store::master::child_key()(old(a)@.children[i]) != child@.id);
        }
    }
    if !new_session {
        let i = choose|i: int|
            0 <= i < old(c)@.sessions.len() && crate::store::master::session_key()(
                #[trigger] old(c)@.sessions[i],
            ) == session@.session.id;
        assert(old(c)@.sessions[i].session.id == session.session.id@);
    } else {
        assert forall|i: int| 0 <= i < old(c)@.sessions.len() implies (
        #[trigger] old(c)@.sessions[i]).session.id != session.session.id@ by {
            assert(crate::store::master::session_key()(old(c)@.sessions[i])
                != session@.session.id);
        }
    }
}

// ---- Access and listings ----
/// A refusal has the status code of its kind.
pub proof fn refusals_have_their_codes(e: Refusal, code: u16)
    requires
        call_ensures(Refusal::code, (e,), code),
    ensures
        e == Refusal::Unauthorized <==> code == 401,
        e == Refusal::Forbidden <==> code == 403,
        e == Refusal::NotFound <==> code == 404,
        e == Refusal::Conflict <==> code == 409,
        e == Refusal::Internal <==> code == 500,
{
}

/// A request comes from the worker that it names if it bears the worker's
/// token, and is unauthorized otherwise; only approved workers may go on.
pub proof fn requests_are_authenticated(
    state: AppState,
    credentials: Credentials,
    res: Result<WorkerInfo, Refusal>,
    w: WorkerInfo,
    may: Result<(), Refusal>,
    i: int,
)
    requires
        state.db.wf(),
        call_ensures(authenticate, (&state, &credentials), res),
        call_ensures(require_approved, (&w,), may),
    ensures
        comes_from(state.db@, credentials@, i) ==> (res matches Ok(found) && found@
            == state.db@.workers[i].info),
        (forall|k: int| !comes_from(state.db@, credentials@, k)) ==> (res matches Err(e) && e
            == Refusal::Unauthorized),
        may is Ok <==> w.approved,
        may matches Err(e) ==> e == Refusal::Forbidden,
{
    caller_is_who_bears_the_token(state.db@, credentials@);
}

/// A worker is told whether it is approved, and the name of its child.
pub proof fn standing_is_told(state: AppState, w: WorkerInfo, res: RegisterResponse, i: int)
    requires
        state.db.wf(),
        call_ensures(status_of, (&state, &w), res),
    ensures
        res@.status == RegistrationStatus::Approved <==> w.approved,
        w@.child_id is None ==> res@.child_name is None,
        0 <= i < state.db@.children.len() && w@.child_id == Some(state.db@.children[i].id)
            ==> res@.child_name == Some(state.db@.children[i].name),
{
    standing_tells_approval_and_child(state.db@, w@);
}

/// The lists for the category editor count the recorded lengths; they are
/// owed as long as the totals can be held.
pub proof fn editor_lists_count_recorded_lengths(
    state: AppState,
    child_id: &str,
    all: Result<Vec<AppCategoryRow>, Refusal>,
    open: Result<Vec<UncategorizedApp>, Refusal>,
    app: Seq<char>,
    i: int,
    j: int,
)
    requires
        state.db.wf(),
        call_ensures(dashboard_apps, (&state, child_id), all),
        call_ensures(dashboard_uncategorized, (&state, child_id), open),
    ensures
        all matches Ok(list) ==> {
            &&& 0 <= i < list@.len() && list@[i].app_name@ == app ==> list@[i].total_s == added_up(
                state.db@.sessions,
                length_part(state.db@, child_id@, app, false),
            )
            &&& (exists|k: int| 0 <= k < list@.len() && (#[trigger] views(list@)[k]).app_name
                == app) <==> (exists|k: int| seen(state.db@, child_id@, app, k))
            &&& 0 <= i < j < list@.len() ==> list@[i].total_s >= list@[j].total_s
        },
        open matches Ok(list) ==> {
            &&& 0 <= j < list@.len() && list@[j].app_name@ == app ==> list@[j].total_s == added_up(
                state.db@.sessions,
                length_part(state.db@, child_id@, app, true),
            )
            &&& (exists|k: int| 0 <= k < list@.len() && (#[trigger] views(list@)[k]).0 == app)
                <==> (exists|k: int|
                seen(state.db@, child_id@, app, k) && state.db@.sessions[k].session.category
                    == Category::Other)
            &&& 0 <= i < j < list@.len() ==> list@[i].total_s >= list@[j].total_s
        },
        all matches Err(e) ==> e == Refusal::Internal,
        open matches Err(e) ==> e == Refusal::Internal,
{
    if let Ok(list) = all {
        app_list_tells_every_app(state.db@, child_id@, views(list@), app);
        if 0 <= i < list@.len() {
            assert(views(list@)[i] == list@[i]@);
        }
        if 0 <= j < list@.len() {
            assert(views(list@)[j] == list@[j]@);
        }
    }
    if let Ok(list) = open {
        uncategorized_list_tells_every_app(state.db@, child_id@, views(list@), app);
        if 0 <= i < list@.len() {
            assert(views(list@)[i] == list@[i]@);
        }
        if 0 <= j < list@.len() {
            assert(views(list@)[j] == list@[j]@);
        }
    }
}

/// The lists of the dashboard hold every child and every worker.
pub proof fn dashboard_lists_are_complete(
    state: AppState,
    workers: Vec<WorkerInfo>,
    children: Vec<ChildInfo>,
    c: ChildInfoView,
    w: WorkerInfoView,
)
    requires
        call_ensures(list_all_workers, (&state,), workers),
        call_ensures(list_all_children, (&state,), children),
    ensures
        views(children@).contains(c) <==> exists|i: int|
            0 <= i < state.db@.children.len() && (#[trigger] state.db@.children[i]).id == c.id
                && state.db@.children[i].name == c.name,
        views(workers@).contains(w) <==> exists|i: int|
            0 <= i < state.db@.workers.len() && (#[trigger] state.db@.workers[i]).info == w,
        forall|i: int, j: int|
            0 <= i < j < children@.len() ==> text_leq(
                (#[trigger] views(children@)[i]).name,
                (#[trigger] views(children@)[j]).name,
            ),
        forall|i: int, j: int|
            0 <= i < j < workers@.len() ==> (#[trigger] views(workers@)[i]).created_at <= (
            #[trigger] views(workers@)[j]).created_at,
{
    let db = state.db@;
    children_are_listed_by_name(db.children, views(children@), c);
    let all = worker_infos(db.workers);
    lemma_permuted_contains(views(workers@), all, w);
    if all.contains(w) {
        let m = choose|m: int| 0 <= m < all.len() && all[m] == w;
        assert(db.workers[m].info == w);
    }
    if exists|m: int| 0 <= m < db.workers.len() && (#[trigger] db.workers[m]).info == w {
        let m = choose|m: int| 0 <= m < db.workers.len() && (#[trigger] db.workers[m]).info == w;
        assert(all[m] == w);
    }
    assert forall|i: int, j: int| 0 <= i < j < workers@.len() implies (#[trigger] views(
        workers@,
    )[i]).created_at <= (#[trigger] views(workers@)[j]).created_at by {
        assert(<WorkerInfo as crate::seqs::Ordered>::leq(views(workers@)[i], views(workers@)[j]));
    }
}

/// An approval under a name approves the worker and links it to a child of
/// that name, up to case, whatever id a new child gets.
pub proof fn approval_under_a_name_links(
    state: &mut AppState,
    worker_id: &str,
    name: &str,
    res: Result<(), Refusal>,
    i: int,
)
    requires
        old(state).db.wf(),
        call_ensures(approve_worker, (state, worker_id, name), res),
        0 <= i < old(state).db@.workers.len(),
        res != Err::<(), Refusal>(Refusal::Internal),
    ensures
        ({
            let before = old(state).db@;
            let after = final(state).db@;
            &&& before.workers[i].info.worker_id == worker_id@ ==> {
                &&& res is Ok
                &&& after.workers[i].info.approved
                &&& exists|k: int|
                    0 <= k < after.children.len() && after.workers[i].info.child_id == Some(
                        (#[trigger] after.children[k]).id,
                    ) && ascii_fold(after.children[k].name) == ascii_fold(name@)
            }
            &&& before.workers[i].info.worker_id != worker_id@ ==> after.workers[i]
                == before.workers[i]
            &&& (forall|j: int|
                0 <= j < before.workers.len() ==> (#[trigger] before.workers[j]).info.worker_id
                    != worker_id@) ==> res == Err::<(), Refusal>(Refusal::NotFound)
        }),
{
    let t = old(state).db@;
    let (id, now) = choose|id: Seq<char>, now: i64|
        (final(state).db@, res) == #[trigger] approval(t, worker_id@, name@, id, now);
    approval_links_the_named_child(t, worker_id@, name@, id, now, i);
}

/// An approval under the name of a child that is there never fails for want of
/// an id, and makes no child.
pub proof fn approval_under_a_known_name_makes_no_child(
    state: &mut AppState,
    worker_id: &str,
    name: &str,
    res: Result<(), Refusal>,
    k: int,
)
    requires
        call_ensures(approve_worker, (state, worker_id, name), res),
        0 <= k < old(state).db@.children.len(),
        ascii_fold(old(state).db@.children[k].name) == ascii_fold(name@),
    ensures
        res != Err::<(), Refusal>(Refusal::Internal),
        final(state).db@.children == old(state).db@.children,
{
    let t = old(state).db@;
    let (id, now) = choose|id: Seq<char>, now: i64|
        (final(state).db@, res) == #[trigger] approval(t, worker_id@, name@, id, now);
    name_finds_or_makes_a_child(t, name@, id, now);
}

/// A child is found by its name up to case, or made under the name with a new
/// id.
pub proof fn child_is_found_by_name_or_made(
    db: &mut MasterDb,
    name: &str,
    res: Result<String, StoreError>,
)
    requires
        old(db).wf(),
        call_ensures(find_or_create_child, (db, name), res),
    ensures
        ({
            let before = old(db)@.children;
            let after = final(db)@.children;
            let known = exists|i: int|
                0 <= i < before.len() && ascii_fold((#[trigger] before[i]).name) == ascii_fold(
                    name@,
                );
            &&& known ==> final(db)@ == old(db)@ && (res matches Ok(found) && exists|i: int|
                0 <= i < before.len() && (#[trigger] before[i]).id == found@ && ascii_fold(
                    before[i].name,
                ) == ascii_fold(name@))
            &&& !known ==> (res matches Ok(id) ==> after.len() == before.len() + 1 && after.drop_last()
                == before && after.last().id == id@ && after.last().name == name@)
            &&& final(db)@ == (MasterTables { children: after, ..old(db)@ })
            &&& res is Err ==> final(db)@ == old(db)@
        }),
{
    let t = old(db)@;
    let (id, now) = choose|id: Seq<char>, now: i64|
        (final(db)@, crate::seqs::ok_view(res)) == #[trigger] crate::store::master::people::named_child(
            t,
            name@,
            id,
            now,
        );
    name_finds_or_makes_a_child(t, name@, id, now);
    if final(db)@.children.len() > t.children.len() {
        assert(final(db)@.children.drop_last() =~= t.children);
    }
}

/// Assigning a worker approves it and changes no other; the answer says
/// whether there is such a worker.
pub proof fn assignment_counts_the_worker(
    db: &mut MasterDb,
    worker_id: &str,
    child_id: &str,
    n: usize,
    i: int,
)
    requires
        call_ensures(assign_worker_to_child, (db, worker_id, child_id), n),
    ensures
        ({
            let before = old(db)@.workers;
            let after = final(db)@.workers;
            let there = exists|k: int|
                0 <= k < before.len() && (#[trigger] before[k]).info.worker_id == worker_id@;
            &&& there ==> n == 1
            &&& !there ==> n == 0
            &&& 0 <= i < before.len() && before[i].info.worker_id == worker_id@ ==> after[i] == (
            WorkerRowView {
                info: WorkerInfoView {
                    approved: true,
                    child_id: Some(child_id@),
                    ..before[i].info
                },
                ..before[i]
            })
            &&& 0 <= i < before.len() && before[i].info.worker_id != worker_id@ ==> after[i]
                == before[i]
        }),
{
    let t = old(db)@;
    if 0 <= i < t.workers.len() {
        worker_changes_field_by_field(t, worker_id@, child_id@, 0, i);
    }
    let there = exists|k: int|
        0 <= k < t.workers.len() && (#[trigger] t.workers[k]).info.worker_id == worker_id@;
    if there {
        let k = choose|k: int|
            0 <= k < t.workers.len() && (#[trigger] t.workers[k]).info.worker_id == worker_id@;
        assert(crate::store::master::worker_key()(t.workers[k]) == worker_id@);
    }
}

/// The summaries tell of every child its time since local midnight and since
/// local Monday, its points, and whether a device of it was heard of within
/// the threshold.
pub proof fn summaries_tell_every_child(
    db: MasterDb,
    now: i64,
    tz: i32,
    threshold_s: i64,
    list: Vec<ChildSummary>,
    i: int,
    midnight: int,
    monday: int,
)
    requires
        db.wf(),
        call_ensures(child_summaries, (&db, now, tz, threshold_s), Ok(list)),
        0 <= i < db@.children.len(),
        (midnight + tz) % 86_400 == 0,
        midnight <= now < midnight + 86_400,
        (monday + tz) % 604_800 == 345_600,
        monday <= now < monday + 604_800,
    ensures
        ({
            let id = db@.children[i].id;
            &&& list@.len() == db@.children.len()
            &&& exists|k: int|
                0 <= k < list@.len() && (#[trigger] list@[k])@.id == id && list@[k]@.name
                    == db@.children[i].name && list@[k]@.today_s == child_seconds(
                    db@,
                    id,
                    midnight,
                    now as int,
                ) && list@[k]@.week_s == child_seconds(db@, id, monday, now as int) && (
                list@[k]@.online <==> exists|m: int|
                    0 <= m < db@.workers.len() && (#[trigger] db@.workers[m]).info.child_id == Some(
                        id,
                    ) && (db@.workers[m].info.last_seen matches Some(seen) && now - seen
                        <= threshold_s))
        }),
{
    let t = db@;
    let children = choose|children: Seq<ChildInfoView>| #[trigger]
        sorted_copy::<ChildInfo>(children, child_infos(t.children)) && views(list@)
            == children.map_values(|c: ChildInfoView| summary_of(t, c, now, tz, threshold_s));
    let infos = child_infos(t.children);
    let c = ChildInfoView { id: t.children[i].id, name: t.children[i].name };
    assert(infos[i] == c);
    assert(infos.contains(c));
    lemma_permuted_contains(children, infos, c);
    let k = choose|k: int| 0 <= k < children.len() && children[k] == c;
    assert(views(list@).len() == children.len());
    assert(views(list@)[k] == list@[k]@);
    summary_tells_the_child(t, c, now, tz, threshold_s, midnight, monday);
}

/// A list of a child's sessions holds exactly those recorded on its devices,
/// all of them, those with a part in the range or those without a category,
/// in the order of their beginnings.
pub proof fn sessions_are_those_of_the_child(
    db: MasterDb,
    child_id: &str,
    from: i64,
    to: i64,
    all: Vec<SessionRecord>,
    part: Vec<SessionRecord>,
    open: Vec<SessionRecord>,
    s: SessionView,
)
    requires
        db.wf(),
        call_ensures(sessions_of_child, (&db, child_id), all),
        call_ensures(sessions_in_range, (&db, child_id, from, to), part),
        call_ensures(uncategorized_sessions, (&db, child_id), open),
    ensures
        ({
            let recorded = exists|k: int|
                0 <= k < db@.sessions.len() && (#[trigger] db@.sessions[k]).session == s
                    && on_device_of(db@, db@.sessions[k], child_id@);
            &&& views(all@).contains(s) <==> recorded
            &&& views(part@).contains(s) <==> recorded && s.end_ts > from && s.start_ts < to
            &&& views(open@).contains(s) <==> recorded && s.category == Category::Other
        }),
        forall|i: int, j: int|
            0 <= i < j < all@.len() ==> (#[trigger] views(all@)[i]).start_ts <= (
            #[trigger] views(all@)[j]).start_ts,
        forall|i: int, j: int|
            0 <= i < j < part@.len() ==> (#[trigger] views(part@)[i]).start_ts <= (
            #[trigger] views(part@)[j]).start_ts,
{
    let t = db@;
    lemma_selected(t, owned(t, child_id@), views(all@), s);
    lemma_selected(t, in_range(t, child_id@, from as int, to as int), views(part@), s);
    lemma_selected(t, uncategorized(t, child_id@), views(open@), s);
    assert forall|k: int| 0 <= k < t.sessions.len() implies #[trigger] owned(t, child_id@)(
        t.sessions[k],
    ) == on_device_of(t, t.sessions[k], child_id@) by {
        lemma_owned(t, t.sessions[k], child_id@);
    }
    let p = in_range(t, child_id@, from as int, to as int);
    let q = uncategorized(t, child_id@);
    if exists|k: int|
        0 <= k < t.sessions.len() && (#[trigger] t.sessions[k]).session == s && on_device_of(
            t,
            t.sessions[k],
            child_id@,
        ) {
        let k = choose|k: int|
            0 <= k < t.sessions.len() && (#[trigger] t.sessions[k]).session == s && on_device_of(
                t,
                t.sessions[k],
                child_id@,
            );
        assert(owned(t, child_id@)(t.sessions[k]));
        assert(p(t.sessions[k]) == (s.end_ts > from && s.start_ts < to));
        assert(q(t.sessions[k]) == (s.category == Category::Other));
    }
    assert forall|i: int, j: int| 0 <= i < j < all@.len() implies (#[trigger] views(
        all@,
    )[i]).start_ts <= (#[trigger] views(all@)[j]).start_ts by {
        assert(<SessionRecord as crate::seqs::Ordered>::leq(views(all@)[i], views(all@)[j]));
    }
    assert forall|i: int, j: int| 0 <= i < j < part@.len() implies (#[trigger] views(
        part@,
    )[i]).start_ts <= (#[trigger] views(part@)[j]).start_ts by {
        assert(<SessionRecord as crate::seqs::Ordered>::leq(views(part@)[i], views(part@)[j]));
    }
}

/// A list of a selection holds the selected sessions.
proof fn lemma_selected(
    t: MasterTables,
    p: spec_fn(SessionRowView) -> bool,
    list: Seq<SessionView>,
    s: SessionView,
)
    requires
        list.to_multiset() == selected(t.sessions, p).to_multiset(),
    ensures
        list.contains(s) <==> exists|k: int|
            0 <= k < t.sessions.len() && (#[trigger] t.sessions[k]).session == s && p(
                t.sessions[k],
            ),
{
    if list.contains(s) {
        let i = choose|i: int| 0 <= i < list.len() && list[i] == s;
        let k = lemma_from_table(t.sessions, p, list, i);
        assert(t.sessions[k].session == s);
    }
    if exists|k: int|
        0 <= k < t.sessions.len() && (#[trigger] t.sessions[k]).session == s && p(t.sessions[k]) {
        let k = choose|k: int|
            0 <= k < t.sessions.len() && (#[trigger] t.sessions[k]).session == s && p(
                t.sessions[k],
            );
        let i = lemma_to_list(t.sessions, p, list, k);
        assert(list[i] == s);
    }
}

/// The lists of applications are owed as long as the recorded lengths of each
/// application add up to what can be held.
pub proof fn app_lists_are_owed(
    state: AppState,
    child_id: &str,
    all: Result<Vec<AppCategoryRow>, StoreError>,
    open: Result<Vec<(String, i64)>, StoreError>,
    shown: Result<Vec<AppCategoryRow>, Refusal>,
    asked: Result<Vec<UncategorizedApp>, Refusal>,
)
    requires
        state.db.wf(),
        call_ensures(apps_with_categories, (&state.db, child_id), all),
        call_ensures(uncategorized_apps, (&state.db, child_id), open),
        call_ensures(dashboard_apps, (&state, child_id), shown),
        call_ensures(dashboard_uncategorized, (&state, child_id), asked),
    ensures
        (forall|app: Seq<char>|
            i64::MIN <= added_up(
                state.db@.sessions,
                #[trigger] length_part(state.db@, child_id@, app, false),
            ) <= i64::MAX) ==> all is Ok && shown is Ok,
        (forall|app: Seq<char>|
            i64::MIN <= added_up(
                state.db@.sessions,
                #[trigger] length_part(state.db@, child_id@, app, true),
            ) <= i64::MAX) ==> open is Ok && asked is Ok,
{
    let t = state.db@;
    if all is Err || shown is Err {
        let app = choose|app: Seq<char>|
            !crate::timeutil::fits_i64(#[trigger] app_total(t, owned(t, child_id@), app));
        totals_add_recorded_lengths(t, child_id@, app);
        let part = length_part(t, child_id@, app, false);
    }
    if open is Err || asked is Err {
        let app = choose|app: Seq<char>|
            !crate::timeutil::fits_i64(#[trigger] app_total(t, uncategorized(t, child_id@), app));
        totals_add_recorded_lengths(t, child_id@, app);
        let part = length_part(t, child_id@, app, true);
    }
}

/// The summaries are owed as long as the numbers of every child can be held.
pub proof fn summaries_are_owed(
    db: MasterDb,
    now: i64,
    tz: i32,
    threshold_s: i64,
    res: Result<Vec<ChildSummary>, StoreError>,
)
    requires
        call_ensures(child_summaries, (&db, now, tz, threshold_s), res),
        crate::timeutil::week_fits(now as int, tz as int),
    ensures
        res is Ok <==> forall|i: int|
            0 <= i < db@.children.len() ==> config_fits(
                db@,
                (#[trigger] db@.children[i]).id,
                now,
                tz,
            ),
{
    if res is Ok {
        assert forall|i: int| 0 <= i < db@.children.len() implies config_fits(
            db@,
            (#[trigger] db@.children[i]).id,
            now,
            tz,
        ) by {
            assert(crate::store::master::reports::summary_fits(db@, db@.children[i].id, now, tz));
        }
    } else {
        let i = choose|i: int|
            0 <= i < db@.children.len() && !crate::store::master::reports::summary_fits(
                db@,
                (#[trigger] db@.children[i]).id,
                now,
                tz,
            );
        assert(!config_fits(db@, db@.children[i].id, now, tz));
    }
}

} // verus!
