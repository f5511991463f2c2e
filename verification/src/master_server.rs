//! The requests that a master answers. Requests of workers carry a bearer
//! token and the worker's id; requests of the dashboard come from the local
//! network and carry nothing.
use crate::calendar::{clock_time, utc_now};
use crate::catalog::{known_apps, known_rules};
use crate::categorize::{compiled_rules, override_apps, table_of, Categorizer, CategorizerView};
use crate::ids::{fresh_id, random_uuid};
use crate::model::{
    BatchAccepted, BatchUpload, CategoryOverride, ChildDetail, ChildInfo, ChildInfoView,
    ConfigResponse, DashboardSummary, GoalConfig, HeartbeatResponse, OverrideView, PointsEntry,
    RegisterRequest, RegisterResponse, RegisterResponseView, RegisterView, RegistrationStatus,
    SessionView, Thresholds, TodBucket, UncategorizedApp, WorkerInfo, WorkerInfoView,
};
use crate::points_engine::{approved_children, can_evaluate, evaluate_all, evaluated, periods_fit};
use crate::seqs::{
    lemma_first, lemma_first_at, lemma_sum_leq, lemma_views_push, ok_view, opt_view, sorted_copy,
    views,
};
use crate::store::master::laws::{assignment_approves, registration_keeps_approval};
use crate::store::master::ledger::{
    balance, entries_of, goal_of, with_goal, with_override,
};
use crate::store::master::people::{
    authentic, child_infos, child_named, name_of, named_child, pending, with_assignment, with_heartbeat,
    with_worker, worker_info, worker_infos, worker_row,
};
use crate::store::master::records::{inserted, recategorized};
use crate::store::master::reports::{
    app_total, is_app_list, is_breakdown, is_uncategorized_list, span_at, summary_fits, summary_of,
    time_at, time_of, usage_of,
};
use crate::store::master::rows::{ChildRowView, WorkerRowView};
use crate::store::master::selection::{owned, share, span, uncategorized};
use crate::store::master::{
    app_breakdown, apps_with_categories, assign_worker_to_child, child_key, child_name,
    child_summaries, find_or_create_child_with, get_goal, get_worker, has_key, insert_sessions,
    list_children, list_overrides, list_workers, pending_workers, points_balance, points_history,
    recategorize_sessions, set_goal, set_override, tod_distribution, token_valid, touch_heartbeat,
    uncategorized_apps, upsert_worker, usage_totals, worker_key, AppCategoryRow, MasterDb,
    MasterTables,
};
use crate::text::{after_prefix, ascii_fold, strip_prefix};
use crate::timeutil::{clock_fits, day_clock_fits, day_fits, day_start, day_start_at, fits_i64, week_fits};
use vstd::prelude::*;

verus! {

/// A worker that was heard of within this time counts as online.
pub const ONLINE_THRESHOLD_S: i64 = 90;

/// What a master answers from.
pub struct AppState {
    pub db: MasterDb,
    pub tz_offset_s: i32,
    pub break_prompt_after_min: u64,
    pub online_threshold_s: i64,
}

impl AppState {
    pub fn new(db: MasterDb, tz_offset_s: i32, break_prompt_after_min: u64) -> (res: Self)
        ensures
            res.db == db,
            res.tz_offset_s == tz_offset_s,
            res.break_prompt_after_min == break_prompt_after_min,
            res.online_threshold_s == ONLINE_THRESHOLD_S,
    {
        AppState { db, tz_offset_s, break_prompt_after_min, online_threshold_s: ONLINE_THRESHOLD_S }
    }

    /// Everything but the tables is as in `other`.
    pub open spec fn same_settings(&self, other: &AppState) -> bool {
        &&& self.tz_offset_s == other.tz_offset_s
        &&& self.break_prompt_after_min == other.break_prompt_after_min
        &&& self.online_threshold_s == other.online_threshold_s
    }
}

/// Why a request is refused.
#[derive(Debug, Clone, Copy, PartialEq, Eq, Structural)]
pub enum Refusal {
    Unauthorized,
    Forbidden,
    NotFound,
    Conflict,
    Internal,
}

impl Refusal {
    /// The status code of the answer.
    pub fn code(self) -> (code: u16)
        ensures
            code == match self {
                Refusal::Unauthorized => 401u16,
                Refusal::Forbidden => 403,
                Refusal::NotFound => 404,
                Refusal::Conflict => 409,
                Refusal::Internal => 500,
            },
    {
        match self {
            Refusal::Unauthorized => 401,
            Refusal::Forbidden => 403,
            Refusal::NotFound => 404,
            Refusal::Conflict => 409,
            Refusal::Internal => 500,
        }
    }
}

/// The answer is this refusal.
pub open spec fn refused<T>(res: Result<T, Refusal>, e: Refusal) -> bool {
    res == Err::<T, Refusal>(e)
}

/// The two headers that a worker authenticates with, as far as they are
/// there and readable.
pub struct Credentials {
    pub authorization: Option<String>,
    pub worker_id: Option<String>,
}

pub struct CredentialsView {
    pub authorization: Option<Seq<char>>,
    pub worker_id: Option<Seq<char>>,
}

impl View for Credentials {
    type V = CredentialsView;

    open spec fn view(&self) -> CredentialsView {
        CredentialsView {
            authorization: opt_view(self.authorization),
            worker_id: opt_view(self.worker_id),
        }
    }
}

// ---- Access ----
/// The token of an authorization header.
pub open spec fn bearer_token(authorization: Option<Seq<char>>) -> Option<Seq<char>> {
    match authorization {
        Some(a) => after_prefix(a, "Bearer "@),
        None => None,
    }
}

/// The worker that a request comes from: it names a worker and bears the
/// token that this worker registered with.
pub open spec fn caller(t: MasterTables, c: CredentialsView) -> Result<WorkerInfoView, Refusal> {
    match (bearer_token(c.authorization), c.worker_id) {
        (Some(token), Some(id)) => if authentic(t.workers, id, token) {
            Ok(worker_row(t.workers, id)->0.info)
        } else {
            Err(Refusal::Unauthorized)
        },
        _ => Err(Refusal::Unauthorized),
    }
}

/// The worker that a request comes from, if it is approved.
pub open spec fn approved_caller(t: MasterTables, c: CredentialsView) -> Result<
    WorkerInfoView,
    Refusal,
> {
    match caller(t, c) {
        Ok(w) => if w.approved {
            Ok(w)
        } else {
            Err(Refusal::Forbidden)
        },
        Err(e) => Err(e),
    }
}

pub fn authenticate(state: &AppState, credentials: &Credentials) -> (res: Result<
    WorkerInfo,
    Refusal,
>)
    ensures
        ok_view(res) == caller(state.db@, credentials@),
{
    let token: &str = match &credentials.authorization {
        Some(a) => match strip_prefix(a.as_str(), "Bearer ") {
            Some(token) => token,
            None => return Err(Refusal::Unauthorized),
        },
        None => return Err(Refusal::Unauthorized),
    };
    let worker_id: &str = match &credentials.worker_id {
        Some(id) => id.as_str(),
        None => return Err(Refusal::Unauthorized),
    };
    if !token_valid(&state.db, worker_id, token) {
        return Err(Refusal::Unauthorized);
    }
    match get_worker(&state.db, worker_id) {
        Some(w) => Ok(w),
        None => Err(Refusal::Unauthorized),
    }
}

pub fn require_approved(w: &WorkerInfo) -> (res: Result<(), Refusal>)
    ensures
        res == if w.approved {
            Ok(())
        } else {
            Err(Refusal::Forbidden)
        },
{
    if w.approved {
        Ok(())
    } else {
        Err(Refusal::Forbidden)
    }
}

fn authenticate_approved(state: &AppState, credentials: &Credentials) -> (res: Result<
    WorkerInfo,
    Refusal,
>)
    ensures
        ok_view(res) == approved_caller(state.db@, credentials@),
{
    let w = match authenticate(state, credentials) {
        Ok(w) => w,
        Err(e) => return Err(e),
    };
    match require_approved(&w) {
        Ok(_) => Ok(w),
        Err(e) => Err(e),
    }
}

/// What a worker is told of itself: whether it is approved, and the name of
/// its child.
pub open spec fn standing(t: MasterTables, w: WorkerInfoView) -> RegisterResponseView {
    RegisterResponseView {
        status: if w.approved {
            RegistrationStatus::Approved
        } else {
            RegistrationStatus::Pending
        },
        child_name: match w.child_id {
            Some(id) => name_of(t.children, id),
            None => None,
        },
    }
}

pub fn status_of(state: &AppState, w: &WorkerInfo) -> (res: RegisterResponse)
    requires
        state.db.wf(),
    ensures
        res@ == standing(state.db@, w@),
{
    let name = match &w.child_id {
        Some(id) => child_name(&state.db, id.as_str()),
        None => None,
    };
    let status = if w.approved {
        RegistrationStatus::Approved
    } else {
        RegistrationStatus::Pending
    };
    RegisterResponse { status, child_name: name }
}

// ---- Requests of workers ----
/// Registers a worker. One that is registered already keeps its standing.
pub fn register(state: &mut AppState, req: &RegisterRequest, now: i64) -> (res: RegisterResponse)
    requires
        old(state).db.wf(),
    ensures
        final(state).db.wf(),
        final(state).same_settings(old(state)),
        final(state).db@ == with_worker(old(state).db@, req@, now),
        worker_info(final(state).db@.workers, req@.worker_id) matches Some(w) && res@ == standing(
            final(state).db@,
            w,
        ),
{
    let ghost before = state.db@;
    upsert_worker(&mut state.db, req, now);
    proof {
        let other = req@.worker_id.push('x');
        assert(other.len() != req@.worker_id.len());
        registration_keeps_approval(before, req@, now, other);
    }
    match get_worker(&state.db, req.worker_id.as_str()) {
        Some(w) => status_of(state, &w),
        None => RegisterResponse { status: RegistrationStatus::Pending, child_name: None },
    }
}

/// Tells a worker its standing.
pub fn register_status(state: &AppState, credentials: &Credentials) -> (res: Result<
    RegisterResponse,
    Refusal,
>)
    requires
        state.db.wf(),
    ensures
        ok_view(res) == match caller(state.db@, credentials@) {
            Ok(w) => Ok(standing(state.db@, w)),
            Err(e) => Err(e),
        },
{
    match authenticate(state, credentials) {
        Ok(w) => Ok(status_of(state, &w)),
        Err(e) => Err(e),
    }
}

/// The categorizer of a master: what is bundled, and the parent's overrides.
pub open spec fn master_categorizer(overrides: Seq<OverrideView>) -> CategorizerView {
    CategorizerView {
        table: table_of(known_apps()),
        rules: compiled_rules(known_rules()),
        overrides: table_of(override_apps(overrides)),
    }
}

/// The tables after an upload: each session is stored unless it is known,
/// under the category that the master gives it.
pub open spec fn taken_in(
    before: MasterTables,
    worker_id: Seq<char>,
    sessions: Seq<SessionView>,
    after: MasterTables,
) -> bool {
    exists|overrides: Seq<OverrideView>| #[trigger]
        sorted_copy::<CategoryOverride>(overrides, before.overrides) && after == (MasterTables {
            sessions: inserted(
                before.sessions,
                worker_id,
                sessions,
                master_categorizer(overrides),
            ),
            ..before
        })
}

/// How many sessions were added.
pub open spec fn new_sessions(before: MasterTables, after: MasterTables) -> int {
    after.sessions.len() - before.sessions.len()
}

/// Takes an upload of an approved worker. The sessions are categorized anew,
/// with the overrides by name.
pub fn post_batch(state: &mut AppState, credentials: &Credentials, batch: &BatchUpload) -> (res: Result<
    BatchAccepted,
    Refusal,
>)
    requires
        old(state).db.wf(),
    ensures
        final(state).db.wf(),
        final(state).same_settings(old(state)),
        match approved_caller(old(state).db@, credentials@) {
            Ok(w) => {
                &&& taken_in(
                    old(state).db@,
                    w.worker_id,
                    views(batch.sessions@),
                    final(state).db@,
                )
                &&& res matches Ok(a) && a.accepted == new_sessions(
                    old(state).db@,
                    final(state).db@,
                )
            },
            Err(e) => refused(res, e) && final(state).db@ == old(state).db@,
        },
{
    let w = match authenticate_approved(state, credentials) {
        Ok(w) => w,
        Err(e) => return Err(e),
    };
    let overrides = list_overrides(&state.db);
    let categorizer = Categorizer::from_bundled().with_overrides(overrides.as_slice());
    assert(categorizer@ == master_categorizer(views(overrides@)));
    let accepted = insert_sessions(
        &mut state.db,
        w.worker_id.as_str(),
        batch.sessions.as_slice(),
        &categorizer,
    );
    Ok(BatchAccepted { accepted })
}

/// Notes that a worker is alive.
pub fn heartbeat(state: &mut AppState, credentials: &Credentials, now: i64) -> (res: Result<
    HeartbeatResponse,
    Refusal,
>)
    requires
        old(state).db.wf(),
    ensures
        final(state).db.wf(),
        final(state).same_settings(old(state)),
        match caller(old(state).db@, credentials@) {
            Ok(w) => res == Ok::<HeartbeatResponse, Refusal>(HeartbeatResponse { server_time: now })
                && final(state).db@ == with_heartbeat(old(state).db@, w.worker_id, now),
            Err(e) => refused(res, e) && final(state).db@ == old(state).db@,
        },
{
    let w = match authenticate(state, credentials) {
        Ok(w) => w,
        Err(e) => return Err(e),
    };
    touch_heartbeat(&mut state.db, w.worker_id.as_str(), now);
    Ok(HeartbeatResponse { server_time: now })
}

/// Usage and points of a child can be told.
pub open spec fn config_fits(t: MasterTables, child_id: Seq<char>, now: i64, tz: i32) -> bool {
    week_fits(now as int, tz as int) && summary_fits(t, child_id, now, tz)
}

/// The configuration of the worker of a child: goal, usage and points are
/// those of the child across all devices; overrides are by name.
pub open spec fn is_config(
    t: MasterTables,
    child_id: Seq<char>,
    now: i64,
    tz: i32,
    break_prompt_after_min: u64,
    res: ConfigResponse,
) -> bool {
    &&& res.rules@.len() == 0
    &&& sorted_copy::<CategoryOverride>(views(res.overrides@), t.overrides)
    &&& res.goal == goal_of(t.goals, child_id)
    &&& res.thresholds == (Thresholds { nudge_pct: 90, limit_pct: 100, over_pct: 110 })
    &&& (res.usage.today_s as int, res.usage.week_s as int) == usage_of(
        t,
        child_id,
        now as int,
        tz as int,
    )
    &&& res.break_prompt_after_min == break_prompt_after_min as u32
    &&& res.points_balance == balance(t.points, child_id)
}

/// Tells an approved worker its configuration. One without a child has none.
pub fn get_config(state: &AppState, credentials: &Credentials, now: i64) -> (res: Result<
    ConfigResponse,
    Refusal,
>)
    ensures
        match approved_caller(state.db@, credentials@) {
            Ok(w) => match w.child_id {
                Some(id) => if config_fits(state.db@, id, now, state.tz_offset_s) {
                    res matches Ok(c) && is_config(
                        state.db@,
                        id,
                        now,
                        state.tz_offset_s,
                        state.break_prompt_after_min,
                        c,
                    )
                } else {
                    refused(res, Refusal::Internal)
                },
                None => refused(res, Refusal::Conflict),
            },
            Err(e) => refused(res, e),
        },
{
    let w = match authenticate_approved(state, credentials) {
        Ok(w) => w,
        Err(e) => return Err(e),
    };
    let child_id = match &w.child_id {
        Some(id) => id.as_str(),
        None => return Err(Refusal::Conflict),
    };
    if !clock_fits(now, state.tz_offset_s) {
        return Err(Refusal::Internal);
    }
    let goal = get_goal(&state.db, child_id);
    let overrides = list_overrides(&state.db);
    let usage = match usage_totals(&state.db, child_id, now, state.tz_offset_s) {
        Ok(u) => u,
        Err(_) => return Err(Refusal::Internal),
    };
    let points_balance = match points_balance(&state.db, child_id) {
        Ok(n) => n,
        Err(_) => return Err(Refusal::Internal),
    };
    Ok(
        ConfigResponse {
            rules: Vec::new(),
            overrides,
            goal,
            thresholds: Thresholds::default(),
            usage,
            break_prompt_after_min: state.break_prompt_after_min as u32,
            points_balance,
        },
    )
}

// ---- Requests of the dashboard ----
/// The overview of the tables `t`: one line for each child, by name, and the
/// workers that wait for approval, oldest registration first.
pub open spec fn is_overview(
    t: MasterTables,
    now: i64,
    tz: i32,
    threshold_s: i64,
    res: DashboardSummary,
) -> bool {
    &&& exists|children: Seq<ChildInfoView>| #[trigger]
        sorted_copy::<ChildInfo>(children, child_infos(t.children)) && views(res.children@)
            == children.map_values(|c: ChildInfoView| summary_of(t, c, now, tz, threshold_s))
    &&& sorted_copy::<WorkerInfo>(views(res.pending@), worker_infos(t.workers).filter(pending()))
}

/// The numbers of every child can be told.
pub open spec fn overview_fits(t: MasterTables, now: i64, tz: i32) -> bool {
    forall|i: int| 0 <= i < t.children.len() ==> summary_fits(t, (#[trigger] t.children[i]).id, now, tz)
}

/// The tables after the goals of completed periods were evaluated.
pub open spec fn points_settled(before: MasterTables, now: i64, tz: i32, after: MasterTables) -> bool {
    exists|workers: Seq<WorkerInfoView>| #[trigger]
        sorted_copy::<WorkerInfo>(workers, worker_infos(before.workers)) && after == evaluated(
            before,
            approved_children(workers),
            now as int,
            tz as int,
        )
}

/// The overview. Points are evaluated first, so that they are up to date.
pub fn dashboard_summary(state: &mut AppState, now: i64) -> (res: Result<DashboardSummary, Refusal>)
    requires
        old(state).db.wf(),
    ensures
        final(state).db.wf(),
        final(state).same_settings(old(state)),
        if periods_fit(now as int, old(state).tz_offset_s as int) {
            let after = final(state).db@;
            &&& points_settled(old(state).db@, now, old(state).tz_offset_s, after)
            &&& if overview_fits(after, now, old(state).tz_offset_s) {
                res matches Ok(s) && is_overview(
                    after,
                    now,
                    old(state).tz_offset_s,
                    old(state).online_threshold_s,
                    s,
                )
            } else {
                refused(res, Refusal::Internal)
            }
        } else {
            refused(res, Refusal::Internal) && final(state).db@ == old(state).db@
        },
{
    if !can_evaluate(now, state.tz_offset_s) {
        return Err(Refusal::Internal);
    }
    evaluate_all(&mut state.db, now, state.tz_offset_s);
    let children = match child_summaries(
        &state.db,
        now,
        state.tz_offset_s,
        state.online_threshold_s,
    ) {
        Ok(list) => list,
        Err(_) => return Err(Refusal::Internal),
    };
    let pending = pending_workers(&state.db);
    Ok(DashboardSummary { children, pending })
}

/// The range of a request: up to now and from the beginning of that day,
/// unless it says otherwise.
pub open spec fn range_of(from: Option<i64>, to: Option<i64>, now: i64, tz: i32) -> (int, int) {
    let end = match to {
        Some(n) => n as int,
        None => now as int,
    };
    let begin = match from {
        Some(n) => n as int,
        None => day_start_at(end, tz as int),
    };
    (begin, end)
}

/// Everything about a child can be told.
pub open spec fn detail_fits(
    t: MasterTables,
    child_id: Seq<char>,
    from: Option<i64>,
    to: Option<i64>,
    now: i64,
    tz: i32,
) -> bool {
    let (begin, end) = range_of(from, to, now, tz);
    &&& from is None ==> day_fits(end, tz as int)
    &&& time_of(t, child_id, begin, end) <= i64::MAX
    &&& config_fits(t, child_id, now, tz)
}

pub open spec fn is_detail(
    t: MasterTables,
    child_id: Seq<char>,
    from: Option<i64>,
    to: Option<i64>,
    now: i64,
    tz: i32,
    res: ChildDetail,
) -> bool {
    let (begin, end) = range_of(from, to, now, tz);
    let at = |b: TodBucket| time_at(t, child_id, begin, end, tz as int, b);
    &&& is_breakdown(t, child_id, begin, end, views(res.breakdown@))
    &&& res.tod.morning_s == at(TodBucket::Morning)
    &&& res.tod.afternoon_s == at(TodBucket::Afternoon)
    &&& res.tod.evening_s == at(TodBucket::Evening)
    &&& res.tod.night_s == at(TodBucket::Night)
    &&& res.goal == goal_of(t.goals, child_id)
    &&& (res.usage.today_s as int, res.usage.week_s as int) == usage_of(
        t,
        child_id,
        now as int,
        tz as int,
    )
    &&& res.points_balance == balance(t.points, child_id)
    &&& sorted_copy::<PointsEntry>(views(res.points_history@), entries_of(t.points, child_id))
}

/// A time of day has no more than the whole range.
pub proof fn lemma_time_at_bounded(
    t: MasterTables,
    child_id: Seq<char>,
    from: int,
    to: int,
    tz: int,
    b: TodBucket,
)
    ensures
        time_at(t, child_id, from, to, tz, b) <= time_of(t, child_id, from, to),
{
    lemma_sum_leq(
        t.sessions,
        share(owned(t, child_id), span_at(from, to, tz, b)),
        share(owned(t, child_id), span(from, to)),
    );
}

/// All about one child.
pub fn dashboard_child(
    state: &AppState,
    child_id: &str,
    from: Option<i64>,
    to: Option<i64>,
    now: i64,
) -> (res: Result<ChildDetail, Refusal>)
    ensures
        if detail_fits(state.db@, child_id@, from, to, now, state.tz_offset_s) {
            res matches Ok(d) && is_detail(
                state.db@,
                child_id@,
                from,
                to,
                now,
                state.tz_offset_s,
                d,
            )
        } else {
            refused(res, Refusal::Internal)
        },
{
    let tz = state.tz_offset_s;
    let end: i64 = match to {
        Some(n) => n,
        None => now,
    };
    let begin: i64 = match from {
        Some(n) => n,
        None => {
            if !day_clock_fits(end, tz) {
                return Err(Refusal::Internal);
            }
            day_start(end, tz)
        },
    };
    if !clock_fits(now, tz) {
        return Err(Refusal::Internal);
    }
    let breakdown = match app_breakdown(&state.db, child_id, begin, end) {
        Ok(list) => list,
        Err(_) => return Err(Refusal::Internal),
    };
    proof {
        assert forall|b: TodBucket|
            #[trigger] time_at(state.db@, child_id@, begin as int, end as int, tz as int, b)
                <= i64::MAX by {
            lemma_time_at_bounded(state.db@, child_id@, begin as int, end as int, tz as int, b);
        }
    }
    let tod = match tod_distribution(&state.db, child_id, begin, end, tz) {
        Ok(d) => d,
        Err(_) => return Err(Refusal::Internal),
    };
    let goal = get_goal(&state.db, child_id);
    let usage = match usage_totals(&state.db, child_id, now, tz) {
        Ok(u) => u,
        Err(_) => return Err(Refusal::Internal),
    };
    let points_balance = match points_balance(&state.db, child_id) {
        Ok(n) => n,
        Err(_) => return Err(Refusal::Internal),
    };
    let points_history = points_history(&state.db, child_id);
    Ok(ChildDetail { breakdown, tod, goal, usage, points_balance, points_history })
}

/// The applications of a child without a category of their own.
pub fn dashboard_uncategorized(state: &AppState, child_id: &str) -> (res: Result<
    Vec<UncategorizedApp>,
    Refusal,
>)
    ensures
        match res {
            Ok(list) => is_uncategorized_list(state.db@, child_id@, views(list@)),
            Err(e) => e == Refusal::Internal && exists|app: Seq<char>|
                !fits_i64(
                    #[trigger] app_total(state.db@, uncategorized(state.db@, child_id@), app),
                ),
        },
{
    let apps = match uncategorized_apps(&state.db, child_id) {
        Ok(apps) => apps,
        Err(_) => return Err(Refusal::Internal),
    };
    let mut out: Vec<UncategorizedApp> = Vec::new();
    let mut i: usize = 0;
    while i < apps.len()
        invariant
            i <= apps.len(),
            views(out@) == views(apps@).take(i as int),
        decreases apps.len() - i,
    {
        let row = UncategorizedApp { app_name: apps[i].0.clone(), total_s: apps[i].1 };
        proof {
            lemma_views_push(out@, row);
            assert(views(apps@).take(i + 1) =~= views(apps@).take(i as int).push(row@));
        }
        out.push(row);
        i += 1;
    }
    assert(views(out@) =~= views(apps@));
    Ok(out)
}

/// The applications of a child with the category that holds for each.
pub fn dashboard_apps(state: &AppState, child_id: &str) -> (res: Result<
    Vec<AppCategoryRow>,
    Refusal,
>)
    ensures
        match res {
            Ok(list) => is_app_list(state.db@, child_id@, views(list@)),
            Err(e) => e == Refusal::Internal && exists|app: Seq<char>|
                !fits_i64(#[trigger] app_total(state.db@, owned(state.db@, child_id@), app)),
        },
{
    match apps_with_categories(&state.db, child_id) {
        Ok(list) => Ok(list),
        Err(_) => Err(Refusal::Internal),
    }
}

/// Approving a worker under a child's name: the child is found by name or
/// created with `id`, and the worker is assigned to it. An unknown worker is
/// refused, but the child stays.
pub open spec fn approval(
    t: MasterTables,
    worker_id: Seq<char>,
    name: Seq<char>,
    id: Seq<char>,
    now: i64,
) -> (MasterTables, Result<(), Refusal>) {
    let (found, child) = named_child(t, name, id, now);
    match child {
        Ok(child_id) => (
            with_assignment(found, worker_id, child_id),
            if has_key(t.workers, worker_key(), worker_id) {
                Ok(())
            } else {
                Err(Refusal::NotFound)
            },
        ),
        Err(_) => (found, Err(Refusal::Internal)),
    }
}

/// Approves a worker under a child's name, with an id for a new child.
pub fn approve_worker_with(
    state: &mut AppState,
    worker_id: &str,
    name: &str,
    id: String,
    now: i64,
) -> (res: Result<(), Refusal>)
    requires
        old(state).db.wf(),
    ensures
        final(state).db.wf(),
        final(state).same_settings(old(state)),
        (final(state).db@, res) == approval(old(state).db@, worker_id@, name@, id@, now),
{
    let child_id = match find_or_create_child_with(&mut state.db, name, id, now) {
        Ok(child_id) => child_id,
        Err(_) => return Err(Refusal::Internal),
    };
    assign_worker(state, worker_id, child_id.as_str())
}

/// Approves a worker under a child's name. The name of a child that is there,
/// up to case, merges the worker with the child's other devices; another name
/// makes a new child.
pub fn approve_worker(state: &mut AppState, worker_id: &str, name: &str) -> (res: Result<
    (),
    Refusal,
>)
    requires
        old(state).db.wf(),
    ensures
        final(state).db.wf(),
        final(state).same_settings(old(state)),
        exists|id: Seq<char>, now: i64|
            random_uuid(id) && clock_time(now) && (final(state).db@, res) == #[trigger] approval(
                old(state).db@,
                worker_id@,
                name@,
                id,
                now,
            ),
{
    let id = fresh_id();
    let now = utc_now();
    let ghost fresh = id@;
    let res = approve_worker_with(state, worker_id, name, id, now);
    assert((state.db@, res) == approval(old(state).db@, worker_id@, name@, fresh, now));
    res
}

/// Moves a worker to another child, which approves it as well.
pub fn assign_worker(state: &mut AppState, worker_id: &str, child_id: &str) -> (res: Result<
    (),
    Refusal,
>)
    requires
        old(state).db.wf(),
    ensures
        final(state).db.wf(),
        final(state).same_settings(old(state)),
        final(state).db@ == with_assignment(old(state).db@, worker_id@, child_id@),
        res == if has_key(old(state).db@.workers, worker_key(), worker_id@) {
            Ok(())
        } else {
            Err(Refusal::NotFound)
        },
{
    let n = assign_worker_to_child(&mut state.db, worker_id, child_id);
    if n == 0 {
        Err(Refusal::NotFound)
    } else {
        Ok(())
    }
}

/// All workers, oldest registration first.
pub fn list_all_workers(state: &AppState) -> (res: Vec<WorkerInfo>)
    ensures
        sorted_copy::<WorkerInfo>(views(res@), worker_infos(state.db@.workers)),
{
    list_workers(&state.db)
}

/// All children, by name.
pub fn list_all_children(state: &AppState) -> (res: Vec<ChildInfo>)
    ensures
        sorted_copy::<ChildInfo>(views(res@), child_infos(state.db@.children)),
{
    list_children(&state.db)
}

/// Sets the goal of a child.
pub fn set_child_goal(state: &mut AppState, child_id: &str, goal: &GoalConfig)
    requires
        old(state).db.wf(),
    ensures
        final(state).db.wf(),
        final(state).same_settings(old(state)),
        final(state).db@ == with_goal(old(state).db@, child_id@, *goal),
{
    set_goal(&mut state.db, child_id, goal.daily_min, goal.weekly_min);
}

/// The tables after a parent's decision on an application: it holds from now
/// on and for the past.
pub open spec fn decided(t: MasterTables, o: OverrideView) -> MasterTables {
    MasterTables {
        sessions: recategorized(t.sessions, o.app_name, o.category),
        ..with_override(t, o.app_name, o.category)
    }
}

/// Sets a parent's category for an application and moves its sessions there.
pub fn set_category_override(state: &mut AppState, o: &CategoryOverride)
    requires
        old(state).db.wf(),
    ensures
        final(state).db.wf(),
        final(state).same_settings(old(state)),
        final(state).db@ == decided(old(state).db@, o@),
{
    set_override(&mut state.db, o.app_name.as_str(), o.category);
    recategorize_sessions(&mut state.db, o.app_name.as_str(), o.category);
}

// ---- Laws ----
/// Without a valid token a worker gets nothing: its standing, an upload, a
/// heartbeat and the configuration are all refused.
pub proof fn invalid_token_is_refused(t: MasterTables, c: CredentialsView)
    requires
        match (bearer_token(c.authorization), c.worker_id) {
            (Some(token), Some(id)) => !authentic(t.workers, id, token),
            _ => true,
        },
    ensures
        caller(t, c) == Err::<WorkerInfoView, Refusal>(Refusal::Unauthorized),
        approved_caller(t, c) == Err::<WorkerInfoView, Refusal>(Refusal::Unauthorized),
{
}

/// A worker that is not approved can ask for its standing, but its uploads
/// are refused.
pub proof fn uploads_wait_for_approval(t: MasterTables, c: CredentialsView, w: WorkerInfoView)
    requires
        caller(t, c) == Ok::<WorkerInfoView, Refusal>(w),
        !w.approved,
    ensures
        approved_caller(t, c) == Err::<WorkerInfoView, Refusal>(Refusal::Forbidden),
        standing(t, w).status == RegistrationStatus::Pending,
{
}

/// The way of a worker: after the registration it waits; after the approval
/// under a child's name it is told that it is approved, and the name; and a
/// second registration changes nothing of that.
pub proof fn pairing_flow(
    t: MasterTables,
    req: RegisterView,
    registered_at: i64,
    name: Seq<char>,
    id: Seq<char>,
    approved_at: i64,
    again_at: i64,
)
    requires
        t.wf(),
        worker_row(t.workers, req.worker_id) is None,
        !has_key(t.children, child_key(), id),
    ensures
        ({
            let registered = with_worker(t, req, registered_at);
            let (approved, res) = approval(registered, req.worker_id, name, id, approved_at);
            let again = with_worker(approved, req, again_at);
            let before = worker_info(registered.workers, req.worker_id)->0;
            let after = worker_info(again.workers, req.worker_id)->0;
            &&& standing(registered, before) == (RegisterResponseView {
                status: RegistrationStatus::Pending,
                child_name: None,
            })
            &&& res is Ok
            &&& standing(again, after).status == RegistrationStatus::Approved
            &&& standing(again, after).child_name matches Some(n) && ascii_fold(n) == ascii_fold(
                name,
            )
        }),
{
    let other = req.worker_id.push('x');
    assert(other.len() != req.worker_id.len());
    let registered = with_worker(t, req, registered_at);
    registration_keeps_approval(t, req, registered_at, other);
    let (found, child) = named_child(registered, name, id, approved_at);
    let child_id = child->Ok_0;
    assignment_approves(found, req.worker_id, child_id, other);
    let (approved, _) = approval(registered, req.worker_id, name, id, approved_at);
    registration_keeps_approval(approved, req, again_at, other);
    let p = |w: WorkerRowView| w.info.worker_id == req.worker_id;
    lemma_first(registered.workers, p);
    let row = worker_row(registered.workers, req.worker_id)->0;
    let k = choose|k: int| 0 <= k < registered.workers.len() && #[trigger] registered.workers[k] == row;
    assert(worker_key()(registered.workers[k]) == req.worker_id);
    assert(has_key(registered.workers, worker_key(), req.worker_id));
    let q = |c: ChildRowView| ascii_fold(c.name) == ascii_fold(name);
    let by_id = |c: ChildRowView| c.id == child_id;
    lemma_first(t.children, q);
    match child_named(t.children, name) {
        Some(c) => {
            let i = choose|i: int| 0 <= i < t.children.len() && #[trigger] t.children[i] == c;
            assert forall|j: int| 0 <= j < i implies !by_id(#[trigger] t.children[j]) by {
                assert(child_key()(t.children[j]) != child_key()(t.children[i]));
            }
            lemma_first_at(t.children, by_id, i);
        },
        None => {
            let n = t.children.len() as int;
            assert forall|j: int| 0 <= j < n implies !by_id(#[trigger] found.children[j]) by {
                assert(child_key()(t.children[j]) != id);
            }
            lemma_first_at(found.children, by_id, n);
        },
    }
}

} // verus!
