//! What a master answers, told from its tables.
use crate::catalog::{known_apps, known_rules};
use crate::categorize::{
    category_owed, compiled_rules, first_match, no_match, normalized, override_apps, table_of,
};
use crate::master_server::{
    approval, approved_caller, bearer_token, caller, config_fits, decided, is_config, is_detail,
    is_overview, master_categorizer, overview_fits, points_settled, range_of, standing, taken_in,
    CredentialsView, Refusal,
};
use crate::model::{
    Category, CategoryOverride, ChildDetail, ChildInfo, ChildInfoView, ConfigResponse,
    DashboardSummary, GoalConfig, OverrideView, PointsEntryView, RegistrationStatus, SessionView,
    TodBucket, WorkerInfo, WorkerInfoView,
};
use crate::points_engine::{
    approved_children, completed_periods, evaluated, evaluated_children_have_what_is_owed,
    goal_stands, has_points, kept_the_day, kept_the_week, unapproved_workers_are_skipped,
};
use crate::seqs::{lemma_permuted_contains, sorted_copy, views};
use crate::store::master::{has_key, worker_key, MasterTables};
use crate::store::master::ledger::goal_of;
use crate::store::master::people::{child_infos, named_child, pending, worker_infos};
use crate::store::master::records::inserted;
use crate::store::master::reports::{is_breakdown, summary_of};
use crate::store::master::row_laws::{
    as_sent, goal_is_that_of_the_row, history_has_the_child_s_entries, is_new,
    name_finds_or_makes_a_child, name_is_that_of_the_row, override_is_what_was_set,
    overrides_are_listed_by_name, token_is_that_of_the_row, upload_goes_by_name_and_title,
    worker_changes_field_by_field, worker_is_found_by_its_id,
};
use crate::store::master::rows::PointsRowView;
use crate::store::master::usage_laws::{
    added_up, balance_adds_all_points, child_seconds, time_of_day_goes_by_the_beginning,
    time_of_day_part, usage_counts_from_midnight_and_monday,
};
use crate::text::{ascii_fold, text_leq};
use crate::timeutil::local_midnight_is_the_day_start;
use vstd::prelude::*;

verus! {

// ---- Access ----
/// Row `i` is that of the worker that the request names, and the request bears
/// its token.
pub open spec fn comes_from(t: MasterTables, c: CredentialsView, i: int) -> bool {
    &&& 0 <= i < t.workers.len()
    &&& c.worker_id == Some(t.workers[i].info.worker_id)
    &&& c.authorization == Some("Bearer "@ + t.workers[i].token)
}

/// A request is answered for a worker exactly if it names the worker and bears
/// the worker's token after the word `Bearer` and a space; otherwise it is
/// refused as unauthorized.
pub proof fn caller_is_who_bears_the_token(t: MasterTables, c: CredentialsView)
    requires
        t.wf(),
    ensures
        forall|i: int| #[trigger]
            comes_from(t, c, i) ==> caller(t, c) == Ok::<WorkerInfoView, Refusal>(
                t.workers[i].info,
            ),
        (forall|i: int| !comes_from(t, c, i)) ==> caller(t, c) == Err::<WorkerInfoView, Refusal>(
            Refusal::Unauthorized,
        ),
{
    let bearer = "Bearer "@;
    assert forall|i: int| #[trigger] comes_from(t, c, i) implies caller(t, c) == Ok::<
        WorkerInfoView,
        Refusal,
    >(t.workers[i].info) by {
        let token = t.workers[i].token;
        let a = bearer + token;
        assert(bearer =~= a.subrange(0, bearer.len() as int));
        assert(a.skip(bearer.len() as int) =~= token);
        worker_is_found_by_its_id(t, t.workers[i].info.worker_id);
    }
    if caller(t, c) is Ok {
        let a = c.authorization->0;
        let token = bearer_token(c.authorization)->0;
        let id = c.worker_id->0;
        assert(a =~= bearer + token);
        token_is_that_of_the_row(t, id, token);
        let i = choose|i: int|
            0 <= i < t.workers.len() && (#[trigger] t.workers[i]).info.worker_id == id
                && t.workers[i].token == token;
        assert(comes_from(t, c, i));
    }
}

/// Uploads and configurations are for approved workers; others are forbidden
/// them.
pub proof fn approved_caller_is_approved(t: MasterTables, c: CredentialsView, i: int)
    requires
        t.wf(),
        comes_from(t, c, i),
    ensures
        t.workers[i].info.approved ==> approved_caller(t, c) == Ok::<WorkerInfoView, Refusal>(
            t.workers[i].info,
        ),
        !t.workers[i].info.approved ==> approved_caller(t, c) == Err::<WorkerInfoView, Refusal>(
            Refusal::Forbidden,
        ),
{
    caller_is_who_bears_the_token(t, c);
}

/// A worker is told whether it is approved, and the name of its child if it
/// has one.
pub proof fn standing_tells_approval_and_child(t: MasterTables, w: WorkerInfoView)
    requires
        t.wf(),
    ensures
        standing(t, w).status == RegistrationStatus::Approved <==> w.approved,
        w.child_id is None ==> standing(t, w).child_name is None,
        forall|i: int|
            0 <= i < t.children.len() && w.child_id == Some((#[trigger] t.children[i]).id)
                ==> standing(t, w).child_name == Some(t.children[i].name),
{
    if let Some(id) = w.child_id {
        name_is_that_of_the_row(t, id);
    }
}

// ---- Uploads ----
/// A parent's choice for the name of a session decides the category under
/// which an upload stores it; without one, the bundled rules on name and title
/// and then the bundled applications do.
pub proof fn upload_goes_by_the_parent_s_choice(
    before: MasterTables,
    worker_id: Seq<char>,
    sessions: Seq<SessionView>,
    after: MasterTables,
    k: int,
)
    requires
        taken_in(before, worker_id, sessions, after),
        is_new(before.sessions, sessions, k),
    ensures
        before.sessions.is_prefix_of(after.sessions),
        after == (MasterTables { sessions: after.sessions, ..before }),
        exists|i: int|
            before.sessions.len() <= i < after.sessions.len() && as_sent(
                #[trigger] after.sessions[i],
                worker_id,
                sessions[k],
            ) && stored_right(before.overrides, sessions[k], after.sessions[i].session.category),
{
    let overrides = choose|overrides: Seq<OverrideView>| #[trigger]
        sorted_copy::<CategoryOverride>(overrides, before.overrides) && after == (MasterTables {
            sessions: inserted(
                before.sessions,
                worker_id,
                sessions,
                master_categorizer(overrides),
            ),
            ..before
        });
    let c = master_categorizer(overrides);
    let s = sessions[k];
    crate::store::master::laws::upload_keeps_what_is_stored(
        before.sessions,
        worker_id,
        sessions,
        c,
    );
    upload_goes_by_name_and_title(before.sessions, worker_id, sessions, c, k);
    let i = choose|i: int|
        before.sessions.len() <= i < after.sessions.len() && as_sent(
            #[trigger] after.sessions[i],
            worker_id,
            s,
        ) && category_owed(c, s.app_name, s.window_title, after.sessions[i].session.category);
    lemma_stored_right(overrides, before.overrides, s, after.sessions[i].session.category);
}

/// The category of a stored session, given the parent's choices.
pub open spec fn stored_right(
    overrides: Seq<OverrideView>,
    s: SessionView,
    category: Category,
) -> bool {
    let key = normalized(s.app_name);
    let rules = compiled_rules(known_rules());
    let chosen = exists|j: int|
        0 <= j < overrides.len() && normalized((#[trigger] overrides[j]).app_name) == key;
    if chosen {
        exists|j: int|
            0 <= j < overrides.len() && normalized((#[trigger] overrides[j]).app_name) == key
                && overrides[j].category == category
    } else {
        &&& forall|i: int| #[trigger]
            first_match(rules, s.app_name, s.window_title, i) ==> category == rules[i].1
        &&& no_match(rules, s.app_name, s.window_title) ==> {
            ||| exists|a: int|
                0 <= a < known_apps().len() && normalized((#[trigger] known_apps()[a]).0) == key
                    && known_apps()[a].1 == category
            ||| category == Category::Other && forall|a: int|
                0 <= a < known_apps().len() ==> normalized((#[trigger] known_apps()[a]).0) != key
        }
    }
}

proof fn lemma_table_value(apps: Seq<(Seq<char>, Category)>, key: Seq<char>)
    ensures
        table_of(apps).contains_key(key) ==> exists|a: int|
            0 <= a < apps.len() && normalized((#[trigger] apps[a]).0) == key && apps[a].1
                == table_of(apps)[key],
        !table_of(apps).contains_key(key) ==> forall|a: int|
            0 <= a < apps.len() ==> normalized((#[trigger] apps[a]).0) != key,
    decreases apps.len(),
{
    if apps.len() > 0 {
        let front = apps.drop_last();
        lemma_table_value(front, key);
        let n = apps.len() - 1;
        if normalized(apps[n].0) != key {
            if table_of(apps).contains_key(key) {
                let a = choose|a: int|
                    0 <= a < front.len() && normalized((#[trigger] front[a]).0) == key && front[a].1
                        == table_of(front)[key];
                assert(apps[a] == front[a]);
            } else {
                assert forall|a: int| 0 <= a < apps.len() implies normalized(
                    (#[trigger] apps[a]).0,
                ) != key by {
                    if a < n {
                        assert(front[a] == apps[a]);
                    }
                }
            }
        }
    }
}

proof fn lemma_stored_right(
    listed: Seq<OverrideView>,
    overrides: Seq<OverrideView>,
    s: SessionView,
    category: Category,
)
    requires
        sorted_copy::<CategoryOverride>(listed, overrides),
        category_owed(master_categorizer(listed), s.app_name, s.window_title, category),
    ensures
        stored_right(overrides, s, category),
{
    let key = normalized(s.app_name);
    let apps = override_apps(listed);
    lemma_table_value(apps, key);
    lemma_table_value(known_apps(), key);
    if exists|j: int|
        0 <= j < overrides.len() && normalized((#[trigger] overrides[j]).app_name) == key {
        let j = choose|j: int|
            0 <= j < overrides.len() && normalized((#[trigger] overrides[j]).app_name) == key;
        assert(overrides.contains(overrides[j]));
        lemma_permuted_contains(listed, overrides, overrides[j]);
        let m = choose|m: int| 0 <= m < listed.len() && listed[m] == overrides[j];
        assert(normalized(apps[m].0) == key);
        let a = choose|a: int|
            0 <= a < apps.len() && normalized((#[trigger] apps[a]).0) == key && apps[a].1
                == table_of(apps)[key];
        assert(listed.contains(listed[a]));
        lemma_permuted_contains(listed, overrides, listed[a]);
        let b = choose|b: int| 0 <= b < overrides.len() && overrides[b] == listed[a];
        assert(normalized(overrides[b].app_name) == key && overrides[b].category == category);
    } else {
        if table_of(apps).contains_key(key) {
            let a = choose|a: int|
                0 <= a < apps.len() && normalized((#[trigger] apps[a]).0) == key;
            assert(listed.contains(listed[a]));
            lemma_permuted_contains(listed, overrides, listed[a]);
            let b = choose|b: int| 0 <= b < overrides.len() && overrides[b] == listed[a];
            assert(normalized(overrides[b].app_name) == key);
        }
    }
}

// ---- Configuration and details ----
/// The configuration tells the child's own goal, the seconds since local
/// midnight and since Monday on all of its devices, the sum of its points, the
/// parent's choices by name, and the thresholds of 90, 100 and 110 percent.
pub proof fn configuration_tells_the_child_s_numbers(
    t: MasterTables,
    child_id: Seq<char>,
    now: i64,
    tz: i32,
    break_prompt_after_min: u64,
    res: ConfigResponse,
    goal: GoalConfig,
    midnight: int,
    monday: int,
    o: OverrideView,
)
    requires
        t.wf(),
        is_config(t, child_id, now, tz, break_prompt_after_min, res),
        goal_stands(t, child_id, goal),
        (midnight + tz) % 86_400 == 0,
        midnight <= now < midnight + 86_400,
        (monday + tz) % 604_800 == 345_600,
        monday <= now < monday + 604_800,
        break_prompt_after_min <= u32::MAX,
    ensures
        res.goal == goal,
        res.usage.today_s == child_seconds(t, child_id, midnight, now as int),
        res.usage.week_s == child_seconds(t, child_id, monday, now as int),
        res.points_balance == t.points.fold_left(
            0int,
            |acc: int, p: PointsRowView|
                acc + if p.child_id == child_id {
                    p.entry.points as int
                } else {
                    0
                },
        ),
        res.thresholds.nudge_pct == 90 && res.thresholds.limit_pct == 100
            && res.thresholds.over_pct == 110,
        res.break_prompt_after_min == break_prompt_after_min,
        res.rules@.len() == 0,
        views(res.overrides@).contains(o) <==> t.overrides.contains(o),
        forall|i: int, j: int|
            0 <= i < j < res.overrides@.len() ==> text_leq(
                (#[trigger] res.overrides@[i]).app_name@,
                (#[trigger] res.overrides@[j]).app_name@,
            ),
{
    lemma_goal(t, child_id, goal);
    usage_counts_from_midnight_and_monday(t, child_id, now as int, tz as int, midnight, monday);
    balance_adds_all_points(t.points, child_id);
    overrides_are_listed_by_name(views(res.overrides@), t.overrides, o);
    assert forall|i: int, j: int| 0 <= i < j < res.overrides@.len() implies text_leq(
        (#[trigger] res.overrides@[i]).app_name@,
        (#[trigger] res.overrides@[j]).app_name@,
    ) by {
        assert(views(res.overrides@)[i] == res.overrides@[i]@);
        assert(views(res.overrides@)[j] == res.overrides@[j]@);
    }
}

proof fn lemma_goal(t: MasterTables, child_id: Seq<char>, goal: GoalConfig)
    requires
        t.wf(),
        goal_stands(t, child_id, goal),
    ensures
        goal_of(t.goals, child_id) == goal,
{
    goal_is_that_of_the_row(t, child_id);
    if exists|g: int|
        0 <= g < t.goals.len() && (#[trigger] t.goals[g]).child_id == child_id && t.goals[g].goal
            == goal {
        let g = choose|g: int|
            0 <= g < t.goals.len() && (#[trigger] t.goals[g]).child_id == child_id
                && t.goals[g].goal == goal;
        assert(goal_of(t.goals, child_id) == t.goals[g].goal);
    }
}

/// A request about a child covers the time up to `to`, or up to now, and from
/// `from`, or from the last local midnight before that end.
pub proof fn range_is_the_day_so_far(
    from: Option<i64>,
    to: Option<i64>,
    now: i64,
    tz: i32,
    midnight: int,
)
    ensures
        ({
            let (begin, end) = range_of(from, to, now, tz);
            &&& end == match to {
                Some(n) => n,
                None => now,
            }
            &&& from matches Some(n) ==> begin == n
            &&& from is None && (midnight + tz) % 86_400 == 0 && midnight <= end < midnight + 86_400
                ==> begin == midnight
        }),
{
    let (begin, end) = range_of(from, to, now, tz);
    if from is None && (midnight + tz) % 86_400 == 0 && midnight <= end < midnight + 86_400 {
        local_midnight_is_the_day_start(end, tz as int, midnight);
    }
}

/// The details of a child: the breakdown of the range, the times of day at
/// which its sessions began, its goal, its usage of today and of the week up
/// to now, and its points.
pub proof fn details_tell_the_child_s_numbers(
    t: MasterTables,
    child_id: Seq<char>,
    from: Option<i64>,
    to: Option<i64>,
    now: i64,
    tz: i32,
    res: ChildDetail,
    goal: GoalConfig,
    midnight: int,
    monday: int,
    e: PointsEntryView,
)
    requires
        t.wf(),
        is_detail(t, child_id, from, to, now, tz, res),
        goal_stands(t, child_id, goal),
        (midnight + tz) % 86_400 == 0,
        midnight <= now < midnight + 86_400,
        (monday + tz) % 604_800 == 345_600,
        monday <= now < monday + 604_800,
    ensures
        ({
            let (begin, end) = range_of(from, to, now, tz);
            let began = |b: TodBucket|
                added_up(
                    t.sessions,
                    time_of_day_part(t, child_id, begin, end, tz as int, b),
                );
            &&& is_breakdown(t, child_id, begin, end, views(res.breakdown@))
            &&& res.tod.morning_s == began(TodBucket::Morning)
            &&& res.tod.afternoon_s == began(TodBucket::Afternoon)
            &&& res.tod.evening_s == began(TodBucket::Evening)
            &&& res.tod.night_s == began(TodBucket::Night)
        }),
        res.goal == goal,
        res.usage.today_s == child_seconds(t, child_id, midnight, now as int),
        res.usage.week_s == child_seconds(t, child_id, monday, now as int),
        res.points_balance == t.points.fold_left(
            0int,
            |acc: int, p: PointsRowView|
                acc + if p.child_id == child_id {
                    p.entry.points as int
                } else {
                    0
                },
        ),
        views(res.points_history@).contains(e) <==> exists|i: int|
            0 <= i < t.points.len() && (#[trigger] t.points[i]).child_id == child_id
                && t.points[i].entry == e,
{
    let (begin, end) = range_of(from, to, now, tz);
    time_of_day_goes_by_the_beginning(t, child_id, begin, end, tz as int, TodBucket::Morning);
    time_of_day_goes_by_the_beginning(t, child_id, begin, end, tz as int, TodBucket::Afternoon);
    time_of_day_goes_by_the_beginning(t, child_id, begin, end, tz as int, TodBucket::Evening);
    time_of_day_goes_by_the_beginning(t, child_id, begin, end, tz as int, TodBucket::Night);
    lemma_goal(t, child_id, goal);
    usage_counts_from_midnight_and_monday(t, child_id, now as int, tz as int, midnight, monday);
    balance_adds_all_points(t.points, child_id);
    history_has_the_child_s_entries(t.points, child_id, views(res.points_history@), e);
}

// ---- Overview ----
/// The overview has a line for each child, and lists exactly the workers that
/// wait for approval.
pub proof fn overview_has_every_child(
    t: MasterTables,
    now: i64,
    tz: i32,
    threshold_s: i64,
    res: DashboardSummary,
    i: int,
    w: WorkerInfoView,
)
    requires
        is_overview(t, now, tz, threshold_s, res),
        0 <= i < t.children.len(),
    ensures
        res.children@.len() == t.children.len(),
        exists|k: int|
            0 <= k < res.children@.len() && (#[trigger] res.children@[k])@ == summary_of(
                t,
                (ChildInfoView { id: t.children[i].id, name: t.children[i].name }),
                now,
                tz,
                threshold_s,
            ),
        views(res.pending@).contains(w) <==> !w.approved && exists|k: int|
            0 <= k < t.workers.len() && (#[trigger] t.workers[k]).info == w,
{
    let children = choose|children: Seq<ChildInfoView>| #[trigger]
        sorted_copy::<ChildInfo>(children, child_infos(t.children)) && views(res.children@)
            == children.map_values(|c: ChildInfoView| summary_of(t, c, now, tz, threshold_s));
    let infos = child_infos(t.children);
    let c = ChildInfoView { id: t.children[i].id, name: t.children[i].name };
    assert(infos[i] == c);
    assert(infos.contains(c));
    lemma_permuted_contains(children, infos, c);
    let k = choose|k: int| 0 <= k < children.len() && children[k] == c;
    assert(views(res.children@).len() == children.len());
    assert(views(res.children@)[k] == res.children@[k]@);
    let all = worker_infos(t.workers);
    lemma_permuted_contains(views(res.pending@), all.filter(pending()), w);
    crate::seqs::lemma_filter_contains(all, pending(), w);
    if all.contains(w) {
        let m = choose|m: int| 0 <= m < all.len() && all[m] == w;
        assert(t.workers[m].info == w);
    }
    if exists|m: int| 0 <= m < t.workers.len() && (#[trigger] t.workers[m]).info == w {
        let m = choose|m: int| 0 <= m < t.workers.len() && (#[trigger] t.workers[m]).info == w;
        assert(all[m] == w);
    }
}

/// Before the overview every child with an approved worker gets what it is
/// owed for yesterday and for last week, and nobody gets anything else.
pub proof fn approved_children_get_what_is_owed(
    before: MasterTables,
    now: i64,
    tz: i32,
    after: MasterTables,
    child_id: Seq<char>,
    goal: GoalConfig,
    yesterday: int,
    monday: int,
    day_date: Seq<char>,
    week_date: Seq<char>,
)
    requires
        before.wf(),
        points_settled(before, now, tz, after),
        goal_stands(before, child_id, goal),
        completed_periods(now as int, tz as int, yesterday, monday, day_date, week_date),
    ensures
        ({
            let approved = exists|i: int|
                0 <= i < before.workers.len() && (#[trigger] before.workers[i]).info.approved
                    && before.workers[i].info.child_id == Some(child_id);
            &&& before.points.is_prefix_of(after.points)
            &&& after == (MasterTables { points: after.points, ..before })
            &&& has_points(after.points, child_id, day_date, "daily_goal_met"@) <==> has_points(
                before.points,
                child_id,
                day_date,
                "daily_goal_met"@,
            ) || (approved && kept_the_day(before, child_id, goal, yesterday))
            &&& has_points(after.points, child_id, week_date, "weekly_goal_met"@) <==> has_points(
                before.points,
                child_id,
                week_date,
                "weekly_goal_met"@,
            ) || (approved && kept_the_week(before, child_id, goal, monday))
        }),
{
    let workers = choose|workers: Seq<WorkerInfoView>| #[trigger]
        sorted_copy::<WorkerInfo>(workers, worker_infos(before.workers)) && after == evaluated(
            before,
            approved_children(workers),
            now as int,
            tz as int,
        );
    let infos = worker_infos(before.workers);
    evaluated_children_have_what_is_owed(
        before,
        approved_children(workers),
        child_id,
        goal,
        now as int,
        tz as int,
        yesterday,
        monday,
        day_date,
        week_date,
    );
    crate::points_engine::evaluation_settles(
        before,
        approved_children(workers),
        now as int,
        tz as int,
    );
    unapproved_workers_are_skipped(workers, child_id);
    if approved_children(workers).contains(child_id) {
        let i = choose|i: int|
            0 <= i < workers.len() && (#[trigger] workers[i]).approved && workers[i].child_id
                == Some(child_id);
        assert(workers.contains(workers[i]));
        lemma_permuted_contains(workers, infos, workers[i]);
        let k = choose|k: int| 0 <= k < infos.len() && infos[k] == workers[i];
        assert(before.workers[k].info == workers[i]);
    }
    if exists|i: int|
        0 <= i < before.workers.len() && (#[trigger] before.workers[i]).info.approved
            && before.workers[i].info.child_id == Some(child_id) {
        let i = choose|i: int|
            0 <= i < before.workers.len() && (#[trigger] before.workers[i]).info.approved
                && before.workers[i].info.child_id == Some(child_id);
        assert(infos[i] == before.workers[i].info);
        assert(infos.contains(infos[i]));
        lemma_permuted_contains(workers, infos, infos[i]);
        let k = choose|k: int| 0 <= k < workers.len() && workers[k] == infos[i];
        assert(workers[k].approved);
    }
}

// ---- Decisions of the parent ----
/// An approval under a name gives the worker the child of that name, up to
/// case, and approves it. An unknown worker is not found, and a worker that is
/// not named stays as it is.
pub proof fn approval_links_the_named_child(
    t: MasterTables,
    worker_id: Seq<char>,
    name: Seq<char>,
    id: Seq<char>,
    now: i64,
    i: int,
)
    requires
        t.wf(),
        0 <= i < t.workers.len(),
        named_child(t, name, id, now).1 is Ok,
    ensures
        ({
            let (after, res) = approval(t, worker_id, name, id, now);
            &&& t.workers[i].info.worker_id == worker_id ==> {
                &&& res is Ok
                &&& after.workers[i].info.approved
                &&& after.workers[i].token == t.workers[i].token
                &&& after.workers[i].info.last_seen == t.workers[i].info.last_seen
                &&& exists|k: int|
                    0 <= k < after.children.len() && after.workers[i].info.child_id == Some(
                        (#[trigger] after.children[k]).id,
                    ) && ascii_fold(after.children[k].name) == ascii_fold(name)
            }
            &&& t.workers[i].info.worker_id != worker_id ==> after.workers[i] == t.workers[i]
            &&& (forall|j: int|
                0 <= j < t.workers.len() ==> (#[trigger] t.workers[j]).info.worker_id != worker_id)
                ==> res == Err::<(), Refusal>(Refusal::NotFound)
            &&& after.sessions == t.sessions && after.goals == t.goals && after.points == t.points
                && after.overrides == t.overrides
        }),
{
    let (found, child) = named_child(t, name, id, now);
    let child_id = child->Ok_0;
    name_finds_or_makes_a_child(t, name, id, now);
    worker_changes_field_by_field(found, worker_id, child_id, now, i);
    let (after, res) = approval(t, worker_id, name, id, now);
    if t.workers[i].info.worker_id == worker_id {
        assert(worker_key()(t.workers[i]) == worker_id);
        assert(has_key(t.workers, worker_key(), worker_id));
        if exists|k: int|
            0 <= k < t.children.len() && ascii_fold((#[trigger] t.children[k]).name) == ascii_fold(
                name,
            ) {
            let k = choose|k: int|
                0 <= k < t.children.len() && (#[trigger] t.children[k]).id == child_id
                    && ascii_fold(t.children[k].name) == ascii_fold(name);
            assert(after.children[k].id == child_id);
        } else {
            let k = t.children.len() as int;
            assert(after.children[k].id == child_id);
            assert(after.children[k].name == name);
        }
    }
    if has_key(t.workers, worker_key(), worker_id) {
        let j = choose|j: int|
            0 <= j < t.workers.len() && worker_key()(#[trigger] t.workers[j]) == worker_id;
        assert(t.workers[j].info.worker_id == worker_id);
    }
}

/// A parent's decision on an application stands from now on, and all stored
/// sessions of the application move to the category; other sessions stay.
pub proof fn decision_holds_for_past_and_future(
    t: MasterTables,
    o: OverrideView,
    other: OverrideView,
    k: int,
)
    requires
        t.wf(),
        0 <= k < t.sessions.len(),
    ensures
        ({
            let after = decided(t, o);
            &&& after.overrides.contains(other) <==> if other.app_name == o.app_name {
                other.category == o.category
            } else {
                t.overrides.contains(other)
            }
            &&& after.sessions.len() == t.sessions.len()
            &&& after.sessions[k].worker_id == t.sessions[k].worker_id
            &&& after.sessions[k].session == (SessionView {
                category: if t.sessions[k].session.app_name == o.app_name {
                    o.category
                } else {
                    t.sessions[k].session.category
                },
                ..t.sessions[k].session
            })
            &&& after.children == t.children && after.workers == t.workers && after.goals == t.goals
                && after.points == t.points
        }),
{
    override_is_what_was_set(t, o.app_name, o.category, other);
}

/// An approval that would need an id that is taken fails, and changes nothing.
pub proof fn approval_needs_a_new_id(
    t: MasterTables,
    worker_id: Seq<char>,
    name: Seq<char>,
    id: Seq<char>,
    now: i64,
)
    requires
        forall|k: int|
            0 <= k < t.children.len() ==> ascii_fold((#[trigger] t.children[k]).name)
                != ascii_fold(name),
        exists|k: int| 0 <= k < t.children.len() && (#[trigger] t.children[k]).id == id,
    ensures
        approval(t, worker_id, name, id, now) == (t, Err::<(), Refusal>(Refusal::Internal)),
{
    name_finds_or_makes_a_child(t, name, id, now);
}

/// The numbers of a child can be told exactly if the seconds since Monday and
/// the sum of the points can be held; the instant is no obstacle.
pub proof fn numbers_can_be_told(
    t: MasterTables,
    child_id: Seq<char>,
    now: i64,
    tz: i32,
    monday: int,
)
    requires
        t.wf(),
        (monday + tz) % 604_800 == 345_600,
        monday <= now < monday + 604_800,
        -0x4000_0000_0000_0000 <= now <= 0x4000_0000_0000_0000,
    ensures
        config_fits(t, child_id, now, tz) <==> child_seconds(t, child_id, monday, now as int)
            <= i64::MAX && i64::MIN <= t.points.fold_left(
            0int,
            |acc: int, p: PointsRowView|
                acc + if p.child_id == child_id {
                    p.entry.points as int
                } else {
                    0
                },
        ) <= i64::MAX,
        (forall|i: int|
            0 <= i < t.children.len() ==> config_fits(
                t,
                (#[trigger] t.children[i]).id,
                now,
                tz,
            )) ==> overview_fits(t, now, tz),
{
    crate::timeutil::ordinary_times_fit(now as int, tz as int);
    let midnight = crate::timeutil::day_start_at(now as int, tz as int);
    crate::timeutil::day_begins_at_local_midnight(now as int, tz as int);
    usage_counts_from_midnight_and_monday(t, child_id, now as int, tz as int, midnight, monday);
    balance_adds_all_points(t.points, child_id);
}

} // verus!
