//! Points for goals that were met. Only completed periods are evaluated:
//! yesterday for the daily goal, last week for the weekly one. Points are
//! awarded once for a child, a date and a reason, so the evaluation can run
//! as often as one likes.
use crate::calendar::{names_day, FIRST_DAY, LAST_DAY};
use crate::model::{GoalConfig, PointsEntryView, WorkerInfo, WorkerInfoView};
use crate::seqs::{lemma_first, sorted_copy, views};
use crate::store::master::laws::breakdown_adds_up;
use crate::store::master::ledger::{award, goal_of, with_points};
use crate::store::master::people::worker_infos;
use crate::store::master::reports::time_of;
use crate::store::master::rows::{GoalRowView, PointsRowView, SessionRowView};
use crate::store::master::selection::{owned, share, span};
use crate::store::master::usage_laws::{child_part, child_seconds, time_counts_every_session};
use crate::store::master::{
    app_breakdown, award_points, get_goal, goal_key, has_key, lemma_with_row, list_workers,
    points_key, MasterDb, MasterTables, StoreError,
};
use crate::timeutil::{
    clock_fits, day_start, day_start_at, lemma_local_date, local_date, local_date_string, local_day,
    local_midnight_is_the_day_start, local_monday_is_the_week_start, week_fits, week_start,
    week_start_at, SECS_PER_DAY,
};
use vstd::prelude::*;

verus! {

pub const DAILY_POINTS: i64 = 1;

pub const WEEKLY_POINTS: i64 = 5;

pub const DAILY_REASON: &'static str = "daily_goal_met";

pub const WEEKLY_REASON: &'static str = "weekly_goal_met";

/// The beginnings of this and of the last week can be computed.
pub open spec fn periods_fit(now: int, tz: int) -> bool {
    week_fits(now, tz) && week_fits(week_start_at(now, tz) - 604_800, tz)
}

/// Whether the periods that are evaluated can be computed.
pub fn can_evaluate(now: i64, tz_offset_s: i32) -> (fits: bool)
    ensures
        fits == periods_fit(now as int, tz_offset_s as int),
{
    if !clock_fits(now, tz_offset_s) {
        return false;
    }
    let week = week_start(now, tz_offset_s);
    week >= i64::MIN + 604_800 && clock_fits(week - 604_800, tz_offset_s)
}

/// Whether a child stayed within its daily goal yesterday.
pub open spec fn met_daily(t: MasterTables, child_id: Seq<char>, now: int, tz: int) -> bool {
    let today = day_start_at(now, tz);
    goal_of(t.goals, child_id).daily_min matches Some(m) && time_of(
        t,
        child_id,
        today - SECS_PER_DAY,
        today,
    ) <= m * 60
}

/// Whether a child stayed within its weekly goal last week.
pub open spec fn met_weekly(t: MasterTables, child_id: Seq<char>, now: int, tz: int) -> bool {
    let week = week_start_at(now, tz);
    goal_of(t.goals, child_id).weekly_min matches Some(m) && time_of(
        t,
        child_id,
        week - 7 * SECS_PER_DAY,
        week,
    ) <= m * 60
}

/// The points for yesterday, under yesterday's date.
pub open spec fn daily_award(child_id: Seq<char>, now: int, tz: int) -> PointsRowView {
    award(child_id, local_date(day_start_at(now, tz) - 1, tz), DAILY_POINTS, DAILY_REASON@)
}

/// The points for last week, under the date of its Monday.
pub open spec fn weekly_award(child_id: Seq<char>, now: int, tz: int) -> PointsRowView {
    award(
        child_id,
        local_date(week_start_at(now, tz) - 7 * SECS_PER_DAY, tz),
        WEEKLY_POINTS,
        WEEKLY_REASON@,
    )
}

pub open spec fn with_daily(t: MasterTables, child_id: Seq<char>, now: int, tz: int) -> MasterTables {
    if met_daily(t, child_id, now, tz) {
        with_points(t, daily_award(child_id, now, tz))
    } else {
        t
    }
}

/// The tables after one child was evaluated.
pub open spec fn evaluated_child(
    t: MasterTables,
    child_id: Seq<char>,
    now: int,
    tz: int,
) -> MasterTables {
    let daily = with_daily(t, child_id, now, tz);
    if met_weekly(daily, child_id, now, tz) {
        with_points(daily, weekly_award(child_id, now, tz))
    } else {
        daily
    }
}

/// The tables after several children were evaluated.
pub open spec fn evaluated(
    t: MasterTables,
    children: Seq<Seq<char>>,
    now: int,
    tz: int,
) -> MasterTables
    decreases children.len(),
{
    if children.len() == 0 {
        t
    } else {
        evaluated_child(
            evaluated(t, children.drop_last(), now, tz),
            children.last(),
            now,
            tz,
        )
    }
}

/// The children of the workers that are approved.
pub open spec fn approved_children(workers: Seq<WorkerInfoView>) -> Seq<Seq<char>>
    decreases workers.len(),
{
    if workers.len() == 0 {
        Seq::empty()
    } else {
        let rest = approved_children(workers.drop_last());
        match workers.last().child_id {
            Some(c) => if workers.last().approved {
                rest.push(c)
            } else {
                rest
            },
            None => rest,
        }
    }
}

/// The time that a child spent in `[from, to)`.
fn usage_in_range(db: &MasterDb, child_id: &str, from: i64, to: i64) -> (res: Result<
    i64,
    StoreError,
>)
    ensures
        match res {
            Ok(n) => n == time_of(db@, child_id@, from as int, to as int),
            Err(_) => time_of(db@, child_id@, from as int, to as int) > i64::MAX,
        },
{
    match app_breakdown(db, child_id, from, to) {
        Ok(list) => {
            proof {
                breakdown_adds_up(db@, child_id@, from as int, to as int, views(list@));
            }
            if list.len() == 0 {
                Ok(0)
            } else {
                assert(views(list@)[0] == list@[0]@);
                Ok(list[0].total_s)
            }
        },
        Err(e) => Err(e),
    }
}

/// Whether a time is known to be within a goal of so many minutes.
fn within(usage: Result<i64, StoreError>, minutes: u32) -> (yes: bool)
    ensures
        yes == (usage matches Ok(n) && n <= minutes * 60),
{
    match usage {
        Ok(n) => n <= minutes as i64 * 60,
        Err(_) => false,
    }
}

/// Evaluates one child: yesterday and last week.
fn evaluate_child(db: &mut MasterDb, child_id: &str, now: i64, tz_offset_s: i32)
    requires
        old(db).wf(),
        periods_fit(now as int, tz_offset_s as int),
    ensures
        final(db).wf(),
        final(db)@ == evaluated_child(old(db)@, child_id@, now as int, tz_offset_s as int),
{
    let ghost (n, tz) = (now as int, tz_offset_s as int);
    proof {
        crate::timeutil::week_contains_its_instant(n, tz);
        crate::timeutil::week_contains_its_instant(week_start_at(n, tz) - 604_800, tz);
        crate::timeutil::day_contains_its_instant(n, tz);
    }
    let today = day_start(now, tz_offset_s);
    let week = week_start(now, tz_offset_s);
    let goal = get_goal(db, child_id);
    if let Some(daily_min) = goal.daily_min {
        let usage = usage_in_range(db, child_id, today - SECS_PER_DAY, today);
        if within(usage, daily_min) {
            let date = local_date_string(today - 1, tz_offset_s);
            proof {
                lemma_local_date(date@, today - 1, tz);
            }
            award_points(db, child_id, date.as_str(), DAILY_POINTS, DAILY_REASON);
        }
    }
    assert(db@ == with_daily(old(db)@, child_id@, n, tz));
    if let Some(weekly_min) = goal.weekly_min {
        let usage = usage_in_range(db, child_id, week - 7 * SECS_PER_DAY, week);
        if within(usage, weekly_min) {
            let date = local_date_string(week - 7 * SECS_PER_DAY, tz_offset_s);
            proof {
                lemma_local_date(date@, week - 7 * SECS_PER_DAY, tz);
            }
            award_points(db, child_id, date.as_str(), WEEKLY_POINTS, WEEKLY_REASON);
        }
    }
}

/// Evaluates the children of all approved workers.
pub fn evaluate_all(db: &mut MasterDb, now: i64, tz_offset_s: i32)
    requires
        old(db).wf(),
        periods_fit(now as int, tz_offset_s as int),
    ensures
        final(db).wf(),
        exists|workers: Seq<WorkerInfoView>| #[trigger]
            sorted_copy::<WorkerInfo>(workers, worker_infos(old(db)@.workers)) && final(db)@
                == evaluated(
                old(db)@,
                approved_children(workers),
                now as int,
                tz_offset_s as int,
            ),
{
    let ghost before = db@;
    let workers = list_workers(db);
    let ghost all = views(workers@);
    let mut i: usize = 0;
    assert(all.take(0) =~= Seq::<WorkerInfoView>::empty());
    while i < workers.len()
        invariant
            i <= workers.len(),
            all == views(workers@),
            db.wf(),
            periods_fit(now as int, tz_offset_s as int),
            db@ == evaluated(
                before,
                approved_children(all.take(i as int)),
                now as int,
                tz_offset_s as int,
            ),
        decreases workers.len() - i,
    {
        let w = &workers[i];
        let ghost done = approved_children(all.take(i as int));
        proof {
            assert(all.take(i + 1).drop_last() =~= all.take(i as int));
            assert(all.take(i + 1).last() == w@);
        }
        if w.approved {
            if let Some(child_id) = &w.child_id {
                assert(done.push(child_id@).drop_last() =~= done);
                evaluate_child(db, child_id.as_str(), now, tz_offset_s);
            }
        }
        i += 1;
    }
    assert(all.take(all.len() as int) =~= all);
}

// ---- Laws ----
/// Points do not change what is evaluated.
proof fn lemma_points_do_not_matter(
    t: MasterTables,
    row: PointsRowView,
    child_id: Seq<char>,
    now: int,
    tz: int,
)
    ensures
        met_daily(with_points(t, row), child_id, now, tz) == met_daily(t, child_id, now, tz),
        met_weekly(with_points(t, row), child_id, now, tz) == met_weekly(t, child_id, now, tz),
{
    let after = with_points(t, row);
    assert forall|from: int, to: int|
        #[trigger] time_of(after, child_id, from, to) == time_of(t, child_id, from, to) by {
        assert(share(owned(after, child_id), span(from, to)) =~= share(
            owned(t, child_id),
            span(from, to),
        ));
    }
}

/// A child's evaluation concerns sessions and goals only as far as they are
/// read, and adds points at most.
proof fn lemma_evaluation_adds_points(
    t: MasterTables,
    child_id: Seq<char>,
    now: int,
    tz: int,
    other: Seq<char>,
    then: int,
)
    ensures
        ({
            let after = evaluated_child(t, child_id, now, tz);
            &&& met_daily(after, other, then, tz) == met_daily(t, other, then, tz)
            &&& met_weekly(after, other, then, tz) == met_weekly(t, other, then, tz)
            &&& forall|k: (Seq<char>, Seq<char>, Seq<char>)|
                has_key(t.points, points_key(), k) ==> #[trigger] has_key(
                    after.points,
                    points_key(),
                    k,
                )
            &&& after == (MasterTables { points: after.points, ..t })
        }),
{
    let daily = with_daily(t, child_id, now, tz);
    lemma_points_do_not_matter(t, daily_award(child_id, now, tz), other, then, tz);
    lemma_points_do_not_matter(daily, weekly_award(child_id, now, tz), other, then, tz);
    lemma_keeps(t, daily_award(child_id, now, tz));
    lemma_keeps(daily, weekly_award(child_id, now, tz));
    lemma_points_do_not_matter(t, daily_award(child_id, now, tz), child_id, now, tz);
}

proof fn lemma_keeps(t: MasterTables, row: PointsRowView)
    ensures
        forall|k: (Seq<char>, Seq<char>, Seq<char>)|
            has_key(t.points, points_key(), k) ==> #[trigger] has_key(
                with_points(t, row).points,
                points_key(),
                k,
            ),
        has_key(with_points(t, row).points, points_key(), points_key()(row)),
{
    let after = with_points(t, row).points;
    assert forall|k: (Seq<char>, Seq<char>, Seq<char>)|
        has_key(t.points, points_key(), k) implies #[trigger] has_key(after, points_key(), k) by {
        let i = choose|i: int| 0 <= i < t.points.len() && points_key()(#[trigger] t.points[i]) == k;
        assert(points_key()(after[i]) == k);
    }
    if !has_key(t.points, points_key(), points_key()(row)) {
        assert(points_key()(after[t.points.len() as int]) == points_key()(row));
    }
}

/// What a child is owed has been awarded.
pub open spec fn settled(t: MasterTables, child_id: Seq<char>, now: int, tz: int) -> bool {
    &&& met_daily(t, child_id, now, tz) ==> has_key(
        t.points,
        points_key(),
        points_key()(daily_award(child_id, now, tz)),
    )
    &&& met_weekly(t, child_id, now, tz) ==> has_key(
        t.points,
        points_key(),
        points_key()(weekly_award(child_id, now, tz)),
    )
}

/// An evaluation settles every child that it is for, and changes nothing but
/// points.
pub proof fn evaluation_settles(t: MasterTables, children: Seq<Seq<char>>, now: int, tz: int)
    ensures
        forall|i: int|
            0 <= i < children.len() ==> settled(
                evaluated(t, children, now, tz),
                #[trigger] children[i],
                now,
                tz,
            ),
        evaluated(t, children, now, tz) == (MasterTables {
            points: evaluated(t, children, now, tz).points,
            ..t
        }),
    decreases children.len(),
{
    if children.len() > 0 {
        let rest = children.drop_last();
        let mid = evaluated(t, rest, now, tz);
        let c = children.last();
        let after = evaluated_child(mid, c, now, tz);
        evaluation_settles(t, rest, now, tz);
        assert forall|i: int| 0 <= i < children.len() implies settled(
            after,
            #[trigger] children[i],
            now,
            tz,
        ) by {
            lemma_evaluation_adds_points(mid, c, now, tz, children[i], now);
            if i < rest.len() {
                assert(settled(mid, rest[i], now, tz));
            } else {
                lemma_points_do_not_matter(mid, daily_award(c, now, tz), c, now, tz);
                lemma_keeps(mid, daily_award(c, now, tz));
                lemma_keeps(with_daily(mid, c, now, tz), weekly_award(c, now, tz));
            }
        }
        lemma_evaluation_adds_points(mid, c, now, tz, c, now);
    }
}

/// Within one day, further evaluations change nothing.
pub proof fn evaluation_can_be_repeated(
    t: MasterTables,
    children: Seq<Seq<char>>,
    now: int,
    later: int,
    tz: int,
)
    requires
        local_day(now, tz) == local_day(later, tz),
    ensures
        evaluated(evaluated(t, children, now, tz), children, later, tz) == evaluated(
            t,
            children,
            now,
            tz,
        ),
{
    let after = evaluated(t, children, now, tz);
    evaluation_settles(t, children, now, tz);
    lemma_settled_stays(after, children, now, later, tz);
}

proof fn lemma_settled_stays(
    t: MasterTables,
    children: Seq<Seq<char>>,
    now: int,
    later: int,
    tz: int,
)
    requires
        local_day(now, tz) == local_day(later, tz),
        forall|i: int| 0 <= i < children.len() ==> settled(t, #[trigger] children[i], now, tz),
    ensures
        evaluated(t, children, later, tz) == t,
    decreases children.len(),
{
    if children.len() > 0 {
        let rest = children.drop_last();
        assert forall|i: int| 0 <= i < rest.len() implies settled(
            t,
            #[trigger] rest[i],
            now,
            tz,
        ) by {
            assert(settled(t, children[i], now, tz));
        }
        lemma_settled_stays(t, rest, now, later, tz);
        assert(settled(t, children[children.len() - 1], now, tz));
    }
}

/// A session that begins today changes nothing for yesterday, and one that
/// begins this week nothing for last week: only completed periods count.
pub proof fn only_completed_periods_count(
    t: MasterTables,
    r: SessionRowView,
    child_id: Seq<char>,
    now: int,
    tz: int,
)
    ensures
        r.session.start_ts >= day_start_at(now, tz) ==> met_daily(
            (MasterTables { sessions: t.sessions.push(r), ..t }),
            child_id,
            now,
            tz,
        ) == met_daily(t, child_id, now, tz),
        r.session.start_ts >= week_start_at(now, tz) ==> met_weekly(
            (MasterTables { sessions: t.sessions.push(r), ..t }),
            child_id,
            now,
            tz,
        ) == met_weekly(t, child_id, now, tz),
{
    let after = MasterTables { sessions: t.sessions.push(r), ..t };
    assert forall|from: int, to: int| r.session.start_ts >= to implies #[trigger] time_of(
        after,
        child_id,
        from,
        to,
    ) == time_of(t, child_id, from, to) by {
        let f = share(owned(after, child_id), span(from, to));
        assert(f =~= share(owned(t, child_id), span(from, to)));
        assert(after.sessions.drop_last() =~= t.sessions);
        assert(after.sessions.last() == r);
    }
}

/// Without a goal there are no points.
pub proof fn no_goal_no_points(t: MasterTables, child_id: Seq<char>, now: int, tz: int)
    requires
        goal_of(t.goals, child_id) == (GoalConfig { daily_min: None, weekly_min: None }),
    ensures
        evaluated_child(t, child_id, now, tz) == t,
{
}

/// Only children with an approved worker are evaluated.
pub proof fn unapproved_workers_are_skipped(workers: Seq<WorkerInfoView>, child_id: Seq<char>)
    ensures
        approved_children(workers).contains(child_id) <==> exists|i: int|
            0 <= i < workers.len() && (#[trigger] workers[i]).approved && workers[i].child_id
                == Some(child_id),
    decreases workers.len(),
{
    if workers.len() > 0 {
        let front = workers.drop_last();
        let rest = approved_children(front);
        let all = approved_children(workers);
        let w = workers.last();
        unapproved_workers_are_skipped(front, child_id);
        if rest.contains(child_id) {
            let j = choose|j: int| 0 <= j < rest.len() && rest[j] == child_id;
            assert(all[j] == child_id);
            let i = choose|i: int|
                0 <= i < front.len() && (#[trigger] front[i]).approved && front[i].child_id == Some(
                    child_id,
                );
            assert(workers[i] == front[i]);
        }
        if w.approved && w.child_id == Some(child_id) {
            assert(all[rest.len() as int] == child_id);
            assert(workers[workers.len() - 1].approved);
        }
        if all.contains(child_id) && !rest.contains(child_id) {
            let j = choose|j: int| 0 <= j < all.len() && all[j] == child_id;
            if j < rest.len() {
                assert(rest[j] == child_id);
            }
        }
        if exists|i: int|
            0 <= i < workers.len() && (#[trigger] workers[i]).approved && workers[i].child_id
                == Some(child_id) {
            let i = choose|i: int|
                0 <= i < workers.len() && (#[trigger] workers[i]).approved && workers[i].child_id
                    == Some(child_id);
            if i < front.len() {
                assert(front[i].approved);
            }
        }
    }
}

// ---- What is owed ----
/// Points for a child, a date and a reason are in the table.
pub open spec fn has_points(
    points: Seq<PointsRowView>,
    child_id: Seq<char>,
    date: Seq<char>,
    reason: Seq<char>,
) -> bool {
    exists|i: int|
        0 <= i < points.len() && (#[trigger] points[i]).child_id == child_id
            && points[i].entry.date == date && points[i].entry.reason == reason
}

/// A row of the table sets this goal for the child, or no row sets one.
pub open spec fn goal_stands(t: MasterTables, child_id: Seq<char>, goal: GoalConfig) -> bool {
    ||| exists|g: int|
        0 <= g < t.goals.len() && (#[trigger] t.goals[g]).child_id == child_id && t.goals[g].goal
            == goal
    ||| goal.daily_min is None && goal.weekly_min is None && forall|g: int|
        0 <= g < t.goals.len() ==> (#[trigger] t.goals[g]).child_id != child_id
}

/// The last completed day and the last completed week in local time:
/// `yesterday` is a midnight, `monday` the midnight of a Monday, and the texts
/// are the dates of both.
pub open spec fn completed_periods(
    now: int,
    tz: int,
    yesterday: int,
    monday: int,
    day_date: Seq<char>,
    week_date: Seq<char>,
) -> bool {
    &&& (yesterday + tz) % 86_400 == 0
    &&& yesterday + 86_400 <= now < yesterday + 172_800
    &&& (monday + tz) % 604_800 == 345_600
    &&& monday + 604_800 <= now < monday + 1_209_600
    &&& FIRST_DAY <= (yesterday + tz) / 86_400 <= LAST_DAY
    &&& FIRST_DAY <= (monday + tz) / 86_400 <= LAST_DAY
    &&& names_day(day_date, (yesterday + tz) / 86_400)
    &&& names_day(week_date, (monday + tz) / 86_400)
}

/// The child kept its daily goal on the day that began at `yesterday`.
pub open spec fn kept_the_day(
    t: MasterTables,
    child_id: Seq<char>,
    goal: GoalConfig,
    yesterday: int,
) -> bool {
    goal.daily_min matches Some(m) && child_seconds(t, child_id, yesterday, yesterday + 86_400) <= m
        * 60
}

/// The child kept its weekly goal in the seven days from `monday` on.
pub open spec fn kept_the_week(
    t: MasterTables,
    child_id: Seq<char>,
    goal: GoalConfig,
    monday: int,
) -> bool {
    goal.weekly_min matches Some(m) && child_seconds(t, child_id, monday, monday + 604_800) <= m * 60
}

pub open spec fn points_row(
    child_id: Seq<char>,
    date: Seq<char>,
    points: i64,
    reason: Seq<char>,
) -> PointsRowView {
    PointsRowView { child_id, entry: PointsEntryView { date, points, reason } }
}

pub proof fn lemma_has_points(
    points: Seq<PointsRowView>,
    child_id: Seq<char>,
    date: Seq<char>,
    reason: Seq<char>,
)
    ensures
        has_key(points, points_key(), (child_id, date, reason)) == has_points(
            points,
            child_id,
            date,
            reason,
        ),
{
    if has_points(points, child_id, date, reason) {
        let i = choose|i: int|
            0 <= i < points.len() && (#[trigger] points[i]).child_id == child_id
                && points[i].entry.date == date && points[i].entry.reason == reason;
        assert(points_key()(points[i]) == (child_id, date, reason));
    }
    if has_key(points, points_key(), (child_id, date, reason)) {
        let i = choose|i: int|
            0 <= i < points.len() && points_key()(#[trigger] points[i]) == (
                child_id,
                date,
                reason,
            );
        assert(points[i].child_id == child_id);
    }
}

proof fn lemma_goal_stands(t: MasterTables, child_id: Seq<char>, goal: GoalConfig)
    requires
        t.wf(),
        goal_stands(t, child_id, goal),
    ensures
        goal_of(t.goals, child_id) == goal,
{
    let p = |g: GoalRowView| g.child_id == child_id;
    lemma_first(t.goals, p);
    if exists|g: int|
        0 <= g < t.goals.len() && (#[trigger] t.goals[g]).child_id == child_id && t.goals[g].goal
            == goal {
        let g = choose|g: int|
            0 <= g < t.goals.len() && (#[trigger] t.goals[g]).child_id == child_id
                && t.goals[g].goal == goal;
        assert(p(t.goals[g]));
        let x = crate::seqs::first(t.goals, p)->0;
        let k = choose|k: int| 0 <= k < t.goals.len() && #[trigger] t.goals[k] == x;
        if k != g {
            assert(goal_key()(t.goals[k]) != goal_key()(t.goals[g]));
        }
    }
}

proof fn lemma_same_seconds(
    a: MasterTables,
    b: MasterTables,
    child_id: Seq<char>,
    from: int,
    to: int,
)
    requires
        a.workers == b.workers,
        a.sessions == b.sessions,
    ensures
        child_seconds(a, child_id, from, to) == child_seconds(b, child_id, from, to),
{
    assert(child_part(a, child_id, from, to) =~= child_part(b, child_id, from, to));
}

/// What is added for a period: the row, if the goal was kept and the points
/// are not there yet.
pub open spec fn new_points(points: Seq<PointsRowView>, kept: bool, row: PointsRowView) -> Seq<
    PointsRowView,
> {
    if kept && !has_points(points, row.child_id, row.entry.date, row.entry.reason) {
        seq![row]
    } else {
        Seq::empty()
    }
}

proof fn lemma_reasons_differ()
    ensures
        "daily_goal_met"@ != "weekly_goal_met"@,
{
    reveal_strlit("daily_goal_met");
    reveal_strlit("weekly_goal_met");
    assert("daily_goal_met"@.len() != "weekly_goal_met"@.len());
}

proof fn lemma_new_points(t: MasterTables, kept: bool, row: PointsRowView)
    ensures
        (if kept {
            with_points(t, row)
        } else {
            t
        }) == (MasterTables { points: t.points + new_points(t.points, kept, row), ..t }),
{
    lemma_has_points(t.points, row.child_id, row.entry.date, row.entry.reason);
    let after = if kept {
        with_points(t, row)
    } else {
        t
    };
    assert(after.points =~= t.points + new_points(t.points, kept, row));
}

/// Points for one reason do not stand in the way of those for another.
proof fn lemma_other_reason(
    points: Seq<PointsRowView>,
    kept: bool,
    row: PointsRowView,
    other: PointsRowView,
)
    requires
        row.entry.reason != other.entry.reason,
    ensures
        has_points(
            points + new_points(points, kept, row),
            other.child_id,
            other.entry.date,
            other.entry.reason,
        ) == has_points(points, other.child_id, other.entry.date, other.entry.reason),
{
    lemma_grown(
        points,
        points + new_points(points, kept, row),
        other.child_id,
        other.entry.date,
        other.entry.reason,
    );
}

/// The periods of an evaluation.
proof fn lemma_period_starts(now: int, tz: int, yesterday: int, monday: int)
    requires
        (yesterday + tz) % 86_400 == 0,
        yesterday + 86_400 <= now < yesterday + 172_800,
        (monday + tz) % 604_800 == 345_600,
        monday + 604_800 <= now < monday + 1_209_600,
    ensures
        day_start_at(now, tz) == yesterday + 86_400,
        week_start_at(now, tz) == monday + 604_800,
        local_day(yesterday + 86_400 - 1, tz) == (yesterday + tz) / 86_400,
        local_day(monday, tz) == (monday + tz) / 86_400,
{
    local_midnight_is_the_day_start(now, tz, yesterday + 86_400);
    local_monday_is_the_week_start(now, tz, monday + 604_800);
}

/// What is evaluated, told from the rows.
#[verifier::spinoff_prover]
proof fn lemma_periods(
    t: MasterTables,
    child_id: Seq<char>,
    goal: GoalConfig,
    now: int,
    tz: int,
    yesterday: int,
    monday: int,
    day_date: Seq<char>,
    week_date: Seq<char>,
)
    requires
        t.wf(),
        goal_stands(t, child_id, goal),
        completed_periods(now, tz, yesterday, monday, day_date, week_date),
    ensures
        met_daily(t, child_id, now, tz) == kept_the_day(t, child_id, goal, yesterday),
        met_weekly(t, child_id, now, tz) == kept_the_week(t, child_id, goal, monday),
        daily_award(child_id, now, tz) == points_row(child_id, day_date, 1, "daily_goal_met"@),
        weekly_award(child_id, now, tz) == points_row(child_id, week_date, 5, "weekly_goal_met"@),
{
    lemma_period_starts(now, tz, yesterday, monday);
    assert(local_date(yesterday + 86_400 - 1, tz) == day_date) by {
        lemma_local_date(day_date, yesterday + 86_400 - 1, tz);
    }
    assert(local_date(monday, tz) == week_date) by {
        lemma_local_date(week_date, monday, tz);
    }
    lemma_goal_stands(t, child_id, goal);
    time_counts_every_session(t, child_id, yesterday, yesterday + 86_400);
    time_counts_every_session(t, child_id, monday, monday + 604_800);
}

/// The evaluation of one child adds exactly what is owed and not there yet:
/// one point under yesterday's date if all of yesterday stayed within the
/// daily goal, five points under the date of last week's Monday if all seven
/// days of it stayed within the weekly goal.
pub proof fn evaluation_adds_what_is_owed(
    t: MasterTables,
    child_id: Seq<char>,
    goal: GoalConfig,
    now: int,
    tz: int,
    yesterday: int,
    monday: int,
    day_date: Seq<char>,
    week_date: Seq<char>,
)
    requires
        t.wf(),
        goal_stands(t, child_id, goal),
        completed_periods(now, tz, yesterday, monday, day_date, week_date),
    ensures
        evaluated_child(t, child_id, now, tz) == (MasterTables {
            points: t.points + new_points(
                t.points,
                kept_the_day(t, child_id, goal, yesterday),
                points_row(child_id, day_date, 1, "daily_goal_met"@),
            ) + new_points(
                t.points,
                kept_the_week(t, child_id, goal, monday),
                points_row(child_id, week_date, 5, "weekly_goal_met"@),
            ),
            ..t
        }),
{
    lemma_reasons_differ();
    lemma_periods(t, child_id, goal, now, tz, yesterday, monday, day_date, week_date);
    let d = points_row(child_id, day_date, 1, "daily_goal_met"@);
    let w = points_row(child_id, week_date, 5, "weekly_goal_met"@);
    let by_day = kept_the_day(t, child_id, goal, yesterday);
    let by_week = kept_the_week(t, child_id, goal, monday);
    lemma_points_do_not_matter(t, d, child_id, now, tz);
    lemma_new_points(t, by_day, d);
    let daily = with_daily(t, child_id, now, tz);
    lemma_new_points(daily, by_week, w);
    lemma_other_reason(t.points, by_day, d, w);
}

proof fn lemma_evaluated_child_wf(t: MasterTables, child_id: Seq<char>, now: int, tz: int)
    requires
        t.wf(),
    ensures
        evaluated_child(t, child_id, now, tz).wf(),
{
    let daily = with_daily(t, child_id, now, tz);
    lemma_with_row(t.points, points_key(), daily_award(child_id, now, tz));
    lemma_with_row(daily.points, points_key(), weekly_award(child_id, now, tz));
}

proof fn lemma_evaluated_wf(t: MasterTables, children: Seq<Seq<char>>, now: int, tz: int)
    requires
        t.wf(),
    ensures
        evaluated(t, children, now, tz).wf(),
        evaluated(t, children, now, tz).workers == t.workers,
        evaluated(t, children, now, tz).sessions == t.sessions,
        evaluated(t, children, now, tz).goals == t.goals,
    decreases children.len(),
{
    if children.len() > 0 {
        lemma_evaluated_wf(t, children.drop_last(), now, tz);
        lemma_evaluated_child_wf(
            evaluated(t, children.drop_last(), now, tz),
            children.last(),
            now,
            tz,
        );
    }
}

/// Points of a kind: those for a kept period, as they are added.
pub open spec fn is_award(
    e: PointsEntryView,
    day_date: Seq<char>,
    week_date: Seq<char>,
) -> bool {
    ||| e == (PointsEntryView { date: day_date, points: 1, reason: "daily_goal_met"@ })
    ||| e == (PointsEntryView { date: week_date, points: 5, reason: "weekly_goal_met"@ })
}

/// What one more child adds.
proof fn lemma_one_more_child(
    mid: MasterTables,
    c: Seq<char>,
    goal: GoalConfig,
    child_id: Seq<char>,
    now: int,
    tz: int,
    yesterday: int,
    monday: int,
    day_date: Seq<char>,
    week_date: Seq<char>,
)
    requires
        mid.wf(),
        goal_stands(mid, c, goal),
        completed_periods(now, tz, yesterday, monday, day_date, week_date),
    ensures
        ({
            let after = evaluated_child(mid, c, now, tz).points;
            &&& mid.points.is_prefix_of(after)
            &&& has_points(after, child_id, day_date, "daily_goal_met"@) <==> has_points(
                mid.points,
                child_id,
                day_date,
                "daily_goal_met"@,
            ) || (child_id == c && kept_the_day(mid, c, goal, yesterday))
            &&& has_points(after, child_id, week_date, "weekly_goal_met"@) <==> has_points(
                mid.points,
                child_id,
                week_date,
                "weekly_goal_met"@,
            ) || (child_id == c && kept_the_week(mid, c, goal, monday))
            &&& forall|i: int|
                mid.points.len() <= i < after.len() ==> (#[trigger] after[i]).child_id == c
                    && is_award(after[i].entry, day_date, week_date)
        }),
{
    lemma_reasons_differ();
    evaluation_adds_what_is_owed(
        mid,
        c,
        goal,
        now,
        tz,
        yesterday,
        monday,
        day_date,
        week_date,
    );
    let after = evaluated_child(mid, c, now, tz).points;
    let d = points_row(c, day_date, 1, "daily_goal_met"@);
    let w = points_row(c, week_date, 5, "weekly_goal_met"@);
    let for_day = new_points(mid.points, kept_the_day(mid, c, goal, yesterday), d);
    let for_week = new_points(mid.points, kept_the_week(mid, c, goal, monday), w);
    let n = mid.points.len() as int;
    assert(after == mid.points + for_day + for_week);
    lemma_grown(mid.points, after, child_id, day_date, "daily_goal_met"@);
    lemma_grown(mid.points, after, child_id, week_date, "weekly_goal_met"@);
    if for_day.len() > 0 {
        assert(after[n] == d);
    }
    if for_week.len() > 0 {
        assert(after[n + for_day.len()] == w);
    }
    assert forall|i: int| n <= i < after.len() implies (#[trigger] after[i]).child_id == c && is_award(
        after[i].entry,
        day_date,
        week_date,
    ) by {
        if i < n + for_day.len() {
            assert(after[i] == d);
        } else {
            assert(after[i] == w);
        }
    }
    assert forall|i: int|
        n <= i < after.len() && (#[trigger] after[i]).entry.reason == "daily_goal_met"@ implies kept_the_day(
        mid,
        c,
        goal,
        yesterday,
    ) by {
        if i >= n + for_day.len() {
            assert(after[i] == w);
        }
    }
    assert forall|i: int|
        n <= i < after.len() && (#[trigger] after[i]).entry.reason == "weekly_goal_met"@ implies kept_the_week(
        mid,
        c,
        goal,
        monday,
    ) by {
        if i < n + for_day.len() {
            assert(after[i] == d);
        }
    }
}

/// After an evaluation a child has the points for yesterday exactly if it had
/// them before, or if it was evaluated and kept its daily goal; likewise for
/// last week and the weekly goal. Children that were not evaluated get
/// nothing, and nothing that was there is lost.
pub proof fn evaluated_children_have_what_is_owed(
    t: MasterTables,
    children: Seq<Seq<char>>,
    child_id: Seq<char>,
    goal: GoalConfig,
    now: int,
    tz: int,
    yesterday: int,
    monday: int,
    day_date: Seq<char>,
    week_date: Seq<char>,
)
    requires
        t.wf(),
        goal_stands(t, child_id, goal),
        completed_periods(now, tz, yesterday, monday, day_date, week_date),
    ensures
        ({
            let after = evaluated(t, children, now, tz).points;
            &&& t.points.is_prefix_of(after)
            &&& has_points(after, child_id, day_date, "daily_goal_met"@) <==> has_points(
                t.points,
                child_id,
                day_date,
                "daily_goal_met"@,
            ) || (children.contains(child_id) && kept_the_day(t, child_id, goal, yesterday))
            &&& has_points(after, child_id, week_date, "weekly_goal_met"@) <==> has_points(
                t.points,
                child_id,
                week_date,
                "weekly_goal_met"@,
            ) || (children.contains(child_id) && kept_the_week(t, child_id, goal, monday))
            &&& forall|i: int|
                t.points.len() <= i < after.len() ==> children.contains(
                    (#[trigger] after[i]).child_id,
                ) && is_award(after[i].entry, day_date, week_date)
        }),
    decreases children.len(),
{
    if children.len() > 0 {
        let rest = children.drop_last();
        let c = children.last();
        let mid = evaluated(t, rest, now, tz);
        evaluated_children_have_what_is_owed(
            t,
            rest,
            child_id,
            goal,
            now,
            tz,
            yesterday,
            monday,
            day_date,
            week_date,
        );
        lemma_evaluated_wf(t, rest, now, tz);
        lemma_same_seconds(mid, t, child_id, yesterday, yesterday + 86_400);
        lemma_same_seconds(mid, t, child_id, monday, monday + 604_800);
        lemma_goal_of_stands(mid, c);
        lemma_goal_stands(t, child_id, goal);
        lemma_one_more_child(
            mid,
            c,
            goal_of(mid.goals, c),
            child_id,
            now,
            tz,
            yesterday,
            monday,
            day_date,
            week_date,
        );
        let after = evaluated(t, children, now, tz).points;
        assert(children[children.len() - 1] == c);
        assert forall|x: Seq<char>| #[trigger] children.contains(x) == (rest.contains(x) || x
            == c) by {
            if children.contains(x) && x != c {
                let i = choose|i: int| 0 <= i < children.len() && children[i] == x;
                assert(rest[i] == x);
            }
            if rest.contains(x) {
                let i = choose|i: int| 0 <= i < rest.len() && rest[i] == x;
                assert(children[i] == x);
            }
        }
        assert forall|i: int| t.points.len() <= i < after.len() implies children.contains(
            (#[trigger] after[i]).child_id,
        ) && is_award(after[i].entry, day_date, week_date) by {
            if i < mid.points.len() {
                assert(after[i] == mid.points[i]);
                assert(rest.contains(mid.points[i].child_id));
            } else {
                assert(children.contains(c));
            }
        }
        assert(t.points.is_prefix_of(after)) by {
            assert(mid.points.is_prefix_of(after));
            assert(t.points =~= after.subrange(0, t.points.len() as int));
        }
    }
}

pub proof fn lemma_goal_of_stands(t: MasterTables, child_id: Seq<char>)
    ensures
        goal_stands(t, child_id, goal_of(t.goals, child_id)),
{
    let p = |g: GoalRowView| g.child_id == child_id;
    lemma_first(t.goals, p);
    match crate::seqs::first(t.goals, p) {
        Some(x) => {
            let k = choose|k: int| 0 <= k < t.goals.len() && #[trigger] t.goals[k] == x;
            assert(t.goals[k].child_id == child_id);
        },
        None => {
            assert forall|g: int| 0 <= g < t.goals.len() implies (#[trigger] t.goals[g]).child_id
                != child_id by {
                assert(!p(t.goals[g]));
            }
        },
    }
}

/// What a longer table has of some points: those of the shorter one, or those
/// of a row that was added.
proof fn lemma_grown(
    before: Seq<PointsRowView>,
    after: Seq<PointsRowView>,
    child_id: Seq<char>,
    date: Seq<char>,
    reason: Seq<char>,
)
    requires
        before.is_prefix_of(after),
    ensures
        has_points(after, child_id, date, reason) <==> has_points(before, child_id, date, reason)
            || exists|i: int|
            before.len() <= i < after.len() && (#[trigger] after[i]).child_id == child_id
                && after[i].entry.date == date && after[i].entry.reason == reason,
{
    if has_points(before, child_id, date, reason) {
        let i = choose|i: int|
            0 <= i < before.len() && (#[trigger] before[i]).child_id == child_id
                && before[i].entry.date == date && before[i].entry.reason == reason;
        assert(after[i] == before[i]);
    }
    if has_points(after, child_id, date, reason) {
        let i = choose|i: int|
            0 <= i < after.len() && (#[trigger] after[i]).child_id == child_id
                && after[i].entry.date == date && after[i].entry.reason == reason;
        if i < before.len() {
            assert(before[i] == after[i]);
        }
    }
}

/// One more session in the completed week adds its whole length to what is
/// held against the weekly goal: with it the goal is kept exactly if there was
/// so much room left.
pub proof fn session_of_last_week_counts_in_full(
    t: MasterTables,
    r: SessionRowView,
    child_id: Seq<char>,
    goal: GoalConfig,
    m: u32,
    now: int,
    tz: int,
    monday: int,
)
    requires
        t.wf(),
        crate::store::master::usage_laws::on_device_of(t, r, child_id),
        goal_stands(t, child_id, goal),
        goal.weekly_min == Some(m),
        (monday + tz) % 604_800 == 345_600,
        monday + 604_800 <= now < monday + 1_209_600,
        monday <= r.session.start_ts <= r.session.end_ts <= monday + 604_800,
    ensures
        met_weekly((MasterTables { sessions: t.sessions.push(r), ..t }), child_id, now, tz)
            <==> child_seconds(t, child_id, monday, monday + 604_800) + (r.session.end_ts
            - r.session.start_ts) <= m * 60,
{
    lemma_goal_stands(t, child_id, goal);
    local_monday_is_the_week_start(now, tz, monday + 604_800);
    time_counts_every_session(t, child_id, monday, monday + 604_800);
    crate::store::master::laws::session_counts_for_its_child(
        t,
        r,
        child_id,
        monday,
        monday + 604_800,
    );
    crate::store::master::usage_laws::lemma_owned(t, r, child_id);
}

/// The periods of every ordinary instant can be evaluated.
pub proof fn ordinary_periods_fit(now: int, tz: int)
    requires
        -0x3000_0000_0000_0000 <= now <= 0x3000_0000_0000_0000,
        i32::MIN <= tz <= i32::MAX,
    ensures
        periods_fit(now, tz),
{
    crate::timeutil::ordinary_times_fit(now, tz);
    crate::timeutil::week_begins_on_monday(now, tz);
    crate::timeutil::ordinary_times_fit(week_start_at(now, tz) - 604_800, tz);
}

} // verus!
