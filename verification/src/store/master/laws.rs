//! What holds of the master's tables across operations.
use super::ledger::{award, balance, goal_of, with_goal, with_points};
use super::legacy::{
    carried_goals, carried_points, link_step, linked, linked_to, to_link, unlinked, LegacyGoalView,
    LegacyPointsView,
};
use super::people::{
    assigned, authentic, child_named, named_child, new_worker, registered_again, seen,
    with_assignment, with_heartbeat, with_worker, worker_info, worker_row,
};
use super::records::{inserted, moved, recategorized, recorded};
use super::reports::{
    breakdown_key, is_breakdown, is_line, is_uncategorized_list, online, span_at, time_at, time_of,
};
use super::rows::{ChildRowView, GoalRowView, PointsRowView, SessionRowView, WorkerRowView};
use super::selection::{
    app_share, child_of, hits, in_range, owned, share, span, uncategorized, used,
};
use super::{
    changed, goal_key, has_key, points_key, session_key, with_row, worker_key, MasterTables,
    StoreError,
};
use crate::categorize::{normalized, override_apps, table_of, CategorizerView};
use crate::model::{
    AppBreakdownView, Category, GoalConfig, OverrideView, RegisterView, SessionView, TodBucket,
};
use crate::seqs::{
    column_sum, distinct, first, lemma_first, lemma_first_at, lemma_first_none,
    lemma_permuted_contains, lemma_sum_add, lemma_sum_exchange, lemma_sum_same, lemma_sum_single,
    lemma_sum_zero, row_sum, sum,
};
use crate::text::ascii_fold;
use vstd::prelude::*;

verus! {

// ---- Uploads ----
proof fn lemma_keeps_key(rows: Seq<SessionRowView>, row: SessionRowView, id: Seq<char>)
    requires
        has_key(rows, session_key(), id),
    ensures
        has_key(with_row(rows, session_key(), row), session_key(), id),
{
    let i = choose|i: int| 0 <= i < rows.len() && session_key()(#[trigger] rows[i]) == id;
    assert(session_key()(with_row(rows, session_key(), row)[i]) == id);
}

/// After an upload every session of it is stored.
pub proof fn upload_stores_every_session(
    rows: Seq<SessionRowView>,
    worker_id: Seq<char>,
    sessions: Seq<SessionView>,
    c: CategorizerView,
)
    ensures
        forall|i: int|
            0 <= i < sessions.len() ==> has_key(
                inserted(rows, worker_id, sessions, c),
                session_key(),
                (#[trigger] sessions[i]).id,
            ),
    decreases sessions.len(),
{
    if sessions.len() > 0 {
        let rest = sessions.drop_last();
        let before = inserted(rows, worker_id, rest, c);
        let row = recorded(worker_id, sessions.last(), c);
        upload_stores_every_session(rows, worker_id, rest, c);
        let after = with_row(before, session_key(), row);
        assert forall|i: int| 0 <= i < sessions.len() implies has_key(
            after,
            session_key(),
            (#[trigger] sessions[i]).id,
        ) by {
            if i < rest.len() {
                assert(has_key(before, session_key(), rest[i].id));
                lemma_keeps_key(before, row, rest[i].id);
            } else if !has_key(before, session_key(), row.session.id) {
                assert(session_key()(after[before.len() as int]) == sessions[i].id);
            }
        }
    }
}

/// An upload changes nothing that is stored: what was there stays in place.
pub proof fn upload_keeps_what_is_stored(
    rows: Seq<SessionRowView>,
    worker_id: Seq<char>,
    sessions: Seq<SessionView>,
    c: CategorizerView,
)
    ensures
        rows.is_prefix_of(inserted(rows, worker_id, sessions, c)),
    decreases sessions.len(),
{
    if sessions.len() > 0 {
        upload_keeps_what_is_stored(rows, worker_id, sessions.drop_last(), c);
    }
}

/// An upload can be repeated without effect, also if the categorizer has
/// changed in between.
pub proof fn upload_can_be_repeated(
    rows: Seq<SessionRowView>,
    worker_id: Seq<char>,
    sessions: Seq<SessionView>,
    c: CategorizerView,
    again_id: Seq<char>,
    again: CategorizerView,
)
    ensures
        inserted(inserted(rows, worker_id, sessions, c), again_id, sessions, again) == inserted(
            rows,
            worker_id,
            sessions,
            c,
        ),
{
    upload_stores_every_session(rows, worker_id, sessions, c);
    lemma_nothing_new(inserted(rows, worker_id, sessions, c), again_id, sessions, again);
}

proof fn lemma_nothing_new(
    rows: Seq<SessionRowView>,
    worker_id: Seq<char>,
    sessions: Seq<SessionView>,
    c: CategorizerView,
)
    requires
        forall|i: int|
            0 <= i < sessions.len() ==> has_key(rows, session_key(), (#[trigger] sessions[i]).id),
    ensures
        inserted(rows, worker_id, sessions, c) == rows,
    decreases sessions.len(),
{
    if sessions.len() > 0 {
        let rest = sessions.drop_last();
        assert forall|i: int| 0 <= i < rest.len() implies has_key(
            rows,
            session_key(),
            (#[trigger] rest[i]).id,
        ) by {
            assert(has_key(rows, session_key(), sessions[i].id));
        }
        lemma_nothing_new(rows, worker_id, rest, c);
        assert(has_key(rows, session_key(), sessions[sessions.len() - 1].id));
    }
}

// ---- Points and goals ----
/// Points for a child, a date and a reason are awarded once: a second award
/// changes nothing, whatever its amount.
pub proof fn points_are_awarded_once(t: MasterTables, row: PointsRowView, again: PointsRowView)
    requires
        points_key()(row) == points_key()(again),
    ensures
        with_points(with_points(t, row), again) == with_points(t, row),
{
    let after = with_row(t.points, points_key(), row);
    if !has_key(t.points, points_key(), points_key()(row)) {
        assert(points_key()(after[t.points.len() as int]) == points_key()(again));
    }
    assert(has_key(after, points_key(), points_key()(again)));
}

/// New points add to the balance of their child and to no other.
pub proof fn new_points_add_to_the_balance(t: MasterTables, row: PointsRowView, child_id: Seq<char>)
    requires
        !has_key(t.points, points_key(), points_key()(row)),
    ensures
        balance(with_points(t, row).points, child_id) == balance(t.points, child_id) + if row.child_id
            == child_id {
            row.entry.points as int
        } else {
            0
        },
{
    let after = t.points.push(row);
    assert(with_points(t, row).points == after);
    assert(after.drop_last() =~= t.points);
}

/// A goal that was set is the goal of the child, and the goals of other
/// children stay.
pub proof fn goal_is_what_was_set(
    t: MasterTables,
    child_id: Seq<char>,
    goal: GoalConfig,
    other: Seq<char>,
)
    requires
        t.wf(),
        other != child_id,
    ensures
        goal_of(with_goal(t, child_id, goal).goals, child_id) == goal,
        goal_of(with_goal(t, child_id, goal).goals, other) == goal_of(t.goals, other),
{
    let after = with_goal(t, child_id, goal).goals;
    let p = |g: GoalRowView| g.child_id == child_id;
    let q = |g: GoalRowView| g.child_id == other;
    let n = t.goals.len() as int;
    if has_key(t.goals, goal_key(), child_id) {
        let i = choose|i: int| 0 <= i < n && goal_key()(#[trigger] t.goals[i]) == child_id;
        assert forall|j: int| 0 <= j < i implies !p(#[trigger] after[j]) by {
            assert(goal_key()(t.goals[j]) != goal_key()(t.goals[i]));
        }
        lemma_first_at(after, p, i);
    } else {
        assert forall|j: int| 0 <= j < n implies !p(#[trigger] after[j]) by {
            assert(goal_key()(t.goals[j]) != child_id);
        }
        lemma_first_at(after, p, n);
    }
    lemma_first(t.goals, q);
    match first(t.goals, q) {
        Some(g) => {
            let i = choose|i: int|
                0 <= i < n && #[trigger] t.goals[i] == g && forall|j: int|
                    0 <= j < i ==> !q(#[trigger] t.goals[j]);
            assert forall|j: int| 0 <= j < i implies !q(#[trigger] after[j]) by {
                assert(!q(t.goals[j]));
            }
            assert(after[i] == g);
            lemma_first_at(after, q, i);
        },
        None => {
            assert forall|j: int| 0 <= j < after.len() implies !q(#[trigger] after[j]) by {
                if j < n {
                    assert(!q(t.goals[j]));
                }
            }
            lemma_first_none(after, q);
        },
    }
}

// ---- Children and workers ----
/// No two children have the same name, up to case.
pub open spec fn names_differ(children: Seq<ChildRowView>) -> bool {
    distinct(children, |c: ChildRowView| ascii_fold(c.name))
}

/// Finding or creating children keeps their names apart.
pub proof fn names_stay_apart(t: MasterTables, name: Seq<char>, id: Seq<char>, now: i64)
    requires
        names_differ(t.children),
    ensures
        names_differ(named_child(t, name, id, now).0.children),
{
    let p = |c: ChildRowView| ascii_fold(c.name) == ascii_fold(name);
    lemma_first(t.children, p);
    let after = named_child(t, name, id, now).0.children;
    let key = |c: ChildRowView| ascii_fold(c.name);
    assert forall|i: int, j: int|
        0 <= i < after.len() && 0 <= j < after.len() && i != j implies key(#[trigger] after[i])
        != key(#[trigger] after[j]) by {
        let n = t.children.len();
        if i < n && j < n {
            assert(key(t.children[i]) != key(t.children[j]));
        } else if i < n {
            assert(!p(t.children[i]));
        } else {
            assert(!p(t.children[j]));
        }
    }
}

/// A second request with the same name, up to case, gives the same child.
pub proof fn name_finds_its_child_again(
    t: MasterTables,
    name: Seq<char>,
    id: Seq<char>,
    now: i64,
    spelled: Seq<char>,
    other_id: Seq<char>,
    later: i64,
)
    requires
        ascii_fold(spelled) == ascii_fold(name),
        named_child(t, name, id, now).1 is Ok,
    ensures
        named_child(named_child(t, name, id, now).0, spelled, other_id, later) == named_child(
            t,
            name,
            id,
            now,
        ),
{
    let p = |c: ChildRowView| ascii_fold(c.name) == ascii_fold(name);
    let q = |c: ChildRowView| ascii_fold(c.name) == ascii_fold(spelled);
    assert(p =~= q);
    let after = named_child(t, name, id, now).0.children;
    if child_named(t.children, name) is None {
        lemma_first(t.children, p);
        let n = t.children.len() as int;
        assert forall|j: int| 0 <= j < n implies !p(#[trigger] after[j]) by {
            assert(!p(t.children[j]));
        }
        lemma_first_at(after, p, n);
    }
}

/// The row of a worker after a change of the row of one.
proof fn lemma_changed_row(
    workers: Seq<WorkerRowView>,
    id: Seq<char>,
    f: spec_fn(WorkerRowView) -> WorkerRowView,
    other: Seq<char>,
)
    requires
        forall|w: WorkerRowView| (#[trigger] f(w)).info.worker_id == w.info.worker_id,
    ensures
        worker_row(changed(workers, worker_key(), id, f), other) == match worker_row(
            workers,
            other,
        ) {
            Some(w) => Some(
                if other == id {
                    f(w)
                } else {
                    w
                },
            ),
            None => None,
        },
{
    let after = changed(workers, worker_key(), id, f);
    let p = |w: WorkerRowView| w.info.worker_id == other;
    lemma_first(workers, p);
    match worker_row(workers, other) {
        Some(w) => {
            let i = choose|i: int|
                0 <= i < workers.len() && #[trigger] workers[i] == w && forall|j: int|
                    0 <= j < i ==> !p(#[trigger] workers[j]);
            assert forall|j: int| 0 <= j < i implies !p(#[trigger] after[j]) by {
                assert(!p(workers[j]));
            }
            lemma_first_at(after, p, i);
        },
        None => {
            assert forall|j: int| 0 <= j < after.len() implies !p(#[trigger] after[j]) by {
                assert(!p(workers[j]));
            }
            lemma_first_none(after, p);
        },
    }
}

proof fn lemma_pushed_row(workers: Seq<WorkerRowView>, w: WorkerRowView, id: Seq<char>)
    ensures
        worker_row(workers.push(w), id) == match worker_row(workers, id) {
            Some(old_row) => Some(old_row),
            None => if w.info.worker_id == id {
                Some(w)
            } else {
                None
            },
        },
{
    let after = workers.push(w);
    let p = |x: WorkerRowView| x.info.worker_id == id;
    lemma_first(workers, p);
    match worker_row(workers, id) {
        Some(x) => {
            let i = choose|i: int|
                0 <= i < workers.len() && #[trigger] workers[i] == x && forall|j: int|
                    0 <= j < i ==> !p(#[trigger] workers[j]);
            assert forall|j: int| 0 <= j < i implies !p(#[trigger] after[j]) by {
                assert(!p(workers[j]));
            }
            lemma_first_at(after, p, i);
        },
        None => {
            assert forall|j: int| 0 <= j < workers.len() implies !p(#[trigger] after[j]) by {
                assert(!p(workers[j]));
            }
            if w.info.worker_id == id {
                lemma_first_at(after, p, workers.len() as int);
            } else {
                lemma_first_none(after, p);
            }
        },
    }
}

proof fn lemma_has_worker(workers: Seq<WorkerRowView>, id: Seq<char>)
    ensures
        has_key(workers, worker_key(), id) == worker_row(workers, id) is Some,
{
    let p = |x: WorkerRowView| x.info.worker_id == id;
    lemma_first(workers, p);
    if has_key(workers, worker_key(), id) {
        let i = choose|i: int| 0 <= i < workers.len() && worker_key()(#[trigger] workers[i]) == id;
        assert(p(workers[i]));
    }
    if let Some(x) = worker_row(workers, id) {
        let i = choose|i: int| 0 <= i < workers.len() && #[trigger] workers[i] == x;
        assert(worker_key()(workers[i]) == id);
    }
}

/// Registration: a new worker waits for approval; one that registers again
/// keeps approval, child and times and takes its new token; other workers are
/// not touched.
pub proof fn registration_keeps_approval(
    t: MasterTables,
    req: RegisterView,
    now: i64,
    other: Seq<char>,
)
    requires
        other != req.worker_id,
    ensures
        worker_row(with_worker(t, req, now).workers, req.worker_id) == Some(
            match worker_row(t.workers, req.worker_id) {
                Some(w) => registered_again(w, req),
                None => new_worker(req, now),
            },
        ),
        worker_row(with_worker(t, req, now).workers, other) == worker_row(t.workers, other),
{
    let f = |w: WorkerRowView| registered_again(w, req);
    lemma_has_worker(t.workers, req.worker_id);
    if has_key(t.workers, worker_key(), req.worker_id) {
        lemma_changed_row(t.workers, req.worker_id, f, req.worker_id);
        lemma_changed_row(t.workers, req.worker_id, f, other);
    } else {
        lemma_pushed_row(t.workers, new_worker(req, now), req.worker_id);
        lemma_pushed_row(t.workers, new_worker(req, now), other);
    }
}

/// After a registration exactly the token that was registered is valid.
pub proof fn only_the_registered_token_is_valid(
    t: MasterTables,
    req: RegisterView,
    now: i64,
    token: Seq<char>,
    other: Seq<char>,
    other_token: Seq<char>,
)
    requires
        other != req.worker_id,
    ensures
        authentic(with_worker(t, req, now).workers, req.worker_id, token) <==> token == req.token,
        authentic(with_worker(t, req, now).workers, other, other_token) == authentic(
            t.workers,
            other,
            other_token,
        ),
{
    registration_keeps_approval(t, req, now, other);
}

/// An assignment approves the worker and links it to the child; other workers
/// stay as they are.
pub proof fn assignment_approves(
    t: MasterTables,
    worker_id: Seq<char>,
    child_id: Seq<char>,
    other: Seq<char>,
)
    requires
        other != worker_id,
    ensures
        ({
            let after = with_assignment(t, worker_id, child_id).workers;
            &&& worker_info(t.workers, worker_id) is Some ==> (worker_info(
                after,
                worker_id,
            ) matches Some(w) && w.approved && w.child_id == Some(child_id))
            &&& worker_info(t.workers, worker_id) is None ==> after == t.workers
            &&& worker_row(after, other) == worker_row(t.workers, other)
        }),
{
    let f = |w: WorkerRowView| assigned(w, child_id);
    lemma_changed_row(t.workers, worker_id, f, worker_id);
    lemma_changed_row(t.workers, worker_id, f, other);
    lemma_has_worker(t.workers, worker_id);
    if !has_key(t.workers, worker_key(), worker_id) {
        assert(changed(t.workers, worker_key(), worker_id, f) =~= t.workers);
    }
}

/// A heartbeat of any worker of a child puts the child online, for as long as
/// the threshold allows.
pub proof fn heartbeat_puts_the_child_online(
    t: MasterTables,
    worker_id: Seq<char>,
    child_id: Seq<char>,
    now: i64,
    later: i64,
    threshold_s: i64,
)
    requires
        child_of(t.workers, worker_id) == Some(child_id),
        later - now <= threshold_s,
    ensures
        online(with_heartbeat(t, worker_id, now), child_id, later, threshold_s),
{
    let p = |w: WorkerRowView| w.info.worker_id == worker_id;
    lemma_first(t.workers, p);
    let w = worker_row(t.workers, worker_id)->0;
    let i = choose|i: int| 0 <= i < t.workers.len() && #[trigger] t.workers[i] == w;
    assert(with_heartbeat(t, worker_id, now).workers[i] == seen(w, now));
}

// ---- Usage ----
/// The time that one worker adds in a range.
pub open spec fn device_time(
    sessions: Seq<SessionRowView>,
    worker_id: Seq<char>,
    from: int,
    to: int,
) -> int {
    sum(sessions, share(|r: SessionRowView| r.worker_id == worker_id, span(from, to)))
}

/// The time of the workers that belong to a child.
pub open spec fn time_for_child(
    sessions: Seq<SessionRowView>,
    child_id: Seq<char>,
    from: int,
    to: int,
) -> spec_fn(WorkerRowView) -> int {
    |w: WorkerRowView|
        if w.info.child_id == Some(child_id) {
            device_time(sessions, w.info.worker_id, from, to)
        } else {
            0
        }
}

/// The usage of a child is the sum over all of its devices.
pub proof fn usage_sums_devices(t: MasterTables, child_id: Seq<char>, from: int, to: int)
    requires
        t.wf(),
    ensures
        time_of(t, child_id, from, to) == sum(
            t.workers,
            time_for_child(t.sessions, child_id, from, to),
        ),
{
    let f = |w: WorkerRowView, r: SessionRowView|
        if w.info.child_id == Some(child_id) && r.worker_id == w.info.worker_id {
            span(from, to)(r.session)
        } else {
            0
        };
    lemma_sum_exchange(t.workers, t.sessions, f);
    let mine = time_for_child(t.sessions, child_id, from, to);
    assert forall|i: int| 0 <= i < t.workers.len() implies mine(#[trigger] t.workers[i]) == row_sum(
        t.sessions,
        f,
    )(t.workers[i]) by {
        let w = t.workers[i];
        let g = |r: SessionRowView| f(w, r);
        if w.info.child_id == Some(child_id) {
            lemma_sum_same(
                t.sessions,
                g,
                share(|r: SessionRowView| r.worker_id == w.info.worker_id, span(from, to)),
            );
        } else {
            lemma_sum_zero(t.sessions, g);
        }
    }
    lemma_sum_same(t.workers, mine, row_sum(t.sessions, f));
    let all = share(owned(t, child_id), span(from, to));
    assert forall|k: int| 0 <= k < t.sessions.len() implies all(#[trigger] t.sessions[k])
        == column_sum(t.workers, f)(t.sessions[k]) by {
        let r = t.sessions[k];
        let g = |w: WorkerRowView| f(w, r);
        let p = |w: WorkerRowView| w.info.worker_id == r.worker_id;
        lemma_first(t.workers, p);
        match worker_row(t.workers, r.worker_id) {
            Some(w) => {
                let i = choose|i: int| 0 <= i < t.workers.len() && #[trigger] t.workers[i] == w;
                assert forall|j: int| 0 <= j < t.workers.len() && j != i implies g(
                    #[trigger] t.workers[j],
                ) == 0 by {
                    assert(worker_key()(t.workers[j]) != worker_key()(t.workers[i]));
                }
                lemma_sum_single(t.workers, g, i);
            },
            None => {
                assert forall|j: int| 0 <= j < t.workers.len() implies g(#[trigger] t.workers[j])
                    == 0 by {
                    assert(!p(t.workers[j]));
                }
                lemma_sum_zero(t.workers, g);
            },
        }
    }
    lemma_sum_same(t.sessions, all, column_sum(t.workers, f));
}

/// A new session adds its time to the child of its worker, and to no other.
pub proof fn session_counts_for_its_child(
    t: MasterTables,
    r: SessionRowView,
    child_id: Seq<char>,
    from: int,
    to: int,
)
    ensures
        time_of((MasterTables { sessions: t.sessions.push(r), ..t }), child_id, from, to) == time_of(
            t,
            child_id,
            from,
            to,
        ) + if child_of(t.workers, r.worker_id) == Some(child_id) {
            span(from, to)(r.session)
        } else {
            0
        },
{
    let after = MasterTables { sessions: t.sessions.push(r), ..t };
    assert(share(owned(after, child_id), span(from, to)) =~= share(
        owned(t, child_id),
        span(from, to),
    ));
    assert(after.sessions.drop_last() =~= t.sessions);
    assert(after.sessions.last() == r);
}

/// The lines of a breakdown add up to the time in its range.
pub proof fn breakdown_adds_up(
    t: MasterTables,
    child_id: Seq<char>,
    from: int,
    to: int,
    out: Seq<AppBreakdownView>,
)
    requires
        is_breakdown(t, child_id, from, to, out),
    ensures
        sum(out, |b: AppBreakdownView| b.duration_s as int) == time_of(t, child_id, from, to),
{
    let p = in_range(t, child_id, from, to);
    let w = span(from, to);
    let f = |b: AppBreakdownView, r: SessionRowView| app_share(p, w, b.app_name)(r);
    lemma_sum_exchange(out, t.sessions, f);
    let lines = |b: AppBreakdownView| b.duration_s as int;
    assert forall|i: int| 0 <= i < out.len() implies lines(#[trigger] out[i]) == row_sum(
        t.sessions,
        f,
    )(out[i]) by {
        let b = out[i];
        assert(is_line(t, child_id, from, to, b));
        let g = |r: SessionRowView| f(b, r);
        lemma_sum_same(t.sessions, g, app_share(p, w, b.app_name));
    }
    lemma_sum_same(out, lines, row_sum(t.sessions, f));
    let all = share(owned(t, child_id), w);
    assert forall|k: int| 0 <= k < t.sessions.len() implies all(#[trigger] t.sessions[k])
        == column_sum(out, f)(t.sessions[k]) by {
        let r = t.sessions[k];
        let g = |b: AppBreakdownView| f(b, r);
        if p(r) {
            assert(hits(t.sessions, p, r.session.app_name, k));
            assert(used(t.sessions, p, r.session.app_name));
            let i = choose|i: int|
                0 <= i < out.len() && (#[trigger] out[i]).app_name == r.session.app_name;
            assert forall|j: int| 0 <= j < out.len() && j != i implies g(#[trigger] out[j])
                == 0 by {
                assert(breakdown_key()(out[j]) != breakdown_key()(out[i]));
            }
            lemma_sum_single(out, g, i);
        } else {
            lemma_sum_zero(out, g);
        }
    }
    lemma_sum_same(t.sessions, all, column_sum(out, f));
}

/// The times of day add up to the time in the range.
pub proof fn times_of_day_add_up(t: MasterTables, child_id: Seq<char>, from: int, to: int, tz: int)
    ensures
        time_at(t, child_id, from, to, tz, TodBucket::Morning) + time_at(
            t,
            child_id,
            from,
            to,
            tz,
            TodBucket::Afternoon,
        ) + time_at(t, child_id, from, to, tz, TodBucket::Evening) + time_at(
            t,
            child_id,
            from,
            to,
            tz,
            TodBucket::Night,
        ) == time_of(t, child_id, from, to),
{
    let p = owned(t, child_id);
    let f = |b: TodBucket| share(p, span_at(from, to, tz, b));
    let early = |r: SessionRowView| f(TodBucket::Morning)(r) + f(TodBucket::Afternoon)(r);
    let late = |r: SessionRowView| f(TodBucket::Evening)(r) + f(TodBucket::Night)(r);
    lemma_sum_add(t.sessions, f(TodBucket::Morning), f(TodBucket::Afternoon), early);
    lemma_sum_add(t.sessions, f(TodBucket::Evening), f(TodBucket::Night), late);
    lemma_sum_add(t.sessions, early, late, share(p, span(from, to)));
}

// ---- Categories ----
/// A parent's decision holds for the past: afterwards no session of the
/// application is without a category, unless the parent chose none.
pub proof fn recategorized_app_leaves_the_list(
    t: MasterTables,
    child_id: Seq<char>,
    app_name: Seq<char>,
    category: Category,
    out: Seq<(Seq<char>, i64)>,
)
    requires
        category != Category::Other,
        is_uncategorized_list(
            (MasterTables { sessions: recategorized(t.sessions, app_name, category), ..t }),
            child_id,
            out,
        ),
    ensures
        forall|i: int| 0 <= i < out.len() ==> (#[trigger] out[i]).0 != app_name,
{
    let after = MasterTables { sessions: recategorized(t.sessions, app_name, category), ..t };
    let p = uncategorized(after, child_id);
    assert forall|i: int| 0 <= i < out.len() implies (#[trigger] out[i]).0 != app_name by {
        assert(used(after.sessions, p, out[i].0));
        let k = choose|k: int| hits(after.sessions, p, out[i].0, k);
        assert(after.sessions[k] == moved(t.sessions[k], app_name, category));
    }
}

/// Moving an application to a category touches nothing else: other
/// applications, ids, workers and times stay.
pub proof fn recategorizing_touches_one_app(
    rows: Seq<SessionRowView>,
    app_name: Seq<char>,
    category: Category,
    k: int,
)
    requires
        0 <= k < rows.len(),
    ensures
        ({
            let r = recategorized(rows, app_name, category)[k];
            &&& rows[k].session.app_name != app_name ==> r == rows[k]
            &&& rows[k].session.app_name == app_name ==> r.session.category == category
            &&& r == (SessionRowView {
                session: SessionView { category: r.session.category, ..rows[k].session },
                ..rows[k]
            })
        }),
{
}

/// A parent's decision holds for the future: an upload stores sessions of the
/// application under it, if no other override is for the same name.
pub proof fn override_holds_for_uploads(
    bundled: CategorizerView,
    listed: Seq<OverrideView>,
    overrides: Seq<OverrideView>,
    k: int,
    worker_id: Seq<char>,
    s: SessionView,
)
    requires
        listed.to_multiset() == overrides.to_multiset(),
        0 <= k < overrides.len(),
        forall|j: int|
            0 <= j < overrides.len() && normalized((#[trigger] overrides[j]).app_name)
                == normalized(overrides[k].app_name) ==> overrides[j].category
                == overrides[k].category,
        normalized(s.app_name) == normalized(overrides[k].app_name),
    ensures
        recorded(
            worker_id,
            s,
            (CategorizerView { overrides: table_of(override_apps(listed)), ..bundled }),
        ).session.category == overrides[k].category,
{
    let key = normalized(s.app_name);
    assert(overrides.contains(overrides[k]));
    lemma_permuted_contains(listed, overrides, overrides[k]);
    let m = choose|m: int| 0 <= m < listed.len() && listed[m] == overrides[k];
    assert forall|j: int|
        0 <= j < listed.len() && normalized((#[trigger] listed[j]).app_name) == key implies
        listed[j].category == overrides[k].category by {
        assert(listed.contains(listed[j]));
        lemma_permuted_contains(listed, overrides, listed[j]);
        let i = choose|i: int| 0 <= i < overrides.len() && overrides[i] == listed[j];
        assert(normalized(overrides[i].app_name) == normalized(overrides[k].app_name));
    }
    lemma_table_entry(listed, key, overrides[k].category, m);
}

proof fn lemma_table_entry(listed: Seq<OverrideView>, key: Seq<char>, c: Category, m: int)
    requires
        forall|j: int|
            0 <= j < listed.len() && normalized((#[trigger] listed[j]).app_name) == key
                ==> listed[j].category == c,
        0 <= m < listed.len(),
        normalized(listed[m].app_name) == key,
    ensures
        table_of(override_apps(listed)).contains_key(key),
        table_of(override_apps(listed))[key] == c,
    decreases listed.len(),
{
    let rest = listed.drop_last();
    assert(override_apps(listed).drop_last() =~= override_apps(rest));
    if normalized(listed.last().app_name) == key {
        assert(listed[listed.len() - 1].category == c);
    } else {
        assert forall|j: int|
            0 <= j < rest.len() && normalized((#[trigger] rest[j]).app_name) == key implies
            rest[j].category == c by {
            assert(rest[j] == listed[j]);
        }
        lemma_table_entry(rest, key, c, m);
    }
}

// ---- Migration ----
proof fn lemma_to_link_covers(workers: Seq<WorkerRowView>, i: int)
    requires
        0 <= i < workers.len(),
        unlinked(workers[i]),
    ensures
        exists|j: int|
            0 <= j < to_link(workers).len() && (#[trigger] to_link(workers)[j]).0
                == workers[i].info.worker_id,
    decreases workers.len(),
{
    let rest = to_link(workers.drop_last());
    if i < workers.len() - 1 {
        lemma_to_link_covers(workers.drop_last(), i);
        let j = choose|j: int|
            0 <= j < rest.len() && (#[trigger] rest[j]).0 == workers[i].info.worker_id;
        assert(to_link(workers)[j] == rest[j]);
    } else {
        assert(to_link(workers)[rest.len() as int].0 == workers[i].info.worker_id);
    }
}

proof fn lemma_to_link_sound(workers: Seq<WorkerRowView>, j: int)
    requires
        0 <= j < to_link(workers).len(),
    ensures
        exists|i: int|
            0 <= i < workers.len() && unlinked(#[trigger] workers[i])
                && workers[i].info.worker_id == to_link(workers)[j].0,
    decreases workers.len(),
{
    let front = workers.drop_last();
    let rest = to_link(front);
    if j < rest.len() {
        lemma_to_link_sound(front, j);
        let i = choose|i: int|
            0 <= i < front.len() && unlinked(#[trigger] front[i]) && front[i].info.worker_id
                == rest[j].0;
        assert(workers[i] == front[i]);
    } else {
        let i = workers.len() - 1;
        assert(unlinked(workers[i]));
    }
}

proof fn lemma_to_link_empty(workers: Seq<WorkerRowView>)
    requires
        forall|i: int| 0 <= i < workers.len() ==> !unlinked(#[trigger] workers[i]),
    ensures
        to_link(workers).len() == 0,
    decreases workers.len(),
{
    if workers.len() > 0 {
        assert forall|i: int| 0 <= i < workers.drop_last().len() implies !unlinked(
            #[trigger] workers.drop_last()[i],
        ) by {
            assert(!unlinked(workers[i]));
        }
        lemma_to_link_empty(workers.drop_last());
        assert(!unlinked(workers[workers.len() - 1]));
    }
}

/// Whether two rows of a worker differ in the child at most.
pub open spec fn same_but_child(a: WorkerRowView, b: WorkerRowView) -> bool {
    b == (WorkerRowView {
        info: crate::model::WorkerInfoView { child_id: b.info.child_id, ..a.info },
        ..a
    })
}

pub proof fn lemma_linked(
    t: MasterTables,
    todo: Seq<(Seq<char>, Seq<char>)>,
    ids: Seq<Seq<char>>,
    now: i64,
)
    requires
        linked(t, todo, ids, now).1 is Ok,
    ensures
        ({
            let after = linked(t, todo, ids, now).0.workers;
            &&& after.len() == t.workers.len()
            &&& forall|i: int|
                0 <= i < after.len() ==> {
                    &&& same_but_child(t.workers[i], #[trigger] after[i])
                    &&& t.workers[i].info.child_id is Some ==> after[i].info.child_id is Some
                    &&& (exists|j: int|
                        0 <= j < todo.len() && (#[trigger] todo[j]).0
                            == t.workers[i].info.worker_id) ==> after[i].info.child_id is Some
                    &&& (forall|j: int|
                        0 <= j < todo.len() ==> (#[trigger] todo[j]).0
                            != t.workers[i].info.worker_id) ==> after[i] == t.workers[i]
                }
        }),
    decreases todo.len(),
{
    if todo.len() > 0 {
        let rest = todo.drop_last();
        let (mid, r) = linked(t, rest, ids, now);
        assert(r is Ok);
        lemma_linked(t, rest, ids, now);
        let (found, res) = named_child(mid, todo.last().1, ids[todo.len() - 1], now);
        assert(found.workers == mid.workers);
        let child_id = res->Ok_0;
        let f = |w: WorkerRowView| linked_to(w, child_id);
        let after = changed(mid.workers, worker_key(), todo.last().0, f);
        assert(linked(t, todo, ids, now).0.workers == after);
        assert forall|i: int| 0 <= i < after.len() implies {
            &&& same_but_child(t.workers[i], #[trigger] after[i])
            &&& t.workers[i].info.child_id is Some ==> after[i].info.child_id is Some
            &&& (exists|j: int|
                0 <= j < todo.len() && (#[trigger] todo[j]).0 == t.workers[i].info.worker_id)
                ==> after[i].info.child_id is Some
            &&& (forall|j: int|
                0 <= j < todo.len() ==> (#[trigger] todo[j]).0 != t.workers[i].info.worker_id)
                ==> after[i] == t.workers[i]
        } by {
            assert(same_but_child(t.workers[i], mid.workers[i]));
            if exists|j: int|
                0 <= j < todo.len() && (#[trigger] todo[j]).0 == t.workers[i].info.worker_id {
                let j = choose|j: int|
                    0 <= j < todo.len() && (#[trigger] todo[j]).0 == t.workers[i].info.worker_id;
                if j < rest.len() {
                    assert(rest[j].0 == t.workers[i].info.worker_id);
                }
            } else {
                assert forall|j: int| 0 <= j < rest.len() implies (#[trigger] rest[j]).0
                    != t.workers[i].info.worker_id by {
                    assert(todo[j].0 != t.workers[i].info.worker_id);
                }
                assert(todo[todo.len() - 1].0 != t.workers[i].info.worker_id);
            }
        }
    }
}

/// A migration that succeeds links every worker that bears a child's name.
/// Nothing else of a worker changes, and one that was linked keeps its child.
pub proof fn migration_links_everyone(t: MasterTables, ids: Seq<Seq<char>>, now: i64)
    requires
        t.wf(),
        linked(t, to_link(t.workers), ids, now).1 is Ok,
    ensures
        ({
            let after = linked(t, to_link(t.workers), ids, now).0.workers;
            &&& to_link(after).len() == 0
            &&& after.len() == t.workers.len()
            &&& forall|i: int|
                0 <= i < after.len() ==> same_but_child(t.workers[i], #[trigger] after[i])
            &&& forall|i: int|
                0 <= i < after.len() && !unlinked(t.workers[i]) ==> #[trigger] after[i]
                    == t.workers[i]
        }),
{
    let todo = to_link(t.workers);
    let after = linked(t, todo, ids, now).0.workers;
    lemma_linked(t, todo, ids, now);
    assert forall|i: int| 0 <= i < after.len() implies !unlinked(#[trigger] after[i]) by {
        if unlinked(t.workers[i]) {
            lemma_to_link_covers(t.workers, i);
        } else {
            assert(same_but_child(t.workers[i], after[i]));
        }
    }
    lemma_to_link_empty(after);
    assert forall|i: int| 0 <= i < after.len() && !unlinked(t.workers[i]) implies #[trigger] after[i]
        == t.workers[i] by {
        assert forall|j: int| 0 <= j < todo.len() implies (#[trigger] todo[j]).0
            != t.workers[i].info.worker_id by {
            lemma_to_link_sound(t.workers, j);
            let k = choose|k: int|
                0 <= k < t.workers.len() && unlinked(#[trigger] t.workers[k])
                    && t.workers[k].info.worker_id == todo[j].0;
            assert(worker_key()(t.workers[k]) != worker_key()(t.workers[i]));
        }
    }
}

/// A second migration finds nothing to do.
pub proof fn migration_can_be_repeated(
    t: MasterTables,
    ids: Seq<Seq<char>>,
    now: i64,
    more: Seq<Seq<char>>,
    later: i64,
)
    requires
        t.wf(),
        linked(t, to_link(t.workers), ids, now).1 is Ok,
    ensures
        ({
            let after = linked(t, to_link(t.workers), ids, now).0;
            &&& linked(after, to_link(after.workers), more, later) == (
                after,
                Ok::<(), StoreError>(()),
            )
            &&& carried_goals(after, Seq::<LegacyGoalView>::empty()) == after.goals
            &&& carried_points(after, Seq::<LegacyPointsView>::empty()) == after.points
        }),
{
    migration_links_everyone(t, ids, now);
}

/// Linking creates or reuses the child whose name, up to case, the worker
/// bears.
pub proof fn link_finds_the_named_child(
    t: MasterTables,
    worker: (Seq<char>, Seq<char>),
    id: Seq<char>,
    now: i64,
)
    requires
        t.wf(),
        worker_row(t.workers, worker.0) is Some,
        link_step(t, worker, id, now).1 is Ok,
    ensures
        ({
            let after = link_step(t, worker, id, now).0;
            exists|k: int|
                0 <= k < after.children.len() && child_of(after.workers, worker.0) == Some(
                    (#[trigger] after.children[k]).id,
                ) && ascii_fold(after.children[k].name) == ascii_fold(worker.1)
        }),
{
    let (found, res) = named_child(t, worker.1, id, now);
    let child_id = res->Ok_0;
    let p = |c: ChildRowView| ascii_fold(c.name) == ascii_fold(worker.1);
    lemma_first(t.children, p);
    lemma_changed_row(
        found.workers,
        worker.0,
        |w: WorkerRowView| linked_to(w, child_id),
        worker.0,
    );
    let after = link_step(t, worker, id, now).0;
    match child_named(t.children, worker.1) {
        Some(c) => {
            let k = choose|k: int| 0 <= k < t.children.len() && #[trigger] t.children[k] == c;
            assert(after.children[k].id == child_id);
        },
        None => {
            assert(after.children[t.children.len() as int].id == child_id);
        },
    }
}

} // verus!
