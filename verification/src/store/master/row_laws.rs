//! What single operations do to the rows, field by field.
use super::{
    child_key, goal_key, has_key, override_key, points_key, session_key, worker_key, MasterTables,
    StoreError,
};
use super::ledger::{award, entries_of, goal_of, with_goal, with_override, with_points};
use super::legacy::{
    carried_goals, carried_points, to_link, unlinked, with_link, LegacyGoalView, LegacyPointsView,
};
use super::people::{
    authentic, child_infos, child_named, name_of, named_child, of_child, pending, with_assignment,
    with_heartbeat, with_worker, worker_info, worker_infos, worker_row,
};
use super::records::{count_of, inserted, recorded};
use super::rows::{ChildRowView, GoalRowView, PointsRowView, SessionRowView, WorkerRowView};
use super::selection::child_of;
use crate::categorize::{category_owed, layers_decide_in_turn, CategorizerView};
use crate::model::{
    Category, CategoryOverride, ChildInfo, ChildInfoView, GoalConfig, OverrideView, PointsEntry,
    PointsEntryView, RegisterView, SessionView, WorkerInfo, WorkerInfoView,
};
use crate::seqs::{
    first, lemma_filter_contains, lemma_first, lemma_permuted_contains, sorted_copy, Ordered,
};
use crate::text::{ascii_fold, text_leq};
use vstd::prelude::*;

verus! {

// ---- Uploads ----
/// The id is that of no stored session and of no earlier session of the
/// upload.
pub open spec fn is_new(rows: Seq<SessionRowView>, sessions: Seq<SessionView>, k: int) -> bool {
    &&& 0 <= k < sessions.len()
    &&& forall|i: int| 0 <= i < rows.len() ==> (#[trigger] rows[i]).session.id != sessions[k].id
    &&& forall|j: int| 0 <= j < k ==> (#[trigger] sessions[j]).id != sessions[k].id
}

/// The rows of an upload are those before and rows of sessions of it.
proof fn lemma_inserted_row(
    rows: Seq<SessionRowView>,
    worker_id: Seq<char>,
    sessions: Seq<SessionView>,
    c: CategorizerView,
    i: int,
)
    requires
        rows.len() <= i < inserted(rows, worker_id, sessions, c).len(),
    ensures
        exists|k: int|
            0 <= k < sessions.len() && inserted(rows, worker_id, sessions, c)[i] == recorded(
                worker_id,
                #[trigger] sessions[k],
                c,
            ),
    decreases sessions.len(),
{
    if sessions.len() > 0 {
        let rest = sessions.drop_last();
        let before = inserted(rows, worker_id, rest, c);
        if i < before.len() {
            lemma_inserted_row(rows, worker_id, rest, c, i);
            let k = choose|k: int|
                0 <= k < rest.len() && before[i] == recorded(worker_id, #[trigger] rest[k], c);
            assert(sessions[k] == rest[k]);
        } else {
            assert(inserted(rows, worker_id, sessions, c)[i] == recorded(
                worker_id,
                sessions[sessions.len() - 1],
                c,
            ));
        }
    }
}

proof fn lemma_new_is_stored(
    rows: Seq<SessionRowView>,
    worker_id: Seq<char>,
    sessions: Seq<SessionView>,
    c: CategorizerView,
    k: int,
)
    requires
        is_new(rows, sessions, k),
    ensures
        exists|i: int|
            rows.len() <= i < inserted(rows, worker_id, sessions, c).len() && #[trigger] inserted(
                rows,
                worker_id,
                sessions,
                c,
            )[i] == recorded(worker_id, sessions[k], c),
    decreases sessions.len(),
{
    let rest = sessions.drop_last();
    let before = inserted(rows, worker_id, rest, c);
    let all = inserted(rows, worker_id, sessions, c);
    if k < rest.len() {
        assert(rest[k] == sessions[k]);
        assert forall|j: int| 0 <= j < k implies (#[trigger] rest[j]).id != rest[k].id by {
            assert(sessions[j].id != sessions[k].id);
        }
        lemma_new_is_stored(rows, worker_id, rest, c, k);
        let i = choose|i: int|
            rows.len() <= i < before.len() && #[trigger] before[i] == recorded(
                worker_id,
                rest[k],
                c,
            );
        assert(all[i] == before[i]);
    } else {
        super::laws::upload_keeps_what_is_stored(rows, worker_id, rest, c);
        let id = sessions[k].id;
        assert(!has_key(before, session_key(), id)) by {
            if has_key(before, session_key(), id) {
                let i = choose|i: int|
                    0 <= i < before.len() && session_key()(#[trigger] before[i]) == id;
                if i < rows.len() {
                    assert(before[i] == rows[i]);
                } else {
                    lemma_inserted_row(rows, worker_id, rest, c, i);
                    let j = choose|j: int|
                        0 <= j < rest.len() && before[i] == recorded(
                            worker_id,
                            #[trigger] rest[j],
                            c,
                        );
                    assert(sessions[j].id != sessions[k].id);
                }
            }
        }
        assert(sessions.last() == sessions[k]);
        assert(all[before.len() as int] == recorded(worker_id, sessions[k], c));
    }
}

/// A row holds a session as it was sent, under the worker that sent it.
pub open spec fn as_sent(r: SessionRowView, worker_id: Seq<char>, s: SessionView) -> bool {
    &&& r.worker_id == worker_id
    &&& r.session.id == s.id
    &&& r.session.app_name == s.app_name
    &&& r.session.window_title == s.window_title
    &&& r.session.start_ts == s.start_ts
    &&& r.session.end_ts == s.end_ts
    &&& r.session.duration_s == s.duration_s
}

/// An upload stores every new session as it was sent, but under the category
/// that its own name and its own title call for, whatever category was sent.
pub proof fn upload_goes_by_name_and_title(
    rows: Seq<SessionRowView>,
    worker_id: Seq<char>,
    sessions: Seq<SessionView>,
    c: CategorizerView,
    k: int,
)
    requires
        is_new(rows, sessions, k),
    ensures
        ({
            let after = inserted(rows, worker_id, sessions, c);
            exists|i: int|
                rows.len() <= i < after.len() && as_sent(#[trigger] after[i], worker_id, sessions[k])
                    && category_owed(
                    c,
                    sessions[k].app_name,
                    sessions[k].window_title,
                    after[i].session.category,
                )
        }),
{
    let s = sessions[k];
    let after = inserted(rows, worker_id, sessions, c);
    lemma_new_is_stored(rows, worker_id, sessions, c, k);
    let i = choose|i: int|
        rows.len() <= i < after.len() && #[trigger] after[i] == recorded(worker_id, s, c);
    layers_decide_in_turn(c, s.app_name, s.window_title);
    assert(as_sent(after[i], worker_id, s));
    assert(category_owed(c, s.app_name, s.window_title, after[i].session.category));
}

/// Every row that an upload adds is a session of it, as it was sent and under
/// the category that is owed.
pub proof fn upload_adds_nothing_else(
    rows: Seq<SessionRowView>,
    worker_id: Seq<char>,
    sessions: Seq<SessionView>,
    c: CategorizerView,
    i: int,
)
    requires
        rows.len() <= i < inserted(rows, worker_id, sessions, c).len(),
    ensures
        ({
            let r = inserted(rows, worker_id, sessions, c)[i];
            exists|k: int|
                0 <= k < sessions.len() && as_sent(r, worker_id, #[trigger] sessions[k])
                    && category_owed(
                    c,
                    sessions[k].app_name,
                    sessions[k].window_title,
                    r.session.category,
                )
        }),
{
    lemma_inserted_row(rows, worker_id, sessions, c, i);
    let r = inserted(rows, worker_id, sessions, c)[i];
    let k = choose|k: int|
        0 <= k < sessions.len() && r == recorded(worker_id, #[trigger] sessions[k], c);
    layers_decide_in_turn(c, sessions[k].app_name, sessions[k].window_title);
    assert(as_sent(r, worker_id, sessions[k]));
}

// ---- Goals, points, overrides ----
/// The goal of a child is the one in its row; a child without a row has none.
pub proof fn goal_is_that_of_the_row(t: MasterTables, child_id: Seq<char>)
    requires
        t.wf(),
    ensures
        forall|g: int|
            0 <= g < t.goals.len() && (#[trigger] t.goals[g]).child_id == child_id ==> goal_of(
                t.goals,
                child_id,
            ) == t.goals[g].goal,
        (forall|g: int| 0 <= g < t.goals.len() ==> (#[trigger] t.goals[g]).child_id != child_id)
            ==> goal_of(t.goals, child_id).daily_min is None && goal_of(
            t.goals,
            child_id,
        ).weekly_min is None,
{
    let p = |g: GoalRowView| g.child_id == child_id;
    lemma_first(t.goals, p);
    match first(t.goals, p) {
        Some(x) => {
            let k = choose|k: int| 0 <= k < t.goals.len() && #[trigger] t.goals[k] == x;
            assert(t.goals[k].child_id == child_id);
            assert forall|g: int|
                0 <= g < t.goals.len() && (#[trigger] t.goals[g]).child_id == child_id implies goal_of(
                t.goals,
                child_id,
            ) == t.goals[g].goal by {
                if g != k {
                    assert(goal_key()(t.goals[g]) != goal_key()(t.goals[k]));
                }
            }
        },
        None => {
            assert forall|g: int| 0 <= g < t.goals.len() implies (#[trigger] t.goals[g]).child_id
                != child_id by {
                assert(!p(t.goals[g]));
            }
        },
    }
}

/// Setting a goal touches nothing but the goals.
pub proof fn setting_a_goal_touches_goals_only(
    t: MasterTables,
    child_id: Seq<char>,
    goal: GoalConfig,
)
    ensures
        ({
            let after = with_goal(t, child_id, goal);
            &&& after.children == t.children
            &&& after.workers == t.workers
            &&& after.sessions == t.sessions
            &&& after.points == t.points
            &&& after.overrides == t.overrides
        }),
{
}

/// An award is in the table afterwards, with its amount if it is new; all
/// other points stay, and nothing but points changes.
pub proof fn award_is_recorded(
    t: MasterTables,
    child_id: Seq<char>,
    date: Seq<char>,
    points: i64,
    reason: Seq<char>,
)
    ensures
        ({
            let after = with_points(t, award(child_id, date, points, reason));
            let row = PointsRowView {
                child_id,
                entry: PointsEntryView { date, points, reason },
            };
            &&& after == (MasterTables { points: after.points, ..t })
            &&& if exists|i: int|
                0 <= i < t.points.len() && (#[trigger] t.points[i]).child_id == child_id
                    && t.points[i].entry.date == date && t.points[i].entry.reason == reason {
                after.points == t.points
            } else {
                after.points == t.points.push(row)
            }
        }),
{
    let k = (child_id, date, reason);
    if exists|i: int|
        0 <= i < t.points.len() && (#[trigger] t.points[i]).child_id == child_id
            && t.points[i].entry.date == date && t.points[i].entry.reason == reason {
        let i = choose|i: int|
            0 <= i < t.points.len() && (#[trigger] t.points[i]).child_id == child_id
                && t.points[i].entry.date == date && t.points[i].entry.reason == reason;
        assert(points_key()(t.points[i]) == k);
        assert(has_key(t.points, points_key(), k));
    } else if has_key(t.points, points_key(), k) {
        let i = choose|i: int|
            0 <= i < t.points.len() && points_key()(#[trigger] t.points[i]) == k;
        assert(t.points[i].child_id == child_id);
    }
}

/// The history of a child has exactly its entries, latest date first.
pub proof fn history_has_the_child_s_entries(
    points: Seq<PointsRowView>,
    child_id: Seq<char>,
    out: Seq<PointsEntryView>,
    e: PointsEntryView,
)
    requires
        sorted_copy::<PointsEntry>(out, entries_of(points, child_id)),
    ensures
        out.contains(e) <==> exists|i: int|
            0 <= i < points.len() && (#[trigger] points[i]).child_id == child_id && points[i].entry
                == e,
        forall|i: int, j: int|
            0 <= i < j < out.len() ==> text_leq((#[trigger] out[j]).date, (#[trigger] out[i]).date),
{
    let p = |p: PointsRowView| p.child_id == child_id;
    let f = |p: PointsRowView| p.entry;
    let kept = points.filter(p);
    let mine = entries_of(points, child_id);
    lemma_permuted_contains(out, mine, e);
    if mine.contains(e) {
        let m = choose|m: int| 0 <= m < mine.len() && mine[m] == e;
        let r = kept[m];
        assert(kept.contains(r));
        lemma_filter_contains(points, p, r);
        let i = choose|i: int| 0 <= i < points.len() && points[i] == r;
        assert(points[i].child_id == child_id && points[i].entry == e);
    }
    if exists|i: int|
        0 <= i < points.len() && (#[trigger] points[i]).child_id == child_id && points[i].entry == e {
        let i = choose|i: int|
            0 <= i < points.len() && (#[trigger] points[i]).child_id == child_id && points[i].entry
                == e;
        assert(points.contains(points[i]));
        lemma_filter_contains(points, p, points[i]);
        let m = choose|m: int| 0 <= m < kept.len() && kept[m] == points[i];
        assert(mine[m] == e);
    }
    assert forall|i: int, j: int| 0 <= i < j < out.len() implies text_leq(
        (#[trigger] out[j]).date,
        (#[trigger] out[i]).date,
    ) by {
        assert(<PointsEntry as Ordered>::leq(out[i], out[j]));
    }
}

/// An override that was set is there, with its category; other applications
/// keep theirs, and nothing but overrides changes.
pub proof fn override_is_what_was_set(
    t: MasterTables,
    app_name: Seq<char>,
    category: Category,
    o: OverrideView,
)
    requires
        t.wf(),
    ensures
        ({
            let after = with_override(t, app_name, category);
            &&& after == (MasterTables { overrides: after.overrides, ..t })
            &&& after.overrides.contains(o) <==> if o.app_name == app_name {
                o.category == category
            } else {
                t.overrides.contains(o)
            }
        }),
{
    let after = with_override(t, app_name, category).overrides;
    let n = t.overrides.len() as int;
    if o.app_name == app_name && o.category == category {
        if has_key(t.overrides, override_key(), app_name) {
            let i = choose|i: int|
                0 <= i < n && override_key()(#[trigger] t.overrides[i]) == app_name;
            assert(after[i] == o);
        } else {
            assert(after[n] == o);
        }
    }
    if o.app_name != app_name && t.overrides.contains(o) {
        let i = choose|i: int| 0 <= i < n && t.overrides[i] == o;
        assert(after[i] == o);
    }
    if after.contains(o) {
        let i = choose|i: int| 0 <= i < after.len() && after[i] == o;
        if i < n {
            if override_key()(t.overrides[i]) != app_name {
                assert(t.overrides.contains(t.overrides[i]));
            } else {
                assert(has_key(t.overrides, override_key(), app_name));
            }
        }
    }
}

/// Overrides are listed by name, all of them.
pub proof fn overrides_are_listed_by_name(
    listed: Seq<OverrideView>,
    overrides: Seq<OverrideView>,
    o: OverrideView,
)
    requires
        sorted_copy::<CategoryOverride>(listed, overrides),
    ensures
        listed.contains(o) <==> overrides.contains(o),
        listed.len() == overrides.len(),
        forall|i: int, j: int|
            0 <= i < j < listed.len() ==> text_leq(
                (#[trigger] listed[i]).app_name,
                (#[trigger] listed[j]).app_name,
            ),
{
    lemma_permuted_contains(listed, overrides, o);
    assert forall|i: int, j: int| 0 <= i < j < listed.len() implies text_leq(
        (#[trigger] listed[i]).app_name,
        (#[trigger] listed[j]).app_name,
    ) by {
        assert(<CategoryOverride as Ordered>::leq(listed[i], listed[j]));
    }
}

// ---- Children ----
/// A name that a child has, up to case, finds this child and changes nothing;
/// another name makes one new child with this name, id and time.
pub proof fn name_finds_or_makes_a_child(
    t: MasterTables,
    name: Seq<char>,
    id: Seq<char>,
    now: i64,
)
    ensures
        ({
            let (after, res) = named_child(t, name, id, now);
            if exists|i: int|
                0 <= i < t.children.len() && ascii_fold((#[trigger] t.children[i]).name)
                    == ascii_fold(name) {
                after == t && (res matches Ok(found) && exists|i: int|
                    0 <= i < t.children.len() && (#[trigger] t.children[i]).id == found
                        && ascii_fold(t.children[i].name) == ascii_fold(name))
            } else if exists|i: int| 0 <= i < t.children.len() && (#[trigger] t.children[i]).id == id {
                after == t && res == Err::<Seq<char>, StoreError>(StoreError::DuplicateId)
            } else {
                &&& res == Ok::<Seq<char>, StoreError>(id)
                &&& after.children == t.children.push(ChildRowView { id, name, created_at: now })
                &&& after == (MasterTables { children: after.children, ..t })
            }
        }),
{
    let p = |c: ChildRowView| ascii_fold(c.name) == ascii_fold(name);
    lemma_first(t.children, p);
    match child_named(t.children, name) {
        Some(c) => {
            let i = choose|i: int| 0 <= i < t.children.len() && #[trigger] t.children[i] == c;
            assert(ascii_fold(t.children[i].name) == ascii_fold(name));
        },
        None => {
            assert forall|i: int| 0 <= i < t.children.len() implies ascii_fold(
                (#[trigger] t.children[i]).name,
            ) != ascii_fold(name) by {
                assert(!p(t.children[i]));
            }
            if has_key(t.children, child_key(), id) {
                let i = choose|i: int|
                    0 <= i < t.children.len() && child_key()(#[trigger] t.children[i]) == id;
                assert(t.children[i].id == id);
            }
            if exists|i: int| 0 <= i < t.children.len() && (#[trigger] t.children[i]).id == id {
                let i = choose|i: int|
                    0 <= i < t.children.len() && (#[trigger] t.children[i]).id == id;
                assert(child_key()(t.children[i]) == id);
            }
        },
    }
}

/// The name of a child is the one in its row; an unknown id has none.
pub proof fn name_is_that_of_the_row(t: MasterTables, id: Seq<char>)
    requires
        t.wf(),
    ensures
        forall|i: int|
            0 <= i < t.children.len() && (#[trigger] t.children[i]).id == id ==> name_of(
                t.children,
                id,
            ) == Some(t.children[i].name),
        (forall|i: int| 0 <= i < t.children.len() ==> (#[trigger] t.children[i]).id != id)
            ==> name_of(t.children, id) is None,
{
    let p = |c: ChildRowView| c.id == id;
    lemma_first(t.children, p);
    match first(t.children, p) {
        Some(x) => {
            let k = choose|k: int| 0 <= k < t.children.len() && #[trigger] t.children[k] == x;
            assert(t.children[k].id == id);
            assert forall|i: int| 0 <= i < t.children.len() && (#[trigger] t.children[i]).id == id implies name_of(
                t.children,
                id,
            ) == Some(t.children[i].name) by {
                if i != k {
                    assert(child_key()(t.children[i]) != child_key()(t.children[k]));
                }
            }
        },
        None => {
            assert forall|i: int| 0 <= i < t.children.len() implies (#[trigger] t.children[i]).id
                != id by {
                assert(!p(t.children[i]));
            }
        },
    }
}

/// Children are listed with id and name, by name, all of them.
pub proof fn children_are_listed_by_name(
    children: Seq<ChildRowView>,
    out: Seq<ChildInfoView>,
    c: ChildInfoView,
)
    requires
        sorted_copy::<ChildInfo>(out, child_infos(children)),
    ensures
        out.contains(c) <==> exists|i: int|
            0 <= i < children.len() && (#[trigger] children[i]).id == c.id && children[i].name
                == c.name,
        out.len() == children.len(),
        forall|i: int, j: int|
            0 <= i < j < out.len() ==> text_leq((#[trigger] out[i]).name, (#[trigger] out[j]).name),
{
    let infos = child_infos(children);
    lemma_permuted_contains(out, infos, c);
    if infos.contains(c) {
        let i = choose|i: int| 0 <= i < infos.len() && infos[i] == c;
        assert(children[i].id == c.id && children[i].name == c.name);
    }
    if exists|i: int|
        0 <= i < children.len() && (#[trigger] children[i]).id == c.id && children[i].name == c.name {
        let i = choose|i: int|
            0 <= i < children.len() && (#[trigger] children[i]).id == c.id && children[i].name
                == c.name;
        assert(infos[i] == c);
    }
    assert forall|i: int, j: int| 0 <= i < j < out.len() implies text_leq(
        (#[trigger] out[i]).name,
        (#[trigger] out[j]).name,
    ) by {
        assert(<ChildInfo as Ordered>::leq(out[i], out[j]));
    }
}

// ---- Workers ----
/// The row of a worker is the one with its id.
pub proof fn worker_is_found_by_its_id(t: MasterTables, id: Seq<char>)
    requires
        t.wf(),
    ensures
        forall|i: int|
            0 <= i < t.workers.len() && (#[trigger] t.workers[i]).info.worker_id == id
                ==> worker_row(t.workers, id) == Some(t.workers[i]) && worker_info(t.workers, id)
                == Some(t.workers[i].info) && child_of(t.workers, id) == t.workers[i].info.child_id,
        (forall|i: int| 0 <= i < t.workers.len() ==> (#[trigger] t.workers[i]).info.worker_id != id)
            ==> worker_row(t.workers, id) is None && worker_info(t.workers, id) is None && child_of(
            t.workers,
            id,
        ) is None,
{
    let p = |w: WorkerRowView| w.info.worker_id == id;
    lemma_first(t.workers, p);
    match first(t.workers, p) {
        Some(x) => {
            let k = choose|k: int| 0 <= k < t.workers.len() && #[trigger] t.workers[k] == x;
            assert(t.workers[k].info.worker_id == id);
            assert forall|i: int|
                0 <= i < t.workers.len() && (#[trigger] t.workers[i]).info.worker_id
                    == id implies worker_row(t.workers, id) == Some(t.workers[i]) && worker_info(
                t.workers,
                id,
            ) == Some(t.workers[i].info) && child_of(t.workers, id) == t.workers[i].info.child_id by {
                if i != k {
                    assert(worker_key()(t.workers[i]) != worker_key()(t.workers[k]));
                }
            }
        },
        None => {
            assert forall|i: int| 0 <= i < t.workers.len() implies (
            #[trigger] t.workers[i]).info.worker_id != id by {
                assert(!p(t.workers[i]));
            }
        },
    }
}

/// A registration takes over host data and token. A worker that is known
/// keeps its child, its approval and its times; a new one has no child, waits
/// for approval and was never seen. Other rows stay where they are.
pub proof fn registration_field_by_field(t: MasterTables, req: RegisterView, now: i64, i: int)
    requires
        t.wf(),
        0 <= i < with_worker(t, req, now).workers.len(),
    ensures
        ({
            let after = with_worker(t, req, now);
            let w = after.workers[i];
            &&& after == (MasterTables { workers: after.workers, ..t })
            &&& i < t.workers.len() && t.workers[i].info.worker_id != req.worker_id ==> w
                == t.workers[i]
            &&& i < t.workers.len() && t.workers[i].info.worker_id == req.worker_id ==> {
                &&& w.info.worker_id == req.worker_id
                &&& w.info.child_name == t.workers[i].info.child_name
                &&& w.info.child_id == t.workers[i].info.child_id
                &&& w.info.approved == t.workers[i].info.approved
                &&& w.info.last_seen == t.workers[i].info.last_seen
                &&& w.info.created_at == t.workers[i].info.created_at
                &&& w.info.hostname == req.hostname && w.info.os == req.os && w.info.os_user
                    == req.os_user && w.token == req.token
                &&& after.workers.len() == t.workers.len()
            }
            &&& i >= t.workers.len() ==> {
                &&& i == t.workers.len()
                &&& w.info.worker_id == req.worker_id
                &&& w.info.child_name is None && w.info.child_id is None && !w.info.approved
                    && w.info.last_seen is None
                &&& w.info.created_at == now
                &&& w.info.hostname == req.hostname && w.info.os == req.os && w.info.os_user
                    == req.os_user && w.token == req.token
                &&& forall|j: int|
                    0 <= j < t.workers.len() ==> (#[trigger] t.workers[j]).info.worker_id
                        != req.worker_id
            }
        }),
{
    if i < t.workers.len() && t.workers[i].info.worker_id == req.worker_id {
        assert(worker_key()(t.workers[i]) == req.worker_id);
        assert(has_key(t.workers, worker_key(), req.worker_id));
    }
    if i >= t.workers.len() {
        assert forall|j: int| 0 <= j < t.workers.len() implies (
        #[trigger] t.workers[j]).info.worker_id != req.worker_id by {
            assert(worker_key()(t.workers[j]) != req.worker_id);
        }
    }
}

/// A worker that registers is in the table afterwards.
pub proof fn registration_adds_the_worker(t: MasterTables, req: RegisterView, now: i64)
    ensures
        exists|i: int|
            0 <= i < with_worker(t, req, now).workers.len() && (#[trigger] with_worker(
                t,
                req,
                now,
            ).workers[i]).info.worker_id == req.worker_id,
{
    let after = with_worker(t, req, now).workers;
    if has_key(t.workers, worker_key(), req.worker_id) {
        let i = choose|i: int|
            0 <= i < t.workers.len() && worker_key()(#[trigger] t.workers[i]) == req.worker_id;
        assert(after[i].info.worker_id == req.worker_id);
    } else {
        assert(after[t.workers.len() as int].info.worker_id == req.worker_id);
    }
}

/// An assignment approves the worker and gives it the child; a heartbeat
/// notes the time; a link gives the child alone. Nothing else of the worker
/// changes, and nothing of any other.
pub proof fn worker_changes_field_by_field(
    t: MasterTables,
    worker_id: Seq<char>,
    child_id: Seq<char>,
    now: i64,
    i: int,
)
    requires
        0 <= i < t.workers.len(),
    ensures
        ({
            let w = t.workers[i];
            let mine = w.info.worker_id == worker_id;
            let assigned = with_assignment(t, worker_id, child_id);
            let beaten = with_heartbeat(t, worker_id, now);
            let linked = with_link(t, worker_id, child_id);
            &&& assigned == (MasterTables { workers: assigned.workers, ..t })
            &&& beaten == (MasterTables { workers: beaten.workers, ..t })
            &&& linked == (MasterTables { workers: linked.workers, ..t })
            &&& assigned.workers.len() == t.workers.len() && beaten.workers.len() == t.workers.len()
                && linked.workers.len() == t.workers.len()
            &&& !mine ==> assigned.workers[i] == w && beaten.workers[i] == w && linked.workers[i]
                == w
            &&& mine ==> assigned.workers[i] == (WorkerRowView {
                info: WorkerInfoView { approved: true, child_id: Some(child_id), ..w.info },
                ..w
            })
            &&& mine ==> beaten.workers[i] == (WorkerRowView {
                info: WorkerInfoView { last_seen: Some(now), ..w.info },
                ..w
            })
            &&& mine ==> linked.workers[i] == (WorkerRowView {
                info: WorkerInfoView { child_id: Some(child_id), ..w.info },
                ..w
            })
        }),
{
}

/// A token is valid for a worker exactly if it is the one in the worker's row.
pub proof fn token_is_that_of_the_row(t: MasterTables, worker_id: Seq<char>, token: Seq<char>)
    requires
        t.wf(),
    ensures
        authentic(t.workers, worker_id, token) <==> exists|i: int|
            0 <= i < t.workers.len() && (#[trigger] t.workers[i]).info.worker_id == worker_id
                && t.workers[i].token == token,
{
    worker_is_found_by_its_id(t, worker_id);
    if authentic(t.workers, worker_id, token) {
        let p = |w: WorkerRowView| w.info.worker_id == worker_id;
        lemma_first(t.workers, p);
        let x = worker_row(t.workers, worker_id)->0;
        let k = choose|k: int| 0 <= k < t.workers.len() && #[trigger] t.workers[k] == x;
        assert(t.workers[k].info.worker_id == worker_id && t.workers[k].token == token);
    }
}

/// Listings of workers go by the time of registration. All workers, those of
/// a child, and those that wait for approval are listed completely.
pub proof fn workers_are_listed_by_registration(
    workers: Seq<WorkerRowView>,
    child_id: Seq<char>,
    all: Seq<WorkerInfoView>,
    mine: Seq<WorkerInfoView>,
    waiting: Seq<WorkerInfoView>,
    w: WorkerInfoView,
)
    requires
        sorted_copy::<WorkerInfo>(all, worker_infos(workers)),
        sorted_copy::<WorkerInfo>(mine, worker_infos(workers).filter(of_child(child_id))),
        sorted_copy::<WorkerInfo>(waiting, worker_infos(workers).filter(pending())),
    ensures
        ({
            let there = exists|i: int|
                0 <= i < workers.len() && (#[trigger] workers[i]).info == w;
            &&& all.contains(w) <==> there
            &&& mine.contains(w) <==> there && w.child_id == Some(child_id)
            &&& waiting.contains(w) <==> there && !w.approved
        }),
        forall|i: int, j: int|
            0 <= i < j < all.len() ==> (#[trigger] all[i]).created_at <= (
            #[trigger] all[j]).created_at,
        forall|i: int, j: int|
            0 <= i < j < mine.len() ==> (#[trigger] mine[i]).created_at <= (
            #[trigger] mine[j]).created_at,
        forall|i: int, j: int|
            0 <= i < j < waiting.len() ==> (#[trigger] waiting[i]).created_at <= (
            #[trigger] waiting[j]).created_at,
{
    let infos = worker_infos(workers);
    lemma_permuted_contains(all, infos, w);
    lemma_permuted_contains(mine, infos.filter(of_child(child_id)), w);
    lemma_permuted_contains(waiting, infos.filter(pending()), w);
    lemma_filter_contains(infos, of_child(child_id), w);
    lemma_filter_contains(infos, pending(), w);
    if infos.contains(w) {
        let i = choose|i: int| 0 <= i < infos.len() && infos[i] == w;
        assert(workers[i].info == w);
    }
    if exists|i: int| 0 <= i < workers.len() && (#[trigger] workers[i]).info == w {
        let i = choose|i: int| 0 <= i < workers.len() && (#[trigger] workers[i]).info == w;
        assert(infos[i] == w);
    }
    assert forall|i: int, j: int| 0 <= i < j < all.len() implies (#[trigger] all[i]).created_at <= (
    #[trigger] all[j]).created_at by {
        assert(<WorkerInfo as Ordered>::leq(all[i], all[j]));
    }
    assert forall|i: int, j: int| 0 <= i < j < mine.len() implies (#[trigger] mine[i]).created_at <= (
    #[trigger] mine[j]).created_at by {
        assert(<WorkerInfo as Ordered>::leq(mine[i], mine[j]));
    }
    assert forall|i: int, j: int| 0 <= i < j < waiting.len() implies (
    #[trigger] waiting[i]).created_at <= (#[trigger] waiting[j]).created_at by {
        assert(<WorkerInfo as Ordered>::leq(waiting[i], waiting[j]));
    }
}

// ---- Rows of the first version ----
/// The workers to link are those with a name and without a child, in the
/// order of the table.
pub proof fn unlinked_workers_are_linked(
    workers: Seq<WorkerRowView>,
    worker_id: Seq<char>,
    name: Seq<char>,
)
    ensures
        to_link(workers).contains((worker_id, name)) <==> exists|i: int|
            0 <= i < workers.len() && (#[trigger] workers[i]).info.worker_id == worker_id
                && workers[i].info.child_name == Some(name) && workers[i].info.child_id is None,
    decreases workers.len(),
{
    if workers.len() > 0 {
        let front = workers.drop_last();
        let w = workers.last();
        let rest = to_link(front);
        let all = to_link(workers);
        unlinked_workers_are_linked(front, worker_id, name);
        if rest.contains((worker_id, name)) {
            let j = choose|j: int| 0 <= j < rest.len() && rest[j] == (worker_id, name);
            assert(all[j] == (worker_id, name));
            let i = choose|i: int|
                0 <= i < front.len() && (#[trigger] front[i]).info.worker_id == worker_id
                    && front[i].info.child_name == Some(name) && front[i].info.child_id is None;
            assert(workers[i] == front[i]);
        }
        if unlinked(w) && w.info.worker_id == worker_id && w.info.child_name == Some(name) {
            assert(all[rest.len() as int] == (worker_id, name));
            assert(workers[workers.len() - 1] == w);
        }
        if all.contains((worker_id, name)) && !rest.contains((worker_id, name)) {
            let j = choose|j: int| 0 <= j < all.len() && all[j] == (worker_id, name);
            if j < rest.len() {
                assert(rest[j] == (worker_id, name));
            }
            assert(workers[workers.len() - 1].info.worker_id == worker_id);
        }
        if exists|i: int|
            0 <= i < workers.len() && (#[trigger] workers[i]).info.worker_id == worker_id
                && workers[i].info.child_name == Some(name) && workers[i].info.child_id is None {
            let i = choose|i: int|
                0 <= i < workers.len() && (#[trigger] workers[i]).info.worker_id == worker_id
                    && workers[i].info.child_name == Some(name) && workers[i].info.child_id is None;
            if i < front.len() {
                assert(front[i].info.worker_id == worker_id);
            }
        }
    }
}

/// Legacy goal `k` is the first of a worker of the child.
pub open spec fn first_legacy_goal(
    t: MasterTables,
    legacy: Seq<LegacyGoalView>,
    child_id: Seq<char>,
    k: int,
) -> bool {
    &&& 0 <= k < legacy.len()
    &&& child_of(t.workers, legacy[k].worker_id) == Some(child_id)
    &&& forall|j: int|
        0 <= j < k ==> child_of(t.workers, (#[trigger] legacy[j]).worker_id) != Some(child_id)
}

/// Goals that are there stay. Each that is added is the first old goal of a
/// worker of a child that had none.
pub proof fn old_goals_move_to_children(t: MasterTables, legacy: Seq<LegacyGoalView>)
    ensures
        ({
            let after = carried_goals(t, legacy);
            &&& t.goals.is_prefix_of(after)
            &&& forall|i: int|
                t.goals.len() <= i < after.len() ==> !has_key(
                    t.goals,
                    goal_key(),
                    (#[trigger] after[i]).child_id,
                ) && exists|k: int| #[trigger]
                    first_legacy_goal(t, legacy, after[i].child_id, k) && after[i].goal
                        == legacy[k].goal
            &&& forall|k: int|
                0 <= k < legacy.len() && child_of(t.workers, (#[trigger] legacy[k]).worker_id) is Some
                    ==> has_key(
                    after,
                    goal_key(),
                    child_of(t.workers, legacy[k].worker_id)->0,
                )
        }),
    decreases legacy.len(),
{
    if legacy.len() > 0 {
        let rest = legacy.drop_last();
        let l = legacy.last();
        let before = carried_goals(t, rest);
        let after = carried_goals(t, legacy);
        old_goals_move_to_children(t, rest);
        assert(before.is_prefix_of(after));
        assert forall|i: int| t.goals.len() <= i < after.len() implies !has_key(
            t.goals,
            goal_key(),
            (#[trigger] after[i]).child_id,
        ) && exists|k: int| #[trigger]
            first_legacy_goal(t, legacy, after[i].child_id, k) && after[i].goal
                == legacy[k].goal by {
            if i < before.len() {
                assert(after[i] == before[i]);
                let k = choose|k: int| #[trigger]
                    first_legacy_goal(t, rest, before[i].child_id, k) && before[i].goal
                        == rest[k].goal;
                assert forall|j: int| 0 <= j < k implies child_of(
                    t.workers,
                    (#[trigger] legacy[j]).worker_id,
                ) != Some(before[i].child_id) by {
                    assert(rest[j] == legacy[j]);
                }
                assert(first_legacy_goal(t, legacy, after[i].child_id, k));
            } else {
                let c = child_of(t.workers, l.worker_id)->0;
                let k = legacy.len() - 1;
                assert(after[i].child_id == c);
                assert(!has_key(before, goal_key(), c));
                if has_key(t.goals, goal_key(), c) {
                    let g = choose|g: int|
                        0 <= g < t.goals.len() && goal_key()(#[trigger] t.goals[g]) == c;
                    assert(goal_key()(before[g]) == c);
                }
                assert forall|j: int| 0 <= j < k implies child_of(
                    t.workers,
                    (#[trigger] legacy[j]).worker_id,
                ) != Some(c) by {
                    assert(rest[j] == legacy[j]);
                    assert(child_of(t.workers, rest[j].worker_id) is Some ==> has_key(
                        before,
                        goal_key(),
                        child_of(t.workers, rest[j].worker_id)->0,
                    ));
                }
                assert(first_legacy_goal(t, legacy, after[i].child_id, k));
            }
        }
        assert forall|k: int|
            0 <= k < legacy.len() && child_of(
                t.workers,
                (#[trigger] legacy[k]).worker_id,
            ) is Some implies has_key(
            after,
            goal_key(),
            child_of(t.workers, legacy[k].worker_id)->0,
        ) by {
            let c = child_of(t.workers, legacy[k].worker_id)->0;
            if k < rest.len() {
                assert(rest[k] == legacy[k]);
                let g = choose|g: int|
                    0 <= g < before.len() && goal_key()(#[trigger] before[g]) == c;
                assert(goal_key()(after[g]) == c);
            } else if !has_key(before, goal_key(), c) {
                assert(goal_key()(after[before.len() as int]) == c);
            }
        }
        assert(t.goals.is_prefix_of(after)) by {
            assert(t.goals =~= after.subrange(0, t.goals.len() as int));
        }
    }
}

/// Points that are there stay. Each that is added is an old entry, for the
/// child of its worker; and no old entry of a worker with a child is lost.
pub proof fn old_points_move_to_children(t: MasterTables, legacy: Seq<LegacyPointsView>)
    ensures
        ({
            let after = carried_points(t, legacy);
            &&& t.points.is_prefix_of(after)
            &&& forall|i: int|
                t.points.len() <= i < after.len() ==> exists|k: int|
                    0 <= k < legacy.len() && child_of(
                        t.workers,
                        (#[trigger] legacy[k]).worker_id,
                    ) == Some((#[trigger] after[i]).child_id) && after[i].entry == legacy[k].entry
            &&& forall|k: int|
                0 <= k < legacy.len() && child_of(t.workers, (#[trigger] legacy[k]).worker_id) is Some
                    ==> has_key(
                    after,
                    points_key(),
                    (
                        child_of(t.workers, legacy[k].worker_id)->0,
                        legacy[k].entry.date,
                        legacy[k].entry.reason,
                    ),
                )
        }),
    decreases legacy.len(),
{
    if legacy.len() > 0 {
        let rest = legacy.drop_last();
        let l = legacy.last();
        let before = carried_points(t, rest);
        let after = carried_points(t, legacy);
        old_points_move_to_children(t, rest);
        assert(before.is_prefix_of(after));
        assert(legacy[legacy.len() - 1] == l);
        assert forall|i: int| t.points.len() <= i < after.len() implies exists|k: int|
            0 <= k < legacy.len() && child_of(t.workers, (#[trigger] legacy[k]).worker_id) == Some(
                (#[trigger] after[i]).child_id,
            ) && after[i].entry == legacy[k].entry by {
            if i < before.len() {
                assert(after[i] == before[i]);
                let k = choose|k: int|
                    0 <= k < rest.len() && child_of(t.workers, (#[trigger] rest[k]).worker_id)
                        == Some(before[i].child_id) && before[i].entry == rest[k].entry;
                assert(legacy[k] == rest[k]);
            } else {
                assert(child_of(t.workers, legacy[legacy.len() - 1].worker_id) == Some(
                    after[i].child_id,
                ));
            }
        }
        assert forall|k: int|
            0 <= k < legacy.len() && child_of(
                t.workers,
                (#[trigger] legacy[k]).worker_id,
            ) is Some implies has_key(
            after,
            points_key(),
            (
                child_of(t.workers, legacy[k].worker_id)->0,
                legacy[k].entry.date,
                legacy[k].entry.reason,
            ),
        ) by {
            let c = (
                child_of(t.workers, legacy[k].worker_id)->0,
                legacy[k].entry.date,
                legacy[k].entry.reason,
            );
            if k < rest.len() {
                assert(rest[k] == legacy[k]);
                let g = choose|g: int|
                    0 <= g < before.len() && points_key()(#[trigger] before[g]) == c;
                assert(points_key()(after[g]) == c);
            } else if !has_key(before, points_key(), c) {
                assert(points_key()(after[before.len() as int]) == c);
            }
        }
        assert(t.points.is_prefix_of(after)) by {
            assert(t.points =~= after.subrange(0, t.points.len() as int));
        }
    }
}

/// Linking keeps all children and every table but children and workers.
pub proof fn linking_keeps_the_rest(
    t: MasterTables,
    workers: Seq<(Seq<char>, Seq<char>)>,
    ids: Seq<Seq<char>>,
    now: i64,
)
    ensures
        ({
            let after = super::legacy::linked(t, workers, ids, now).0;
            &&& t.children.is_prefix_of(after.children)
            &&& after == (MasterTables {
                children: after.children,
                workers: after.workers,
                ..t
            })
        }),
    decreases workers.len(),
{
    if workers.len() > 0 {
        linking_keeps_the_rest(t, workers.drop_last(), ids, now);
        let before = super::legacy::linked(t, workers.drop_last(), ids, now).0;
        let after = super::legacy::linked(t, workers, ids, now).0;
        assert(t.children =~= after.children.subrange(0, t.children.len() as int));
    }
}

// ---- Counting sessions ----
/// The number of sessions that a decision moves is that of the application's
/// sessions.
pub proof fn moved_sessions_are_counted(rows: Seq<SessionRowView>, app_name: Seq<char>)
    ensures
        count_of(rows, app_name) == rows.filter(
            |r: SessionRowView| r.session.app_name == app_name,
        ).len(),
    decreases rows.len(),
{
    reveal(Seq::filter);
    if rows.len() > 0 {
        moved_sessions_are_counted(rows.drop_last(), app_name);
    }
}

} // verus!
