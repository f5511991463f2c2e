//! What bringing old rows up to date does, from the rows before to the rows
//! after.
use super::{goal_key, has_key, points_key, worker_key, MasterDb, MasterTables, StoreError};
use super::laws::{lemma_linked, migration_links_everyone};
use super::legacy::{
    backfill_children, backfill_children_with, carry_over, link_step, linked, migrate, to_link,
    unlinked, LegacyGoal, LegacyPoints,
};
use super::people::named_child;
use super::row_laws::{
    linking_keeps_the_rest, name_finds_or_makes_a_child, old_goals_move_to_children,
    old_points_move_to_children, unlinked_workers_are_linked,
};
use super::rows::SessionRowView;
use super::selection::child_of;
use super::usage_laws::lemma_owned;
use crate::model::{Category, SessionView};
use crate::seqs::views;
use crate::text::ascii_fold;
use vstd::prelude::*;

verus! {

/// Worker `i` is linked to child `k`, which bears the name.
pub open spec fn linked_by_name(t: MasterTables, i: int, name: Seq<char>, k: int) -> bool {
    &&& 0 <= k < t.children.len()
    &&& t.workers[i].info.child_id == Some(t.children[k].id)
    &&& ascii_fold(t.children[k].name) == ascii_fold(name)
}

/// A worker on the list is linked to a child of a name that is listed for it.
proof fn lemma_linked_by_name(
    t: MasterTables,
    todo: Seq<(Seq<char>, Seq<char>)>,
    ids: Seq<Seq<char>>,
    now: i64,
    i: int,
) -> (res: (int, int))
    requires
        linked(t, todo, ids, now).1 is Ok,
        0 <= i < t.workers.len(),
        exists|j: int|
            0 <= j < todo.len() && (#[trigger] todo[j]).0 == t.workers[i].info.worker_id,
    ensures
        0 <= res.0 < todo.len(),
        todo[res.0].0 == t.workers[i].info.worker_id,
        linked_by_name(linked(t, todo, ids, now).0, i, todo[res.0].1, res.1),
    decreases todo.len(),
{
    let rest = todo.drop_last();
    let mid = linked(t, rest, ids, now).0;
    let n = todo.len() - 1;
    let after = linked(t, todo, ids, now).0;
    assert(linked(t, rest, ids, now).1 is Ok);
    lemma_linked(t, rest, ids, now);
    assert(mid.workers[i].info.worker_id == t.workers[i].info.worker_id);
    let (found, child) = named_child(mid, todo[n].1, ids[n], now);
    name_finds_or_makes_a_child(mid, todo[n].1, ids[n], now);
    assert((after, Ok::<(), StoreError>(())) == link_step(mid, todo[n], ids[n], now));
    assert(found.workers == mid.workers && after.children == found.children);
    if todo[n].0 == t.workers[i].info.worker_id {
        assert(worker_key()(found.workers[i]) == todo[n].0);
        if exists|k: int|
            0 <= k < mid.children.len() && ascii_fold((#[trigger] mid.children[k]).name)
                == ascii_fold(todo[n].1) {
            let k = choose|k: int|
                0 <= k < mid.children.len() && (#[trigger] mid.children[k]).id == child->Ok_0
                    && ascii_fold(mid.children[k].name) == ascii_fold(todo[n].1);
            (n, k)
        } else {
            (n, mid.children.len() as int)
        }
    } else {
        let j = choose|j: int|
            0 <= j < todo.len() && (#[trigger] todo[j]).0 == t.workers[i].info.worker_id;
        assert(rest[j].0 == t.workers[i].info.worker_id);
        let (m, k) = lemma_linked_by_name(t, rest, ids, now, i);
        assert(worker_key()(found.workers[i]) != todo[n].0);
        assert(after.workers[i] == mid.workers[i]);
        assert(after.children[k] == mid.children[k]);
        assert(rest[m] == todo[m]);
        (m, k)
    }
}

/// Linking gives every worker that bears a child's name but has no child a
/// child of that name, up to case, and leaves the other workers as they are.
pub proof fn workers_are_linked_by_name(t: MasterTables, ids: Seq<Seq<char>>, now: i64, i: int)
    requires
        t.wf(),
        linked(t, to_link(t.workers), ids, now).1 is Ok,
        0 <= i < t.workers.len(),
    ensures
        ({
            let after = linked(t, to_link(t.workers), ids, now).0;
            let w = t.workers[i].info;
            &&& after.workers.len() == t.workers.len()
            &&& w.child_name is None || w.child_id is Some ==> after.workers[i] == t.workers[i]
            &&& w.child_name matches Some(name) ==> (w.child_id is None ==> exists|k: int|
                linked_by_name(after, i, name, k))
            &&& after.workers[i].token == t.workers[i].token
            &&& after.workers[i].info.approved == w.approved
        }),
{
    let todo = to_link(t.workers);
    let after = linked(t, todo, ids, now).0;
    migration_links_everyone(t, ids, now);
    assert(super::laws::same_but_child(t.workers[i], after.workers[i]));
    if unlinked(t.workers[i]) {
        let (id, name) = (t.workers[i].info.worker_id, t.workers[i].info.child_name->0);
        unlinked_workers_are_linked(t.workers, id, name);
        let j = choose|j: int| 0 <= j < todo.len() && todo[j] == (id, name);
        assert(todo[j].0 == id);
        let (m, k) = lemma_linked_by_name(t, todo, ids, now, i);
        assert(todo.contains(todo[m]));
        assert(todo[m] == (id, todo[m].1));
        unlinked_workers_are_linked(t.workers, id, todo[m].1);
        let r = choose|r: int|
            0 <= r < t.workers.len() && (#[trigger] t.workers[r]).info.worker_id == id
                && t.workers[r].info.child_name == Some(todo[m].1) && t.workers[r].info.child_id is None;
        if r != i {
            assert(worker_key()(t.workers[r]) != worker_key()(t.workers[i]));
        }
        assert(linked_by_name(after, i, name, k));
    }
}

/// The id of a child that was there, or one of the first `n` new ones.
spec fn old_or_new(t: MasterTables, ids: Seq<Seq<char>>, n: int, id: Seq<char>) -> bool {
    ||| exists|c: int| 0 <= c < t.children.len() && (#[trigger] t.children[c]).id == id
    ||| exists|k: int| 0 <= k < n && #[trigger] ids[k] == id
}

proof fn lemma_ids_are_old_or_new(
    t: MasterTables,
    todo: Seq<(Seq<char>, Seq<char>)>,
    ids: Seq<Seq<char>>,
    now: i64,
)
    requires
        ids.len() >= todo.len(),
        ids.no_duplicates(),
        forall|k: int, c: int|
            0 <= k < ids.len() && 0 <= c < t.children.len() ==> #[trigger] ids[k] != (
            #[trigger] t.children[c]).id,
    ensures
        linked(t, todo, ids, now).1 is Ok,
        forall|c: int|
            0 <= c < linked(t, todo, ids, now).0.children.len() ==> old_or_new(
                t,
                ids,
                todo.len() as int,
                (#[trigger] linked(t, todo, ids, now).0.children[c]).id,
            ),
    decreases todo.len(),
{
    let after = linked(t, todo, ids, now).0;
    if todo.len() > 0 {
        let rest = todo.drop_last();
        let n = todo.len() - 1;
        let mid = linked(t, rest, ids, now).0;
        lemma_ids_are_old_or_new(t, rest, ids, now);
        name_finds_or_makes_a_child(mid, todo[n].1, ids[n], now);
        assert forall|c: int| 0 <= c < mid.children.len() implies (#[trigger] mid.children[c]).id
            != ids[n] by {
            assert(old_or_new(t, ids, n, mid.children[c].id));
        }
        let found = named_child(mid, todo[n].1, ids[n], now).0;
        assert((after, Ok::<(), StoreError>(())) == link_step(mid, todo[n], ids[n], now));
        assert(after.children == found.children);
        assert forall|c: int| 0 <= c < after.children.len() implies old_or_new(
            t,
            ids,
            n + 1,
            (#[trigger] after.children[c]).id,
        ) by {
            if c < mid.children.len() {
                assert(old_or_new(t, ids, n, mid.children[c].id));
            } else {
                assert(after.children[c].id == ids[n]);
            }
        }
    }
}

/// Linking succeeds if the new ids differ from each other and from those of
/// the children that are there.
pub proof fn linking_succeeds_with_new_ids(
    t: MasterTables,
    todo: Seq<(Seq<char>, Seq<char>)>,
    ids: Seq<Seq<char>>,
    now: i64,
)
    requires
        ids.len() >= todo.len(),
        ids.no_duplicates(),
        forall|k: int, c: int|
            0 <= k < ids.len() && 0 <= c < t.children.len() ==> #[trigger] ids[k] != (
            #[trigger] t.children[c]).id,
    ensures
        linked(t, todo, ids, now).1 is Ok,
{
    lemma_ids_are_old_or_new(t, todo, ids, now);
}

/// The call that links workers with given ids: it gives every worker that
/// bears a child's name a child of that name, and fails only for want of new
/// ids.
pub proof fn backfill_links_by_name(
    db: &mut MasterDb,
    ids: &Vec<String>,
    now: i64,
    res: Result<(), StoreError>,
    i: int,
    name: Seq<char>,
)
    requires
        old(db).wf(),
        ids.len() >= to_link(old(db)@.workers).len(),
        call_ensures(backfill_children_with, (db, ids, now), res),
        0 <= i < old(db)@.workers.len(),
    ensures
        ({
            let before = old(db)@.workers[i];
            let after = final(db)@.workers[i];
            &&& res is Ok && before.info.child_name == Some(name) && before.info.child_id is None
                ==> exists|k: int| linked_by_name(final(db)@, i, name, k)
            &&& res is Ok && (before.info.child_name is None || before.info.child_id is Some)
                ==> after == before
            &&& old(db)@.children.is_prefix_of(final(db)@.children)
            &&& final(db)@.sessions == old(db)@.sessions && final(db)@.goals == old(db)@.goals
                && final(db)@.points == old(db)@.points && final(db)@.overrides
                == old(db)@.overrides
            &&& views(ids@).no_duplicates() && (forall|k: int, c: int|
                0 <= k < ids@.len() && 0 <= c < old(db)@.children.len() ==> #[trigger] views(
                    ids@,
                )[k] != (#[trigger] old(db)@.children[c]).id) ==> res is Ok
        }),
{
    let t = old(db)@;
    let todo = to_link(t.workers);
    linking_keeps_the_rest(t, todo, views(ids@), now);
    if res is Ok {
        workers_are_linked_by_name(t, views(ids@), now, i);
    }
    if views(ids@).no_duplicates() && (forall|k: int, c: int|
        0 <= k < ids@.len() && 0 <= c < t.children.len() ==> #[trigger] views(ids@)[k] != (
        #[trigger] t.children[c]).id) {
        linking_succeeds_with_new_ids(t, todo, views(ids@), now);
    }
}

/// The call that links workers with ids of its own does the same.
pub proof fn fresh_backfill_links_by_name(
    db: &mut MasterDb,
    res: Result<(), StoreError>,
    i: int,
    name: Seq<char>,
)
    requires
        old(db).wf(),
        call_ensures(backfill_children, (db,), res),
        0 <= i < old(db)@.workers.len(),
    ensures
        ({
            let before = old(db)@.workers[i];
            let after = final(db)@.workers[i];
            &&& res is Ok && before.info.child_name == Some(name) && before.info.child_id is None
                ==> exists|k: int| linked_by_name(final(db)@, i, name, k)
            &&& res is Ok && (before.info.child_name is None || before.info.child_id is Some)
                ==> after == before
            &&& old(db)@.children.is_prefix_of(final(db)@.children)
            &&& final(db)@.sessions == old(db)@.sessions && final(db)@.goals == old(db)@.goals
                && final(db)@.points == old(db)@.points && final(db)@.overrides
                == old(db)@.overrides
        }),
{
    let t = old(db)@;
    let todo = to_link(t.workers);
    let (ids, now) = choose|ids: Seq<Seq<char>>, now: i64|
        (final(db)@, res) == #[trigger] linked(t, todo, ids, now);
    linking_keeps_the_rest(t, todo, ids, now);
    if res is Ok {
        workers_are_linked_by_name(t, ids, now, i);
    }
}

/// A worker of this id is assigned to the child.
pub open spec fn assigned_to(t: MasterTables, worker_id: Seq<char>, child_id: Seq<char>) -> bool {
    exists|i: int|
        0 <= i < t.workers.len() && (#[trigger] t.workers[i]).info.worker_id == worker_id
            && t.workers[i].info.child_id == Some(child_id)
}

/// Where ids are unique, `child_of` is what the worker's row says.
proof fn lemma_child_of(t: MasterTables, worker_id: Seq<char>, child_id: Seq<char>)
    requires
        t.wf(),
    ensures
        child_of(t.workers, worker_id) == Some(child_id) <==> assigned_to(t, worker_id, child_id),
{
    let r = SessionRowView {
        worker_id,
        session: SessionView {
            id: worker_id,
            app_name: worker_id,
            window_title: worker_id,
            category: Category::Other,
            start_ts: 0,
            end_ts: 0,
            duration_s: 0,
        },
    };
    lemma_owned(t, r, child_id);
}

/// Old goals and points move to the children of their workers: what a child
/// has stays, every old goal and every old entry of a worker with a child is
/// there afterwards for the child, and nothing else is added.
pub proof fn old_rows_move_to_children(
    db: &mut MasterDb,
    goals: &Vec<LegacyGoal>,
    points: &Vec<LegacyPoints>,
    child_id: Seq<char>,
    k: int,
    i: int,
)
    requires
        old(db).wf(),
        call_ensures(carry_over, (db, goals, points), ()),
    ensures
        ({
            let before = old(db)@;
            let after = final(db)@;
            &&& after.children == before.children && after.workers == before.workers
                && after.sessions == before.sessions && after.overrides == before.overrides
            &&& before.goals.is_prefix_of(after.goals) && before.points.is_prefix_of(after.points)
            &&& 0 <= k < goals@.len() && assigned_to(before, goals@[k].worker_id@, child_id)
                ==> exists|g: int|
                0 <= g < after.goals.len() && (#[trigger] after.goals[g]).child_id == child_id
            &&& 0 <= k < points@.len() && assigned_to(before, points@[k].worker_id@, child_id)
                ==> exists|p: int|
                0 <= p < after.points.len() && (#[trigger] after.points[p]).child_id == child_id
                    && after.points[p].entry.date == points@[k].entry.date@
                    && after.points[p].entry.reason == points@[k].entry.reason@
            &&& before.goals.len() <= i < after.goals.len() ==> exists|g: int|
                0 <= g < goals@.len() && assigned_to(
                    before,
                    (#[trigger] goals@[g]).worker_id@,
                    after.goals[i].child_id,
                ) && after.goals[i].goal == goals@[g].goal
            &&& before.points.len() <= i < after.points.len() ==> exists|p: int|
                0 <= p < points@.len() && assigned_to(
                    before,
                    (#[trigger] points@[p]).worker_id@,
                    after.points[i].child_id,
                ) && after.points[i].entry == points@[p].entry@
        }),
{
    let t = old(db)@;
    let after = final(db)@;
    let (gs, ps) = (views(goals@), views(points@));
    old_goals_move_to_children(t, gs);
    old_points_move_to_children(t, ps);
    if 0 <= k < goals@.len() && assigned_to(t, goals@[k].worker_id@, child_id) {
        lemma_child_of(t, goals@[k].worker_id@, child_id);
        assert(gs[k].worker_id == goals@[k].worker_id@);
        assert(has_key(after.goals, goal_key(), child_id));
        let g = choose|g: int|
            0 <= g < after.goals.len() && goal_key()(#[trigger] after.goals[g]) == child_id;
        assert(after.goals[g].child_id == child_id);
    }
    if 0 <= k < points@.len() && assigned_to(t, points@[k].worker_id@, child_id) {
        lemma_child_of(t, points@[k].worker_id@, child_id);
        let entry = points@[k].entry@;
        assert(ps[k].worker_id == points@[k].worker_id@);
        assert(has_key(after.points, points_key(), (child_id, entry.date, entry.reason)));
        let p = choose|p: int|
            0 <= p < after.points.len() && points_key()(#[trigger] after.points[p]) == (
                child_id,
                entry.date,
                entry.reason,
            );
        assert(after.points[p].child_id == child_id);
    }
    if t.goals.len() <= i < after.goals.len() {
        let c = after.goals[i].child_id;
        let g = choose|g: int| #[trigger]
            super::row_laws::first_legacy_goal(t, gs, c, g) && after.goals[i].goal == gs[g].goal;
        lemma_child_of(t, gs[g].worker_id, c);
        assert(goals@[g].worker_id@ == gs[g].worker_id);
    }
    if t.points.len() <= i < after.points.len() {
        let c = after.points[i].child_id;
        let p = choose|p: int|
            0 <= p < ps.len() && child_of(t.workers, (#[trigger] ps[p]).worker_id) == Some(c)
                && after.points[i].entry == ps[p].entry;
        lemma_child_of(t, ps[p].worker_id, c);
        assert(points@[p].worker_id@ == ps[p].worker_id);
    }
}

/// Bringing old rows up to date links every worker that bears a child's name
/// to a child of that name, and what a worker had goes to the child it is
/// linked to then.
pub proof fn migration_links_and_moves(
    db: &mut MasterDb,
    goals: &Vec<LegacyGoal>,
    points: &Vec<LegacyPoints>,
    res: Result<(), StoreError>,
    i: int,
    name: Seq<char>,
    child_id: Seq<char>,
    k: int,
)
    requires
        old(db).wf(),
        call_ensures(migrate, (db, goals, points), res),
        res is Ok,
    ensures
        ({
            let before = old(db)@;
            let after = final(db)@;
            &&& after.sessions == before.sessions && after.overrides == before.overrides
            &&& before.children.is_prefix_of(after.children)
            &&& before.goals.is_prefix_of(after.goals) && before.points.is_prefix_of(after.points)
            &&& after.workers.len() == before.workers.len()
            &&& 0 <= i < before.workers.len() && before.workers[i].info.child_name == Some(name)
                && before.workers[i].info.child_id is None ==> exists|c: int|
                linked_by_name(after, i, name, c)
            &&& 0 <= i < before.workers.len() && (before.workers[i].info.child_name is None
                || before.workers[i].info.child_id is Some) ==> after.workers[i]
                == before.workers[i]
            &&& 0 <= k < goals@.len() && assigned_to(after, goals@[k].worker_id@, child_id)
                ==> exists|g: int|
                0 <= g < after.goals.len() && (#[trigger] after.goals[g]).child_id == child_id
            &&& 0 <= k < points@.len() && assigned_to(after, points@[k].worker_id@, child_id)
                ==> exists|p: int|
                0 <= p < after.points.len() && (#[trigger] after.points[p]).child_id == child_id
                    && after.points[p].entry.date == points@[k].entry.date@
                    && after.points[p].entry.reason == points@[k].entry.reason@
        }),
{
    let t = old(db)@;
    let after = final(db)@;
    let todo = to_link(t.workers);
    let (gs, ps) = (views(goals@), views(points@));
    let (ids, now) = choose|ids: Seq<Seq<char>>, now: i64|
        {
            let (m, r) = #[trigger] linked(t, todo, ids, now);
            r == res && after == if r is Ok {
                MasterTables {
                    goals: super::legacy::carried_goals(m, gs),
                    points: super::legacy::carried_points(m, ps),
                    ..m
                }
            } else {
                m
            }
        };
    let m = linked(t, todo, ids, now).0;
    linking_keeps_the_rest(t, todo, ids, now);
    lemma_linked(t, todo, ids, now);
    if 0 <= i < t.workers.len() {
        workers_are_linked_by_name(t, ids, now, i);
        if t.workers[i].info.child_name == Some(name) && t.workers[i].info.child_id is None {
            let c = choose|c: int| linked_by_name(m, i, name, c);
            assert(linked_by_name(after, i, name, c));
        }
    }
    old_goals_move_to_children(m, gs);
    old_points_move_to_children(m, ps);
    if 0 <= k < goals@.len() && assigned_to(after, goals@[k].worker_id@, child_id) {
        lemma_child_of(after, goals@[k].worker_id@, child_id);
        assert(gs[k].worker_id == goals@[k].worker_id@);
        assert(has_key(after.goals, goal_key(), child_id));
        let g = choose|g: int|
            0 <= g < after.goals.len() && goal_key()(#[trigger] after.goals[g]) == child_id;
        assert(after.goals[g].child_id == child_id);
    }
    if 0 <= k < points@.len() && assigned_to(after, points@[k].worker_id@, child_id) {
        lemma_child_of(after, points@[k].worker_id@, child_id);
        let entry = points@[k].entry@;
        assert(ps[k].worker_id == points@[k].worker_id@);
        assert(has_key(after.points, points_key(), (child_id, entry.date, entry.reason)));
        let p = choose|p: int|
            0 <= p < after.points.len() && points_key()(#[trigger] after.points[p]) == (
                child_id,
                entry.date,
                entry.reason,
            );
        assert(after.points[p].child_id == child_id);
    }
}

} // verus!
