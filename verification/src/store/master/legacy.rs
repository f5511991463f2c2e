//! Taking over stored rows: plain rows of this version, and rows of the first
//! version, which kept goals and points by worker and a child's name on each
//! worker.
use super::people::{find_or_create_child_with, named_child};
use super::records::insert_row;
use super::rows::{
    ChildRow, GoalRow, GoalRowView, PointsRowView, SessionRow, WorkerRow, WorkerRowView,
};
use super::selection::child_of;
use super::{
    changed, child_key, goal_key, has_key, lemma_changed_at, lemma_same_keys, lemma_with_row,
    points_key, session_key, with_row, worker_key, MasterDb, MasterTables, StoreError,
};
use super::ledger::award_points;
use crate::calendar::{clock_time, utc_now};
use crate::ids::{fresh_id, random_uuid};
use crate::model::{GoalConfig, PointsEntry, PointsEntryView, WorkerInfoView};
use crate::seqs::{
    first, lemma_first_at, lemma_first_none, lemma_views_push, lemma_views_update, views,
};
use vstd::prelude::*;

verus! {

// ---- Rows of this version ----
/// Takes over a stored child, unless its id is there. Returns whether it is
/// new.
pub fn restore_child(db: &mut MasterDb, row: ChildRow) -> (new: bool)
    requires
        old(db).wf(),
    ensures
        final(db).wf(),
        final(db)@ == (MasterTables {
            children: with_row(old(db)@.children, child_key(), row@),
            ..old(db)@
        }),
        new == !has_key(old(db)@.children, child_key(), row@.id),
{
    let ghost before = db@;
    match db.child_at(row.id.as_str()) {
        Some(i) => {
            assert(child_key()(before.children[i as int]) == row@.id);
            false
        },
        None => {
            proof {
                lemma_with_row(before.children, child_key(), row@);
                lemma_views_push(db.children@, row);
            }
            db.children.push(row);
            true
        },
    }
}

/// Takes over a stored worker, unless its id is there. Returns whether it is
/// new.
pub fn restore_worker(db: &mut MasterDb, row: WorkerRow) -> (new: bool)
    requires
        old(db).wf(),
    ensures
        final(db).wf(),
        final(db)@ == (MasterTables {
            workers: with_row(old(db)@.workers, worker_key(), row@),
            ..old(db)@
        }),
        new == !has_key(old(db)@.workers, worker_key(), row@.info.worker_id),
{
    let ghost before = db@;
    match db.worker_at(row.info.worker_id.as_str()) {
        Some(i) => {
            assert(worker_key()(before.workers[i as int]) == row@.info.worker_id);
            false
        },
        None => {
            proof {
                assert(!has_key(before.workers, worker_key(), row@.info.worker_id));
                lemma_with_row(before.workers, worker_key(), row@);
                lemma_views_push(db.workers@, row);
            }
            db.workers.push(row);
            true
        },
    }
}

/// Takes over a stored session, unless its id is there. Returns whether it is
/// new.
pub fn restore_session(db: &mut MasterDb, row: SessionRow) -> (new: bool)
    requires
        old(db).wf(),
    ensures
        final(db).wf(),
        final(db)@ == (MasterTables {
            sessions: with_row(old(db)@.sessions, session_key(), row@),
            ..old(db)@
        }),
        new == !has_key(old(db)@.sessions, session_key(), row@.session.id),
{
    insert_row(db, row)
}

// ---- Children of the first version ----
/// Whether a worker bears the name of a child but is not linked to one.
pub open spec fn unlinked(w: WorkerRowView) -> bool {
    w.info.child_name is Some && w.info.child_id is None
}

/// The workers to link, with the names that they bear.
pub open spec fn to_link(workers: Seq<WorkerRowView>) -> Seq<(Seq<char>, Seq<char>)>
    decreases workers.len(),
{
    if workers.len() == 0 {
        Seq::empty()
    } else {
        let rest = to_link(workers.drop_last());
        let w = workers.last();
        if unlinked(w) {
            rest.push((w.info.worker_id, w.info.child_name->0))
        } else {
            rest
        }
    }
}

pub open spec fn linked_to(w: WorkerRowView, child_id: Seq<char>) -> WorkerRowView {
    WorkerRowView { info: WorkerInfoView { child_id: Some(child_id), ..w.info }, ..w }
}

pub open spec fn with_link(t: MasterTables, worker_id: Seq<char>, child_id: Seq<char>) -> MasterTables {
    MasterTables {
        workers: changed(
            t.workers,
            worker_key(),
            worker_id,
            |w: WorkerRowView| linked_to(w, child_id),
        ),
        ..t
    }
}

/// Links one worker to the child of a name, which is created with `id` if
/// there is none.
pub open spec fn link_step(
    t: MasterTables,
    worker: (Seq<char>, Seq<char>),
    id: Seq<char>,
    now: i64,
) -> (MasterTables, Result<(), StoreError>) {
    let (found, res) = named_child(t, worker.1, id, now);
    match res {
        Ok(child_id) => (with_link(found, worker.0, child_id), Ok(())),
        Err(e) => (found, Err(e)),
    }
}

/// Links workers one after the other, up to the first failure. `ids[k]` is
/// for a child that worker `k` needs.
pub open spec fn linked(
    t: MasterTables,
    workers: Seq<(Seq<char>, Seq<char>)>,
    ids: Seq<Seq<char>>,
    now: i64,
) -> (MasterTables, Result<(), StoreError>)
    decreases workers.len(),
{
    if workers.len() == 0 {
        (t, Ok(()))
    } else {
        let (before, res) = linked(t, workers.drop_last(), ids, now);
        match res {
            Ok(_) => link_step(before, workers.last(), ids[workers.len() - 1], now),
            Err(e) => (before, Err(e)),
        }
    }
}

fn collect_unlinked(db: &MasterDb) -> (res: Vec<(String, String)>)
    ensures
        views(res@) == to_link(db@.workers),
{
    let ghost workers = db@.workers;
    let mut out: Vec<(String, String)> = Vec::new();
    let mut i: usize = 0;
    proof {
        assert(workers.take(0) =~= Seq::<WorkerRowView>::empty());
        assert(views(out@) =~= Seq::<(Seq<char>, Seq<char>)>::empty());
    }
    while i < db.workers.len()
        invariant
            i <= db.workers.len(),
            workers == db@.workers,
            views(out@) == to_link(workers.take(i as int)),
        decreases db.workers.len() - i,
    {
        proof {
            assert(workers.take(i + 1).drop_last() =~= workers.take(i as int));
            assert(workers.take(i + 1).last() == db.workers@[i as int]@);
        }
        let w = &db.workers[i].info;
        if let (Some(name), None) = (&w.child_name, &w.child_id) {
            let row = (w.worker_id.clone(), name.clone());
            proof {
                lemma_views_push(out@, row);
            }
            out.push(row);
        }
        i += 1;
    }
    assert(workers.take(workers.len() as int) =~= workers);
    out
}

fn link(db: &mut MasterDb, worker_id: &str, child_id: String)
    requires
        old(db).wf(),
    ensures
        final(db).wf(),
        final(db)@ == with_link(old(db)@, worker_id@, child_id@),
{
    let ghost before = db@;
    let ghost f = |w: WorkerRowView| linked_to(w, child_id@);
    match db.worker_at(worker_id) {
        Some(i) => {
            let ghost rows = db.workers@;
            let ghost id = child_id@;
            db.workers[i].info.child_id = Some(child_id);
            proof {
                let row = db.workers@[i as int];
                assert(worker_key()(before.workers[i as int]) == worker_id@);
                lemma_changed_at(before.workers, worker_key(), worker_id@, f, i as int);
                assert(db.workers@ =~= rows.update(i as int, row));
                lemma_views_update(rows, i as int, row);
                assert(row@ == f(before.workers[i as int]));
                lemma_same_keys(
                    before.workers,
                    before.workers.update(i as int, row@),
                    worker_key(),
                );
            }
        },
        None => {
            assert(changed(before.workers, worker_key(), worker_id@, f) =~= before.workers);
        },
    }
}

/// Links every worker that bears a child's name but is linked to none, with
/// ids for the children that have to be created.
pub fn backfill_children_with(db: &mut MasterDb, ids: &Vec<String>, now: i64) -> (res: Result<
    (),
    StoreError,
>)
    requires
        old(db).wf(),
        ids.len() >= to_link(old(db)@.workers).len(),
    ensures
        final(db).wf(),
        (final(db)@, res) == linked(old(db)@, to_link(old(db)@.workers), views(ids@), now),
{
    let ghost before = db@;
    let todo = collect_unlinked(db);
    let ghost all = views(todo@);
    let mut i: usize = 0;
    assert(all.take(0) =~= Seq::<(Seq<char>, Seq<char>)>::empty());
    while i < todo.len()
        invariant
            i <= todo.len(),
            ids.len() >= todo.len(),
            all == views(todo@),
            all == to_link(before.workers),
            before == old(db)@,
            db.wf(),
            (db@, Ok::<(), StoreError>(())) == linked(before, all.take(i as int), views(ids@), now),
        decreases todo.len() - i,
    {
        let ghost at = db@;
        proof {
            assert(all.take(i + 1).drop_last() =~= all.take(i as int));
            assert(all.take(i + 1).last() == todo@[i as int]@);
            assert(all.take(i + 1).len() == i + 1);
        }
        let id = ids[i].clone();
        assert(views(ids@)[i as int] == id@);
        match find_or_create_child_with(db, todo[i].1.as_str(), id, now) {
            Ok(child_id) => {
                link(db, todo[i].0.as_str(), child_id);
                assert((db@, Ok::<(), StoreError>(())) == link_step(
                    at,
                    all[i as int],
                    views(ids@)[i as int],
                    now,
                ));
            },
            Err(e) => {
                proof {
                    assert((db@, Err::<(), StoreError>(e)) == linked(
                        before,
                        all.take(i + 1),
                        views(ids@),
                        now,
                    ));
                    lemma_linked_stops(before, all, views(ids@), now, i + 1, e);
                }
                return Err(e);
            },
        }
        i += 1;
    }
    assert(all.take(all.len() as int) =~= all);
    Ok(())
}

/// A failure ends the linking.
proof fn lemma_linked_stops(
    t: MasterTables,
    workers: Seq<(Seq<char>, Seq<char>)>,
    ids: Seq<Seq<char>>,
    now: i64,
    n: int,
    e: StoreError,
)
    requires
        0 <= n <= workers.len(),
        linked(t, workers.take(n), ids, now).1 == Err::<(), StoreError>(e),
    ensures
        linked(t, workers, ids, now) == linked(t, workers.take(n), ids, now),
    decreases workers.len(),
{
    if n == workers.len() {
        assert(workers.take(n) =~= workers);
    } else {
        assert(workers.drop_last().take(n) =~= workers.take(n));
        lemma_linked_stops(t, workers.drop_last(), ids, now, n, e);
    }
}

/// Links every worker that bears a child's name but is linked to none.
pub fn backfill_children(db: &mut MasterDb) -> (res: Result<(), StoreError>)
    requires
        old(db).wf(),
    ensures
        final(db).wf(),
        to_link(old(db)@.workers).len() == 0 ==> res is Ok && final(db)@ == old(db)@,
        exists|ids: Seq<Seq<char>>, now: i64|
            {
                &&& forall|k: int| 0 <= k < ids.len() ==> random_uuid(#[trigger] ids[k])
                &&& ids.len() == to_link(old(db)@.workers).len()
                &&& clock_time(now)
                &&& (final(db)@, res) == #[trigger] linked(
                    old(db)@,
                    to_link(old(db)@.workers),
                    ids,
                    now,
                )
            },
{
    let n = collect_unlinked(db).len();
    let mut ids: Vec<String> = Vec::new();
    while ids.len() < n
        invariant
            ids.len() <= n,
            forall|k: int| 0 <= k < ids.len() ==> random_uuid(#[trigger] views(ids@)[k]),
        decreases n - ids.len(),
    {
        let id = fresh_id();
        proof {
            lemma_views_push(ids@, id);
        }
        ids.push(id);
    }
    let now = utc_now();
    let res = backfill_children_with(db, &ids, now);
    assert((db@, res) == linked(old(db)@, to_link(old(db)@.workers), views(ids@), now));
    res
}

// ---- Goals and points of the first version ----
/// A goal that was kept by worker.
#[derive(Debug)]
pub struct LegacyGoal {
    pub worker_id: String,
    pub goal: GoalConfig,
}

pub struct LegacyGoalView {
    pub worker_id: Seq<char>,
    pub goal: GoalConfig,
}

impl View for LegacyGoal {
    type V = LegacyGoalView;

    open spec fn view(&self) -> LegacyGoalView {
        LegacyGoalView { worker_id: self.worker_id@, goal: self.goal }
    }
}

/// Points that were kept by worker.
#[derive(Debug)]
pub struct LegacyPoints {
    pub worker_id: String,
    pub entry: PointsEntry,
}

pub struct LegacyPointsView {
    pub worker_id: Seq<char>,
    pub entry: PointsEntryView,
}

impl View for LegacyPoints {
    type V = LegacyPointsView;

    open spec fn view(&self) -> LegacyPointsView {
        LegacyPointsView { worker_id: self.worker_id@, entry: self.entry@ }
    }
}

/// Goals carried over to the children of their workers. A goal that a child
/// has already stays, and one of a worker without a child is dropped.
pub open spec fn carried_goals(t: MasterTables, legacy: Seq<LegacyGoalView>) -> Seq<GoalRowView>
    decreases legacy.len(),
{
    if legacy.len() == 0 {
        t.goals
    } else {
        let goals = carried_goals(t, legacy.drop_last());
        match child_of(t.workers, legacy.last().worker_id) {
            Some(child_id) => with_row(
                goals,
                goal_key(),
                GoalRowView { child_id, goal: legacy.last().goal },
            ),
            None => goals,
        }
    }
}

/// Points carried over to the children of their workers, in the same way.
pub open spec fn carried_points(t: MasterTables, legacy: Seq<LegacyPointsView>) -> Seq<PointsRowView>
    decreases legacy.len(),
{
    if legacy.len() == 0 {
        t.points
    } else {
        let points = carried_points(t, legacy.drop_last());
        match child_of(t.workers, legacy.last().worker_id) {
            Some(child_id) => with_row(
                points,
                points_key(),
                PointsRowView { child_id, entry: legacy.last().entry },
            ),
            None => points,
        }
    }
}

fn child_of_worker(db: &MasterDb, worker_id: &str) -> (res: Option<String>)
    ensures
        crate::seqs::opt_view(res) == child_of(db@.workers, worker_id@),
{
    let ghost p = |w: WorkerRowView| w.info.worker_id == worker_id@;
    match db.worker_at(worker_id) {
        Some(i) => {
            proof {
                lemma_first_at(db@.workers, p, i as int);
            }
            crate::text::clone_opt(&db.workers[i].info.child_id)
        },
        None => {
            proof {
                lemma_first_none(db@.workers, p);
            }
            None
        },
    }
}

/// Carries goals and points that were kept by worker over to the children.
pub fn carry_over(db: &mut MasterDb, goals: &Vec<LegacyGoal>, points: &Vec<LegacyPoints>)
    requires
        old(db).wf(),
    ensures
        final(db).wf(),
        final(db)@ == (MasterTables {
            goals: carried_goals(old(db)@, views(goals@)),
            points: carried_points(old(db)@, views(points@)),
            ..old(db)@
        }),
{
    let ghost before = db@;
    let ghost gs = views(goals@);
    let mut i: usize = 0;
    assert(gs.take(0) =~= Seq::<LegacyGoalView>::empty());
    while i < goals.len()
        invariant
            i <= goals.len(),
            gs == views(goals@),
            before == old(db)@,
            db.wf(),
            db@ == (MasterTables { goals: carried_goals(before, gs.take(i as int)), ..before }),
        decreases goals.len() - i,
    {
        proof {
            assert(gs.take(i + 1).drop_last() =~= gs.take(i as int));
            assert(gs.take(i + 1).last() == goals@[i as int]@);
        }
        if let Some(child_id) = child_of_worker(db, goals[i].worker_id.as_str()) {
            restore_goal(db, GoalRow { child_id, goal: goals[i].goal });
        }
        i += 1;
    }
    assert(gs.take(gs.len() as int) =~= gs);
    let ghost ps = views(points@);
    let mut k: usize = 0;
    assert(ps.take(0) =~= Seq::<LegacyPointsView>::empty());
    while k < points.len()
        invariant
            k <= points.len(),
            ps == views(points@),
            before == old(db)@,
            db.wf(),
            db@ == (MasterTables {
                goals: carried_goals(before, gs),
                points: carried_points(before, ps.take(k as int)),
                ..before
            }),
        decreases points.len() - k,
    {
        proof {
            assert(ps.take(k + 1).drop_last() =~= ps.take(k as int));
            assert(ps.take(k + 1).last() == points@[k as int]@);
        }
        if let Some(child_id) = child_of_worker(db, points[k].worker_id.as_str()) {
            let e = &points[k].entry;
            award_points(
                db,
                child_id.as_str(),
                e.date.as_str(),
                e.points,
                e.reason.as_str(),
            );
        }
        k += 1;
    }
    assert(ps.take(ps.len() as int) =~= ps);
}

/// Takes over a stored goal, unless the child has one. Returns whether it is
/// new.
pub fn restore_goal(db: &mut MasterDb, row: GoalRow) -> (new: bool)
    requires
        old(db).wf(),
    ensures
        final(db).wf(),
        final(db)@ == (MasterTables {
            goals: with_row(old(db)@.goals, goal_key(), row@),
            ..old(db)@
        }),
        new == !has_key(old(db)@.goals, goal_key(), row@.child_id),
{
    let ghost before = db@;
    match db.goal_at(row.child_id.as_str()) {
        Some(i) => {
            assert(goal_key()(before.goals[i as int]) == row@.child_id);
            false
        },
        None => {
            proof {
                assert(!has_key(before.goals, goal_key(), row@.child_id));
                lemma_with_row(before.goals, goal_key(), row@);
                lemma_views_push(db.goals@, row);
            }
            db.goals.push(row);
            true
        },
    }
}

/// Brings rows of the first version up to date: workers are linked to the
/// children whose names they bear, and goals and points move to the children.
pub fn migrate(db: &mut MasterDb, goals: &Vec<LegacyGoal>, points: &Vec<LegacyPoints>) -> (res: Result<
    (),
    StoreError,
>)
    requires
        old(db).wf(),
    ensures
        final(db).wf(),
        exists|ids: Seq<Seq<char>>, now: i64|
            {
                let (t, r) = #[trigger] linked(old(db)@, to_link(old(db)@.workers), ids, now);
                &&& forall|k: int| 0 <= k < ids.len() ==> random_uuid(#[trigger] ids[k])
                &&& ids.len() == to_link(old(db)@.workers).len()
                &&& clock_time(now)
                &&& res == r
                &&& final(db)@ == if r is Ok {
                    MasterTables {
                        goals: carried_goals(t, views(goals@)),
                        points: carried_points(t, views(points@)),
                        ..t
                    }
                } else {
                    t
                }
            },
{
    let res = backfill_children(db);
    if res.is_ok() {
        carry_over(db, goals, points);
    }
    res
}

} // verus!
