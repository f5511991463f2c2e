//! The master's tables. Workers are devices or OS accounts and merge into
//! children; goals, points and every report are per child, across all workers
//! of the child.
use crate::model::{CategoryOverride, OverrideView};
use crate::seqs::{distinct, views};
use crate::text::text_eq;
use vstd::hash_set::StringHashSet;
use vstd::prelude::*;

pub mod grouping;
pub mod laws;
pub mod ledger;
pub mod legacy;
pub mod linking_laws;
pub mod people;
pub mod records;
pub mod reports;
pub mod row_laws;
pub mod rows;
pub mod selection;
pub mod usage_laws;

pub use ledger::{
    award_points, get_goal, list_overrides, points_balance, points_history, set_goal, set_override,
};
pub use people::{
    assign_worker_to_child, child_name, find_or_create_child, find_or_create_child_with, get_worker,
    list_children, list_workers, pending_workers, token_valid, touch_heartbeat, upsert_worker,
    workers_of_child,
};
pub use records::{insert_sessions, recategorize_sessions};
pub use reports::{
    app_breakdown, apps_with_categories, child_summaries, tod_distribution, uncategorized_apps,
    usage_totals, AppCategoryRow,
};
use rows::{
    ChildRow, ChildRowView, GoalRow, GoalRowView, PointsRow, PointsRowView, SessionRow,
    SessionRowView, WorkerRow, WorkerRowView,
};

verus! {

#[derive(Debug, Clone, Copy, PartialEq, Eq, Structural)]
pub enum StoreError {
    /// A total does not fit in 64 bits.
    Overflow,
    /// A new row would have the id of another.
    DuplicateId,
}

// ---- Tables ----
#[verifier::ext_equal]
pub struct MasterTables {
    pub children: Seq<ChildRowView>,
    pub workers: Seq<WorkerRowView>,
    pub sessions: Seq<SessionRowView>,
    pub goals: Seq<GoalRowView>,
    pub points: Seq<PointsRowView>,
    pub overrides: Seq<OverrideView>,
}

pub open spec fn child_key() -> spec_fn(ChildRowView) -> Seq<char> {
    |c: ChildRowView| c.id
}

pub open spec fn worker_key() -> spec_fn(WorkerRowView) -> Seq<char> {
    |w: WorkerRowView| w.info.worker_id
}

pub open spec fn session_key() -> spec_fn(SessionRowView) -> Seq<char> {
    |s: SessionRowView| s.session.id
}

pub open spec fn goal_key() -> spec_fn(GoalRowView) -> Seq<char> {
    |g: GoalRowView| g.child_id
}

/// Points are awarded once for a child, a date and a reason.
pub open spec fn points_key() -> spec_fn(PointsRowView) -> (Seq<char>, Seq<char>, Seq<char>) {
    |p: PointsRowView| (p.child_id, p.entry.date, p.entry.reason)
}

pub open spec fn override_key() -> spec_fn(OverrideView) -> Seq<char> {
    |o: OverrideView| o.app_name
}

impl MasterTables {
    /// Every table has at most one row for a key.
    pub open spec fn wf(self) -> bool {
        &&& distinct(self.children, child_key())
        &&& distinct(self.workers, worker_key())
        &&& distinct(self.sessions, session_key())
        &&& distinct(self.goals, goal_key())
        &&& distinct(self.points, points_key())
        &&& distinct(self.overrides, override_key())
    }

    pub open spec fn empty() -> MasterTables {
        MasterTables {
            children: Seq::empty(),
            workers: Seq::empty(),
            sessions: Seq::empty(),
            goals: Seq::empty(),
            points: Seq::empty(),
            overrides: Seq::empty(),
        }
    }
}

pub open spec fn has_key<T, K>(rows: Seq<T>, key: spec_fn(T) -> K, k: K) -> bool {
    exists|i: int| 0 <= i < rows.len() && key(#[trigger] rows[i]) == k
}

/// A row is added unless one with its key is there.
pub open spec fn with_row<T, K>(rows: Seq<T>, key: spec_fn(T) -> K, row: T) -> Seq<T> {
    if has_key(rows, key, key(row)) {
        rows
    } else {
        rows.push(row)
    }
}

/// Keys stay unique when a row with a new key is added.
pub proof fn lemma_with_row<T, K>(rows: Seq<T>, key: spec_fn(T) -> K, row: T)
    requires
        distinct(rows, key),
    ensures
        distinct(with_row(rows, key, row), key),
{
    let after = with_row(rows, key, row);
    assert forall|i: int, j: int|
        0 <= i < after.len() && 0 <= j < after.len() && i != j implies key(#[trigger] after[i])
        != key(#[trigger] after[j]) by {
        if i < rows.len() && j < rows.len() {
            assert(key(rows[i]) != key(rows[j]));
        } else if i < rows.len() {
            assert(key(rows[i]) != key(row));
        } else {
            assert(key(rows[j]) != key(row));
        }
    }
}

/// Keys stay unique when rows change in place and keep their keys.
pub proof fn lemma_same_keys<T, K>(rows: Seq<T>, after: Seq<T>, key: spec_fn(T) -> K)
    requires
        distinct(rows, key),
        after.len() == rows.len(),
        forall|i: int| 0 <= i < rows.len() ==> key(#[trigger] after[i]) == key(rows[i]),
    ensures
        distinct(after, key),
{
    assert forall|i: int, j: int|
        0 <= i < after.len() && 0 <= j < after.len() && i != j implies key(#[trigger] after[i])
        != key(#[trigger] after[j]) by {
        assert(key(rows[i]) != key(rows[j]));
    }
}

/// The row with a key is changed, the others stay as they are.
pub open spec fn changed<T, K>(
    rows: Seq<T>,
    key: spec_fn(T) -> K,
    k: K,
    f: spec_fn(T) -> T,
) -> Seq<T> {
    Seq::new(
        rows.len(),
        |i: int|
            if key(rows[i]) == k {
                f(rows[i])
            } else {
                rows[i]
            },
    )
}

/// Where keys are unique, changing the row with a key changes one row.
pub proof fn lemma_changed_at<T, K>(
    rows: Seq<T>,
    key: spec_fn(T) -> K,
    k: K,
    f: spec_fn(T) -> T,
    i: int,
)
    requires
        distinct(rows, key),
        0 <= i < rows.len(),
        key(rows[i]) == k,
    ensures
        changed(rows, key, k, f) == rows.update(i, f(rows[i])),
{
    assert forall|j: int| 0 <= j < rows.len() implies #[trigger] changed(rows, key, k, f)[j]
        == rows.update(i, f(rows[i]))[j] by {
        if j != i {
            assert(key(rows[j]) != key(rows[i]));
        }
    }
    assert(changed(rows, key, k, f) =~= rows.update(i, f(rows[i])));
}

pub struct MasterDb {
    children: Vec<ChildRow>,
    workers: Vec<WorkerRow>,
    sessions: Vec<SessionRow>,
    session_ids: StringHashSet,
    goals: Vec<GoalRow>,
    points: Vec<PointsRow>,
    overrides: Vec<CategoryOverride>,
}

impl View for MasterDb {
    type V = MasterTables;

    closed spec fn view(&self) -> MasterTables {
        MasterTables {
            children: views(self.children@),
            workers: views(self.workers@),
            sessions: views(self.sessions@),
            goals: views(self.goals@),
            points: views(self.points@),
            overrides: views(self.overrides@),
        }
    }
}

spec fn ids_of(sessions: Seq<SessionRowView>) -> Set<Seq<char>> {
    Set::new(|id: Seq<char>| has_key(sessions, session_key(), id))
}

impl MasterDb {
    /// The index of session ids agrees with the sessions.
    pub closed spec fn consistent(&self) -> bool {
        self.session_ids@ == ids_of(views(self.sessions@))
    }

    pub open spec fn wf(&self) -> bool {
        self@.wf() && self.consistent()
    }

    /// Empty tables.
    pub fn new() -> (db: Self)
        ensures
            db.wf(),
            db@ == MasterTables::empty(),
    {
        let db = MasterDb {
            children: Vec::new(),
            workers: Vec::new(),
            sessions: Vec::new(),
            session_ids: StringHashSet::new(),
            goals: Vec::new(),
            points: Vec::new(),
            overrides: Vec::new(),
        };
        assert(db@ =~= MasterTables::empty());
        assert(db.session_ids@ =~= ids_of(views(db.sessions@)));
        db
    }

    pub fn child_rows(&self) -> (rows: &Vec<ChildRow>)
        ensures
            views(rows@) == self@.children,
    {
        &self.children
    }

    pub fn worker_rows(&self) -> (rows: &Vec<WorkerRow>)
        ensures
            views(rows@) == self@.workers,
    {
        &self.workers
    }

    pub fn session_rows(&self) -> (rows: &Vec<SessionRow>)
        ensures
            views(rows@) == self@.sessions,
    {
        &self.sessions
    }

    pub fn goal_rows(&self) -> (rows: &Vec<GoalRow>)
        ensures
            views(rows@) == self@.goals,
    {
        &self.goals
    }

    pub fn points_rows(&self) -> (rows: &Vec<PointsRow>)
        ensures
            views(rows@) == self@.points,
    {
        &self.points
    }

    pub fn override_rows(&self) -> (rows: &Vec<CategoryOverride>)
        ensures
            views(rows@) == self@.overrides,
    {
        &self.overrides
    }

    fn child_at(&self, id: &str) -> (res: Option<usize>)
        ensures
            match res {
                Some(i) => i < self.children.len() && self.children@[i as int].id@ == id@,
                None => !has_key(self@.children, child_key(), id@),
            },
    {
        let mut i: usize = 0;
        while i < self.children.len()
            invariant
                i <= self.children.len(),
                forall|j: int| 0 <= j < i ==> (#[trigger] self@.children[j]).id != id@,
            decreases self.children.len() - i,
        {
            if text_eq(self.children[i].id.as_str(), id) {
                return Some(i);
            }
            i += 1;
        }
        None
    }

    fn worker_at(&self, id: &str) -> (res: Option<usize>)
        ensures
            match res {
                Some(i) => {
                    &&& i < self.workers.len()
                    &&& self.workers@[i as int].info.worker_id@ == id@
                    &&& forall|j: int|
                        0 <= j < i ==> (#[trigger] self@.workers[j]).info.worker_id != id@
                },
                None => forall|j: int|
                    0 <= j < self.workers.len() ==> (#[trigger] self@.workers[j]).info.worker_id
                        != id@,
            },
    {
        let mut i: usize = 0;
        while i < self.workers.len()
            invariant
                i <= self.workers.len(),
                forall|j: int| 0 <= j < i ==> (#[trigger] self@.workers[j]).info.worker_id != id@,
            decreases self.workers.len() - i,
        {
            if text_eq(self.workers[i].info.worker_id.as_str(), id) {
                return Some(i);
            }
            i += 1;
        }
        None
    }
}

} // verus!
