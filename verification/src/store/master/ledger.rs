//! Goals and points of children, and the parent's category overrides.
use super::rows::{GoalRow, GoalRowView, PointsRow, PointsRowView};
use super::{
    changed, goal_key, has_key, lemma_changed_at, lemma_same_keys, lemma_with_row, override_key,
    points_key, with_row, MasterDb, MasterTables, StoreError,
};
use crate::model::{
    Category, CategoryOverride, GoalConfig, OverrideView, PointsEntry, PointsEntryView,
};
use crate::seqs::{
    first, lemma_filter_step, lemma_first_at, lemma_first_none, lemma_sum_step, lemma_views_push,
    lemma_views_update, sort, sorted_copy, sum, views,
};
use crate::text::text_eq;
use crate::timeutil::fits_i64;
use vstd::prelude::*;

verus! {

// ---- Goals ----
/// The goal of a child; without a row there is none.
pub open spec fn goal_of(goals: Seq<GoalRowView>, child_id: Seq<char>) -> GoalConfig {
    match first(goals, |g: GoalRowView| g.child_id == child_id) {
        Some(g) => g.goal,
        None => GoalConfig { daily_min: None, weekly_min: None },
    }
}

pub open spec fn with_goal(t: MasterTables, child_id: Seq<char>, goal: GoalConfig) -> MasterTables {
    MasterTables {
        goals: if has_key(t.goals, goal_key(), child_id) {
            changed(t.goals, goal_key(), child_id, |g: GoalRowView| GoalRowView { goal, ..g })
        } else {
            t.goals.push(GoalRowView { child_id, goal })
        },
        ..t
    }
}

impl MasterDb {
    pub(super) fn goal_at(&self, child_id: &str) -> (res: Option<usize>)
        ensures
            match res {
                Some(i) => {
                    &&& i < self.goals.len()
                    &&& self@.goals[i as int].child_id == child_id@
                    &&& forall|j: int| 0 <= j < i ==> (#[trigger] self@.goals[j]).child_id != child_id@
                },
                None => forall|j: int|
                    0 <= j < self.goals.len() ==> (#[trigger] self@.goals[j]).child_id != child_id@,
            },
    {
        let mut i: usize = 0;
        while i < self.goals.len()
            invariant
                i <= self.goals.len(),
                forall|j: int| 0 <= j < i ==> (#[trigger] self@.goals[j]).child_id != child_id@,
            decreases self.goals.len() - i,
        {
            if text_eq(self.goals[i].child_id.as_str(), child_id) {
                return Some(i);
            }
            i += 1;
        }
        None
    }

    fn override_at(&self, app_name: &str) -> (res: Option<usize>)
        ensures
            match res {
                Some(i) => i < self.overrides.len() && self@.overrides[i as int].app_name
                    == app_name@,
                None => forall|j: int|
                    0 <= j < self.overrides.len() ==> (#[trigger] self@.overrides[j]).app_name
                        != app_name@,
            },
    {
        let mut i: usize = 0;
        while i < self.overrides.len()
            invariant
                i <= self.overrides.len(),
                forall|j: int| 0 <= j < i ==> (#[trigger] self@.overrides[j]).app_name != app_name@,
            decreases self.overrides.len() - i,
        {
            if text_eq(self.overrides[i].app_name.as_str(), app_name) {
                return Some(i);
            }
            i += 1;
        }
        None
    }
}

/// Sets the goal of a child, or replaces it.
pub fn set_goal(
    db: &mut MasterDb,
    child_id: &str,
    daily_min: Option<u32>,
    weekly_min: Option<u32>,
)
    requires
        old(db).wf(),
    ensures
        final(db).wf(),
        final(db)@ == with_goal(old(db)@, child_id@, (GoalConfig { daily_min, weekly_min })),
{
    let ghost before = db@;
    let goal = GoalConfig { daily_min, weekly_min };
    match db.goal_at(child_id) {
        Some(i) => {
            let ghost rows = db.goals@;
            let ghost f = |g: GoalRowView| GoalRowView { goal, ..g };
            db.goals[i].goal = goal;
            proof {
                let row = db.goals@[i as int];
                assert(goal_key()(before.goals[i as int]) == child_id@);
                lemma_changed_at(before.goals, goal_key(), child_id@, f, i as int);
                assert(db.goals@ =~= rows.update(i as int, row));
                lemma_views_update(rows, i as int, row);
                lemma_same_keys(before.goals, before.goals.update(i as int, row@), goal_key());
            }
        },
        None => {
            let row = GoalRow { child_id: child_id.to_owned(), goal };
            proof {
                assert(!has_key(before.goals, goal_key(), child_id@));
                lemma_with_row(before.goals, goal_key(), row@);
                lemma_views_push(db.goals@, row);
            }
            db.goals.push(row);
        },
    }
}

pub fn get_goal(db: &MasterDb, child_id: &str) -> (goal: GoalConfig)
    ensures
        goal == goal_of(db@.goals, child_id@),
{
    let ghost p = |g: GoalRowView| g.child_id == child_id@;
    match db.goal_at(child_id) {
        Some(i) => {
            proof {
                lemma_first_at(db@.goals, p, i as int);
            }
            db.goals[i].goal
        },
        None => {
            proof {
                lemma_first_none(db@.goals, p);
            }
            GoalConfig { daily_min: None, weekly_min: None }
        },
    }
}

// ---- Points ----
pub open spec fn with_points(t: MasterTables, row: PointsRowView) -> MasterTables {
    MasterTables { points: with_row(t.points, points_key(), row), ..t }
}

pub open spec fn award(
    child_id: Seq<char>,
    date: Seq<char>,
    points: i64,
    reason: Seq<char>,
) -> PointsRowView {
    PointsRowView { child_id, entry: PointsEntryView { date, points, reason } }
}

/// Awards points once for a child, a date and a reason. Returns whether they
/// are new.
pub fn award_points(db: &mut MasterDb, child_id: &str, date: &str, points: i64, reason: &str) -> (new:
    bool)
    requires
        old(db).wf(),
    ensures
        final(db).wf(),
        final(db)@ == with_points(old(db)@, award(child_id@, date@, points, reason@)),
        new == !has_key(old(db)@.points, points_key(), (child_id@, date@, reason@)),
{
    let ghost before = db@;
    let ghost k = (child_id@, date@, reason@);
    let mut i: usize = 0;
    while i < db.points.len()
        invariant
            i <= db.points.len(),
            db@ == before,
            db.wf(),
            k == (child_id@, date@, reason@),
            forall|j: int| 0 <= j < i ==> points_key()(#[trigger] before.points[j]) != k,
        decreases db.points.len() - i,
    {
        let row = &db.points[i];
        assert(before.points[i as int] == row@);
        if text_eq(row.child_id.as_str(), child_id) && text_eq(row.entry.date.as_str(), date)
            && text_eq(row.entry.reason.as_str(), reason) {
            assert(points_key()(before.points[i as int]) == k);
            return false;
        }
        i += 1;
    }
    let row = PointsRow {
        child_id: child_id.to_owned(),
        entry: PointsEntry { date: date.to_owned(), points, reason: reason.to_owned() },
    };
    proof {
        assert(row@ == award(child_id@, date@, points, reason@));
        assert(points_key()(row@) == k);
        lemma_with_row(before.points, points_key(), row@);
        lemma_views_push(db.points@, row);
    }
    db.points.push(row);
    true
}

/// The points of one row that count for a child.
pub open spec fn points_for(child_id: Seq<char>) -> spec_fn(PointsRowView) -> int {
    |p: PointsRowView|
        if p.child_id == child_id {
            p.entry.points as int
        } else {
            0
        }
}

pub open spec fn balance(points: Seq<PointsRowView>, child_id: Seq<char>) -> int {
    sum(points, points_for(child_id))
}

/// The sum of all points of a child.
pub fn points_balance(db: &MasterDb, child_id: &str) -> (res: Result<i64, StoreError>)
    ensures
        match res {
            Ok(n) => n == balance(db@.points, child_id@),
            Err(e) => e == StoreError::Overflow && !fits_i64(balance(db@.points, child_id@)),
        },
{
    let ghost f = points_for(child_id@);
    let mut total: i128 = 0;
    let mut i: usize = 0;
    assert(db@.points.take(0) =~= Seq::<PointsRowView>::empty());
    while i < db.points.len()
        invariant
            i <= db.points.len(),
            f == points_for(child_id@),
            total == sum(db@.points.take(i as int), f),
            -(i * 0x8000_0000_0000_0000) <= total <= i * 0x8000_0000_0000_0000,
        decreases db.points.len() - i,
    {
        proof {
            lemma_sum_step(db@.points, f, i as int);
        }
        let row = &db.points[i];
        assert(db@.points[i as int] == row@);
        if text_eq(row.child_id.as_str(), child_id) {
            total = total + row.entry.points as i128;
        }
        i += 1;
    }
    assert(db@.points.take(db@.points.len() as int) =~= db@.points);
    if (i64::MIN as i128) <= total && total <= (i64::MAX as i128) {
        Ok(total as i64)
    } else {
        Err(StoreError::Overflow)
    }
}

pub open spec fn entries_of(points: Seq<PointsRowView>, child_id: Seq<char>) -> Seq<PointsEntryView> {
    points.filter(|p: PointsRowView| p.child_id == child_id).map_values(|p: PointsRowView| p.entry)
}

/// The points of a child, latest date first.
pub fn points_history(db: &MasterDb, child_id: &str) -> (res: Vec<PointsEntry>)
    ensures
        sorted_copy::<PointsEntry>(views(res@), entries_of(db@.points, child_id@)),
{
    let ghost p = |p: PointsRowView| p.child_id == child_id@;
    let ghost entry = |p: PointsRowView| p.entry;
    let mut out: Vec<PointsEntry> = Vec::new();
    let mut i: usize = 0;
    proof {
        reveal(Seq::filter);
        assert(views(out@) =~= db@.points.take(0).filter(p).map_values(entry));
    }
    while i < db.points.len()
        invariant
            i <= db.points.len(),
            p == (|p: PointsRowView| p.child_id == child_id@),
            entry == (|p: PointsRowView| p.entry),
            views(out@) == db@.points.take(i as int).filter(p).map_values(entry),
        decreases db.points.len() - i,
    {
        proof {
            lemma_filter_step(db@.points, p, i as int);
        }
        let row = &db.points[i];
        assert(db@.points[i as int] == row@);
        if text_eq(row.child_id.as_str(), child_id) {
            let e = PointsEntry {
                date: row.entry.date.clone(),
                points: row.entry.points,
                reason: row.entry.reason.clone(),
            };
            proof {
                lemma_views_push(out@, e);
                let kept = db@.points.take(i as int).filter(p);
                assert(kept.push(row@).map_values(entry) =~= kept.map_values(entry).push(e@));
            }
            out.push(e);
        }
        i += 1;
    }
    assert(db@.points.take(db@.points.len() as int) =~= db@.points);
    sort(out)
}

// ---- Overrides ----
pub open spec fn with_override(t: MasterTables, app_name: Seq<char>, category: Category) -> MasterTables {
    MasterTables {
        overrides: if has_key(t.overrides, override_key(), app_name) {
            changed(
                t.overrides,
                override_key(),
                app_name,
                |o: OverrideView| OverrideView { category, ..o },
            )
        } else {
            t.overrides.push(OverrideView { app_name, category })
        },
        ..t
    }
}

/// Sets the parent's category for an application, or replaces it.
pub fn set_override(db: &mut MasterDb, app_name: &str, category: Category)
    requires
        old(db).wf(),
    ensures
        final(db).wf(),
        final(db)@ == with_override(old(db)@, app_name@, category),
{
    let ghost before = db@;
    match db.override_at(app_name) {
        Some(i) => {
            let ghost rows = db.overrides@;
            let ghost f = |o: OverrideView| OverrideView { category, ..o };
            db.overrides[i].category = category;
            proof {
                let row = db.overrides@[i as int];
                assert(override_key()(before.overrides[i as int]) == app_name@);
                lemma_changed_at(before.overrides, override_key(), app_name@, f, i as int);
                assert(db.overrides@ =~= rows.update(i as int, row));
                lemma_views_update(rows, i as int, row);
                lemma_same_keys(
                    before.overrides,
                    before.overrides.update(i as int, row@),
                    override_key(),
                );
            }
        },
        None => {
            let row = CategoryOverride { app_name: app_name.to_owned(), category };
            proof {
                assert(!has_key(before.overrides, override_key(), app_name@));
                lemma_with_row(before.overrides, override_key(), row@);
                lemma_views_push(db.overrides@, row);
            }
            db.overrides.push(row);
        },
    }
}

/// All overrides, by application name.
pub fn list_overrides(db: &MasterDb) -> (res: Vec<CategoryOverride>)
    ensures
        sorted_copy::<CategoryOverride>(views(res@), db@.overrides),
{
    let mut out: Vec<CategoryOverride> = Vec::new();
    let mut i: usize = 0;
    while i < db.overrides.len()
        invariant
            i <= db.overrides.len(),
            out@ == db.overrides@.take(i as int),
        decreases db.overrides.len() - i,
    {
        out.push(db.overrides[i].clone());
        i += 1;
    }
    assert(out@ =~= db.overrides@);
    sort(out)
}

} // verus!
