//! Selections of stored sessions, oldest first, and what holds of lists and
//! groups that were made from one.
use super::grouping::{
    grouped, has_group, is_first, is_last, sums_up, weight_for, EntryView, GroupView,
};
use super::people::worker_row;
use super::rows::{SessionRowView, WorkerRowView};
use super::{MasterDb, MasterTables};
use crate::model::{Category, SessionRecord, SessionView};
use crate::seqs::{
    lemma_filter_contains, lemma_filter_step, lemma_first_at, lemma_first_none,
    lemma_permuted_contains, lemma_sum_filter_map, lemma_sum_map, lemma_sum_permuted,
    lemma_views_push, sort, sorted_copy, sum, views,
};
use crate::text::text_eq;
use crate::timeutil::overlap;
use vstd::prelude::*;

verus! {

/// The child that a worker is assigned to.
pub open spec fn child_of(workers: Seq<WorkerRowView>, worker_id: Seq<char>) -> Option<Seq<char>> {
    match worker_row(workers, worker_id) {
        Some(w) => w.info.child_id,
        None => None,
    }
}

/// The sessions of a child, on all of its workers.
pub open spec fn owned(t: MasterTables, child_id: Seq<char>) -> spec_fn(SessionRowView) -> bool {
    |r: SessionRowView| child_of(t.workers, r.worker_id) == Some(child_id)
}

/// The sessions of a child that lie in `[from, to)`, with a part of them at
/// least.
pub open spec fn in_range(t: MasterTables, child_id: Seq<char>, from: int, to: int) -> spec_fn(
    SessionRowView,
) -> bool {
    |r: SessionRowView|
        owned(t, child_id)(r) && r.session.end_ts > from && r.session.start_ts < to
}

/// The sessions of a child that have no category of their own.
pub open spec fn uncategorized(t: MasterTables, child_id: Seq<char>) -> spec_fn(
    SessionRowView,
) -> bool {
    |r: SessionRowView| owned(t, child_id)(r) && r.session.category == Category::Other
}

pub open spec fn the_session() -> spec_fn(SessionRowView) -> SessionView {
    |r: SessionRowView| r.session
}

/// The sessions that a selection holds, in the order of the table.
pub open spec fn selected(
    rows: Seq<SessionRowView>,
    p: spec_fn(SessionRowView) -> bool,
) -> Seq<SessionView> {
    rows.filter(p).map_values(the_session())
}

spec fn picks(
    t: MasterTables,
    child_id: Seq<char>,
    range: Option<(i64, i64)>,
    only: Option<Category>,
) -> spec_fn(SessionRowView) -> bool {
    |r: SessionRowView|
        {
            &&& owned(t, child_id)(r)
            &&& range matches Some(ft) ==> r.session.end_ts > ft.0 && r.session.start_ts < ft.1
            &&& only matches Some(c) ==> r.session.category == c
        }
}

fn is_owned(db: &MasterDb, worker_id: &str, child_id: &str) -> (yes: bool)
    ensures
        yes == (child_of(db@.workers, worker_id@) == Some(child_id@)),
{
    let ghost p = |w: WorkerRowView| w.info.worker_id == worker_id@;
    match db.worker_at(worker_id) {
        Some(i) => {
            proof {
                lemma_first_at(db@.workers, p, i as int);
            }
            match &db.workers[i].info.child_id {
                Some(c) => text_eq(c.as_str(), child_id),
                None => false,
            }
        },
        None => {
            proof {
                lemma_first_none(db@.workers, p);
            }
            false
        },
    }
}

fn select(
    db: &MasterDb,
    child_id: &str,
    range: Option<(i64, i64)>,
    only: Option<Category>,
) -> (res: Vec<SessionRecord>)
    ensures
        sorted_copy::<SessionRecord>(
            views(res@),
            selected(db@.sessions, picks(db@, child_id@, range, only)),
        ),
{
    let ghost rows = db@.sessions;
    let ghost p = picks(db@, child_id@, range, only);
    let mut out: Vec<SessionRecord> = Vec::new();
    let mut i: usize = 0;
    proof {
        reveal(Seq::filter);
        assert(views(out@) =~= selected(rows.take(0), p));
    }
    while i < db.sessions.len()
        invariant
            i <= db.sessions.len(),
            rows == db@.sessions,
            p == picks(db@, child_id@, range, only),
            views(out@) == selected(rows.take(i as int), p),
        decreases db.sessions.len() - i,
    {
        proof {
            lemma_filter_step(rows, p, i as int);
        }
        let row = &db.sessions[i];
        assert(rows[i as int] == row@);
        let inside = match range {
            Some((from, to)) => row.session.end_ts > from && row.session.start_ts < to,
            None => true,
        };
        let wanted = match only {
            Some(c) => row.session.category == c,
            None => true,
        };
        if inside && wanted && is_owned(db, row.worker_id.as_str(), child_id) {
            let s = row.session.clone();
            proof {
                lemma_views_push(out@, s);
                let kept = rows.take(i as int).filter(p);
                assert(kept.push(row@).map_values(the_session()) =~= kept.map_values(
                    the_session(),
                ).push(s@));
            }
            out.push(s);
        }
        i += 1;
    }
    assert(rows.take(rows.len() as int) =~= rows);
    sort(out)
}

/// The sessions of a child with a part in `[from, to)`, oldest first.
pub fn sessions_in_range(db: &MasterDb, child_id: &str, from: i64, to: i64) -> (res: Vec<
    SessionRecord,
>)
    ensures
        sorted_copy::<SessionRecord>(
            views(res@),
            selected(db@.sessions, in_range(db@, child_id@, from as int, to as int)),
        ),
{
    assert(picks(db@, child_id@, Some((from, to)), None) =~= in_range(
        db@,
        child_id@,
        from as int,
        to as int,
    ));
    select(db, child_id, Some((from, to)), None)
}

/// All sessions of a child, oldest first.
pub fn sessions_of_child(db: &MasterDb, child_id: &str) -> (res: Vec<SessionRecord>)
    ensures
        sorted_copy::<SessionRecord>(views(res@), selected(db@.sessions, owned(db@, child_id@))),
{
    assert(picks(db@, child_id@, None, None) =~= owned(db@, child_id@));
    select(db, child_id, None, None)
}

/// The sessions of a child that have no category of their own, oldest first.
pub fn uncategorized_sessions(db: &MasterDb, child_id: &str) -> (res: Vec<SessionRecord>)
    ensures
        sorted_copy::<SessionRecord>(
            views(res@),
            selected(db@.sessions, uncategorized(db@, child_id@)),
        ),
{
    assert(picks(db@, child_id@, None, Some(Category::Other)) =~= uncategorized(db@, child_id@));
    select(db, child_id, None, Some(Category::Other))
}

// ---- Totals ----
/// The seconds of a session that lie in `[from, to)`.
pub open spec fn span(from: int, to: int) -> spec_fn(SessionView) -> int {
    |s: SessionView| overlap(s.start_ts as int, s.end_ts as int, from, to)
}

/// The recorded length of a session.
pub open spec fn length() -> spec_fn(SessionView) -> int {
    |s: SessionView| s.duration_s as int
}

/// What a row adds to the total of a selection.
pub open spec fn share(p: spec_fn(SessionRowView) -> bool, w: spec_fn(SessionView) -> int) -> spec_fn(
    SessionRowView,
) -> int {
    |r: SessionRowView|
        if p(r) {
            w(r.session)
        } else {
            0
        }
}

/// What a row adds to the total of one application.
pub open spec fn app_share(
    p: spec_fn(SessionRowView) -> bool,
    w: spec_fn(SessionView) -> int,
    app_name: Seq<char>,
) -> spec_fn(SessionRowView) -> int {
    |r: SessionRowView|
        if p(r) && r.session.app_name == app_name {
            w(r.session)
        } else {
            0
        }
}

/// A total over a selection is a total over the table.
pub proof fn lemma_total(
    rows: Seq<SessionRowView>,
    p: spec_fn(SessionRowView) -> bool,
    s: Seq<SessionView>,
    w: spec_fn(SessionView) -> int,
)
    requires
        sorted_copy::<SessionRecord>(s, selected(rows, p)),
    ensures
        sum(s, w) == sum(rows, share(p, w)),
{
    lemma_sum_permuted(s, selected(rows, p), w);
    lemma_sum_filter_map(rows, p, the_session(), w, share(p, w));
}

// ---- Applications ----
/// Row `k` is a selected session of the application.
pub open spec fn hits(
    rows: Seq<SessionRowView>,
    p: spec_fn(SessionRowView) -> bool,
    app_name: Seq<char>,
    k: int,
) -> bool {
    0 <= k < rows.len() && p(rows[k]) && rows[k].session.app_name == app_name
}

/// The application has a selected session.
pub open spec fn used(
    rows: Seq<SessionRowView>,
    p: spec_fn(SessionRowView) -> bool,
    app_name: Seq<char>,
) -> bool {
    exists|k: int| hits(rows, p, app_name, k)
}

/// A category of the earliest selected session of the application.
pub open spec fn earliest(
    rows: Seq<SessionRowView>,
    p: spec_fn(SessionRowView) -> bool,
    app_name: Seq<char>,
    c: Category,
) -> bool {
    exists|k: int| #[trigger]
        hits(rows, p, app_name, k) && rows[k].session.category == c && forall|j: int| #[trigger]
            hits(rows, p, app_name, j) ==> rows[k].session.start_ts <= rows[j].session.start_ts
}

/// A category of the latest selected session of the application.
pub open spec fn latest(
    rows: Seq<SessionRowView>,
    p: spec_fn(SessionRowView) -> bool,
    app_name: Seq<char>,
    c: Category,
) -> bool {
    exists|k: int| #[trigger]
        hits(rows, p, app_name, k) && rows[k].session.category == c && forall|j: int| #[trigger]
            hits(rows, p, app_name, j) ==> rows[k].session.start_ts >= rows[j].session.start_ts
}

/// An entry for a session, with its weight.
pub open spec fn entry_of(w: spec_fn(SessionView) -> int) -> spec_fn(SessionView) -> EntryView {
    |s: SessionView| EntryView { app_name: s.app_name, category: s.category, weight: w(s) }
}

/// Every listed session is a selected row.
pub proof fn lemma_from_table(
    rows: Seq<SessionRowView>,
    p: spec_fn(SessionRowView) -> bool,
    s: Seq<SessionView>,
    i: int,
) -> (k: int)
    requires
        s.to_multiset() == selected(rows, p).to_multiset(),
        0 <= i < s.len(),
    ensures
        0 <= k < rows.len(),
        p(rows[k]),
        rows[k].session == s[i],
{
    assert(s.contains(s[i]));
    lemma_permuted_contains(s, selected(rows, p), s[i]);
    let m = choose|m: int| 0 <= m < selected(rows, p).len() && selected(rows, p)[m] == s[i];
    let r = rows.filter(p)[m];
    assert(rows.filter(p).contains(r));
    lemma_filter_contains(rows, p, r);
    choose|k: int| 0 <= k < rows.len() && rows[k] == r
}

/// Every selected row is listed.
pub proof fn lemma_to_list(
    rows: Seq<SessionRowView>,
    p: spec_fn(SessionRowView) -> bool,
    s: Seq<SessionView>,
    k: int,
) -> (i: int)
    requires
        s.to_multiset() == selected(rows, p).to_multiset(),
        0 <= k < rows.len(),
        p(rows[k]),
    ensures
        0 <= i < s.len(),
        s[i] == rows[k].session,
{
    let r = rows[k];
    assert(rows.contains(r));
    lemma_filter_contains(rows, p, r);
    let m = choose|m: int| 0 <= m < rows.filter(p).len() && rows.filter(p)[m] == r;
    assert(selected(rows, p)[m] == r.session);
    assert(selected(rows, p).contains(r.session));
    lemma_permuted_contains(s, selected(rows, p), r.session);
    choose|i: int| 0 <= i < s.len() && s[i] == r.session
}

/// A group of the entries of a selection tells the total of its application
/// and its earliest and latest category.
pub proof fn lemma_group(
    rows: Seq<SessionRowView>,
    p: spec_fn(SessionRowView) -> bool,
    s: Seq<SessionView>,
    w: spec_fn(SessionView) -> int,
    g: GroupView,
)
    requires
        sorted_copy::<SessionRecord>(s, selected(rows, p)),
        sums_up(s.map_values(entry_of(w)), g),
    ensures
        g.total == sum(rows, app_share(p, w, g.app_name)),
        earliest(rows, p, g.app_name, g.oldest),
        latest(rows, p, g.app_name, g.newest),
{
    let es = s.map_values(entry_of(w));
    let app = g.app_name;
    let f = |x: SessionView|
        if x.app_name == app {
            w(x)
        } else {
            0
        };
    lemma_sum_map(s, entry_of(w), weight_for(app), f);
    lemma_sum_permuted(s, selected(rows, p), f);
    lemma_sum_filter_map(rows, p, the_session(), f, app_share(p, w, app));
    let i = choose|i: int| #[trigger] is_first(es, app, i) && es[i].category == g.oldest;
    let k = lemma_from_table(rows, p, s, i);
    assert(hits(rows, p, app, k));
    assert forall|j: int| #[trigger] hits(rows, p, app, j) implies rows[k].session.start_ts
        <= rows[j].session.start_ts by {
        let m = lemma_to_list(rows, p, s, j);
        assert(es[m].app_name == app);
        if m != i {
            assert(i < m);
            assert(<SessionRecord as crate::seqs::Ordered>::leq(s[i], s[m]));
        }
    }
    let i2 = choose|i: int| #[trigger] is_last(es, app, i) && es[i].category == g.newest;
    let k2 = lemma_from_table(rows, p, s, i2);
    assert(hits(rows, p, app, k2));
    assert forall|j: int| #[trigger] hits(rows, p, app, j) implies rows[k2].session.start_ts
        >= rows[j].session.start_ts by {
        let m = lemma_to_list(rows, p, s, j);
        assert(es[m].app_name == app);
        if m != i2 {
            assert(m < i2);
            assert(<SessionRecord as crate::seqs::Ordered>::leq(s[m], s[i2]));
        }
    }
}

/// There is a group for exactly the applications that have a selected
/// session.
pub proof fn lemma_groups(
    rows: Seq<SessionRowView>,
    p: spec_fn(SessionRowView) -> bool,
    s: Seq<SessionView>,
    w: spec_fn(SessionView) -> int,
    gs: Seq<GroupView>,
    app_name: Seq<char>,
)
    requires
        sorted_copy::<SessionRecord>(s, selected(rows, p)),
        grouped(s.map_values(entry_of(w)), gs),
    ensures
        has_group(gs, app_name) <==> used(rows, p, app_name),
{
    let es = s.map_values(entry_of(w));
    if has_group(gs, app_name) {
        let k = choose|k: int| 0 <= k < gs.len() && (#[trigger] gs[k]).app_name == app_name;
        assert(sums_up(es, gs[k]));
        let i = choose|i: int| #[trigger] is_first(es, app_name, i);
        let m = lemma_from_table(rows, p, s, i);
        assert(hits(rows, p, app_name, m));
    }
    if used(rows, p, app_name) {
        let k = choose|k: int| hits(rows, p, app_name, k);
        let i = lemma_to_list(rows, p, s, k);
        assert(has_group(gs, es[i].app_name));
    }
}

} // verus!
