//! Uploaded sessions: insertion and re-categorization.
use super::rows::{SessionRow, SessionRowView};
use super::{
    has_key, ids_of, lemma_same_keys, lemma_with_row, session_key, with_row, MasterDb, MasterTables,
};
use crate::categorize::{category_for, Categorizer, CategorizerView};
use crate::model::{Category, SessionRecord, SessionView};
use crate::seqs::{lemma_views_push, lemma_views_update, views};
use crate::text::text_eq;
use vstd::prelude::*;

verus! {

/// A session as the master stores it: under its worker, and with the category
/// that the master's own categorizer gives it.
pub open spec fn recorded(worker_id: Seq<char>, s: SessionView, c: CategorizerView) -> SessionRowView {
    SessionRowView {
        worker_id,
        session: SessionView { category: category_for(c, s.app_name, s.window_title), ..s },
    }
}

/// The rows after an upload: each session is added unless its id is there.
pub open spec fn inserted(
    rows: Seq<SessionRowView>,
    worker_id: Seq<char>,
    sessions: Seq<SessionView>,
    c: CategorizerView,
) -> Seq<SessionRowView>
    decreases sessions.len(),
{
    if sessions.len() == 0 {
        rows
    } else {
        with_row(
            inserted(rows, worker_id, sessions.drop_last(), c),
            session_key(),
            recorded(worker_id, sessions.last(), c),
        )
    }
}

/// Stores uploaded sessions. The client chooses the ids and a session that is
/// known already is ignored, so an upload can be repeated. Returns how many
/// sessions are new.
pub fn insert_sessions(
    db: &mut MasterDb,
    worker_id: &str,
    sessions: &[SessionRecord],
    categorizer: &Categorizer,
) -> (accepted: usize)
    requires
        old(db).wf(),
    ensures
        final(db).wf(),
        final(db)@ == (MasterTables {
            sessions: inserted(old(db)@.sessions, worker_id@, views(sessions@), categorizer@),
            ..old(db)@
        }),
        accepted == final(db)@.sessions.len() - old(db)@.sessions.len(),
{
    let ghost before = db@;
    let ghost all = views(sessions@);
    let mut accepted: usize = 0;
    let mut i: usize = 0;
    assert(all.take(0) =~= Seq::<SessionView>::empty());
    while i < sessions.len()
        invariant
            i <= sessions@.len(),
            accepted <= i,
            all == views(sessions@),
            db.wf(),
            db@ == (MasterTables {
                sessions: inserted(before.sessions, worker_id@, all.take(i as int), categorizer@),
                ..before
            }),
            accepted == db@.sessions.len() - before.sessions.len(),
        decreases sessions@.len() - i,
    {
        proof {
            assert(all.take(i + 1).drop_last() =~= all.take(i as int));
            assert(all.take(i + 1).last() == all[i as int]);
        }
        let s = &sessions[i];
        let category = categorizer.categorize(s.app_name.as_str(), s.window_title.as_str());
        if insert_row(
            db,
            SessionRow {
                worker_id: worker_id.to_owned(),
                session: SessionRecord {
                    id: s.id.clone(),
                    app_name: s.app_name.clone(),
                    window_title: s.window_title.clone(),
                    category,
                    start_ts: s.start_ts,
                    end_ts: s.end_ts,
                    duration_s: s.duration_s,
                },
            },
        ) {
            accepted += 1;
        }
        i += 1;
    }
    assert(all.take(all.len() as int) =~= all);
    accepted
}

/// Adds a row unless its id is there. Returns whether it is new.
pub(crate) fn insert_row(db: &mut MasterDb, row: SessionRow) -> (new: bool)
    requires
        old(db).wf(),
    ensures
        final(db).wf(),
        final(db)@ == (MasterTables {
            sessions: with_row(old(db)@.sessions, session_key(), row@),
            ..old(db)@
        }),
        new == !has_key(old(db)@.sessions, session_key(), row@.session.id),
{
    let ghost before = db@;
    if db.session_ids.contains(row.session.id.as_str()) {
        return false;
    }
    db.session_ids.insert(row.session.id.clone());
    proof {
        lemma_with_row(before.sessions, session_key(), row@);
        lemma_views_push(db.sessions@, row);
    }
    let ghost added = row@;
    db.sessions.push(row);
    proof {
        assert forall|id: Seq<char>|
            has_key(db@.sessions, session_key(), id) == (has_key(
                before.sessions,
                session_key(),
                id,
            ) || id == added.session.id) by {
            if has_key(before.sessions, session_key(), id) {
                let i = choose|i: int|
                    0 <= i < before.sessions.len() && session_key()(#[trigger] before.sessions[i])
                        == id;
                assert(session_key()(db@.sessions[i]) == id);
            }
            if id == added.session.id {
                assert(session_key()(db@.sessions[before.sessions.len() as int]) == id);
            }
        }
        assert(db.session_ids@ =~= ids_of(views(db.sessions@)));
    }
    true
}

/// A stored session in another category, if it is of the application.
pub open spec fn moved(r: SessionRowView, app_name: Seq<char>, category: Category) -> SessionRowView {
    if r.session.app_name == app_name {
        SessionRowView { session: SessionView { category, ..r.session }, ..r }
    } else {
        r
    }
}

pub open spec fn recategorized(
    rows: Seq<SessionRowView>,
    app_name: Seq<char>,
    category: Category,
) -> Seq<SessionRowView> {
    rows.map_values(|r: SessionRowView| moved(r, app_name, category))
}

/// How many stored sessions an application has.
pub open spec fn count_of(rows: Seq<SessionRowView>, app_name: Seq<char>) -> nat
    decreases rows.len(),
{
    if rows.len() == 0 {
        0
    } else {
        count_of(rows.drop_last(), app_name) + if rows.last().session.app_name == app_name {
            1nat
        } else {
            0
        }
    }
}

/// Moves all stored sessions of an application to a category, so that an
/// override holds for the past as well. Returns how many sessions there are.
pub fn recategorize_sessions(db: &mut MasterDb, app_name: &str, category: Category) -> (n: usize)
    requires
        old(db).wf(),
    ensures
        final(db).wf(),
        final(db)@ == (MasterTables {
            sessions: recategorized(old(db)@.sessions, app_name@, category),
            ..old(db)@
        }),
        n == count_of(old(db)@.sessions, app_name@),
{
    let ghost before = db@;
    let ghost target = recategorized(before.sessions, app_name@, category);
    let mut n: usize = 0;
    let mut i: usize = 0;
    assert(before.sessions.take(0) =~= Seq::<SessionRowView>::empty());
    assert(db@.sessions =~= target.take(0) + before.sessions.skip(0));
    while i < db.sessions.len()
        invariant
            i <= db.sessions.len(),
            n <= i,
            db.sessions.len() == before.sessions.len(),
            before == old(db)@,
            before.wf(),
            target == recategorized(before.sessions, app_name@, category),
            db.session_ids@ == ids_of(before.sessions),
            db@ == (MasterTables {
                sessions: target.take(i as int) + before.sessions.skip(i as int),
                ..before
            }),
            n == count_of(before.sessions.take(i as int), app_name@),
        decreases db.sessions.len() - i,
    {
        proof {
            assert(before.sessions.take(i + 1).drop_last() =~= before.sessions.take(i as int));
            assert(db@.sessions[i as int] == before.sessions[i as int]);
        }
        let ghost rows = db.sessions@;
        let ghost was = db@;
        if text_eq(db.sessions[i].session.app_name.as_str(), app_name) {
            db.sessions[i].session.category = category;
            n += 1;
        }
        proof {
            let row = db.sessions@[i as int];
            assert(db.sessions@ =~= rows.update(i as int, row));
            lemma_views_update(rows, i as int, row);
            assert(row@ == target[i as int]);
            assert(db@.sessions =~= target.take(i + 1) + before.sessions.skip(i + 1));
        }
        i += 1;
    }
    proof {
        assert(before.sessions.take(before.sessions.len() as int) =~= before.sessions);
        assert(db@.sessions =~= target);
        lemma_same_keys(before.sessions, target, session_key());
        assert forall|id: Seq<char>|
            has_key(target, session_key(), id) == has_key(before.sessions, session_key(), id) by {
            if has_key(target, session_key(), id) {
                let k = choose|k: int|
                    0 <= k < target.len() && session_key()(#[trigger] target[k]) == id;
                assert(session_key()(before.sessions[k]) == id);
            }
            if has_key(before.sessions, session_key(), id) {
                let k = choose|k: int|
                    0 <= k < target.len() && session_key()(#[trigger] before.sessions[k]) == id;
                assert(session_key()(target[k]) == id);
            }
        }
        assert(ids_of(target) =~= ids_of(before.sessions));
    }
    n
}

} // verus!
