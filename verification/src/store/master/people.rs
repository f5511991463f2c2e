//! Children and workers: registration, approval and merging, authentication,
//! heartbeats.
use super::rows::{ChildRow, ChildRowView, WorkerRow, WorkerRowView};
use super::{
    changed, child_key, has_key, lemma_changed_at, lemma_same_keys, lemma_with_row, worker_key,
    MasterDb, MasterTables, StoreError,
};
use crate::calendar::{clock_time, utc_now};
use crate::ids::{fresh_id, random_uuid};
use crate::model::{
    ChildInfo, ChildInfoView, RegisterRequest, RegisterView, WorkerInfo, WorkerInfoView,
};
use crate::seqs::{
    first, lemma_filter_step, lemma_first_at, lemma_first_none, lemma_views_push,
    lemma_views_update, ok_view, opt_view, sort, sorted_copy, views,
};
use crate::text::{ascii_fold, clone_opt, eq_ignore_ascii_case, text_eq};
use vstd::prelude::*;

verus! {

// ---- Children ----
/// The child of a name. Case does not matter in ASCII letters.
pub open spec fn child_named(children: Seq<ChildRowView>, name: Seq<char>) -> Option<ChildRowView> {
    first(children, |c: ChildRowView| ascii_fold(c.name) == ascii_fold(name))
}

/// Finding a child by name, or creating it with the given id: the tables
/// afterwards and the id of the child. A new child cannot take the id of
/// another.
pub open spec fn named_child(
    t: MasterTables,
    name: Seq<char>,
    id: Seq<char>,
    now: i64,
) -> (MasterTables, Result<Seq<char>, StoreError>) {
    match child_named(t.children, name) {
        Some(c) => (t, Ok(c.id)),
        None => if has_key(t.children, child_key(), id) {
            (t, Err(StoreError::DuplicateId))
        } else {
            (
                MasterTables {
                    children: t.children.push(ChildRowView { id, name, created_at: now }),
                    ..t
                },
                Ok(id),
            )
        },
    }
}

/// Finds a child by name or creates it with the id and time given.
pub fn find_or_create_child_with(db: &mut MasterDb, name: &str, id: String, now: i64) -> (res: Result<
    String,
    StoreError,
>)
    requires
        old(db).wf(),
    ensures
        final(db).wf(),
        (final(db)@, ok_view(res)) == named_child(old(db)@, name@, id@, now),
{
    let ghost p = |c: ChildRowView| ascii_fold(c.name) == ascii_fold(name@);
    let ghost before = db@;
    let mut i: usize = 0;
    while i < db.children.len()
        invariant
            i <= db.children.len(),
            p == (|c: ChildRowView| ascii_fold(c.name) == ascii_fold(name@)),
            db@ == before,
            db.wf(),
            forall|j: int| 0 <= j < i ==> !p(#[trigger] before.children[j]),
        decreases db.children.len() - i,
    {
        assert(before.children[i as int] == db.children@[i as int]@);
        if eq_ignore_ascii_case(db.children[i].name.as_str(), name) {
            proof {
                lemma_first_at(before.children, p, i as int);
            }
            return Ok(db.children[i].id.clone());
        }
        i += 1;
    }
    proof {
        lemma_first_none(before.children, p);
    }
    match db.child_at(id.as_str()) {
        Some(k) => {
            assert(child_key()(db@.children[k as int]) == id@);
            Err(StoreError::DuplicateId)
        },
        None => {
            let row = ChildRow { id: id.clone(), name: name.to_owned(), created_at: now };
            proof {
                lemma_with_row(before.children, child_key(), row@);
                lemma_views_push(db.children@, row);
            }
            db.children.push(row);
            Ok(id)
        },
    }
}

/// Finds a child by name, ignoring case, or creates it. Returns its id.
pub fn find_or_create_child(db: &mut MasterDb, name: &str) -> (res: Result<String, StoreError>)
    requires
        old(db).wf(),
    ensures
        final(db).wf(),
        child_named(old(db)@.children, name@) matches Some(c) ==> res matches Ok(id) && id@ == c.id
            && final(db)@ == old(db)@,
        exists|id: Seq<char>, now: i64|
            random_uuid(id) && clock_time(now) && (final(db)@, ok_view(res)) == #[trigger] named_child(
                old(db)@,
                name@,
                id,
                now,
            ),
{
    let id = fresh_id();
    let now = utc_now();
    let ghost fresh = id@;
    let res = find_or_create_child_with(db, name, id, now);
    assert((db@, ok_view(res)) == named_child(old(db)@, name@, fresh, now));
    res
}

pub open spec fn child_infos(children: Seq<ChildRowView>) -> Seq<ChildInfoView> {
    children.map_values(|c: ChildRowView| ChildInfoView { id: c.id, name: c.name })
}

/// All children, by name.
pub fn list_children(db: &MasterDb) -> (res: Vec<ChildInfo>)
    ensures
        sorted_copy::<ChildInfo>(views(res@), child_infos(db@.children)),
{
    let mut out: Vec<ChildInfo> = Vec::new();
    let mut i: usize = 0;
    while i < db.children.len()
        invariant
            i <= db.children.len(),
            views(out@) == child_infos(db@.children).take(i as int),
        decreases db.children.len() - i,
    {
        let row = ChildInfo { id: db.children[i].id.clone(), name: db.children[i].name.clone() };
        proof {
            lemma_views_push(out@, row);
            assert(child_infos(db@.children).take(i + 1) =~= child_infos(db@.children).take(
                i as int,
            ).push(row@));
        }
        out.push(row);
        i += 1;
    }
    assert(views(out@) =~= child_infos(db@.children));
    sort(out)
}

/// The name of a child.
pub open spec fn name_of(children: Seq<ChildRowView>, id: Seq<char>) -> Option<Seq<char>> {
    match first(children, |c: ChildRowView| c.id == id) {
        Some(c) => Some(c.name),
        None => None,
    }
}

pub fn child_name(db: &MasterDb, id: &str) -> (res: Option<String>)
    requires
        db.wf(),
    ensures
        opt_view(res) == name_of(db@.children, id@),
{
    let ghost p = |c: ChildRowView| c.id == id@;
    match db.child_at(id) {
        Some(i) => {
            proof {
                assert forall|j: int| 0 <= j < i implies !p(#[trigger] db@.children[j]) by {
                    assert(child_key()(db@.children[j]) != child_key()(db@.children[i as int]));
                }
                lemma_first_at(db@.children, p, i as int);
            }
            Some(db.children[i].name.clone())
        },
        None => {
            proof {
                assert forall|j: int| 0 <= j < db@.children.len() implies !p(
                    #[trigger] db@.children[j],
                ) by {
                    assert(child_key()(db@.children[j]) != id@);
                }
                lemma_first_none(db@.children, p);
            }
            None
        },
    }
}

// ---- Workers ----
pub open spec fn new_worker(req: RegisterView, now: i64) -> WorkerRowView {
    WorkerRowView {
        info: WorkerInfoView {
            worker_id: req.worker_id,
            hostname: req.hostname,
            os: req.os,
            os_user: req.os_user,
            child_name: None,
            child_id: None,
            approved: false,
            last_seen: None,
            created_at: now,
        },
        token: req.token,
    }
}

/// A registered worker that registers again: approval, assignment and times
/// stay.
pub open spec fn registered_again(w: WorkerRowView, req: RegisterView) -> WorkerRowView {
    WorkerRowView {
        info: WorkerInfoView {
            hostname: req.hostname,
            os: req.os,
            os_user: req.os_user,
            ..w.info
        },
        token: req.token,
    }
}

pub open spec fn with_worker(t: MasterTables, req: RegisterView, now: i64) -> MasterTables {
    MasterTables {
        workers: if has_key(t.workers, worker_key(), req.worker_id) {
            changed(
                t.workers,
                worker_key(),
                req.worker_id,
                |w: WorkerRowView| registered_again(w, req),
            )
        } else {
            t.workers.push(new_worker(req, now))
        },
        ..t
    }
}

/// Registers a worker, or takes over its new token and host data.
pub fn upsert_worker(db: &mut MasterDb, req: &RegisterRequest, now: i64)
    requires
        old(db).wf(),
    ensures
        final(db).wf(),
        final(db)@ == with_worker(old(db)@, req@, now),
{
    let ghost before = db@;
    match db.worker_at(req.worker_id.as_str()) {
        Some(i) => {
            let ghost f = |w: WorkerRowView| registered_again(w, req@);
            let row = WorkerRow {
                info: WorkerInfo {
                    worker_id: db.workers[i].info.worker_id.clone(),
                    hostname: req.hostname.clone(),
                    os: req.os.clone(),
                    os_user: req.os_user.clone(),
                    child_name: clone_opt(&db.workers[i].info.child_name),
                    child_id: clone_opt(&db.workers[i].info.child_id),
                    approved: db.workers[i].info.approved,
                    last_seen: db.workers[i].info.last_seen,
                    created_at: db.workers[i].info.created_at,
                },
                token: req.token.clone(),
            };
            proof {
                assert(worker_key()(before.workers[i as int]) == req@.worker_id);
                lemma_changed_at(before.workers, worker_key(), req@.worker_id, f, i as int);
                lemma_views_update(db.workers@, i as int, row);
                assert(row@ == f(before.workers[i as int]));
                lemma_same_keys(
                    before.workers,
                    before.workers.update(i as int, row@),
                    worker_key(),
                );
            }
            db.workers.set(i, row);
        },
        None => {
            let row = WorkerRow {
                info: WorkerInfo {
                    worker_id: req.worker_id.clone(),
                    hostname: req.hostname.clone(),
                    os: req.os.clone(),
                    os_user: req.os_user.clone(),
                    child_name: None,
                    child_id: None,
                    approved: false,
                    last_seen: None,
                    created_at: now,
                },
                token: req.token.clone(),
            };
            proof {
                lemma_with_row(before.workers, worker_key(), row@);
                lemma_views_push(db.workers@, row);
                assert(!has_key(before.workers, worker_key(), req@.worker_id));
            }
            db.workers.push(row);
        },
    }
}

/// The worker with an id.
pub open spec fn worker_row(workers: Seq<WorkerRowView>, id: Seq<char>) -> Option<WorkerRowView> {
    first(workers, |w: WorkerRowView| w.info.worker_id == id)
}

pub open spec fn worker_info(workers: Seq<WorkerRowView>, id: Seq<char>) -> Option<WorkerInfoView> {
    match worker_row(workers, id) {
        Some(w) => Some(w.info),
        None => None,
    }
}

pub fn get_worker(db: &MasterDb, worker_id: &str) -> (res: Option<WorkerInfo>)
    ensures
        opt_view(res) == worker_info(db@.workers, worker_id@),
{
    let ghost p = |w: WorkerRowView| w.info.worker_id == worker_id@;
    match db.worker_at(worker_id) {
        Some(i) => {
            proof {
                lemma_first_at(db@.workers, p, i as int);
            }
            Some(db.workers[i].info.clone())
        },
        None => {
            proof {
                lemma_first_none(db@.workers, p);
            }
            None
        },
    }
}

pub open spec fn worker_infos(workers: Seq<WorkerRowView>) -> Seq<WorkerInfoView> {
    workers.map_values(|w: WorkerRowView| w.info)
}

/// All workers, oldest registration first.
pub fn list_workers(db: &MasterDb) -> (res: Vec<WorkerInfo>)
    ensures
        sorted_copy::<WorkerInfo>(views(res@), worker_infos(db@.workers)),
{
    let mut out: Vec<WorkerInfo> = Vec::new();
    let mut i: usize = 0;
    while i < db.workers.len()
        invariant
            i <= db.workers.len(),
            views(out@) == worker_infos(db@.workers).take(i as int),
        decreases db.workers.len() - i,
    {
        let row = db.workers[i].info.clone();
        proof {
            lemma_views_push(out@, row);
            assert(worker_infos(db@.workers).take(i + 1) =~= worker_infos(db@.workers).take(
                i as int,
            ).push(row@));
        }
        out.push(row);
        i += 1;
    }
    assert(views(out@) =~= worker_infos(db@.workers));
    sort(out)
}

pub open spec fn of_child(child_id: Seq<char>) -> spec_fn(WorkerInfoView) -> bool {
    |w: WorkerInfoView| w.child_id == Some(child_id)
}

/// Whether an optional text is a given one.
fn is_text(o: &Option<String>, s: &str) -> (same: bool)
    ensures
        same == (opt_view(*o) == Some(s@)),
{
    match o {
        Some(t) => text_eq(t.as_str(), s),
        None => false,
    }
}

/// The workers of a child, oldest registration first.
pub fn workers_of_child(db: &MasterDb, child_id: &str) -> (res: Vec<WorkerInfo>)
    ensures
        sorted_copy::<WorkerInfo>(
            views(res@),
            worker_infos(db@.workers).filter(of_child(child_id@)),
        ),
{
    let ghost all = worker_infos(db@.workers);
    let ghost p = of_child(child_id@);
    let mut out: Vec<WorkerInfo> = Vec::new();
    let mut i: usize = 0;
    proof {
        reveal(Seq::filter);
        assert(views(out@) =~= all.take(0).filter(p));
    }
    while i < db.workers.len()
        invariant
            i <= db.workers.len(),
            all == worker_infos(db@.workers),
            p == of_child(child_id@),
            views(out@) == all.take(i as int).filter(p),
        decreases db.workers.len() - i,
    {
        proof {
            lemma_filter_step(all, p, i as int);
        }
        if is_text(&db.workers[i].info.child_id, child_id) {
            let row = db.workers[i].info.clone();
            proof {
                lemma_views_push(out@, row);
            }
            out.push(row);
        }
        i += 1;
    }
    assert(all.take(all.len() as int) =~= all);
    sort(out)
}

pub open spec fn pending() -> spec_fn(WorkerInfoView) -> bool {
    |w: WorkerInfoView| !w.approved
}

/// The workers that wait for approval, oldest registration first.
pub fn pending_workers(db: &MasterDb) -> (res: Vec<WorkerInfo>)
    ensures
        sorted_copy::<WorkerInfo>(views(res@), worker_infos(db@.workers).filter(pending())),
{
    let ghost all = worker_infos(db@.workers);
    let ghost p = pending();
    let mut out: Vec<WorkerInfo> = Vec::new();
    let mut i: usize = 0;
    proof {
        reveal(Seq::filter);
        assert(views(out@) =~= all.take(0).filter(p));
    }
    while i < db.workers.len()
        invariant
            i <= db.workers.len(),
            all == worker_infos(db@.workers),
            p == pending(),
            views(out@) == all.take(i as int).filter(p),
        decreases db.workers.len() - i,
    {
        proof {
            lemma_filter_step(all, p, i as int);
        }
        if !db.workers[i].info.approved {
            let row = db.workers[i].info.clone();
            proof {
                lemma_views_push(out@, row);
            }
            out.push(row);
        }
        i += 1;
    }
    assert(all.take(all.len() as int) =~= all);
    sort(out)
}

pub open spec fn assigned(w: WorkerRowView, child_id: Seq<char>) -> WorkerRowView {
    WorkerRowView {
        info: WorkerInfoView { approved: true, child_id: Some(child_id), ..w.info },
        ..w
    }
}

pub open spec fn with_assignment(
    t: MasterTables,
    worker_id: Seq<char>,
    child_id: Seq<char>,
) -> MasterTables {
    MasterTables {
        workers: changed(
            t.workers,
            worker_key(),
            worker_id,
            |w: WorkerRowView| assigned(w, child_id),
        ),
        ..t
    }
}

/// Approves a worker and assigns it to a child, which merges it with the
/// child's other workers. Returns how many workers there are with this id.
pub fn assign_worker_to_child(db: &mut MasterDb, worker_id: &str, child_id: &str) -> (n: usize)
    requires
        old(db).wf(),
    ensures
        final(db).wf(),
        final(db)@ == with_assignment(old(db)@, worker_id@, child_id@),
        n == if has_key(old(db)@.workers, worker_key(), worker_id@) {
            1int
        } else {
            0
        },
{
    let ghost before = db@;
    let ghost f = |w: WorkerRowView| assigned(w, child_id@);
    match db.worker_at(worker_id) {
        Some(i) => {
            let ghost rows = db.workers@;
            db.workers[i].info.approved = true;
            db.workers[i].info.child_id = Some(child_id.to_owned());
            proof {
                let row = db.workers@[i as int];
                assert(worker_key()(before.workers[i as int]) == worker_id@);
                lemma_changed_at(before.workers, worker_key(), worker_id@, f, i as int);
                assert(db.workers@ =~= rows.update(i as int, row));
                lemma_views_update(rows, i as int, row);
                assert(row@ == f(before.workers[i as int]));
                lemma_same_keys(
                    before.workers,
                    before.workers.update(i as int, row@),
                    worker_key(),
                );
            }
            1
        },
        None => {
            assert(changed(before.workers, worker_key(), worker_id@, f) =~= before.workers);
            0
        },
    }
}

/// Whether a token is the one that a worker registered with. An unknown
/// worker has none.
pub open spec fn authentic(workers: Seq<WorkerRowView>, worker_id: Seq<char>, token: Seq<char>) -> bool {
    worker_row(workers, worker_id) matches Some(w) && w.token == token
}

pub fn token_valid(db: &MasterDb, worker_id: &str, token: &str) -> (valid: bool)
    ensures
        valid == authentic(db@.workers, worker_id@, token@),
{
    let ghost p = |w: WorkerRowView| w.info.worker_id == worker_id@;
    match db.worker_at(worker_id) {
        Some(i) => {
            proof {
                lemma_first_at(db@.workers, p, i as int);
            }
            text_eq(db.workers[i].token.as_str(), token)
        },
        None => {
            proof {
                lemma_first_none(db@.workers, p);
            }
            false
        },
    }
}

pub open spec fn seen(w: WorkerRowView, now: i64) -> WorkerRowView {
    WorkerRowView { info: WorkerInfoView { last_seen: Some(now), ..w.info }, ..w }
}

pub open spec fn with_heartbeat(t: MasterTables, worker_id: Seq<char>, now: i64) -> MasterTables {
    MasterTables {
        workers: changed(t.workers, worker_key(), worker_id, |w: WorkerRowView| seen(w, now)),
        ..t
    }
}

/// Notes that a worker is alive. Returns how many workers there are with this
/// id.
pub fn touch_heartbeat(db: &mut MasterDb, worker_id: &str, now: i64) -> (n: usize)
    requires
        old(db).wf(),
    ensures
        final(db).wf(),
        final(db)@ == with_heartbeat(old(db)@, worker_id@, now),
        n == if has_key(old(db)@.workers, worker_key(), worker_id@) {
            1int
        } else {
            0
        },
{
    let ghost before = db@;
    let ghost f = |w: WorkerRowView| seen(w, now);
    match db.worker_at(worker_id) {
        Some(i) => {
            let ghost rows = db.workers@;
            db.workers[i].info.last_seen = Some(now);
            proof {
                let row = db.workers@[i as int];
                assert(worker_key()(before.workers[i as int]) == worker_id@);
                lemma_changed_at(before.workers, worker_key(), worker_id@, f, i as int);
                assert(db.workers@ =~= rows.update(i as int, row));
                lemma_views_update(rows, i as int, row);
                assert(row@ == f(before.workers[i as int]));
                lemma_same_keys(
                    before.workers,
                    before.workers.update(i as int, row@),
                    worker_key(),
                );
            }
            1
        },
        None => {
            assert(changed(before.workers, worker_key(), worker_id@, f) =~= before.workers);
            0
        },
    }
}

} // verus!
