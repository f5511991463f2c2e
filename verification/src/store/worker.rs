//! The worker's tables: buffered sessions, and what each master has received.
use crate::model::{SessionRecord, SessionView};
use crate::seqs::{
    distinct, lemma_filter_contains, lemma_filter_step, lemma_views_push, sort, sorted_copy, views,
    Ordered,
};
use crate::text::text_eq;
use vstd::hash_map::StringHashMap;
use vstd::hash_set::StringHashSet;
use vstd::prelude::*;

verus! {

impl Ordered for SessionRecord {
    open spec fn leq(a: SessionView, b: SessionView) -> bool {
        a.start_ts <= b.start_ts
    }

    proof fn leq_total(a: SessionView, b: SessionView) {
    }

    proof fn leq_transitive(a: SessionView, b: SessionView, c: SessionView) {
    }

    fn le(&self, other: &Self) -> (b: bool) {
        self.start_ts <= other.start_ts
    }
}

/// The rows of a worker: sessions in the order of their arrival, and for each
/// master and session the time at which it was uploaded.
#[verifier::ext_equal]
pub struct WorkerTables {
    pub sessions: Seq<SessionView>,
    pub synced: Map<(Seq<char>, Seq<char>), i64>,
}

pub open spec fn has_session(sessions: Seq<SessionView>, id: Seq<char>) -> bool {
    exists|i: int| 0 <= i < sessions.len() && (#[trigger] sessions[i]).id == id
}

/// A session is added unless one with its id is there.
pub open spec fn with_session(sessions: Seq<SessionView>, s: SessionView) -> Seq<SessionView> {
    if has_session(sessions, s.id) {
        sessions
    } else {
        sessions.push(s)
    }
}

/// The sessions that one master has not received.
pub open spec fn unsynced(t: WorkerTables, master_url: Seq<char>) -> Seq<SessionView> {
    t.sessions.filter(|s: SessionView| !t.synced.contains_key((master_url, s.id)))
}

/// The uploads after sessions were marked for a master; a mark that is there
/// stays as it is.
pub open spec fn with_marks(
    synced: Map<(Seq<char>, Seq<char>), i64>,
    master_url: Seq<char>,
    ids: Seq<Seq<char>>,
    now: i64,
) -> Map<(Seq<char>, Seq<char>), i64>
    decreases ids.len(),
{
    if ids.len() == 0 {
        synced
    } else {
        let m = with_marks(synced, master_url, ids.drop_last(), now);
        if m.contains_key((master_url, ids.last())) {
            m
        } else {
            m.insert((master_url, ids.last()), now)
        }
    }
}

/// What one master has received.
struct MasterLog {
    url: String,
    marks: StringHashMap<i64>,
}

spec fn log_of(logs: Seq<MasterLog>, url: Seq<char>) -> int {
    choose|i: int| 0 <= i < logs.len() && (#[trigger] logs[i]).url@ == url
}

spec fn logged(logs: Seq<MasterLog>, url: Seq<char>, id: Seq<char>) -> bool {
    exists|i: int|
        0 <= i < logs.len() && (#[trigger] logs[i]).url@ == url && logs[i].marks@.contains_key(id)
}

spec fn marks_of(logs: Seq<MasterLog>) -> Map<(Seq<char>, Seq<char>), i64> {
    Map::new(
        |k: (Seq<char>, Seq<char>)| logged(logs, k.0, k.1),
        |k: (Seq<char>, Seq<char>)| logs[log_of(logs, k.0)].marks@[k.1],
    )
}

spec fn ids_of(sessions: Seq<SessionRecord>) -> Set<Seq<char>> {
    Set::new(|id: Seq<char>| has_session(views(sessions), id))
}

pub struct WorkerDb {
    sessions: Vec<SessionRecord>,
    ids: StringHashSet,
    logs: Vec<MasterLog>,
}

impl View for WorkerDb {
    type V = WorkerTables;

    closed spec fn view(&self) -> WorkerTables {
        WorkerTables { sessions: views(self.sessions@), synced: marks_of(self.logs@) }
    }
}

impl WorkerDb {
    /// The indexes agree with the rows.
    pub closed spec fn consistent(&self) -> bool {
        &&& self.ids@ == ids_of(self.sessions@)
        &&& distinct(self.logs@, |l: MasterLog| l.url@)
    }

    /// Session ids are unique, and the indexes agree with the rows.
    pub open spec fn wf(&self) -> bool {
        &&& distinct(self@.sessions, |s: SessionView| s.id)
        &&& self.consistent()
    }

    /// Empty tables.
    pub fn new() -> (db: Self)
        ensures
            db.wf(),
            db@ == (WorkerTables { sessions: Seq::empty(), synced: Map::empty() }),
    {
        let db = WorkerDb { sessions: Vec::new(), ids: StringHashSet::new(), logs: Vec::new() };
        assert(db@.sessions =~= Seq::<SessionView>::empty());
        assert(db@.synced =~= Map::<(Seq<char>, Seq<char>), i64>::empty());
        assert(db.ids@ =~= ids_of(db.sessions@));
        db
    }

    /// The buffered sessions, in the order of their arrival.
    pub fn session_rows(&self) -> (rows: &Vec<SessionRecord>)
        ensures
            views(rows@) == self@.sessions,
    {
        &self.sessions
    }
}

/// Buffers a session. One whose id is known already is ignored.
pub fn buffer_insert(db: &mut WorkerDb, s: &SessionRecord)
    requires
        old(db).wf(),
    ensures
        final(db).wf(),
        final(db)@ == (WorkerTables {
            sessions: with_session(old(db)@.sessions, s@),
            ..old(db)@
        }),
{
    if !db.ids.contains(s.id.as_str()) {
        let ghost before = db.sessions@;
        db.ids.insert(s.id.clone());
        db.sessions.push(s.clone());
        proof {
            lemma_views_push(before, *s);
            assert(!has_session(views(before), s.id@));
            assert forall|id: Seq<char>|
                has_session(views(db.sessions@), id) == (has_session(views(before), id) || id
                    == s.id@) by {
                if has_session(views(before), id) {
                    let i = choose|i: int|
                        0 <= i < views(before).len() && (#[trigger] views(before)[i]).id == id;
                    assert(views(db.sessions@)[i].id == id);
                }
                if id == s.id@ {
                    assert(views(db.sessions@)[before.len() as int].id == id);
                }
            }
            assert(db.ids@ =~= ids_of(db.sessions@));
        }
    }
}

/// The sessions that this master has not received, oldest first, at most
/// `limit` of them. What other masters have received does not matter.
pub fn unsynced_for(db: &WorkerDb, master_url: &str, limit: usize) -> (res: Vec<SessionRecord>)
    requires
        db.wf(),
    ensures
        exists|all: Seq<SessionView>| #[trigger]
            sorted_copy::<SessionRecord>(all, unsynced(db@, master_url@)) && views(res@)
                == all.take(if limit < all.len() { limit as int } else { all.len() as int }),
{
    let ghost wanted = |s: SessionView| !db@.synced.contains_key((master_url@, s.id));
    let ghost rows = db@.sessions;
    let log = find_log(db, master_url);
    let mut open: Vec<SessionRecord> = Vec::new();
    let mut i: usize = 0;
    assert(views(open@) =~= rows.take(0).filter(wanted)) by {
        assert(rows.take(0) =~= Seq::<SessionView>::empty());
        reveal(Seq::filter);
    }
    while i < db.sessions.len()
        invariant
            db.wf(),
            i <= db.sessions.len(),
            rows == views(db.sessions@),
            wanted == (|s: SessionView| !db@.synced.contains_key((master_url@, s.id))),
            match log {
                Some(l) => l < db.logs.len() && db.logs@[l as int].url@ == master_url@,
                None => forall|j: int|
                    0 <= j < db.logs.len() ==> (#[trigger] db.logs@[j]).url@ != master_url@,
            },
            views(open@) == rows.take(i as int).filter(wanted),
        decreases db.sessions.len() - i,
    {
        let s = &db.sessions[i];
        let done = match log {
            Some(l) => db.logs[l].marks.contains_key(s.id.as_str()),
            None => false,
        };
        proof {
            lemma_filter_step(rows, wanted, i as int);
            if let Some(l) = log {
                assert(done == logged(db.logs@, master_url@, s.id@));
            }
            assert(done == db@.synced.contains_key((master_url@, s.id@)));
        }
        if !done {
            proof {
                lemma_views_push(open@, *s);
            }
            open.push(s.clone());
        }
        i += 1;
    }
    assert(rows.take(rows.len() as int) =~= rows);
    let mut res = sort(open);
    let ghost all = views(res@);
    if limit < res.len() {
        res.truncate(limit);
    }
    proof {
        assert(sorted_copy::<SessionRecord>(all, unsynced(db@, master_url@)));
        assert(views(res@) =~= all.take(
            if limit < all.len() {
                limit as int
            } else {
                all.len() as int
            },
        ));
    }
    res
}

fn find_log(db: &WorkerDb, master_url: &str) -> (res: Option<usize>)
    ensures
        match res {
            Some(l) => l < db.logs.len() && db.logs@[l as int].url@ == master_url@,
            None => forall|j: int|
                0 <= j < db.logs.len() ==> (#[trigger] db.logs@[j]).url@ != master_url@,
        },
{
    let mut i: usize = 0;
    while i < db.logs.len()
        invariant
            i <= db.logs.len(),
            forall|j: int| 0 <= j < i ==> (#[trigger] db.logs@[j]).url@ != master_url@,
        decreases db.logs.len() - i,
    {
        if text_eq(db.logs[i].url.as_str(), master_url) {
            return Some(i);
        }
        i += 1;
    }
    None
}

/// Marks sessions as received by a master. A session marked before keeps its
/// mark, so the call can be repeated.
pub fn mark_synced(db: &mut WorkerDb, master_url: &str, ids: &[String], now: i64)
    requires
        old(db).wf(),
    ensures
        final(db).wf(),
        final(db)@ == (WorkerTables {
            synced: with_marks(old(db)@.synced, master_url@, views(ids@), now),
            ..old(db)@
        }),
{
    let ghost before = db@.synced;
    let log = match find_log(db, master_url) {
        Some(l) => l,
        None => {
            let ghost logs = db.logs@;
            let l = db.logs.len();
            db.logs.push(MasterLog { url: master_url.to_owned(), marks: StringHashMap::new() });
            proof {
                lemma_new_log(logs, db.logs@[l as int]);
                assert(logs.push(db.logs@[l as int]) =~= db.logs@);
            }
            l
        },
    };
    let mut i: usize = 0;
    assert(views(ids@).take(0) =~= Seq::<Seq<char>>::empty());
    while i < ids.len()
        invariant
            db.wf(),
            i <= ids@.len(),
            log < db.logs.len(),
            db.logs@[log as int].url@ == master_url@,
            db@.sessions == old(db)@.sessions,
            db@.synced == with_marks(before, master_url@, views(ids@).take(i as int), now),
        decreases ids@.len() - i,
    {
        let ghost logs = db.logs@;
        proof {
            assert(views(ids@).take(i + 1).drop_last() =~= views(ids@).take(i as int));
            lemma_logged_at(logs, log as int, ids@[i as int]@);
        }
        if !db.logs[log].marks.contains_key(ids[i].as_str()) {
            db.logs[log].marks.insert(ids[i].clone(), now);
            proof {
                lemma_mark(logs, db.logs@, log as int, ids@[i as int]@, now);
            }
        }
        i += 1;
    }
    assert(views(ids@).take(ids@.len() as int) =~= views(ids@));
}

proof fn lemma_logged_at(logs: Seq<MasterLog>, l: int, id: Seq<char>)
    requires
        0 <= l < logs.len(),
        distinct(logs, |l: MasterLog| l.url@),
    ensures
        logged(logs, logs[l].url@, id) == logs[l].marks@.contains_key(id),
        log_of(logs, logs[l].url@) == l,
        marks_of(logs).contains_key((logs[l].url@, id)) == logs[l].marks@.contains_key(id),
{
    let key = |l: MasterLog| l.url@;
    let url = logs[l].url@;
    let m = log_of(logs, url);
    assert(0 <= m < logs.len() && logs[m].url@ == url);
    if m != l {
        assert(key(logs[m]) != key(logs[l]));
    }
    if logged(logs, url, id) {
        let i = choose|i: int|
            0 <= i < logs.len() && (#[trigger] logs[i]).url@ == url
                && logs[i].marks@.contains_key(id);
        if i != l {
            assert(key(logs[i]) != key(logs[l]));
        }
    }
}

proof fn lemma_new_log(logs: Seq<MasterLog>, new: MasterLog)
    requires
        distinct(logs, |l: MasterLog| l.url@),
        forall|j: int| 0 <= j < logs.len() ==> (#[trigger] logs[j]).url@ != new.url@,
        new.marks@ == Map::<Seq<char>, i64>::empty(),
    ensures
        distinct(logs.push(new), |l: MasterLog| l.url@),
        marks_of(logs.push(new)) == marks_of(logs),
{
    let after = logs.push(new);
    let key = |l: MasterLog| l.url@;
    assert forall|i: int, j: int|
        0 <= i < after.len() && 0 <= j < after.len() && i != j implies key(#[trigger] after[i])
        != key(#[trigger] after[j]) by {
        if i < logs.len() && j < logs.len() {
            assert(key(logs[i]) != key(logs[j]));
        }
    }
    assert forall|url: Seq<char>, id: Seq<char>|
        logged(after, url, id) == logged(logs, url, id) by {
        if logged(logs, url, id) {
            let i = choose|i: int|
                0 <= i < logs.len() && (#[trigger] logs[i]).url@ == url
                    && logs[i].marks@.contains_key(id);
            assert(after[i].url@ == url);
        }
        if logged(after, url, id) {
            let i = choose|i: int|
                0 <= i < after.len() && (#[trigger] after[i]).url@ == url
                    && after[i].marks@.contains_key(id);
            assert(i < logs.len());
            assert(logs[i].url@ == url);
        }
    }
    assert forall|k: (Seq<char>, Seq<char>)| #[trigger]
        marks_of(after).contains_key(k) implies marks_of(after)[k] == marks_of(logs)[k] by {
        assert(logged(logs, k.0, k.1));
        let i = choose|i: int|
            0 <= i < logs.len() && (#[trigger] logs[i]).url@ == k.0
                && logs[i].marks@.contains_key(k.1);
        lemma_logged_at(logs, i, k.1);
        lemma_logged_at(after, i, k.1);
    }
    assert(marks_of(after) =~= marks_of(logs));
}

proof fn lemma_mark(
    logs: Seq<MasterLog>,
    after: Seq<MasterLog>,
    l: int,
    id: Seq<char>,
    now: i64,
)
    requires
        0 <= l < logs.len(),
        distinct(logs, |l: MasterLog| l.url@),
        after.len() == logs.len(),
        forall|j: int| 0 <= j < logs.len() && j != l ==> after[j] == logs[j],
        after[l].url@ == logs[l].url@,
        after[l].marks@ == logs[l].marks@.insert(id, now),
    ensures
        distinct(after, |l: MasterLog| l.url@),
        marks_of(after) == marks_of(logs).insert((logs[l].url@, id), now),
{
    let key = |l: MasterLog| l.url@;
    let url = logs[l].url@;
    assert forall|i: int, j: int|
        0 <= i < after.len() && 0 <= j < after.len() && i != j implies key(#[trigger] after[i])
        != key(#[trigger] after[j]) by {
        assert(key(logs[i]) != key(logs[j]));
    }
    assert forall|u: Seq<char>, x: Seq<char>|
        logged(after, u, x) == (logged(logs, u, x) || (u == url && x == id)) by {
        if logged(logs, u, x) {
            let i = choose|i: int|
                0 <= i < logs.len() && (#[trigger] logs[i]).url@ == u
                    && logs[i].marks@.contains_key(x);
            assert(after[i].url@ == u);
            assert(after[i].marks@.contains_key(x));
        }
        if u == url && x == id {
            assert(after[l].url@ == u && after[l].marks@.contains_key(x));
        }
        if logged(after, u, x) {
            let i = choose|i: int|
                0 <= i < after.len() && (#[trigger] after[i]).url@ == u
                    && after[i].marks@.contains_key(x);
            assert(logs[i].url@ == u);
        }
    }
    let m = marks_of(logs).insert((url, id), now);
    assert forall|k: (Seq<char>, Seq<char>)| #[trigger]
        marks_of(after).contains_key(k) implies marks_of(after)[k] == m[k] by {
        let i = choose|i: int|
            0 <= i < after.len() && (#[trigger] after[i]).url@ == k.0
                && after[i].marks@.contains_key(k.1);
        lemma_logged_at(after, i, k.1);
        lemma_logged_at(logs, i, k.1);
        if k.0 == url {
            lemma_logged_at(after, l, k.1);
            assert(i == l);
        }
    }
    assert(marks_of(after) =~= m);
}

// ---- Laws ----
/// After marking, a session counts as received by a master exactly if it did
/// before or if it was marked for that master.
pub proof fn marking_adds_its_sessions(
    synced: Map<(Seq<char>, Seq<char>), i64>,
    url: Seq<char>,
    ids: Seq<Seq<char>>,
    now: i64,
    k: (Seq<char>, Seq<char>),
)
    ensures
        with_marks(synced, url, ids, now).contains_key(k) == (synced.contains_key(k) || (k.0 == url
            && ids.contains(k.1))),
        synced.contains_key(k) ==> with_marks(synced, url, ids, now)[k] == synced[k],
    decreases ids.len(),
{
    if ids.len() > 0 {
        let front = ids.drop_last();
        marking_adds_its_sessions(synced, url, front, now, k);
        if ids.contains(k.1) && k.1 != ids.last() {
            let i = choose|i: int| 0 <= i < ids.len() && ids[i] == k.1;
            assert(front[i] == k.1);
        }
        if front.contains(k.1) {
            let i = choose|i: int| 0 <= i < front.len() && front[i] == k.1;
            assert(ids[i] == k.1);
        }
        assert(ids[ids.len() - 1] == ids.last());
    }
}

/// Marking sessions for one master leaves the backlog of every other master
/// as it was.
pub proof fn backlogs_are_independent(
    t: WorkerTables,
    url: Seq<char>,
    ids: Seq<Seq<char>>,
    now: i64,
    other: Seq<char>,
)
    requires
        other != url,
    ensures
        unsynced(
            WorkerTables { synced: with_marks(t.synced, url, ids, now), ..t },
            other,
        ) == unsynced(t, other),
{
    let after = WorkerTables { synced: with_marks(t.synced, url, ids, now), ..t };
    let p = |s: SessionView| !t.synced.contains_key((other, s.id));
    let q = |s: SessionView| !after.synced.contains_key((other, s.id));
    assert forall|s: SessionView| #[trigger] p(s) == q(s) by {
        marking_adds_its_sessions(t.synced, url, ids, now, (other, s.id));
    }
    assert(p =~= q);
}

/// The backlog of a master after marking is the backlog before without the
/// marked sessions.
pub proof fn marking_shrinks_the_backlog(
    t: WorkerTables,
    url: Seq<char>,
    ids: Seq<Seq<char>>,
    now: i64,
)
    ensures
        unsynced(WorkerTables { synced: with_marks(t.synced, url, ids, now), ..t }, url)
            == unsynced(t, url).filter(|s: SessionView| !ids.contains(s.id)),
{
    let after = WorkerTables { synced: with_marks(t.synced, url, ids, now), ..t };
    let p = |s: SessionView| !t.synced.contains_key((url, s.id));
    let q = |s: SessionView| !after.synced.contains_key((url, s.id));
    let r = |s: SessionView| !ids.contains(s.id);
    assert forall|s: SessionView| #[trigger] q(s) == (p(s) && r(s)) by {
        marking_adds_its_sessions(t.synced, url, ids, now, (url, s.id));
    }
    lemma_filter_twice(t.sessions, p, r, q);
}

proof fn lemma_filter_twice(
    s: Seq<SessionView>,
    p: spec_fn(SessionView) -> bool,
    r: spec_fn(SessionView) -> bool,
    q: spec_fn(SessionView) -> bool,
)
    requires
        forall|x: SessionView| #[trigger] q(x) == (p(x) && r(x)),
    ensures
        s.filter(q) == s.filter(p).filter(r),
    decreases s.len(),
{
    reveal(Seq::filter);
    if s.len() > 0 {
        let front = s.drop_last();
        lemma_filter_twice(front, p, r, q);
        assert(q(s.last()) == (p(s.last()) && r(s.last())));
        if p(s.last()) {
            front.filter(p).lemma_filter_push(s.last(), r);
        }
    }
}

/// Marking twice is marking once: the first mark stays.
pub proof fn marking_is_idempotent(
    synced: Map<(Seq<char>, Seq<char>), i64>,
    url: Seq<char>,
    ids: Seq<Seq<char>>,
    first: i64,
    again: i64,
)
    ensures
        with_marks(with_marks(synced, url, ids, first), url, ids, again) == with_marks(
            synced,
            url,
            ids,
            first,
        ),
{
    let once = with_marks(synced, url, ids, first);
    let twice = with_marks(once, url, ids, again);
    assert forall|k: (Seq<char>, Seq<char>)|
        #![trigger twice.dom().contains(k)]
        #![trigger once.dom().contains(k)]
        twice.contains_key(k) == once.contains_key(k) && (once.contains_key(k) ==> twice[k]
            == once[k]) by {
        marking_adds_its_sessions(once, url, ids, again, k);
        marking_adds_its_sessions(synced, url, ids, first, k);
    }
    assert(twice =~= once);
}

/// Buffering a session twice is buffering it once.
pub proof fn buffering_is_idempotent(sessions: Seq<SessionView>, s: SessionView)
    ensures
        with_session(with_session(sessions, s), s) == with_session(sessions, s),
{
    if !has_session(sessions, s.id) {
        assert(sessions.push(s)[sessions.len() as int].id == s.id);
    }
}

/// A session that is marked for the first time bears the time of the marking.
pub proof fn new_marks_bear_the_time(
    synced: Map<(Seq<char>, Seq<char>), i64>,
    url: Seq<char>,
    ids: Seq<Seq<char>>,
    now: i64,
    id: Seq<char>,
)
    requires
        ids.contains(id),
        !synced.contains_key((url, id)),
    ensures
        with_marks(synced, url, ids, now).contains_key((url, id)),
        with_marks(synced, url, ids, now)[(url, id)] == now,
    decreases ids.len(),
{
    let front = ids.drop_last();
    let m = with_marks(synced, url, front, now);
    marking_adds_its_sessions(synced, url, front, now, (url, id));
    if front.contains(id) {
        new_marks_bear_the_time(synced, url, front, now, id);
    } else {
        let i = choose|i: int| 0 <= i < ids.len() && ids[i] == id;
        if i < front.len() {
            assert(front[i] == id);
        }
        assert(ids.last() == id);
    }
}

/// The backlog of a master holds exactly the buffered sessions without a mark
/// for it.
pub proof fn backlog_is_what_has_no_mark(t: WorkerTables, url: Seq<char>, s: SessionView)
    ensures
        unsynced(t, url).contains(s) <==> t.sessions.contains(s) && !t.synced.contains_key(
            (url, s.id),
        ),
{
    lemma_filter_contains(
        t.sessions,
        |s: SessionView| !t.synced.contains_key((url, s.id)),
        s,
    );
}

/// A buffered session is kept as it is, and one with a new id goes to the end.
pub proof fn buffering_appends(sessions: Seq<SessionView>, s: SessionView)
    ensures
        sessions.is_prefix_of(with_session(sessions, s)),
        (forall|i: int| 0 <= i < sessions.len() ==> (#[trigger] sessions[i]).id != s.id)
            ==> with_session(sessions, s) == sessions.push(s),
        (exists|i: int| 0 <= i < sessions.len() && (#[trigger] sessions[i]).id == s.id)
            ==> with_session(sessions, s) == sessions,
{
}

} // verus!
