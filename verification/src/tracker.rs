//! Tracking of the focused window. The tracker is a state machine that is fed
//! with observations and writes completed sessions to the buffer.
use crate::categorize::{
    category_for, category_owed, layers_decide_in_turn, Categorizer, CategorizerView,
};
use crate::ids::{fresh_id, random_uuid};
use crate::model::{SessionRecord, SessionView};
use crate::seqs::opt_view;
use crate::store::worker::{buffer_insert, with_session, WorkerDb, WorkerTables};
use crate::timeutil::fits_i64;
use vstd::prelude::*;

verus! {

#[derive(Debug, Clone, PartialEq, Eq)]
pub struct ActiveWindow {
    pub app_name: String,
    pub title: String,
}

pub struct WindowView {
    pub app_name: Seq<char>,
    pub title: Seq<char>,
}

impl View for ActiveWindow {
    type V = WindowView;

    open spec fn view(&self) -> WindowView {
        WindowView { app_name: self.app_name@, title: self.title@ }
    }
}

/// The session in progress.
struct OpenSession {
    id: String,
    app_name: String,
    title: String,
    start_ts: i64,
}

pub struct OpenView {
    pub id: Seq<char>,
    pub window: WindowView,
    pub start_ts: i64,
}

impl View for OpenSession {
    type V = OpenView;

    closed spec fn view(&self) -> OpenView {
        OpenView {
            id: self.id@,
            window: WindowView { app_name: self.app_name@, title: self.title@ },
            start_ts: self.start_ts,
        }
    }
}

/// Follows the focused window and buffers the sessions that end.
pub struct Tracker {
    categorizer: Categorizer,
    current: Option<OpenSession>,
}

pub struct TrackerView {
    pub categorizer: CategorizerView,
    pub current: Option<OpenView>,
}

impl View for Tracker {
    type V = TrackerView;

    closed spec fn view(&self) -> TrackerView {
        TrackerView { categorizer: self.categorizer@, current: opt_view(self.current) }
    }
}

/// Whether an observation differs from what is tracked: another application,
/// another title, or a window that came or went.
pub open spec fn differs(t: TrackerView, window: Option<WindowView>) -> bool {
    match t.current {
        Some(open) => window != Some(open.window),
        None => window is Some,
    }
}

/// The session that ends if the one in progress is closed. One of less than a
/// second is dropped.
pub open spec fn completed(t: TrackerView, now: i64) -> Option<SessionView> {
    match t.current {
        Some(open) => if now - open.start_ts >= 1 {
            Some(
                SessionView {
                    id: open.id,
                    app_name: open.window.app_name,
                    window_title: open.window.title,
                    category: category_for(
                        t.categorizer,
                        open.window.app_name,
                        open.window.title,
                    ),
                    start_ts: open.start_ts,
                    end_ts: now,
                    duration_s: (now - open.start_ts) as i64,
                },
            )
        } else {
            None
        },
        None => None,
    }
}

/// A completed session is buffered.
pub open spec fn buffered(t: WorkerTables, done: Option<SessionView>) -> WorkerTables {
    match done {
        Some(s) => WorkerTables { sessions: with_session(t.sessions, s), ..t },
        None => t,
    }
}

/// The length of the session in progress can be held.
pub open spec fn length_fits(t: TrackerView, now: i64) -> bool {
    t.current matches Some(open) ==> fits_i64(now - open.start_ts)
}

/// The session that an observed window opens.
pub open spec fn opened(window: Option<WindowView>, id: Seq<char>, now: i64) -> Option<OpenView> {
    match window {
        Some(w) => Some(OpenView { id, window: w, start_ts: now }),
        None => None,
    }
}

/// One observation: the tracker afterwards, the tables afterwards, and the
/// session that it completed. `id` is for a session that it opens.
pub open spec fn observed(
    t: TrackerView,
    tables: WorkerTables,
    now: i64,
    window: Option<WindowView>,
    id: Seq<char>,
) -> (TrackerView, WorkerTables, Option<SessionView>) {
    if differs(t, window) {
        let done = completed(t, now);
        (TrackerView { current: opened(window, id, now), ..t }, buffered(tables, done), done)
    } else {
        (t, tables, None)
    }
}

impl Tracker {
    pub fn new(categorizer: Categorizer) -> (res: Self)
        ensures
            res@ == (TrackerView { categorizer: categorizer@, current: None }),
    {
        Tracker { categorizer, current: None }
    }

    /// Feeds one observation. Returns the session that it completed, if any,
    /// which is buffered as well.
    pub fn poll(&mut self, db: &mut WorkerDb, now: i64, window: Option<ActiveWindow>) -> (res:
        Option<SessionRecord>)
        requires
            old(db).wf(),
            length_fits(old(self)@, now),
        ensures
            final(db).wf(),
            exists|id: Seq<char>|
                random_uuid(id) && (final(self)@, final(db)@, opt_view(res))
                    == #[trigger] observed(old(self)@, old(db)@, now, opt_view(window), id),
            opt_view(res) == if differs(old(self)@, opt_view(window)) {
                completed(old(self)@, now)
            } else {
                None
            },
            final(db)@ == buffered(old(db)@, opt_view(res)),
    {
        let id = fresh_id();
        let ghost fresh = id@;
        let ghost seen = opt_view(window);
        let res = self.poll_with_id(db, now, window, id);
        assert((self@, db@, opt_view(res)) == observed(old(self)@, old(db)@, now, seen, fresh));
        res
    }

    /// Feeds one observation, with the id for a session that it opens.
    pub fn poll_with_id(
        &mut self,
        db: &mut WorkerDb,
        now: i64,
        window: Option<ActiveWindow>,
        id: String,
    ) -> (res: Option<SessionRecord>)
        requires
            old(db).wf(),
            length_fits(old(self)@, now),
        ensures
            final(db).wf(),
            (final(self)@, final(db)@, opt_view(res)) == observed(
                old(self)@,
                old(db)@,
                now,
                opt_view(window),
                id@,
            ),
    {
        let changed = match &window {
            Some(w) => self.would_change(Some(w)),
            None => self.would_change(None),
        };
        if !changed {
            return None;
        }
        let done = self.close_current(db, now);
        self.current = match window {
            Some(w) => Some(
                OpenSession { id, app_name: w.app_name, title: w.title, start_ts: now },
            ),
            None => None,
        };
        done
    }

    /// Whether an observation differs from what is followed.
    pub fn would_change(&self, window: Option<&ActiveWindow>) -> (yes: bool)
        ensures
            yes == differs(
                self@,
                match window {
                    Some(w) => Some(w@),
                    None => None,
                },
            ),
    {
        match (&self.current, window) {
            (None, None) => false,
            (Some(cur), Some(w)) => !(cur.app_name == w.app_name) || !(cur.title == w.title),
            _ => true,
        }
    }

    /// Seconds in the session in progress, 0 if there is none.
    pub fn current_elapsed(&self, now: i64) -> (secs: i64)
        requires
            self@.current matches Some(open) ==> now - open.start_ts <= i64::MAX,
        ensures
            secs == match self@.current {
                Some(open) => if now > open.start_ts {
                    now - open.start_ts
                } else {
                    0
                },
                None => 0,
            },
    {
        match &self.current {
            Some(open) => if now > open.start_ts {
                now - open.start_ts
            } else {
                0
            },
            None => 0,
        }
    }

    /// The time since the session in progress began, if it can be held; 0 if
    /// there is no session.
    pub fn length(&self, now: i64) -> (res: Option<i64>)
        ensures
            res is Some <==> length_fits(self@, now),
            res matches Some(n) ==> n == match self@.current {
                Some(open) => now - open.start_ts,
                None => 0,
            },
    {
        match &self.current {
            Some(open) => now.checked_sub(open.start_ts),
            None => Some(0),
        }
    }

    /// Closes the session in progress, for instance on shutdown.
    pub fn close_current(&mut self, db: &mut WorkerDb, now: i64) -> (res: Option<SessionRecord>)
        requires
            old(db).wf(),
            length_fits(old(self)@, now),
        ensures
            final(db).wf(),
            opt_view(res) == completed(old(self)@, now),
            final(db)@ == buffered(old(db)@, opt_view(res)),
            final(self)@ == (TrackerView { current: None, ..old(self)@ }),
    {
        match self.current.take() {
            None => None,
            Some(open) => {
                let duration_s: i64 = now - open.start_ts;
                if duration_s < 1 {
                    return None;
                }
                let category = self.categorizer.categorize(
                    open.app_name.as_str(),
                    open.title.as_str(),
                );
                let record = SessionRecord {
                    id: open.id,
                    category,
                    app_name: open.app_name,
                    window_title: open.title,
                    start_ts: open.start_ts,
                    end_ts: now,
                    duration_s,
                };
                buffer_insert(db, &record);
                Some(record)
            },
        }
    }
}

// ---- Laws ----
/// As long as the same window stays focused nothing is recorded and the
/// session goes on.
pub proof fn same_window_goes_on(
    t: TrackerView,
    tables: WorkerTables,
    now: i64,
    id: Seq<char>,
)
    requires
        t.current is Some,
    ensures
        observed(t, tables, now, Some(t.current->0.window), id) == (t, tables, None::<SessionView>),
{
}

/// A session that lasts covers exactly the time between the observation that
/// opened it and the one that closed it, and bears the window that it was
/// opened with.
pub proof fn session_spans_its_window(
    t: TrackerView,
    tables: WorkerTables,
    start: i64,
    window: WindowView,
    id: Seq<char>,
    end: i64,
    next: Option<WindowView>,
    next_id: Seq<char>,
)
    requires
        t.current is None,
        end > start,
        fits_i64(end - start),
        next != Some(window),
    ensures
        ({
            let (open, same, none) = observed(t, tables, start, Some(window), id);
            let (_, after, done) = observed(open, same, end, next, next_id);
            &&& same == tables && none is None
            &&& done matches Some(s) && s.id == id && s.app_name == window.app_name
                && s.window_title == window.title && s.start_ts == start && s.end_ts == end
                && s.duration_s == end - start
            &&& after == buffered(tables, done)
        }),
{
}

/// A window that is gone within the second leaves no trace.
pub proof fn short_sessions_leave_no_trace(
    t: TrackerView,
    tables: WorkerTables,
    start: i64,
    window: WindowView,
    id: Seq<char>,
    end: i64,
    next: Option<WindowView>,
    next_id: Seq<char>,
)
    requires
        t.current is None,
        end <= start,
        next != Some(window),
    ensures
        ({
            let (open, same, _) = observed(t, tables, start, Some(window), id);
            let (_, after, done) = observed(open, same, end, next, next_id);
            done is None && after == tables
        }),
{
}

/// A locked screen closes the session, and while it stays locked nothing
/// happens.
pub proof fn window_loss_closes(
    t: TrackerView,
    tables: WorkerTables,
    now: i64,
    id: Seq<char>,
    later: i64,
    later_id: Seq<char>,
)
    ensures
        ({
            let (lost, after, done) = observed(t, tables, now, None, id);
            &&& lost.current is None
            &&& t.current is Some ==> done == completed(t, now)
            &&& observed(lost, after, later, None, later_id) == (lost, after, None::<SessionView>)
        }),
{
}

/// An observation is a change exactly if the application or the title is
/// another one, or if a window came or went.
pub proof fn changes_are_seen_in_name_and_title(t: TrackerView, w: WindowView)
    ensures
        t.current is None ==> differs(t, Some(w)) && !differs(t, None),
        t.current matches Some(open) ==> differs(t, None) && (differs(t, Some(w)) <==> !(
        open.window.app_name == w.app_name && open.window.title == w.title)),
{
}

/// A change opens a session for the window that is seen, from now on and with
/// the id given; and it buffers the session that it ends.
pub proof fn change_opens_the_next_session(
    t: TrackerView,
    tables: WorkerTables,
    now: i64,
    window: Option<WindowView>,
    id: Seq<char>,
)
    requires
        differs(t, window),
    ensures
        ({
            let (after, buffer, done) = observed(t, tables, now, window, id);
            &&& after.categorizer == t.categorizer
            &&& window is None ==> after.current is None
            &&& window matches Some(w) ==> (after.current matches Some(open) && open.id == id
                && open.start_ts == now && open.window == w)
            &&& buffer.synced == tables.synced
            &&& done is None ==> buffer.sessions == tables.sessions
            &&& done matches Some(s) ==> if exists|i: int|
                0 <= i < tables.sessions.len() && (#[trigger] tables.sessions[i]).id == s.id {
                buffer.sessions == tables.sessions
            } else {
                buffer.sessions == tables.sessions.push(s)
            }
        }),
{
}

/// A session that ends bears window and times of what was open, and the
/// category that its name and its title call for. It ends as a session exactly
/// if it lasted a second.
pub proof fn ended_session_tells_what_was_open(t: TrackerView, now: i64)
    requires
        length_fits(t, now),
    ensures
        t.current is None ==> completed(t, now) is None,
        t.current matches Some(open) ==> (completed(t, now) is Some <==> now - open.start_ts >= 1),
        completed(t, now) matches Some(s) ==> {
            let open = t.current->0;
            &&& s.id == open.id
            &&& s.app_name == open.window.app_name
            &&& s.window_title == open.window.title
            &&& s.start_ts == open.start_ts
            &&& s.end_ts == now
            &&& s.duration_s == s.end_ts - s.start_ts
            &&& category_owed(t.categorizer, s.app_name, s.window_title, s.category)
        },
{
    if let Some(s) = completed(t, now) {
        layers_decide_in_turn(t.categorizer, s.app_name, s.window_title);
    }
}

/// The window changes if it comes or goes or is another in name or title; the
/// length of a session counts from its beginning.
pub proof fn window_changes_in_name_or_title(
    tracker: Tracker,
    seen: &ActiveWindow,
    now: i64,
    on_window: bool,
    on_none: bool,
    length: Option<i64>,
)
    requires
        call_ensures(Tracker::would_change, (&tracker, Some(seen)), on_window),
        call_ensures(Tracker::would_change, (&tracker, None::<&ActiveWindow>), on_none),
        call_ensures(Tracker::length, (&tracker, now), length),
    ensures
        !on_window <==> (tracker@.current matches Some(open) && open.window.app_name
            == seen.app_name@ && open.window.title == seen.title@),
        on_none <==> tracker@.current is Some,
        tracker@.current is None ==> length == Some(0i64),
        tracker@.current matches Some(open) ==> (length is Some <==> i64::MIN <= now
            - open.start_ts <= i64::MAX) && (length matches Some(n) ==> n == now - open.start_ts),
{
}

} // verus!
