//! What the reports count, told from the rows one by one.
use super::{worker_key, MasterTables};
use super::people::worker_row;
use super::reports::{
    alive, app_total, is_app_list, is_app_row, is_breakdown, is_line, is_uncategorized_list, online,
    overridden, override_category, overrides_app, span_at, summary_of, time_at, time_of, usage_of,
    AppCategoryRow, AppCategoryView,
};
use super::rows::{SessionRowView, WorkerRowView};
use super::selection::{
    app_share, child_of, earliest, hits, in_range, latest, length, owned, share, span,
    uncategorized, used,
};
use crate::model::{AppBreakdown, AppBreakdownView, Category, ChildInfoView, SessionView, TodBucket};
use crate::seqs::{lemma_first, lemma_sum_same, sum, Ordered};
use crate::text::{ascii_fold, text_leq};
use crate::timeutil::{
    day_start_at, local_midnight_is_the_day_start, local_monday_is_the_week_start, week_start_at,
};
use vstd::math::{max, min};
use vstd::prelude::*;

verus! {

// ---- Counting ----
/// A session that was recorded on one of the child's workers.
pub open spec fn on_device_of(t: MasterTables, r: SessionRowView, child_id: Seq<char>) -> bool {
    exists|i: int|
        0 <= i < t.workers.len() && (#[trigger] t.workers[i]).info.worker_id == r.worker_id
            && t.workers[i].info.child_id == Some(child_id)
}

/// The seconds that a session shares with `[from, to)`.
pub open spec fn shared_seconds(s: SessionView, from: int, to: int) -> int {
    max(0, min(s.end_ts as int, to) - max(s.start_ts as int, from))
}

/// The values of all rows, added up one by one.
pub open spec fn added_up(rows: Seq<SessionRowView>, value: spec_fn(SessionRowView) -> int) -> int {
    rows.fold_left(0int, |acc: int, r: SessionRowView| acc + value(r))
}

/// What one session adds to the time of a child.
pub open spec fn child_part(t: MasterTables, child_id: Seq<char>, from: int, to: int) -> spec_fn(
    SessionRowView,
) -> int {
    |r: SessionRowView|
        if on_device_of(t, r, child_id) {
            shared_seconds(r.session, from, to)
        } else {
            0
        }
}

/// The seconds of a child in `[from, to)` on all of its devices.
pub open spec fn child_seconds(t: MasterTables, child_id: Seq<char>, from: int, to: int) -> int {
    added_up(t.sessions, child_part(t, child_id, from, to))
}

proof fn lemma_added_up(rows: Seq<SessionRowView>, value: spec_fn(SessionRowView) -> int)
    ensures
        added_up(rows, value) == sum(rows, value),
    decreases rows.len(),
{
    if rows.len() > 0 {
        lemma_added_up(rows.drop_last(), value);
    }
}

/// Every value counts, and counts once.
proof fn lemma_adds_up_to(
    rows: Seq<SessionRowView>,
    f: spec_fn(SessionRowView) -> int,
    value: spec_fn(SessionRowView) -> int,
)
    requires
        forall|i: int| 0 <= i < rows.len() ==> f(#[trigger] rows[i]) == value(rows[i]),
    ensures
        sum(rows, f) == added_up(rows, value),
{
    lemma_added_up(rows, value);
    lemma_sum_same(rows, f, value);
}

/// Where ids are unique, a session is owned by the child of its device.
pub proof fn lemma_owned(t: MasterTables, r: SessionRowView, child_id: Seq<char>)
    requires
        t.wf(),
    ensures
        owned(t, child_id)(r) == on_device_of(t, r, child_id),
        child_of(t.workers, r.worker_id) == Some(child_id) <==> on_device_of(t, r, child_id),
{
    let p = |w: WorkerRowView| w.info.worker_id == r.worker_id;
    lemma_first(t.workers, p);
    if on_device_of(t, r, child_id) {
        let i = choose|i: int|
            0 <= i < t.workers.len() && (#[trigger] t.workers[i]).info.worker_id == r.worker_id
                && t.workers[i].info.child_id == Some(child_id);
        assert(p(t.workers[i]));
        let w = worker_row(t.workers, r.worker_id)->0;
        let k = choose|k: int| 0 <= k < t.workers.len() && #[trigger] t.workers[k] == w;
        if k != i {
            assert(worker_key()(t.workers[k]) != worker_key()(t.workers[i]));
        }
    }
    if child_of(t.workers, r.worker_id) == Some(child_id) {
        let w = worker_row(t.workers, r.worker_id)->0;
        let k = choose|k: int| 0 <= k < t.workers.len() && #[trigger] t.workers[k] == w;
        assert(t.workers[k].info.child_id == Some(child_id));
    }
}

/// The time of a child counts every session on each of its devices, with the
/// seconds that lie in the range, and nothing else.
pub proof fn time_counts_every_session(t: MasterTables, child_id: Seq<char>, from: int, to: int)
    requires
        t.wf(),
    ensures
        time_of(t, child_id, from, to) == child_seconds(t, child_id, from, to),
{
    let f = share(owned(t, child_id), span(from, to));
    let g = child_part(t, child_id, from, to);
    assert forall|i: int| 0 <= i < t.sessions.len() implies f(#[trigger] t.sessions[i]) == g(
        t.sessions[i],
    ) by {
        lemma_owned(t, t.sessions[i], child_id);
    }
    lemma_adds_up_to(t.sessions, f, g);
}

// ---- Today and this week ----
/// Today's usage counts from the last local midnight, this week's from the
/// last local Monday midnight, both up to now, in every time zone.
pub proof fn usage_counts_from_midnight_and_monday(
    t: MasterTables,
    child_id: Seq<char>,
    now: int,
    tz: int,
    midnight: int,
    monday: int,
)
    requires
        t.wf(),
        (midnight + tz) % 86_400 == 0,
        midnight <= now < midnight + 86_400,
        (monday + tz) % 604_800 == 345_600,
        monday <= now < monday + 604_800,
    ensures
        usage_of(t, child_id, now, tz).0 == child_seconds(t, child_id, midnight, now),
        usage_of(t, child_id, now, tz).1 == child_seconds(t, child_id, monday, now),
{
    local_midnight_is_the_day_start(now, tz, midnight);
    local_monday_is_the_week_start(now, tz, monday);
    time_counts_every_session(t, child_id, midnight, now);
    time_counts_every_session(t, child_id, monday, now);
}

/// The tables with one more session.
pub open spec fn and_session(t: MasterTables, r: SessionRowView) -> MasterTables {
    MasterTables { sessions: t.sessions.push(r), ..t }
}

proof fn lemma_one_more(t: MasterTables, r: SessionRowView, child_id: Seq<char>, from: int, to: int)
    requires
        t.wf(),
    ensures
        time_of(and_session(t, r), child_id, from, to) == time_of(t, child_id, from, to)
            + child_part(t, child_id, from, to)(r),
{
    super::laws::session_counts_for_its_child(t, r, child_id, from, to);
    lemma_owned(t, r, child_id);
}

/// A session of the local day adds its whole length to today and to the week.
pub proof fn session_of_today_counts_in_full(
    t: MasterTables,
    r: SessionRowView,
    child_id: Seq<char>,
    now: int,
    tz: int,
)
    requires
        t.wf(),
        on_device_of(t, r, child_id),
        r.session.start_ts <= r.session.end_ts <= now,
        (r.session.start_ts + tz) / 86_400 == (now + tz) / 86_400,
    ensures
        ({
            let before = usage_of(t, child_id, now, tz);
            let after = usage_of(and_session(t, r), child_id, now, tz);
            let len = r.session.end_ts - r.session.start_ts;
            after.0 == before.0 + len && after.1 == before.1 + len
        }),
{
    let midnight = (now + tz) / 86_400 * 86_400 - tz;
    local_midnight_is_the_day_start(now, tz, midnight);
    crate::timeutil::week_contains_its_instant(now, tz);
    lemma_one_more(t, r, child_id, day_start_at(now, tz), now);
    lemma_one_more(t, r, child_id, week_start_at(now, tz), now);
}

/// A session that ended before local midnight adds nothing to today. One of
/// the same week, which begins on Monday, adds its length to the week.
pub proof fn session_of_the_week_counts_for_the_week(
    t: MasterTables,
    r: SessionRowView,
    child_id: Seq<char>,
    now: int,
    tz: int,
    midnight: int,
    monday: int,
)
    requires
        t.wf(),
        on_device_of(t, r, child_id),
        r.session.start_ts <= r.session.end_ts <= midnight,
        (midnight + tz) % 86_400 == 0,
        midnight <= now < midnight + 86_400,
        (monday + tz) % 604_800 == 345_600,
        monday <= now < monday + 604_800,
    ensures
        ({
            let before = usage_of(t, child_id, now, tz);
            let after = usage_of(and_session(t, r), child_id, now, tz);
            let len = r.session.end_ts - r.session.start_ts;
            &&& after.0 == before.0
            &&& r.session.start_ts >= monday ==> after.1 == before.1 + len
            &&& r.session.end_ts <= monday ==> after.1 == before.1
        }),
{
    local_midnight_is_the_day_start(now, tz, midnight);
    local_monday_is_the_week_start(now, tz, monday);
    lemma_one_more(t, r, child_id, midnight, now);
    lemma_one_more(t, r, child_id, monday, now);
}

/// A session of another child's device, or of a device without a child, adds
/// nothing.
pub proof fn other_devices_do_not_count(
    t: MasterTables,
    r: SessionRowView,
    child_id: Seq<char>,
    now: int,
    tz: int,
    from: int,
    to: int,
)
    requires
        t.wf(),
        !on_device_of(t, r, child_id),
    ensures
        usage_of(and_session(t, r), child_id, now, tz) == usage_of(t, child_id, now, tz),
        time_of(and_session(t, r), child_id, from, to) == time_of(t, child_id, from, to),
{
    lemma_one_more(t, r, child_id, day_start_at(now, tz), now);
    lemma_one_more(t, r, child_id, week_start_at(now, tz), now);
    lemma_one_more(t, r, child_id, from, to);
}

// ---- Applications ----
/// Session `k` is of the child and the application, with a part in
/// `[from, to)`.
pub open spec fn seen_in(
    t: MasterTables,
    child_id: Seq<char>,
    app_name: Seq<char>,
    from: int,
    to: int,
    k: int,
) -> bool {
    &&& 0 <= k < t.sessions.len()
    &&& on_device_of(t, t.sessions[k], child_id)
    &&& t.sessions[k].session.app_name == app_name
    &&& t.sessions[k].session.end_ts > from
    &&& t.sessions[k].session.start_ts < to
}

/// What one session adds to the time of an application.
pub open spec fn app_part(
    t: MasterTables,
    child_id: Seq<char>,
    app_name: Seq<char>,
    from: int,
    to: int,
) -> spec_fn(SessionRowView) -> int {
    |r: SessionRowView|
        if on_device_of(t, r, child_id) && r.session.app_name == app_name {
            shared_seconds(r.session, from, to)
        } else {
            0
        }
}

proof fn lemma_seen_in(
    t: MasterTables,
    child_id: Seq<char>,
    app_name: Seq<char>,
    from: int,
    to: int,
    k: int,
)
    requires
        t.wf(),
    ensures
        hits(t.sessions, in_range(t, child_id, from, to), app_name, k) == seen_in(
            t,
            child_id,
            app_name,
            from,
            to,
            k,
        ),
{
    if 0 <= k < t.sessions.len() {
        lemma_owned(t, t.sessions[k], child_id);
    }
}

/// A line of a breakdown tells the seconds of its application in the range,
/// those of all applications, and the category of the application's earliest
/// session there.
pub proof fn breakdown_line_counts_its_app(
    t: MasterTables,
    child_id: Seq<char>,
    from: int,
    to: int,
    out: Seq<AppBreakdownView>,
    i: int,
)
    requires
        t.wf(),
        is_breakdown(t, child_id, from, to, out),
        0 <= i < out.len(),
    ensures
        out[i].duration_s == added_up(
            t.sessions,
            app_part(t, child_id, out[i].app_name, from, to),
        ),
        out[i].total_s == child_seconds(t, child_id, from, to),
        exists|k: int| #[trigger]
            seen_in(t, child_id, out[i].app_name, from, to, k) && t.sessions[k].session.category
                == out[i].category && forall|j: int| #[trigger]
                seen_in(t, child_id, out[i].app_name, from, to, j)
                    ==> t.sessions[k].session.start_ts <= t.sessions[j].session.start_ts,
{
    let b = out[i];
    let app = b.app_name;
    let p = in_range(t, child_id, from, to);
    assert(is_line(t, child_id, from, to, b));
    time_counts_every_session(t, child_id, from, to);
    let f = app_share(p, span(from, to), app);
    let g = app_part(t, child_id, app, from, to);
    assert forall|k: int| 0 <= k < t.sessions.len() implies f(#[trigger] t.sessions[k]) == g(
        t.sessions[k],
    ) by {
        lemma_owned(t, t.sessions[k], child_id);
    }
    lemma_adds_up_to(t.sessions, f, g);
    let k = choose|k: int| #[trigger]
        hits(t.sessions, p, app, k) && t.sessions[k].session.category == b.category && forall|
            j: int,
        | #[trigger]
            hits(t.sessions, p, app, j) ==> t.sessions[k].session.start_ts
                <= t.sessions[j].session.start_ts;
    lemma_seen_in(t, child_id, app, from, to, k);
    assert forall|j: int| #[trigger] seen_in(t, child_id, app, from, to, j) implies t.sessions[k].session.start_ts
        <= t.sessions[j].session.start_ts by {
        lemma_seen_in(t, child_id, app, from, to, j);
    }
}

/// A breakdown has one line for each application with a session in the range,
/// none for any other, and the longest time first.
pub proof fn breakdown_lists_every_app_once(
    t: MasterTables,
    child_id: Seq<char>,
    from: int,
    to: int,
    out: Seq<AppBreakdownView>,
    app_name: Seq<char>,
)
    requires
        t.wf(),
        is_breakdown(t, child_id, from, to, out),
    ensures
        (exists|i: int| 0 <= i < out.len() && (#[trigger] out[i]).app_name == app_name) <==> (
        exists|k: int| seen_in(t, child_id, app_name, from, to, k)),
        forall|i: int, j: int|
            0 <= i < j < out.len() ==> (#[trigger] out[i]).app_name != (
            #[trigger] out[j]).app_name && out[i].duration_s >= out[j].duration_s,
{
    let p = in_range(t, child_id, from, to);
    if exists|i: int| 0 <= i < out.len() && (#[trigger] out[i]).app_name == app_name {
        let i = choose|i: int| 0 <= i < out.len() && (#[trigger] out[i]).app_name == app_name;
        assert(is_line(t, child_id, from, to, out[i]));
        let k = choose|k: int| hits(t.sessions, p, app_name, k);
        lemma_seen_in(t, child_id, app_name, from, to, k);
    }
    if exists|k: int| seen_in(t, child_id, app_name, from, to, k) {
        let k = choose|k: int| seen_in(t, child_id, app_name, from, to, k);
        lemma_seen_in(t, child_id, app_name, from, to, k);
        assert(used(t.sessions, p, app_name));
    }
    assert forall|i: int, j: int| 0 <= i < j < out.len() implies (#[trigger] out[i]).app_name != (
    #[trigger] out[j]).app_name && out[i].duration_s >= out[j].duration_s by {
        assert(super::reports::breakdown_key()(out[i]) != super::reports::breakdown_key()(out[j]));
        assert(<AppBreakdown as Ordered>::leq(out[i], out[j]));
    }
}

// ---- Times of day ----
/// The time of day of a second of the local day: morning from 5, afternoon
/// from 12, evening from 17, night from 22 o'clock.
pub open spec fn at_time_of_day(second: int, b: TodBucket) -> bool {
    match b {
        TodBucket::Morning => 18_000 <= second < 43_200,
        TodBucket::Afternoon => 43_200 <= second < 61_200,
        TodBucket::Evening => 61_200 <= second < 79_200,
        TodBucket::Night => second < 18_000 || 79_200 <= second,
    }
}

/// What one session adds to a time of day: its seconds in the range, if it
/// began at that time of the local day.
pub open spec fn time_of_day_part(
    t: MasterTables,
    child_id: Seq<char>,
    from: int,
    to: int,
    tz: int,
    b: TodBucket,
) -> spec_fn(SessionRowView) -> int {
    |r: SessionRowView|
        if on_device_of(t, r, child_id) && at_time_of_day(
            (r.session.start_ts + tz) % 86_400,
            b,
        ) {
            shared_seconds(r.session, from, to)
        } else {
            0
        }
}

/// The time of day of a session is that of its local beginning.
pub proof fn time_of_day_goes_by_the_beginning(
    t: MasterTables,
    child_id: Seq<char>,
    from: int,
    to: int,
    tz: int,
    b: TodBucket,
)
    requires
        t.wf(),
    ensures
        time_at(t, child_id, from, to, tz, b) == added_up(
            t.sessions,
            time_of_day_part(t, child_id, from, to, tz, b),
        ),
{
    let f = share(owned(t, child_id), span_at(from, to, tz, b));
    let g = time_of_day_part(t, child_id, from, to, tz, b);
    assert forall|i: int| 0 <= i < t.sessions.len() implies f(#[trigger] t.sessions[i]) == g(
        t.sessions[i],
    ) by {
        lemma_owned(t, t.sessions[i], child_id);
    }
    lemma_adds_up_to(t.sessions, f, g);
}

// ---- Lists of applications ----
/// What one session adds to the recorded length of an application.
pub open spec fn length_part(
    t: MasterTables,
    child_id: Seq<char>,
    app_name: Seq<char>,
    only_other: bool,
) -> spec_fn(SessionRowView) -> int {
    |r: SessionRowView|
        if on_device_of(t, r, child_id) && r.session.app_name == app_name && (only_other
            ==> r.session.category == Category::Other) {
            r.session.duration_s as int
        } else {
            0
        }
}

/// Session `k` is of the child and the application.
pub open spec fn seen(t: MasterTables, child_id: Seq<char>, app_name: Seq<char>, k: int) -> bool {
    &&& 0 <= k < t.sessions.len()
    &&& on_device_of(t, t.sessions[k], child_id)
    &&& t.sessions[k].session.app_name == app_name
}

/// The list of applications has a row for exactly those that the child has
/// used, with the recorded length of all of their sessions. A parent's choice
/// decides the category, or else the latest session.
pub proof fn app_list_tells_every_app(
    t: MasterTables,
    child_id: Seq<char>,
    out: Seq<AppCategoryView>,
    app_name: Seq<char>,
)
    requires
        t.wf(),
        is_app_list(t, child_id, out),
    ensures
        (exists|i: int| 0 <= i < out.len() && (#[trigger] out[i]).app_name == app_name) <==> (
        exists|k: int| seen(t, child_id, app_name, k)),
        forall|i: int|
            0 <= i < out.len() && (#[trigger] out[i]).app_name == app_name ==> {
                &&& out[i].total_s == added_up(
                    t.sessions,
                    length_part(t, child_id, app_name, false),
                )
                &&& out[i].is_override <==> exists|k: int|
                    0 <= k < t.overrides.len() && ascii_fold((#[trigger] t.overrides[k]).app_name)
                        == ascii_fold(app_name)
                &&& out[i].is_override ==> exists|k: int|
                    0 <= k < t.overrides.len() && ascii_fold((#[trigger] t.overrides[k]).app_name)
                        == ascii_fold(app_name) && t.overrides[k].category == out[i].category
                &&& !out[i].is_override ==> exists|k: int| #[trigger]
                    seen(t, child_id, app_name, k) && t.sessions[k].session.category
                        == out[i].category && forall|j: int| #[trigger]
                        seen(t, child_id, app_name, j) ==> t.sessions[j].session.start_ts
                            <= t.sessions[k].session.start_ts
            },
        forall|i: int, j: int|
            0 <= i < j < out.len() ==> (#[trigger] out[i]).app_name != (
            #[trigger] out[j]).app_name && out[i].total_s >= out[j].total_s,
{
    let p = owned(t, child_id);
    assert forall|app: Seq<char>, k: int| #[trigger]
        hits(t.sessions, p, app, k) == seen(t, child_id, app, k) by {
        if 0 <= k < t.sessions.len() {
            lemma_owned(t, t.sessions[k], child_id);
        }
    }
    if exists|i: int| 0 <= i < out.len() && (#[trigger] out[i]).app_name == app_name {
        let i = choose|i: int| 0 <= i < out.len() && (#[trigger] out[i]).app_name == app_name;
        assert(is_app_row(t, child_id, out[i]));
        let k = choose|k: int| hits(t.sessions, p, app_name, k);
        assert(seen(t, child_id, app_name, k));
    }
    if exists|k: int| seen(t, child_id, app_name, k) {
        let k = choose|k: int| seen(t, child_id, app_name, k);
        assert(hits(t.sessions, p, app_name, k));
        assert(used(t.sessions, p, app_name));
    }
    let f = app_share(p, length(), app_name);
    let g = length_part(t, child_id, app_name, false);
    assert forall|k: int| 0 <= k < t.sessions.len() implies f(#[trigger] t.sessions[k]) == g(
        t.sessions[k],
    ) by {
        lemma_owned(t, t.sessions[k], child_id);
    }
    lemma_adds_up_to(t.sessions, f, g);
    assert forall|i: int| 0 <= i < out.len() && (#[trigger] out[i]).app_name == app_name implies {
        &&& out[i].total_s == added_up(t.sessions, length_part(t, child_id, app_name, false))
        &&& out[i].is_override <==> exists|k: int|
            0 <= k < t.overrides.len() && ascii_fold((#[trigger] t.overrides[k]).app_name)
                == ascii_fold(app_name)
        &&& out[i].is_override ==> exists|k: int|
            0 <= k < t.overrides.len() && ascii_fold((#[trigger] t.overrides[k]).app_name)
                == ascii_fold(app_name) && t.overrides[k].category == out[i].category
        &&& !out[i].is_override ==> exists|k: int| #[trigger]
            seen(t, child_id, app_name, k) && t.sessions[k].session.category == out[i].category
                && forall|j: int| #[trigger]
                seen(t, child_id, app_name, j) ==> t.sessions[j].session.start_ts
                    <= t.sessions[k].session.start_ts
    } by {
        let a = out[i];
        assert(is_app_row(t, child_id, a));
        assert(a.is_override <==> exists|k: int|
            0 <= k < t.overrides.len() && ascii_fold((#[trigger] t.overrides[k]).app_name)
                == ascii_fold(app_name)) by {
            if overridden(t.overrides, app_name) {
                let k = choose|k: int| overrides_app(t.overrides, app_name, k);
                assert(ascii_fold(t.overrides[k].app_name) == ascii_fold(app_name));
            }
            if exists|k: int|
                0 <= k < t.overrides.len() && ascii_fold((#[trigger] t.overrides[k]).app_name)
                    == ascii_fold(app_name) {
                let k = choose|k: int|
                    0 <= k < t.overrides.len() && ascii_fold((#[trigger] t.overrides[k]).app_name)
                        == ascii_fold(app_name);
                assert(overrides_app(t.overrides, app_name, k));
            }
        }
        if a.is_override {
            let k = choose|k: int| #[trigger]
                overrides_app(t.overrides, app_name, k) && t.overrides[k].category == a.category;
            assert(ascii_fold(t.overrides[k].app_name) == ascii_fold(app_name));
        } else {
            let k = choose|k: int| #[trigger]
                hits(t.sessions, p, app_name, k) && t.sessions[k].session.category == a.category
                    && forall|j: int| #[trigger]
                    hits(t.sessions, p, app_name, j) ==> t.sessions[k].session.start_ts
                        >= t.sessions[j].session.start_ts;
            assert(seen(t, child_id, app_name, k));
            assert forall|j: int| #[trigger] seen(t, child_id, app_name, j) implies t.sessions[j].session.start_ts
                <= t.sessions[k].session.start_ts by {
                assert(hits(t.sessions, p, app_name, j));
            }
        }
    }
    assert forall|i: int, j: int| 0 <= i < j < out.len() implies (#[trigger] out[i]).app_name != (
    #[trigger] out[j]).app_name && out[i].total_s >= out[j].total_s by {
        assert(super::reports::app_key()(out[i]) != super::reports::app_key()(out[j]));
        assert(<AppCategoryRow as Ordered>::leq(out[i], out[j]));
    }
}

/// Where several spellings of an application have a choice of the parent, the
/// first of them by name decides.
pub proof fn first_spelling_decides(
    t: MasterTables,
    child_id: Seq<char>,
    out: Seq<AppCategoryView>,
    i: int,
)
    requires
        is_app_list(t, child_id, out),
        0 <= i < out.len(),
        out[i].is_override,
    ensures
        exists|k: int|
            {
                &&& 0 <= k < t.overrides.len()
                &&& ascii_fold((#[trigger] t.overrides[k]).app_name) == ascii_fold(out[i].app_name)
                &&& t.overrides[k].category == out[i].category
                &&& forall|j: int|
                    0 <= j < t.overrides.len() && ascii_fold((#[trigger] t.overrides[j]).app_name)
                        == ascii_fold(out[i].app_name) ==> text_leq(
                        t.overrides[k].app_name,
                        t.overrides[j].app_name,
                    )
            },
{
    let a = out[i];
    assert(is_app_row(t, child_id, a));
    assert(override_category(t.overrides, a.app_name, a.category));
    let k = choose|k: int| #[trigger]
        overrides_app(t.overrides, a.app_name, k) && t.overrides[k].category == a.category
            && forall|j: int| #[trigger]
            overrides_app(t.overrides, a.app_name, j) ==> text_leq(
                t.overrides[k].app_name,
                t.overrides[j].app_name,
            );
    assert(ascii_fold(t.overrides[k].app_name) == ascii_fold(a.app_name));
    assert forall|j: int|
        0 <= j < t.overrides.len() && ascii_fold((#[trigger] t.overrides[j]).app_name)
            == ascii_fold(a.app_name) implies text_leq(
        t.overrides[k].app_name,
        t.overrides[j].app_name,
    ) by {
        assert(overrides_app(t.overrides, a.app_name, j));
    }
}

/// The list of applications without a category has a row for exactly those
/// with a session under `Other`, with the recorded length of these sessions,
/// most used first.
pub proof fn uncategorized_list_tells_every_app(
    t: MasterTables,
    child_id: Seq<char>,
    out: Seq<(Seq<char>, i64)>,
    app_name: Seq<char>,
)
    requires
        t.wf(),
        is_uncategorized_list(t, child_id, out),
    ensures
        (exists|i: int| 0 <= i < out.len() && (#[trigger] out[i]).0 == app_name) <==> (exists|k: int|
            seen(t, child_id, app_name, k) && t.sessions[k].session.category == Category::Other),
        forall|i: int|
            0 <= i < out.len() && (#[trigger] out[i]).0 == app_name ==> out[i].1 == added_up(
                t.sessions,
                length_part(t, child_id, app_name, true),
            ),
        forall|i: int, j: int|
            0 <= i < j < out.len() ==> (#[trigger] out[i]).0 != (#[trigger] out[j]).0 && out[i].1
                >= out[j].1,
{
    let p = uncategorized(t, child_id);
    assert forall|app: Seq<char>, k: int| #[trigger]
        hits(t.sessions, p, app, k) == (seen(t, child_id, app, k) && t.sessions[k].session.category
            == Category::Other) by {
        if 0 <= k < t.sessions.len() {
            lemma_owned(t, t.sessions[k], child_id);
        }
    }
    if exists|i: int| 0 <= i < out.len() && (#[trigger] out[i]).0 == app_name {
        let i = choose|i: int| 0 <= i < out.len() && (#[trigger] out[i]).0 == app_name;
        assert(used(t.sessions, p, out[i].0));
        let k = choose|k: int| hits(t.sessions, p, app_name, k);
        assert(seen(t, child_id, app_name, k));
    }
    if exists|k: int|
        seen(t, child_id, app_name, k) && t.sessions[k].session.category == Category::Other {
        let k = choose|k: int|
            seen(t, child_id, app_name, k) && t.sessions[k].session.category == Category::Other;
        assert(hits(t.sessions, p, app_name, k));
        assert(used(t.sessions, p, app_name));
    }
    let f = app_share(p, length(), app_name);
    let g = length_part(t, child_id, app_name, true);
    assert forall|k: int| 0 <= k < t.sessions.len() implies f(#[trigger] t.sessions[k]) == g(
        t.sessions[k],
    ) by {
        lemma_owned(t, t.sessions[k], child_id);
    }
    lemma_adds_up_to(t.sessions, f, g);
    assert(app_total(t, p, app_name) == added_up(t.sessions, g));
    assert forall|i: int, j: int| 0 <= i < j < out.len() implies (#[trigger] out[i]).0 != (
    #[trigger] out[j]).0 && out[i].1 >= out[j].1 by {
        assert(super::reports::name_key()(out[i]) != super::reports::name_key()(out[j]));
        assert(<(String, i64) as Ordered>::leq(out[i], out[j]));
    }
}

// ---- Overview ----
/// The line of a child tells its name, the seconds since local midnight and
/// since Monday, the sum of its points, and whether one of its workers was
/// heard of within the threshold.
pub proof fn summary_tells_the_child(
    t: MasterTables,
    c: ChildInfoView,
    now: i64,
    tz: i32,
    threshold_s: i64,
    midnight: int,
    monday: int,
)
    requires
        t.wf(),
        super::reports::summary_fits(t, c.id, now, tz),
        (midnight + tz) % 86_400 == 0,
        midnight <= now < midnight + 86_400,
        (monday + tz) % 604_800 == 345_600,
        monday <= now < monday + 604_800,
    ensures
        ({
            let s = summary_of(t, c, now, tz, threshold_s);
            &&& s.id == c.id
            &&& s.name == c.name
            &&& s.today_s == child_seconds(t, c.id, midnight, now as int)
            &&& s.week_s == child_seconds(t, c.id, monday, now as int)
            &&& s.points_balance == t.points.fold_left(
                0int,
                |acc: int, p: super::rows::PointsRowView|
                    acc + if p.child_id == c.id {
                        p.entry.points as int
                    } else {
                        0
                    },
            )
            &&& s.online <==> exists|i: int|
                0 <= i < t.workers.len() && (#[trigger] t.workers[i]).info.child_id == Some(c.id)
                    && (t.workers[i].info.last_seen matches Some(seen) && now - seen <= threshold_s)
        }),
{
    usage_counts_from_midnight_and_monday(t, c.id, now as int, tz as int, midnight, monday);
    super::reports::lemma_time_grows(t, c.id, monday, midnight, now as int);
    local_midnight_is_the_day_start(now as int, tz as int, midnight);
    local_monday_is_the_week_start(now as int, tz as int, monday);
    crate::timeutil::week_contains_its_instant(now as int, tz as int);
    balance_adds_all_points(t.points, c.id);
    let s = summary_of(t, c, now, tz, threshold_s);
    assert(s.online == online(t, c.id, now, threshold_s));
    if online(t, c.id, now, threshold_s) {
        let i = choose|i: int|
            0 <= i < t.workers.len() && (#[trigger] t.workers[i]).info.child_id == Some(c.id)
                && alive(t.workers[i].info, now, threshold_s);
        assert(t.workers[i].info.last_seen matches Some(seen) && now - seen <= threshold_s);
    }
    if exists|i: int|
        0 <= i < t.workers.len() && (#[trigger] t.workers[i]).info.child_id == Some(c.id) && (
        t.workers[i].info.last_seen matches Some(seen) && now - seen <= threshold_s) {
        let i = choose|i: int|
            0 <= i < t.workers.len() && (#[trigger] t.workers[i]).info.child_id == Some(c.id) && (
            t.workers[i].info.last_seen matches Some(seen) && now - seen <= threshold_s);
        assert(alive(t.workers[i].info, now, threshold_s));
    }
}

/// The balance of a child adds all of its points, and no others.
pub proof fn balance_adds_all_points(points: Seq<super::rows::PointsRowView>, child_id: Seq<char>)
    ensures
        super::ledger::balance(points, child_id) == points.fold_left(
            0int,
            |acc: int, p: super::rows::PointsRowView|
                acc + if p.child_id == child_id {
                    p.entry.points as int
                } else {
                    0
                },
        ),
    decreases points.len(),
{
    if points.len() > 0 {
        balance_adds_all_points(points.drop_last(), child_id);
    }
}

/// The total of an application adds the recorded lengths of its sessions on
/// the devices of the child.
pub proof fn totals_add_recorded_lengths(t: MasterTables, child_id: Seq<char>, app_name: Seq<char>)
    requires
        t.wf(),
    ensures
        app_total(t, owned(t, child_id), app_name) == added_up(
            t.sessions,
            length_part(t, child_id, app_name, false),
        ),
        app_total(t, uncategorized(t, child_id), app_name) == added_up(
            t.sessions,
            length_part(t, child_id, app_name, true),
        ),
{
    let f = app_share(owned(t, child_id), length(), app_name);
    let g = length_part(t, child_id, app_name, false);
    let h = app_share(uncategorized(t, child_id), length(), app_name);
    let k = length_part(t, child_id, app_name, true);
    assert forall|i: int| 0 <= i < t.sessions.len() implies f(#[trigger] t.sessions[i]) == g(
        t.sessions[i],
    ) && h(t.sessions[i]) == k(t.sessions[i]) by {
        lemma_owned(t, t.sessions[i], child_id);
    }
    lemma_adds_up_to(t.sessions, f, g);
    lemma_adds_up_to(t.sessions, h, k);
}

} // verus!
