//! What the dashboard shows of a child, across all of its workers.
use super::grouping::{group_by_app, group_key, grouped, has_group, Entry};
use super::ledger::{balance, list_overrides, points_balance};
use super::people::{
    child_infos, list_children, of_child, worker_infos, workers_of_child,
};
use super::rows::SessionRowView;
use super::selection::{
    app_share, earliest, entry_of, in_range, latest, length, lemma_group, lemma_groups, lemma_total,
    owned, selected, sessions_in_range, sessions_of_child, share, span, uncategorized,
    uncategorized_sessions, used,
};
use super::{MasterDb, MasterTables, StoreError};
use crate::model::{
    AppBreakdown, AppBreakdownView, Category, CategoryOverride, ChildInfo, ChildInfoView,
    ChildSummary, ChildSummaryView, OverrideView, SessionRecord, SessionView, TodBucket,
    TodDistribution, UsageTotals, WorkerInfo, WorkerInfoView,
};
use crate::seqs::{
    distinct, lemma_distinct_permuted, lemma_permuted_contains, lemma_sum_leq, lemma_sum_prefix,
    lemma_sum_same, lemma_sum_step, lemma_views_push, ordered, sort, sorted_copy, sum, views,
    Ordered,
};
use crate::text::{ascii_fold, eq_ignore_ascii_case, text_leq};
use crate::timeutil::{
    bucket, bucket_of, day_start, day_start_at, fits_i64, hour_at, overlap, week_contains_its_instant,
    week_fits, week_start, week_start_at,
};
use vstd::prelude::*;

verus! {

// ---- Time in a range ----
fn overlap_wide(s: i64, e: i64, from: i64, to: i64) -> (len: i128)
    ensures
        len == overlap(s as int, e as int, from as int, to as int),
        len >= 0,
{
    let end: i128 = if e < to { e as i128 } else { to as i128 };
    let begin: i128 = if s > from { s as i128 } else { from as i128 };
    if end > begin {
        end - begin
    } else {
        0
    }
}

/// The seconds of sessions that lie in `[from, to)`, if they can be held.
fn time_in(rows: &Vec<SessionRecord>, from: i64, to: i64) -> (res: Option<i64>)
    ensures
        match res {
            Some(n) => n == sum(views(rows@), span(from as int, to as int)),
            None => sum(views(rows@), span(from as int, to as int)) > i64::MAX,
        },
{
    let ghost s = views(rows@);
    let ghost w = span(from as int, to as int);
    let mut total: i64 = 0;
    let mut i: usize = 0;
    assert(s.take(0) =~= Seq::<SessionView>::empty());
    while i < rows.len()
        invariant
            i <= rows.len(),
            s == views(rows@),
            w == span(from as int, to as int),
            total == sum(s.take(i as int), w),
            total >= 0,
        decreases rows.len() - i,
    {
        let o = overlap_wide(rows[i].start_ts, rows[i].end_ts, from, to);
        proof {
            lemma_sum_step(s, w, i as int);
            lemma_sum_prefix(s, w, i + 1);
            assert(s[i as int] == rows@[i as int]@);
            assert(o == w(s[i as int]));
        }
        if o > (i64::MAX - total) as i128 {
            return None;
        }
        total = total + o as i64;
        i += 1;
    }
    assert(s.take(s.len() as int) =~= s);
    Some(total)
}

/// The seconds that a child spent in `[from, to)`, summed over all of its
/// workers.
pub open spec fn time_of(t: MasterTables, child_id: Seq<char>, from: int, to: int) -> int {
    sum(t.sessions, share(owned(t, child_id), span(from, to)))
}

/// A session outside of a range has no time in it.
pub proof fn lemma_time_in_range(
    t: MasterTables,
    child_id: Seq<char>,
    from: int,
    to: int,
    begin: int,
    end: int,
)
    requires
        from <= begin,
        end <= to,
    ensures
        sum(t.sessions, share(in_range(t, child_id, from, to), span(begin, end))) == time_of(
            t,
            child_id,
            begin,
            end,
        ),
{
    lemma_sum_same(
        t.sessions,
        share(in_range(t, child_id, from, to), span(begin, end)),
        share(owned(t, child_id), span(begin, end)),
    );
}

/// The time in a part of a range is not more than the time in the range.
pub proof fn lemma_time_grows(t: MasterTables, child_id: Seq<char>, from: int, later: int, to: int)
    requires
        from <= later,
    ensures
        0 <= time_of(t, child_id, later, to) <= time_of(t, child_id, from, to),
{
    lemma_sum_leq(
        t.sessions,
        share(owned(t, child_id), span(later, to)),
        share(owned(t, child_id), span(from, to)),
    );
    let f = share(owned(t, child_id), span(later, to));
    lemma_sum_prefix(t.sessions, f, t.sessions.len() as int);
    assert(t.sessions.take(t.sessions.len() as int) =~= t.sessions);
}

/// Today's and this week's usage.
pub open spec fn usage_of(t: MasterTables, child_id: Seq<char>, now: int, tz: int) -> (int, int) {
    (
        time_of(t, child_id, day_start_at(now, tz), now),
        time_of(t, child_id, week_start_at(now, tz), now),
    )
}

/// Today's and this week's usage in seconds, cut at the beginning of the day
/// and of the week, summed over all devices of the child.
pub fn usage_totals(db: &MasterDb, child_id: &str, now: i64, tz_offset_s: i32) -> (res: Result<
    UsageTotals,
    StoreError,
>)
    requires
        week_fits(now as int, tz_offset_s as int),
    ensures
        match res {
            Ok(u) => (u.today_s as int, u.week_s as int) == usage_of(
                db@,
                child_id@,
                now as int,
                tz_offset_s as int,
            ),
            Err(e) => e == StoreError::Overflow && usage_of(
                db@,
                child_id@,
                now as int,
                tz_offset_s as int,
            ).1 > i64::MAX,
        },
{
    let day_from = day_start(now, tz_offset_s);
    let week_from = week_start(now, tz_offset_s);
    let rows = sessions_in_range(db, child_id, week_from, now);
    let today = time_in(&rows, day_from, now);
    let week = time_in(&rows, week_from, now);
    proof {
        let (f, d, n) = (week_from as int, day_from as int, now as int);
        let p = in_range(db@, child_id@, f, n);
        week_contains_its_instant(n, tz_offset_s as int);
        lemma_total(db@.sessions, p, views(rows@), span(d, n));
        lemma_total(db@.sessions, p, views(rows@), span(f, n));
        lemma_time_in_range(db@, child_id@, f, n, d, n);
        lemma_time_in_range(db@, child_id@, f, n, f, n);
        lemma_time_grows(db@, child_id@, f, d, n);
    }
    match (today, week) {
        (Some(today_s), Some(week_s)) => Ok(UsageTotals { today_s, week_s }),
        _ => Err(StoreError::Overflow),
    }
}

// ---- Time by application ----
/// The most used application comes first.
impl Ordered for AppBreakdown {
    open spec fn leq(a: AppBreakdownView, b: AppBreakdownView) -> bool {
        a.duration_s >= b.duration_s
    }

    proof fn leq_total(a: AppBreakdownView, b: AppBreakdownView) {
    }

    proof fn leq_transitive(a: AppBreakdownView, b: AppBreakdownView, c: AppBreakdownView) {
    }

    fn le(&self, other: &Self) -> (b: bool) {
        self.duration_s >= other.duration_s
    }
}

/// One line of a breakdown: the time of the application in the range, the
/// time of all, and the category of its earliest session.
pub open spec fn is_line(
    t: MasterTables,
    child_id: Seq<char>,
    from: int,
    to: int,
    b: AppBreakdownView,
) -> bool {
    let p = in_range(t, child_id, from, to);
    &&& used(t.sessions, p, b.app_name)
    &&& b.duration_s == sum(t.sessions, app_share(p, span(from, to), b.app_name))
    &&& b.total_s == time_of(t, child_id, from, to)
    &&& earliest(t.sessions, p, b.app_name, b.category)
}

pub open spec fn breakdown_key() -> spec_fn(AppBreakdownView) -> Seq<char> {
    |b: AppBreakdownView| b.app_name
}

/// The breakdown of a range: one line for each application with a session in
/// it, longest time first.
pub open spec fn is_breakdown(
    t: MasterTables,
    child_id: Seq<char>,
    from: int,
    to: int,
    out: Seq<AppBreakdownView>,
) -> bool {
    &&& ordered::<AppBreakdown>(out)
    &&& distinct(out, breakdown_key())
    &&& forall|i: int| 0 <= i < out.len() ==> is_line(t, child_id, from, to, #[trigger] out[i])
    &&& forall|app: Seq<char>| #[trigger]
        used(t.sessions, in_range(t, child_id, from, to), app) ==> exists|i: int|
            0 <= i < out.len() && (#[trigger] out[i]).app_name == app
}

/// The time of each application in `[from, to)` across the child's devices.
pub fn app_breakdown(db: &MasterDb, child_id: &str, from: i64, to: i64) -> (res: Result<
    Vec<AppBreakdown>,
    StoreError,
>)
    ensures
        match res {
            Ok(list) => is_breakdown(db@, child_id@, from as int, to as int, views(list@)),
            Err(e) => e == StoreError::Overflow,
        },
        res is Err <==> time_of(db@, child_id@, from as int, to as int) > i64::MAX,
{
    let ghost p = in_range(db@, child_id@, from as int, to as int);
    let ghost w = span(from as int, to as int);
    let rows = sessions_in_range(db, child_id, from, to);
    let ghost s = views(rows@);
    proof {
        lemma_total(db@.sessions, p, s, w);
        lemma_time_in_range(db@, child_id@, from as int, to as int, from as int, to as int);
    }
    let total: i64 = match time_in(&rows, from, to) {
        Some(n) => n,
        None => return Err(StoreError::Overflow),
    };
    let mut entries: Vec<Entry> = Vec::new();
    let mut i: usize = 0;
    while i < rows.len()
        invariant
            i <= rows.len(),
            s == views(rows@),
            w == span(from as int, to as int),
            sum(s, w) == total,
            views(entries@) == s.map_values(entry_of(w)).take(i as int),
            forall|k: int|
                0 <= k < entries.len() ==> 0 <= (#[trigger] entries@[k]).weight <= i64::MAX,
        decreases rows.len() - i,
    {
        let r = &rows[i];
        let o = overlap_wide(r.start_ts, r.end_ts, from, to);
        let e = Entry { app_name: r.app_name.clone(), category: r.category, weight: o };
        proof {
            assert(s[i as int] == r@);
            lemma_sum_step(s, w, i as int);
            lemma_sum_prefix(s, w, i + 1);
            lemma_sum_prefix(s, w, i as int);
            lemma_views_push(entries@, e);
            assert(s.map_values(entry_of(w)).take(i + 1) =~= s.map_values(entry_of(w)).take(
                i as int,
            ).push(e@));
        }
        entries.push(e);
        i += 1;
    }
    assert(views(entries@) =~= s.map_values(entry_of(w)));
    let groups = group_by_app(&entries);
    let ghost gs = views(groups@);
    let mut out: Vec<AppBreakdown> = Vec::new();
    let mut k: usize = 0;
    while k < groups.len()
        invariant
            k <= groups.len(),
            gs == views(groups@),
            s == views(rows@),
            p == in_range(db@, child_id@, from as int, to as int),
            w == span(from as int, to as int),
            sorted_copy::<SessionRecord>(s, selected(db@.sessions, p)),
            grouped(s.map_values(entry_of(w)), gs),
            sum(db@.sessions, share(p, w)) == total,
            time_of(db@, child_id@, from as int, to as int) == total,
            out.len() == k,
            forall|j: int|
                0 <= j < k ==> (#[trigger] out@[j])@.app_name == gs[j].app_name && is_line(
                    db@,
                    child_id@,
                    from as int,
                    to as int,
                    out@[j]@,
                ),
        decreases groups.len() - k,
    {
        let g = &groups[k];
        proof {
            assert(gs[k as int] == g@);
            lemma_group(db@.sessions, p, s, w, g@);
            lemma_groups(db@.sessions, p, s, w, gs, g@.app_name);
            assert(has_group(gs, g@.app_name));
            lemma_sum_leq(db@.sessions, app_share(p, w, g@.app_name), share(p, w));
            let f = app_share(p, w, g@.app_name);
            lemma_sum_prefix(db@.sessions, f, db@.sessions.len() as int);
            assert(db@.sessions.take(db@.sessions.len() as int) =~= db@.sessions);
        }
        out.push(
            AppBreakdown {
                app_name: g.app_name.clone(),
                category: g.oldest,
                duration_s: g.total as i64,
                total_s: total,
            },
        );
        k += 1;
    }
    let ghost lines = views(out@);
    let list = sort(out);
    proof {
        let sorted = views(list@);
        assert(distinct(lines, breakdown_key())) by {
            assert forall|i: int, j: int|
                0 <= i < lines.len() && 0 <= j < lines.len() && i != j implies breakdown_key()(
                #[trigger] lines[i],
            ) != breakdown_key()(#[trigger] lines[j]) by {
                assert(group_key()(gs[i]) != group_key()(gs[j]));
            }
        }
        lemma_distinct_permuted(lines, sorted, breakdown_key());
        assert forall|i: int| 0 <= i < sorted.len() implies is_line(
            db@,
            child_id@,
            from as int,
            to as int,
            #[trigger] sorted[i],
        ) by {
            assert(sorted.contains(sorted[i]));
            lemma_permuted_contains(sorted, lines, sorted[i]);
        }
        assert forall|app: Seq<char>| #[trigger] used(db@.sessions, p, app) implies exists|i: int|
            0 <= i < sorted.len() && (#[trigger] sorted[i]).app_name == app by {
            lemma_groups(db@.sessions, p, s, w, gs, app);
            let j = choose|j: int| 0 <= j < gs.len() && (#[trigger] gs[j]).app_name == app;
            assert(lines[j].app_name == app);
            assert(lines.contains(lines[j]));
            lemma_permuted_contains(sorted, lines, lines[j]);
            let i = choose|i: int| 0 <= i < sorted.len() && sorted[i] == lines[j];
            assert(sorted[i].app_name == app);
        }
    }
    Ok(list)
}

// ---- Time of day ----
/// The seconds of a session in `[from, to)`, if it began at that time of day.
pub open spec fn span_at(from: int, to: int, tz: int, b: TodBucket) -> spec_fn(SessionView) -> int {
    |s: SessionView|
        if bucket(hour_at(s.start_ts as int, tz)) == b {
            span(from, to)(s)
        } else {
            0
        }
}

/// The seconds in `[from, to)` of the child's sessions that began at a time
/// of day.
pub open spec fn time_at(
    t: MasterTables,
    child_id: Seq<char>,
    from: int,
    to: int,
    tz: int,
    b: TodBucket,
) -> int {
    sum(t.sessions, share(owned(t, child_id), span_at(from, to, tz, b)))
}

fn bucket_at(ts: i64, tz_offset_s: i32) -> (b: TodBucket)
    ensures
        b == bucket(hour_at(ts as int, tz_offset_s as int)),
{
    let local: i128 = ts as i128 + tz_offset_s as i128;
    let hour: i128 = local.checked_rem_euclid(86_400).unwrap() / 3600;
    bucket_of(hour as u32)
}

fn time_in_bucket(rows: &Vec<SessionRecord>, from: i64, to: i64, tz_offset_s: i32, b: TodBucket) -> (res:
    Option<i64>)
    ensures
        match res {
            Some(n) => n == sum(
                views(rows@),
                span_at(from as int, to as int, tz_offset_s as int, b),
            ),
            None => sum(views(rows@), span_at(from as int, to as int, tz_offset_s as int, b))
                > i64::MAX,
        },
{
    let ghost s = views(rows@);
    let ghost w = span_at(from as int, to as int, tz_offset_s as int, b);
    let mut total: i64 = 0;
    let mut i: usize = 0;
    assert(s.take(0) =~= Seq::<SessionView>::empty());
    while i < rows.len()
        invariant
            i <= rows.len(),
            s == views(rows@),
            w == span_at(from as int, to as int, tz_offset_s as int, b),
            total == sum(s.take(i as int), w),
            total >= 0,
        decreases rows.len() - i,
    {
        proof {
            lemma_sum_step(s, w, i as int);
            lemma_sum_prefix(s, w, i + 1);
            assert(s[i as int] == rows@[i as int]@);
        }
        if bucket_at(rows[i].start_ts, tz_offset_s) == b {
            let o = overlap_wide(rows[i].start_ts, rows[i].end_ts, from, to);
            if o > (i64::MAX - total) as i128 {
                return None;
            }
            total = total + o as i64;
        }
        i += 1;
    }
    assert(s.take(s.len() as int) =~= s);
    Some(total)
}

proof fn lemma_time_at(
    t: MasterTables,
    child_id: Seq<char>,
    from: int,
    to: int,
    tz: int,
    b: TodBucket,
    s: Seq<SessionView>,
)
    requires
        sorted_copy::<SessionRecord>(s, selected(t.sessions, in_range(t, child_id, from, to))),
    ensures
        sum(s, span_at(from, to, tz, b)) == time_at(t, child_id, from, to, tz, b),
{
    let p = in_range(t, child_id, from, to);
    lemma_total(t.sessions, p, s, span_at(from, to, tz, b));
    lemma_sum_same(
        t.sessions,
        share(p, span_at(from, to, tz, b)),
        share(owned(t, child_id), span_at(from, to, tz, b)),
    );
}

/// Distribution over the times of day. A session counts for the time of day
/// at which it began.
pub fn tod_distribution(
    db: &MasterDb,
    child_id: &str,
    from: i64,
    to: i64,
    tz_offset_s: i32,
) -> (res: Result<TodDistribution, StoreError>)
    ensures
        ({
            let at = |b: TodBucket|
                time_at(db@, child_id@, from as int, to as int, tz_offset_s as int, b);
            match res {
                Ok(d) => d.morning_s == at(TodBucket::Morning) && d.afternoon_s == at(
                    TodBucket::Afternoon,
                ) && d.evening_s == at(TodBucket::Evening) && d.night_s == at(TodBucket::Night),
                Err(e) => e == StoreError::Overflow && exists|b: TodBucket|
                    #[trigger] at(b) > i64::MAX,
            }
        }),
{
    let rows = sessions_in_range(db, child_id, from, to);
    let morning = time_in_bucket(&rows, from, to, tz_offset_s, TodBucket::Morning);
    let afternoon = time_in_bucket(&rows, from, to, tz_offset_s, TodBucket::Afternoon);
    let evening = time_in_bucket(&rows, from, to, tz_offset_s, TodBucket::Evening);
    let night = time_in_bucket(&rows, from, to, tz_offset_s, TodBucket::Night);
    let ghost at = |b: TodBucket|
        time_at(db@, child_id@, from as int, to as int, tz_offset_s as int, b);
    proof {
        let (f, e, z) = (from as int, to as int, tz_offset_s as int);
        let s = views(rows@);
        lemma_time_at(db@, child_id@, f, e, z, TodBucket::Morning, s);
        lemma_time_at(db@, child_id@, f, e, z, TodBucket::Afternoon, s);
        lemma_time_at(db@, child_id@, f, e, z, TodBucket::Evening, s);
        lemma_time_at(db@, child_id@, f, e, z, TodBucket::Night, s);
        assert(morning is None ==> at(TodBucket::Morning) > i64::MAX);
        assert(afternoon is None ==> at(TodBucket::Afternoon) > i64::MAX);
        assert(evening is None ==> at(TodBucket::Evening) > i64::MAX);
        assert(night is None ==> at(TodBucket::Night) > i64::MAX);
    }
    match (morning, afternoon, evening, night) {
        (Some(morning_s), Some(afternoon_s), Some(evening_s), Some(night_s)) => Ok(
            TodDistribution { morning_s, afternoon_s, evening_s, night_s },
        ),
        _ => Err(StoreError::Overflow),
    }
}

// ---- Categories of applications ----
/// One application with the category that holds for it: the parent's, or
/// else the one that was recorded last.
#[derive(Debug)]
pub struct AppCategoryRow {
    pub app_name: String,
    pub category: Category,
    pub total_s: i64,
    pub is_override: bool,
}

pub struct AppCategoryView {
    pub app_name: Seq<char>,
    pub category: Category,
    pub total_s: i64,
    pub is_override: bool,
}

impl View for AppCategoryRow {
    type V = AppCategoryView;

    open spec fn view(&self) -> AppCategoryView {
        AppCategoryView {
            app_name: self.app_name@,
            category: self.category,
            total_s: self.total_s,
            is_override: self.is_override,
        }
    }
}

/// The most used application comes first.
impl Ordered for AppCategoryRow {
    open spec fn leq(a: AppCategoryView, b: AppCategoryView) -> bool {
        a.total_s >= b.total_s
    }

    proof fn leq_total(a: AppCategoryView, b: AppCategoryView) {
    }

    proof fn leq_transitive(a: AppCategoryView, b: AppCategoryView, c: AppCategoryView) {
    }

    fn le(&self, other: &Self) -> (b: bool) {
        self.total_s >= other.total_s
    }
}

/// Override `k` is for the application. Case does not matter in ASCII letters.
pub open spec fn overrides_app(overrides: Seq<OverrideView>, app_name: Seq<char>, k: int) -> bool {
    0 <= k < overrides.len() && ascii_fold(overrides[k].app_name) == ascii_fold(app_name)
}

pub open spec fn overridden(overrides: Seq<OverrideView>, app_name: Seq<char>) -> bool {
    exists|k: int| overrides_app(overrides, app_name, k)
}

/// The category that the parent chose for the application. Where several
/// spellings have an override, the first by name counts.
pub open spec fn override_category(
    overrides: Seq<OverrideView>,
    app_name: Seq<char>,
    c: Category,
) -> bool {
    exists|k: int| #[trigger]
        overrides_app(overrides, app_name, k) && overrides[k].category == c && forall|j: int|
            #[trigger]
            overrides_app(overrides, app_name, j) ==> text_leq(
                overrides[k].app_name,
                overrides[j].app_name,
            )
}

fn find_override(sorted: &Vec<CategoryOverride>, app_name: &str, Ghost(overrides): Ghost<
    Seq<OverrideView>,
>) -> (res: Option<Category>)
    requires
        sorted_copy::<CategoryOverride>(views(sorted@), overrides),
    ensures
        match res {
            Some(c) => override_category(overrides, app_name@, c),
            None => !overridden(overrides, app_name@),
        },
        res is Some <==> overridden(overrides, app_name@),
{
    let ghost s = views(sorted@);
    let mut i: usize = 0;
    while i < sorted.len()
        invariant
            i <= sorted.len(),
            s == views(sorted@),
            sorted_copy::<CategoryOverride>(s, overrides),
            forall|j: int| 0 <= j < i ==> !overrides_app(s, app_name@, j),
        decreases sorted.len() - i,
    {
        assert(s[i as int] == sorted@[i as int]@);
        if eq_ignore_ascii_case(sorted[i].app_name.as_str(), app_name) {
            proof {
                assert(s.contains(s[i as int]));
                lemma_permuted_contains(s, overrides, s[i as int]);
                let k = choose|k: int| 0 <= k < overrides.len() && overrides[k] == s[i as int];
                assert(overrides_app(overrides, app_name@, k));
                assert forall|j: int| #[trigger]
                    overrides_app(overrides, app_name@, j) implies text_leq(
                    overrides[k].app_name,
                    overrides[j].app_name,
                ) by {
                    assert(overrides.contains(overrides[j]));
                    lemma_permuted_contains(s, overrides, overrides[j]);
                    let m = choose|m: int| 0 <= m < s.len() && s[m] == overrides[j];
                    assert(overrides_app(s, app_name@, m));
                    if m == i {
                        crate::text::lemma_text_leq_total(s[m].app_name, s[m].app_name);
                    } else {
                        assert(i < m);
                        assert(CategoryOverride::leq(s[i as int], s[m]));
                    }
                }
            }
            return Some(sorted[i].category);
        }
        i += 1;
    }
    proof {
        if overridden(overrides, app_name@) {
            let k = choose|k: int| overrides_app(overrides, app_name@, k);
            assert(overrides.contains(overrides[k]));
            lemma_permuted_contains(s, overrides, overrides[k]);
            let m = choose|m: int| 0 <= m < s.len() && s[m] == overrides[k];
            assert(overrides_app(s, app_name@, m));
        }
    }
    None
}

/// The recorded length of all sessions of an application, out of a selection.
pub open spec fn app_total(
    t: MasterTables,
    p: spec_fn(SessionRowView) -> bool,
    app_name: Seq<char>,
) -> int {
    sum(t.sessions, app_share(p, length(), app_name))
}

pub open spec fn is_app_row(t: MasterTables, child_id: Seq<char>, a: AppCategoryView) -> bool {
    let p = owned(t, child_id);
    &&& used(t.sessions, p, a.app_name)
    &&& a.total_s == app_total(t, p, a.app_name)
    &&& a.is_override == overridden(t.overrides, a.app_name)
    &&& if a.is_override {
        override_category(t.overrides, a.app_name, a.category)
    } else {
        latest(t.sessions, p, a.app_name, a.category)
    }
}

pub open spec fn app_key() -> spec_fn(AppCategoryView) -> Seq<char> {
    |a: AppCategoryView| a.app_name
}

/// The list for the category editor: one row for each application that the
/// child has used, most used first.
pub open spec fn is_app_list(t: MasterTables, child_id: Seq<char>, out: Seq<AppCategoryView>) -> bool {
    &&& ordered::<AppCategoryRow>(out)
    &&& distinct(out, app_key())
    &&& forall|i: int| 0 <= i < out.len() ==> is_app_row(t, child_id, #[trigger] out[i])
    &&& forall|app: Seq<char>| #[trigger]
        used(t.sessions, owned(t, child_id), app) ==> exists|i: int|
            0 <= i < out.len() && (#[trigger] out[i]).app_name == app
}

/// The entries of sessions, weighted by their recorded length.
fn length_entries(rows: &Vec<SessionRecord>) -> (entries: Vec<Entry>)
    ensures
        views(entries@) == views(rows@).map_values(entry_of(length())),
        forall|k: int|
            0 <= k < entries.len() ==> -0x8000_0000_0000_0000 <= (#[trigger] entries@[k]).weight
                <= 0x8000_0000_0000_0000,
{
    let ghost s = views(rows@);
    let ghost w = length();
    let mut entries: Vec<Entry> = Vec::new();
    let mut i: usize = 0;
    while i < rows.len()
        invariant
            i <= rows.len(),
            s == views(rows@),
            w == length(),
            views(entries@) == s.map_values(entry_of(w)).take(i as int),
            forall|k: int|
                0 <= k < entries.len() ==> -0x8000_0000_0000_0000 <= (
                #[trigger] entries@[k]).weight <= 0x8000_0000_0000_0000,
        decreases rows.len() - i,
    {
        let r = &rows[i];
        let e = Entry {
            app_name: r.app_name.clone(),
            category: r.category,
            weight: r.duration_s as i128,
        };
        proof {
            assert(s[i as int] == r@);
            lemma_views_push(entries@, e);
            assert(s.map_values(entry_of(w)).take(i + 1) =~= s.map_values(entry_of(w)).take(
                i as int,
            ).push(e@));
        }
        entries.push(e);
        i += 1;
    }
    assert(views(entries@) =~= s.map_values(entry_of(w)));
    entries
}

/// The applications of a child with the category that holds for each.
pub fn apps_with_categories(db: &MasterDb, child_id: &str) -> (res: Result<
    Vec<AppCategoryRow>,
    StoreError,
>)
    ensures
        match res {
            Ok(list) => is_app_list(db@, child_id@, views(list@)),
            Err(e) => e == StoreError::Overflow && exists|app: Seq<char>|
                !fits_i64(#[trigger] app_total(db@, owned(db@, child_id@), app)),
        },
{
    let ghost p = owned(db@, child_id@);
    let ghost w = length();
    let rows = sessions_of_child(db, child_id);
    let ghost s = views(rows@);
    let entries = length_entries(&rows);
    let groups = group_by_app(&entries);
    let ghost gs = views(groups@);
    let overrides = list_overrides(db);
    let mut out: Vec<AppCategoryRow> = Vec::new();
    let mut k: usize = 0;
    while k < groups.len()
        invariant
            k <= groups.len(),
            gs == views(groups@),
            s == views(rows@),
            p == owned(db@, child_id@),
            w == length(),
            sorted_copy::<SessionRecord>(s, selected(db@.sessions, p)),
            sorted_copy::<CategoryOverride>(views(overrides@), db@.overrides),
            grouped(s.map_values(entry_of(w)), gs),
            out.len() == k,
            forall|j: int|
                0 <= j < k ==> (#[trigger] out@[j])@.app_name == gs[j].app_name && is_app_row(
                    db@,
                    child_id@,
                    out@[j]@,
                ),
        decreases groups.len() - k,
    {
        let g = &groups[k];
        proof {
            assert(gs[k as int] == g@);
            lemma_group(db@.sessions, p, s, w, g@);
            lemma_groups(db@.sessions, p, s, w, gs, g@.app_name);
            assert(has_group(gs, g@.app_name));
            assert(g@.total == app_total(db@, p, g@.app_name));
        }
        if g.total < i64::MIN as i128 || g.total > i64::MAX as i128 {
            return Err(StoreError::Overflow);
        }
        let chosen = find_override(&overrides, g.app_name.as_str(), Ghost(db@.overrides));
        let category = match chosen {
            Some(c) => c,
            None => g.newest,
        };
        out.push(
            AppCategoryRow {
                app_name: g.app_name.clone(),
                category,
                total_s: g.total as i64,
                is_override: chosen.is_some(),
            },
        );
        k += 1;
    }
    let ghost lines = views(out@);
    let list = sort(out);
    proof {
        let sorted = views(list@);
        assert(distinct(lines, app_key())) by {
            assert forall|i: int, j: int|
                0 <= i < lines.len() && 0 <= j < lines.len() && i != j implies app_key()(
                #[trigger] lines[i],
            ) != app_key()(#[trigger] lines[j]) by {
                assert(group_key()(gs[i]) != group_key()(gs[j]));
            }
        }
        lemma_distinct_permuted(lines, sorted, app_key());
        assert forall|i: int| 0 <= i < sorted.len() implies is_app_row(
            db@,
            child_id@,
            #[trigger] sorted[i],
        ) by {
            assert(sorted.contains(sorted[i]));
            lemma_permuted_contains(sorted, lines, sorted[i]);
        }
        assert forall|app: Seq<char>| #[trigger] used(db@.sessions, p, app) implies exists|i: int|
            0 <= i < sorted.len() && (#[trigger] sorted[i]).app_name == app by {
            lemma_groups(db@.sessions, p, s, w, gs, app);
            let j = choose|j: int| 0 <= j < gs.len() && (#[trigger] gs[j]).app_name == app;
            assert(lines[j].app_name == app);
            assert(lines.contains(lines[j]));
            lemma_permuted_contains(sorted, lines, lines[j]);
            let i = choose|i: int| 0 <= i < sorted.len() && sorted[i] == lines[j];
            assert(sorted[i].app_name == app);
        }
    }
    Ok(list)
}

// ---- Applications without a category ----
/// The most used application comes first.
impl Ordered for (String, i64) {
    open spec fn leq(a: (Seq<char>, i64), b: (Seq<char>, i64)) -> bool {
        a.1 >= b.1
    }

    proof fn leq_total(a: (Seq<char>, i64), b: (Seq<char>, i64)) {
    }

    proof fn leq_transitive(a: (Seq<char>, i64), b: (Seq<char>, i64), c: (Seq<char>, i64)) {
    }

    fn le(&self, other: &Self) -> (b: bool) {
        self.1 >= other.1
    }
}

pub open spec fn name_key() -> spec_fn((Seq<char>, i64)) -> Seq<char> {
    |a: (Seq<char>, i64)| a.0
}

/// The applications with sessions in no category of their own, and the
/// recorded length of these sessions, most used first.
pub open spec fn is_uncategorized_list(
    t: MasterTables,
    child_id: Seq<char>,
    out: Seq<(Seq<char>, i64)>,
) -> bool {
    let p = uncategorized(t, child_id);
    &&& ordered::<(String, i64)>(out)
    &&& distinct(out, name_key())
    &&& forall|i: int|
        0 <= i < out.len() ==> used(t.sessions, p, (#[trigger] out[i]).0) && out[i].1 == app_total(
            t,
            p,
            out[i].0,
        )
    &&& forall|app: Seq<char>| #[trigger]
        used(t.sessions, p, app) ==> exists|i: int| 0 <= i < out.len() && (#[trigger] out[i]).0 == app
}

/// The applications of a child that land in no category of their own.
pub fn uncategorized_apps(db: &MasterDb, child_id: &str) -> (res: Result<
    Vec<(String, i64)>,
    StoreError,
>)
    ensures
        match res {
            Ok(list) => is_uncategorized_list(db@, child_id@, views(list@)),
            Err(e) => e == StoreError::Overflow && exists|app: Seq<char>|
                !fits_i64(#[trigger] app_total(db@, uncategorized(db@, child_id@), app)),
        },
{
    let ghost p = uncategorized(db@, child_id@);
    let ghost w = length();
    let rows = uncategorized_sessions(db, child_id);
    let ghost s = views(rows@);
    let entries = length_entries(&rows);
    let groups = group_by_app(&entries);
    let ghost gs = views(groups@);
    let mut out: Vec<(String, i64)> = Vec::new();
    let mut k: usize = 0;
    while k < groups.len()
        invariant
            k <= groups.len(),
            gs == views(groups@),
            s == views(rows@),
            p == uncategorized(db@, child_id@),
            w == length(),
            sorted_copy::<SessionRecord>(s, selected(db@.sessions, p)),
            grouped(s.map_values(entry_of(w)), gs),
            out.len() == k,
            forall|j: int|
                0 <= j < k ==> (#[trigger] out@[j])@.0 == gs[j].app_name && used(
                    db@.sessions,
                    p,
                    out@[j]@.0,
                ) && out@[j]@.1 == app_total(db@, p, out@[j]@.0),
        decreases groups.len() - k,
    {
        let g = &groups[k];
        proof {
            assert(gs[k as int] == g@);
            lemma_group(db@.sessions, p, s, w, g@);
            lemma_groups(db@.sessions, p, s, w, gs, g@.app_name);
            assert(has_group(gs, g@.app_name));
            assert(g@.total == app_total(db@, p, g@.app_name));
        }
        if g.total < i64::MIN as i128 || g.total > i64::MAX as i128 {
            return Err(StoreError::Overflow);
        }
        out.push((g.app_name.clone(), g.total as i64));
        k += 1;
    }
    let ghost lines = views(out@);
    let list = sort(out);
    proof {
        let sorted = views(list@);
        assert(distinct(lines, name_key())) by {
            assert forall|i: int, j: int|
                0 <= i < lines.len() && 0 <= j < lines.len() && i != j implies name_key()(
                #[trigger] lines[i],
            ) != name_key()(#[trigger] lines[j]) by {
                assert(group_key()(gs[i]) != group_key()(gs[j]));
            }
        }
        lemma_distinct_permuted(lines, sorted, name_key());
        assert forall|i: int| 0 <= i < sorted.len() implies used(
            db@.sessions,
            p,
            (#[trigger] sorted[i]).0,
        ) && sorted[i].1 == app_total(db@, p, sorted[i].0) by {
            assert(sorted.contains(sorted[i]));
            lemma_permuted_contains(sorted, lines, sorted[i]);
        }
        assert forall|app: Seq<char>| #[trigger] used(db@.sessions, p, app) implies exists|i: int|
            0 <= i < sorted.len() && (#[trigger] sorted[i]).0 == app by {
            lemma_groups(db@.sessions, p, s, w, gs, app);
            let j = choose|j: int| 0 <= j < gs.len() && (#[trigger] gs[j]).app_name == app;
            assert(lines[j].0 == app);
            assert(lines.contains(lines[j]));
            lemma_permuted_contains(sorted, lines, lines[j]);
            let i = choose|i: int| 0 <= i < sorted.len() && sorted[i] == lines[j];
            assert(sorted[i].0 == app);
        }
    }
    Ok(list)
}

// ---- Overview ----
/// Whether a worker was heard of within the threshold.
pub open spec fn alive(w: WorkerInfoView, now: i64, threshold_s: i64) -> bool {
    w.last_seen matches Some(seen) && now - seen <= threshold_s
}

/// A child is online if any of its workers is.
pub open spec fn online(t: MasterTables, child_id: Seq<char>, now: i64, threshold_s: i64) -> bool {
    exists|i: int|
        0 <= i < t.workers.len() && (#[trigger] t.workers[i]).info.child_id == Some(child_id)
            && alive(t.workers[i].info, now, threshold_s)
}

/// Usage and points of a child can be held.
pub open spec fn summary_fits(t: MasterTables, child_id: Seq<char>, now: i64, tz: i32) -> bool {
    &&& usage_of(t, child_id, now as int, tz as int).1 <= i64::MAX
    &&& fits_i64(balance(t.points, child_id))
}

pub open spec fn summary_of(
    t: MasterTables,
    c: ChildInfoView,
    now: i64,
    tz: i32,
    threshold_s: i64,
) -> ChildSummaryView {
    let (today, week) = usage_of(t, c.id, now as int, tz as int);
    ChildSummaryView {
        id: c.id,
        name: c.name,
        online: online(t, c.id, now, threshold_s),
        today_s: today as i64,
        week_s: week as i64,
        points_balance: balance(t.points, c.id) as i64,
    }
}

fn any_alive(db: &MasterDb, child_id: &str, now: i64, threshold_s: i64) -> (yes: bool)
    ensures
        yes == online(db@, child_id@, now, threshold_s),
{
    let workers = workers_of_child(db, child_id);
    let ghost infos = worker_infos(db@.workers);
    let ghost mine = infos.filter(of_child(child_id@));
    let ghost listed = views(workers@);
    let mut i: usize = 0;
    while i < workers.len()
        invariant
            i <= workers.len(),
            listed == views(workers@),
            infos == worker_infos(db@.workers),
            mine == infos.filter(of_child(child_id@)),
            sorted_copy::<WorkerInfo>(listed, mine),
            forall|j: int| 0 <= j < i ==> !alive(#[trigger] listed[j], now, threshold_s),
        decreases workers.len() - i,
    {
        assert(listed[i as int] == workers@[i as int]@);
        if let Some(seen) = workers[i].last_seen {
            if now as i128 - seen as i128 <= threshold_s as i128 {
                proof {
                    let x = listed[i as int];
                    assert(listed.contains(x));
                    lemma_permuted_contains(listed, mine, x);
                    crate::seqs::lemma_filter_contains(infos, of_child(child_id@), x);
                    let k = choose|k: int| 0 <= k < infos.len() && infos[k] == x;
                    assert(db@.workers[k].info == x);
                }
                return true;
            }
        }
        i += 1;
    }
    proof {
        if online(db@, child_id@, now, threshold_s) {
            let k = choose|k: int|
                0 <= k < db@.workers.len() && (#[trigger] db@.workers[k]).info.child_id == Some(
                    child_id@,
                ) && alive(db@.workers[k].info, now, threshold_s);
            let x = infos[k];
            assert(infos.contains(x));
            crate::seqs::lemma_filter_contains(infos, of_child(child_id@), x);
            lemma_permuted_contains(listed, mine, x);
            let j = choose|j: int| 0 <= j < listed.len() && listed[j] == x;
            assert(alive(listed[j], now, threshold_s));
        }
    }
    false
}

/// The overview: for each child, by name, usage and points across its
/// devices, and whether any of them is online.
pub fn child_summaries(
    db: &MasterDb,
    now: i64,
    tz_offset_s: i32,
    online_threshold_s: i64,
) -> (res: Result<Vec<ChildSummary>, StoreError>)
    requires
        week_fits(now as int, tz_offset_s as int),
    ensures
        match res {
            Ok(list) => {
                &&& forall|i: int|
                    0 <= i < db@.children.len() ==> summary_fits(
                        db@,
                        (#[trigger] db@.children[i]).id,
                        now,
                        tz_offset_s,
                    )
                &&& exists|children: Seq<ChildInfoView>| #[trigger]
                    sorted_copy::<ChildInfo>(children, child_infos(db@.children)) && views(list@)
                        == children.map_values(
                        |c: ChildInfoView|
                            summary_of(db@, c, now, tz_offset_s, online_threshold_s),
                    )
            },
            Err(e) => e == StoreError::Overflow && exists|i: int|
                0 <= i < db@.children.len() && !summary_fits(
                    db@,
                    (#[trigger] db@.children[i]).id,
                    now,
                    tz_offset_s,
                ),
        },
{
    let children = list_children(db);
    let ghost listed = views(children@);
    let ghost infos = child_infos(db@.children);
    let ghost f = |c: ChildInfoView| summary_of(db@, c, now, tz_offset_s, online_threshold_s);
    let mut out: Vec<ChildSummary> = Vec::new();
    let mut i: usize = 0;
    while i < children.len()
        invariant
            week_fits(now as int, tz_offset_s as int),
            i <= children.len(),
            listed == views(children@),
            infos == child_infos(db@.children),
            sorted_copy::<ChildInfo>(listed, infos),
            f == (|c: ChildInfoView| summary_of(db@, c, now, tz_offset_s, online_threshold_s)),
            views(out@) == listed.map_values(f).take(i as int),
            forall|j: int| 0 <= j < i ==> summary_fits(db@, (#[trigger] listed[j]).id, now, tz_offset_s),
        decreases children.len() - i,
    {
        let c = &children[i];
        proof {
            assert(listed[i as int] == c@);
            assert(listed.contains(c@));
            lemma_permuted_contains(listed, infos, c@);
            let k = choose|k: int| 0 <= k < infos.len() && infos[k] == c@;
            assert(db@.children[k].id == c@.id);
        }
        let usage = match usage_totals(db, c.id.as_str(), now, tz_offset_s) {
            Ok(u) => u,
            Err(e) => return Err(e),
        };
        let is_online = any_alive(db, c.id.as_str(), now, online_threshold_s);
        let balance = match points_balance(db, c.id.as_str()) {
            Ok(n) => n,
            Err(e) => return Err(e),
        };
        let row = ChildSummary {
            id: c.id.clone(),
            name: c.name.clone(),
            online: is_online,
            today_s: usage.today_s,
            week_s: usage.week_s,
            points_balance: balance,
        };
        proof {
            lemma_views_push(out@, row);
            assert(row@ == f(c@));
            assert(listed.map_values(f).take(i + 1) =~= listed.map_values(f).take(i as int).push(
                row@,
            ));
        }
        out.push(row);
        i += 1;
    }
    proof {
        assert(views(out@) =~= listed.map_values(f));
        assert forall|k: int| 0 <= k < db@.children.len() implies summary_fits(
            db@,
            (#[trigger] db@.children[k]).id,
            now,
            tz_offset_s,
        ) by {
            let x = infos[k];
            assert(infos.contains(x));
            lemma_permuted_contains(listed, infos, x);
            let j = choose|j: int| 0 <= j < listed.len() && listed[j] == x;
            assert(summary_fits(db@, listed[j].id, now, tz_offset_s));
        }
    }
    Ok(out)
}

} // verus!
