//! Local days and weeks, and times of day. Stored timestamps are UTC epoch
//! seconds; the offset of local time is given in seconds east of UTC.
use crate::calendar::{self, names_day, utc_date, DATE_FORMAT, FIRST_DAY, LAST_DAY};
use crate::model::TodBucket;
use crate::seqs::{lemma_sum_prefix, lemma_sum_step, sum};
use vstd::prelude::*;

verus! {

pub const SECS_PER_DAY: i64 = 86_400;

/// The number of the local day that an instant lies in.
pub open spec fn local_day(ts: int, tz: int) -> int {
    (ts + tz) / 86_400
}

/// The instant at which a local day begins.
pub open spec fn midnight(day: int, tz: int) -> int {
    day * 86_400 - tz
}

/// The weekday of a day, with Monday as 0. Day 0 was a Thursday.
pub open spec fn weekday(day: int) -> int {
    (day + 3) % 7
}

/// The Monday on or before a day.
pub open spec fn monday(day: int) -> int {
    day - weekday(day)
}

pub open spec fn day_start_at(ts: int, tz: int) -> int {
    midnight(local_day(ts, tz), tz)
}

pub open spec fn week_start_at(ts: int, tz: int) -> int {
    midnight(monday(local_day(ts, tz)), tz)
}

pub open spec fn fits_i64(n: int) -> bool {
    i64::MIN <= n <= i64::MAX
}

/// Local time, local midnight and its instant can all be held.
pub open spec fn day_fits(ts: int, tz: int) -> bool {
    &&& fits_i64(ts + tz)
    &&& fits_i64(local_day(ts, tz) * 86_400)
    &&& fits_i64(day_start_at(ts, tz))
}

/// The beginning of the week can be held as well.
pub open spec fn week_fits(ts: int, tz: int) -> bool {
    day_fits(ts, tz) && fits_i64(week_start_at(ts, tz))
}

/// Whether the beginning of the day of an instant can be computed.
pub fn day_clock_fits(ts: i64, tz_offset_s: i32) -> (fits: bool)
    ensures
        fits == day_fits(ts as int, tz_offset_s as int),
{
    let tz: i128 = tz_offset_s as i128;
    let local: i128 = ts as i128 + tz;
    let midnight: i128 = local.checked_div_euclid(86_400).unwrap() * 86_400;
    let lo: i128 = i64::MIN as i128;
    let hi: i128 = i64::MAX as i128;
    lo <= local && local <= hi && lo <= midnight && midnight <= hi && lo <= midnight - tz
        && midnight - tz <= hi
}

/// Whether the beginnings of day and week of an instant can be computed.
pub fn clock_fits(ts: i64, tz_offset_s: i32) -> (fits: bool)
    ensures
        fits == week_fits(ts as int, tz_offset_s as int),
{
    let tz: i128 = tz_offset_s as i128;
    let local: i128 = ts as i128 + tz;
    let day: i128 = local.checked_div_euclid(86_400).unwrap();
    let midnight: i128 = day * 86_400;
    let since_monday: i128 = (day + 3).checked_rem_euclid(7).unwrap();
    let lo: i128 = i64::MIN as i128;
    let hi: i128 = i64::MAX as i128;
    lo <= local && local <= hi && lo <= midnight && midnight <= hi && lo <= midnight - tz
        && midnight - tz <= hi && lo <= midnight - tz - since_monday * 86_400 && midnight - tz
        - since_monday * 86_400 <= hi
}

/// Morning is 5 to 12, afternoon 12 to 17, evening 17 to 22, night the rest.
pub open spec fn bucket(hour: int) -> TodBucket {
    if 5 <= hour < 12 {
        TodBucket::Morning
    } else if 12 <= hour < 17 {
        TodBucket::Afternoon
    } else if 17 <= hour < 22 {
        TodBucket::Evening
    } else {
        TodBucket::Night
    }
}

pub fn bucket_of(hour: u32) -> (res: TodBucket)
    ensures
        res == bucket(hour as int),
{
    match hour {
        5..=11 => TodBucket::Morning,
        12..=16 => TodBucket::Afternoon,
        17..=21 => TodBucket::Evening,
        _ => TodBucket::Night,
    }
}

/// The local hour, from 0 to 23.
pub open spec fn hour_at(ts: int, tz: int) -> int {
    ((ts + tz) % 86_400) / 3600
}

pub fn local_hour(ts: i64, tz_offset_s: i32) -> (hour: u32)
    requires
        fits_i64(ts + tz_offset_s),
    ensures
        hour == hour_at(ts as int, tz_offset_s as int),
        hour < 24,
{
    let local: i64 = ts + tz_offset_s as i64;
    (local.checked_rem_euclid(SECS_PER_DAY).unwrap() / 3600) as u32
}

/// The instant of the local midnight before `ts`.
pub fn day_start(ts: i64, tz_offset_s: i32) -> (start: i64)
    requires
        day_fits(ts as int, tz_offset_s as int),
    ensures
        start == day_start_at(ts as int, tz_offset_s as int),
{
    let local: i64 = ts + tz_offset_s as i64;
    local - local.checked_rem_euclid(SECS_PER_DAY).unwrap() - tz_offset_s as i64
}

/// The instant of the local Monday midnight before `ts`.
pub fn week_start(ts: i64, tz_offset_s: i32) -> (start: i64)
    requires
        week_fits(ts as int, tz_offset_s as int),
    ensures
        start == week_start_at(ts as int, tz_offset_s as int),
{
    let ds = day_start(ts, tz_offset_s);
    let days_since_epoch: i64 = (ds + tz_offset_s as i64).checked_div_euclid(SECS_PER_DAY).unwrap();
    let weekday: i64 = (days_since_epoch + 3).checked_rem_euclid(7).unwrap();
    ds - weekday * SECS_PER_DAY
}

/// `text` is the local date of an instant, or empty where the calendar ends.
pub open spec fn is_local_date(text: Seq<char>, ts: int, tz: int) -> bool {
    let day = local_day(ts, tz);
    if FIRST_DAY <= day <= LAST_DAY {
        names_day(text, day)
    } else {
        text.len() == 0
    }
}

/// The local date of an instant, as text.
pub open spec fn local_date(ts: int, tz: int) -> Seq<char> {
    choose|text: Seq<char>| is_local_date(text, ts, tz)
}

/// There is one local date of an instant only.
pub proof fn lemma_local_date(text: Seq<char>, ts: int, tz: int)
    requires
        is_local_date(text, ts, tz),
    ensures
        text == local_date(ts, tz),
{
    let other = local_date(ts, tz);
    assert(is_local_date(other, ts, tz));
    let day = local_day(ts, tz);
    if FIRST_DAY <= day <= LAST_DAY {
        calendar::day_has_one_date_text(day, text, other);
    } else {
        assert(text =~= other);
    }
}

/// The local date, written `YYYY-MM-DD`; empty where the calendar ends.
pub fn local_date_string(ts: i64, tz_offset_s: i32) -> (text: String)
    requires
        day_fits(ts as int, tz_offset_s as int),
    ensures
        is_local_date(text@, ts as int, tz_offset_s as int),
{
    let ds: i64 = day_start(ts, tz_offset_s) + tz_offset_s as i64;
    match utc_date(ds, DATE_FORMAT) {
        Some(text) => text,
        None => String::new(),
    }
}

/// The seconds of `[s, e)` that lie in `[from, to)`.
pub open spec fn overlap(s: int, e: int, from: int, to: int) -> int {
    let end = if e < to { e } else { to };
    let begin = if s > from { s } else { from };
    if end > begin {
        end - begin
    } else {
        0
    }
}

/// The seconds of all spans that lie in `[from, to)`.
pub open spec fn overlap_total(spans: Seq<(i64, i64)>, from: int, to: int) -> int {
    sum(spans, |p: (i64, i64)| overlap(p.0 as int, p.1 as int, from, to))
}

/// The difference that is taken of one span can be held.
pub open spec fn span_fits(s: int, e: int, from: int, to: int) -> bool {
    let end = if e < to { e } else { to };
    let begin = if s > from { s } else { from };
    fits_i64(end - begin)
}

/// The seconds of one span that lie in `[from, to)`.
pub fn overlap_of(s: i64, e: i64, from: i64, to: i64) -> (len: i64)
    requires
        span_fits(s as int, e as int, from as int, to as int),
    ensures
        len == overlap(s as int, e as int, from as int, to as int),
{
    let end: i64 = if e < to { e } else { to };
    let begin: i64 = if s > from { s } else { from };
    if end > begin {
        end - begin
    } else {
        0
    }
}

/// The sum of the seconds of the sessions that lie in `[from, to)`. Sessions
/// may cross the boundaries.
pub fn overlap_sum(sessions: &[(i64, i64)], from: i64, to: i64) -> (total: i64)
    requires
        forall|i: int|
            0 <= i < sessions@.len() ==> span_fits(
                (#[trigger] sessions@[i]).0 as int,
                sessions@[i].1 as int,
                from as int,
                to as int,
            ),
        overlap_total(sessions@, from as int, to as int) <= i64::MAX,
    ensures
        total == overlap_total(sessions@, from as int, to as int),
{
    let ghost f = |p: (i64, i64)| overlap(p.0 as int, p.1 as int, from as int, to as int);
    let mut total: i64 = 0;
    let mut i: usize = 0;
    assert(sessions@.take(0) =~= Seq::<(i64, i64)>::empty());
    while i < sessions.len()
        invariant
            i <= sessions@.len(),
            f == (|p: (i64, i64)| overlap(p.0 as int, p.1 as int, from as int, to as int)),
            forall|k: int|
                0 <= k < sessions@.len() ==> span_fits(
                    (#[trigger] sessions@[k]).0 as int,
                    sessions@[k].1 as int,
                    from as int,
                    to as int,
                ),
            sum(sessions@, f) <= i64::MAX,
            total == sum(sessions@.take(i as int), f),
        decreases sessions@.len() - i,
    {
        proof {
            lemma_sum_step(sessions@, f, i as int);
            lemma_sum_prefix(sessions@, f, i + 1);
            lemma_sum_prefix(sessions@, f, i as int);
        }
        let (s, e) = sessions[i];
        total = total + overlap_of(s, e, from, to);
        i += 1;
    }
    assert(sessions@.take(sessions@.len() as int) =~= sessions@);
    total
}

// ---- Laws ----
/// An instant lies in the day that begins at its day start.
pub proof fn day_contains_its_instant(ts: int, tz: int)
    ensures
        day_start_at(ts, tz) <= ts < day_start_at(ts, tz) + SECS_PER_DAY,
        local_day(day_start_at(ts, tz), tz) == local_day(ts, tz),
{
}

/// An instant lies in the week that begins at its week start, which is a
/// Monday midnight and not after the day start.
pub proof fn week_contains_its_instant(ts: int, tz: int)
    ensures
        week_start_at(ts, tz) <= day_start_at(ts, tz) <= ts < week_start_at(ts, tz) + 7
            * SECS_PER_DAY,
        weekday(local_day(week_start_at(ts, tz), tz)) == 0,
        day_start_at(week_start_at(ts, tz), tz) == week_start_at(ts, tz),
{
    let day = local_day(ts, tz);
    let m = monday(day);
    assert(local_day(midnight(m, tz), tz) == m);
    assert((m + 3) % 7 == 0);
}

/// All instants of one week have the same week start.
pub proof fn week_start_is_shared(a: int, b: int, tz: int)
    requires
        week_start_at(a, tz) <= b < week_start_at(a, tz) + 7 * SECS_PER_DAY,
    ensures
        week_start_at(b, tz) == week_start_at(a, tz),
{
    let m = monday(local_day(a, tz));
    let d = local_day(b, tz);
    assert((m + 3) % 7 == 0);
    assert(m <= d < m + 7);
    assert((d + 3) % 7 == d - m);
}

/// A change of the offset shifts a day that stays the same by that much.
pub proof fn day_start_follows_the_offset(ts: int, a: int, b: int)
    requires
        local_day(ts, a) == local_day(ts, b),
    ensures
        day_start_at(ts, b) == day_start_at(ts, a) - (b - a),
{
}

/// Every hour of the day falls into one bucket, and the night wraps around
/// midnight.
pub proof fn buckets_cover_the_day(hour: int)
    requires
        0 <= hour < 24,
    ensures
        bucket(hour) == TodBucket::Night <==> (hour < 5 || hour >= 22),
        bucket(hour) == TodBucket::Morning <==> 5 <= hour <= 11,
        bucket(hour) == TodBucket::Afternoon <==> 12 <= hour <= 16,
        bucket(hour) == TodBucket::Evening <==> 17 <= hour <= 21,
{
}

/// Two instants have the same local date exactly if they lie on the same
/// local day.
pub proof fn dates_tell_days_apart(a: Seq<char>, b: Seq<char>, ts_a: int, ts_b: int, tz: int)
    requires
        FIRST_DAY <= local_day(ts_a, tz) <= LAST_DAY,
        FIRST_DAY <= local_day(ts_b, tz) <= LAST_DAY,
        is_local_date(a, ts_a, tz),
        is_local_date(b, ts_b, tz),
    ensures
        a == b <==> day_start_at(ts_a, tz) == day_start_at(ts_b, tz),
{
    if a == b {
        calendar::date_text_names_one_day(a, local_day(ts_a, tz), local_day(ts_b, tz));
    }
    if day_start_at(ts_a, tz) == day_start_at(ts_b, tz) {
        calendar::day_has_one_date_text(local_day(ts_a, tz), a, b);
    }
}

/// A time range can be cut in two without loss.
pub proof fn overlap_splits(spans: Seq<(i64, i64)>, from: int, mid: int, to: int)
    requires
        from <= mid <= to,
    ensures
        overlap_total(spans, from, to) == overlap_total(spans, from, mid) + overlap_total(
            spans,
            mid,
            to,
        ),
    decreases spans.len(),
{
    if spans.len() > 0 {
        overlap_splits(spans.drop_last(), from, mid, to);
    }
}

/// The day of an instant begins at the last local midnight: a multiple of a
/// day in local time, not after the instant and less than a day before it.
pub proof fn day_begins_at_local_midnight(ts: int, tz: int)
    ensures
        (day_start_at(ts, tz) + tz) % 86_400 == 0,
        day_start_at(ts, tz) <= ts < day_start_at(ts, tz) + 86_400,
        local_day(ts, tz) * 86_400 <= ts + tz < (local_day(ts, tz) + 1) * 86_400,
{
}

/// There is one such midnight only.
pub proof fn local_midnight_is_the_day_start(ts: int, tz: int, start: int)
    requires
        (start + tz) % 86_400 == 0,
        start <= ts < start + 86_400,
    ensures
        day_start_at(ts, tz) == start,
{
}

/// The week of an instant begins at the last local Monday midnight. 5 January
/// 1970, the fifth day of the epoch, was a Monday.
pub proof fn week_begins_on_monday(ts: int, tz: int)
    ensures
        (week_start_at(ts, tz) + tz) % 604_800 == 345_600,
        week_start_at(ts, tz) <= ts < week_start_at(ts, tz) + 604_800,
{
    let day = local_day(ts, tz);
    let m = monday(day);
    assert((m + 3) % 7 == 0);
    let k = (m + 3) / 7;
    assert(m == 7 * k - 3);
    assert(m * 86_400 == 604_800 * (k - 1) + 345_600);
    assert((604_800 * (k - 1) + 345_600) % 604_800 == 345_600);
}

/// Two Monday midnights less than a week apart are one.
proof fn lemma_same_monday(a: int, b: int)
    requires
        a % 604_800 == 345_600,
        b % 604_800 == 345_600,
        -604_800 < a - b < 604_800,
    ensures
        a == b,
{
    let (i, k) = (a / 604_800, b / 604_800);
    assert(a == 604_800 * i + 345_600);
    assert(b == 604_800 * k + 345_600);
    assert(a - b == 604_800 * (i - k));
}

/// There is one such Monday only.
#[verifier::spinoff_prover]
pub proof fn local_monday_is_the_week_start(ts: int, tz: int, start: int)
    requires
        (start + tz) % 604_800 == 345_600,
        start <= ts < start + 604_800,
    ensures
        week_start_at(ts, tz) == start,
{
    let w = week_start_at(ts, tz);
    assert((w + tz) % 604_800 == 345_600 && w <= ts < w + 604_800) by {
        week_begins_on_monday(ts, tz);
    }
    lemma_same_monday(start + tz, w + tz);
}

/// The hour of an instant counts full hours since local midnight.
pub proof fn hour_counts_from_midnight(ts: int, tz: int, start: int)
    requires
        (start + tz) % 86_400 == 0,
        start <= ts < start + 86_400,
    ensures
        start + hour_at(ts, tz) * 3600 <= ts < start + (hour_at(ts, tz) + 1) * 3600,
        0 <= hour_at(ts, tz) < 24,
{
    assert((ts + tz) % 86_400 == ts - start);
}

/// The seconds that a span and a range share: all of a span within the range,
/// none of one outside of it, the part after the range begins or before it
/// ends of one that crosses.
pub proof fn overlap_is_what_is_shared(s: int, e: int, from: int, to: int)
    requires
        s <= e,
        from <= to,
    ensures
        from <= s && e <= to ==> overlap(s, e, from, to) == e - s,
        e <= from || to <= s ==> overlap(s, e, from, to) == 0,
        s <= from <= e <= to ==> overlap(s, e, from, to) == e - from,
        from <= s <= to <= e ==> overlap(s, e, from, to) == to - s,
        s <= from && to <= e ==> overlap(s, e, from, to) == to - from,
        0 <= overlap(s, e, from, to) <= e - s,
        overlap(s, e, from, to) <= to - from,
{
}

/// What one more span adds to a total is its own share.
pub proof fn overlap_total_adds_spans(spans: Seq<(i64, i64)>, s: i64, e: i64, from: int, to: int)
    requires
        from <= s <= e <= to,
    ensures
        overlap_total(spans.push((s, e)), from, to) == overlap_total(spans, from, to) + (e - s),
        overlap_total(Seq::<(i64, i64)>::empty(), from, to) == 0,
{
    assert(spans.push((s, e)).drop_last() =~= spans);
}

/// The text of an instant's local date names the day that the instant lies in
/// in local time; where the calendar ends it is empty.
pub proof fn local_date_names_the_local_day(text: Seq<char>, ts: int, tz: int, midnight: int)
    requires
        is_local_date(text, ts, tz),
        (midnight + tz) % 86_400 == 0,
        midnight <= ts < midnight + 86_400,
    ensures
        ({
            let day = (midnight + tz) / 86_400;
            if FIRST_DAY <= day <= LAST_DAY {
                names_day(text, day)
            } else {
                text.len() == 0
            }
        }),
{
    assert((ts + tz) / 86_400 == (midnight + tz) / 86_400);
}

/// Every instant within some hundred thousand million years can be placed in
/// its day and week, whatever the offset.
pub proof fn ordinary_times_fit(ts: int, tz: int)
    requires
        -0x4000_0000_0000_0000 <= ts <= 0x4000_0000_0000_0000,
        i32::MIN <= tz <= i32::MAX,
    ensures
        day_fits(ts, tz),
        week_fits(ts, tz),
{
    day_begins_at_local_midnight(ts, tz);
    week_begins_on_monday(ts, tz);
    assert(local_day(ts, tz) * 86_400 == day_start_at(ts, tz) + tz);
}

// ---- What calls do ----
/// The sum of a longer list of spans is larger by the share of the new span.
pub proof fn sum_grows_by_the_share(
    spans: Seq<(i64, i64)>,
    sessions: &[(i64, i64)],
    from: i64,
    to: i64,
    total: i64,
    s: i64,
    e: i64,
)
    requires
        call_ensures(overlap_sum, (sessions, from, to), total),
        sessions@ == spans.push((s, e)),
        s <= e,
        from <= to,
    ensures
        from <= s && e <= to ==> total == overlap_total(spans, from as int, to as int) + (e - s),
        e <= from || to <= s ==> total == overlap_total(spans, from as int, to as int),
        s <= from && to <= e ==> total == overlap_total(spans, from as int, to as int) + (to - from),
{
    assert(spans.push((s, e)).drop_last() =~= spans);
    overlap_is_what_is_shared(s as int, e as int, from as int, to as int);
}

/// The text of the local date names the day of local time.
pub proof fn date_text_is_that_of_the_local_day(ts: i64, tz: i32, text: String, midnight: int)
    requires
        call_ensures(local_date_string, (ts, tz), text),
        (midnight + tz) % 86_400 == 0,
        midnight <= ts < midnight + 86_400,
        FIRST_DAY <= (midnight + tz) / 86_400 <= LAST_DAY,
    ensures
        names_day(text@, (midnight + tz) / 86_400),
{
    local_date_names_the_local_day(text@, ts as int, tz as int, midnight);
}

/// The hours of the times of day.
pub proof fn hours_have_their_bucket(hour: u32, b: TodBucket)
    requires
        call_ensures(bucket_of, (hour,), b),
    ensures
        b == TodBucket::Morning <==> 5 <= hour <= 11,
        b == TodBucket::Afternoon <==> 12 <= hour <= 16,
        b == TodBucket::Evening <==> 17 <= hour <= 21,
        b == TodBucket::Night <==> hour <= 4 || hour >= 22,
{
}

/// Two spans share the time from the later beginning to the earlier end.
pub proof fn spans_share_what_lies_in_both(s: i64, e: i64, from: i64, to: i64, len: i64)
    requires
        call_ensures(overlap_of, (s, e, from, to), len),
    ensures
        ({
            let begin = vstd::math::max(s as int, from as int);
            let end = vstd::math::min(e as int, to as int);
            len == vstd::math::max(0, end - begin)
        }),
{
}

} // verus!
