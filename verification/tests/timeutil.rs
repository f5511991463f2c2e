use timewise::model::TodBucket;
use timewise::timeutil::{
    bucket_of, clock_fits, day_clock_fits, day_start, local_date_string, local_hour, overlap_of,
    overlap_sum, week_start, SECS_PER_DAY,
};

#[test]
fn bucket_boundaries() {
    assert_eq!(bucket_of(4), TodBucket::Night);
    assert_eq!(bucket_of(5), TodBucket::Morning);
    assert_eq!(bucket_of(11), TodBucket::Morning);
    assert_eq!(bucket_of(12), TodBucket::Afternoon);
    assert_eq!(bucket_of(16), TodBucket::Afternoon);
    assert_eq!(bucket_of(17), TodBucket::Evening);
    assert_eq!(bucket_of(21), TodBucket::Evening);
    assert_eq!(bucket_of(22), TodBucket::Night);
    assert_eq!(bucket_of(23), TodBucket::Night);
    assert_eq!(bucket_of(0), TodBucket::Night);
}

#[test]
fn day_start_utc() {
    // 2026-07-25T04:00:00Z, tz offset 0 -> day start 2026-07-25T00:00:00Z
    let ts = 1_784_952_000; // spot-checked below via chrono
    let dt = chrono::DateTime::from_timestamp(day_start(ts, 0), 0).unwrap();
    assert_eq!(dt.format("%H:%M:%S").to_string(), "00:00:00");
    assert!(day_start(ts, 0) <= ts && ts < day_start(ts, 0) + SECS_PER_DAY);
}

#[test]
fn day_start_respects_offset() {
    // Same instant, +2h offset: local day start differs from UTC day start.
    let ts = 1_784_952_000;
    assert_eq!(day_start(ts, 7200), day_start(ts, 0) - 7200);
}

#[test]
fn week_starts_monday() {
    // Pick a known timestamp and walk back to Monday.
    let ts = 1_784_952_000;
    let ws = week_start(ts, 0);
    let dt = chrono::DateTime::from_timestamp(ws, 0).unwrap();
    assert_eq!(dt.format("%A").to_string(), "Monday");
    assert_eq!(dt.format("%H:%M:%S").to_string(), "00:00:00");
    assert!(ws <= ts && ts < ws + 7 * SECS_PER_DAY);
}

#[test]
fn overlap_clamps_to_range() {
    let sessions = vec![(100, 200), (150, 250), (0, 50), (300, 400)];
    // range [120, 220): (100,200)->80, (150,250)->70, others 0
    assert_eq!(overlap_sum(&sessions, 120, 220), 150);
    assert_eq!(overlap_sum(&sessions, 0, 1000), 350);
}

#[test]
fn date_string_format() {
    let ts = 1_784_952_000;
    let s = local_date_string(ts, 0);
    assert_eq!(s.len(), 10);
    assert_eq!(&s[4..5], "-");
}

#[test]
fn dates_are_exact() {
    assert_eq!(local_date_string(1_784_952_000, 0), "2026-07-25");
    assert_eq!(local_date_string(0, 0), "1970-01-01");
    assert_eq!(local_date_string(-1, 0), "1969-12-31");
    assert_eq!(local_date_string(0, -1), "1969-12-31");
    assert_eq!(local_date_string(951_782_400, 0), "2000-02-29");
    // Before the year 0 and beyond 9999 the year carries a sign.
    assert_eq!(local_date_string(-62_167_219_201, 0), "-0001-12-31");
    assert_eq!(local_date_string(253_402_300_800, 0), "+10000-01-01");
    // Beyond the calendar there is no date.
    assert_eq!(local_date_string(9_000_000_000_000_000, 0), "");
}

#[test]
fn offsets_cross_days_and_weeks() {
    // 1970-01-01 was a Thursday; the Monday before is 1969-12-29.
    assert_eq!(week_start(0, 0), -3 * SECS_PER_DAY);
    assert_eq!(day_start(-1, 0), -SECS_PER_DAY);
    // One hour before midnight UTC is the next day two hours east.
    let late = 5 * SECS_PER_DAY - 3600;
    assert_eq!(day_start(late, 7200), 5 * SECS_PER_DAY - 7200);
    assert_eq!(local_hour(late, 7200), 1);
    assert_eq!(local_hour(-1, 0), 23);
}

#[test]
fn instants_of_a_week_share_its_start() {
    let ws = week_start(1_784_952_000, 3600);
    for day in 0..7 {
        assert_eq!(week_start(ws + day * SECS_PER_DAY, 3600), ws);
        assert_eq!(week_start(ws + (day + 1) * SECS_PER_DAY - 1, 3600), ws);
    }
    assert_eq!(week_start(ws - 1, 3600), ws - 7 * SECS_PER_DAY);
}

#[test]
fn a_range_splits_without_loss() {
    let sessions = vec![(100, 200), (150, 250), (0, 50), (300, 400)];
    let whole = overlap_sum(&sessions, 0, 1000);
    assert_eq!(whole, overlap_sum(&sessions, 0, 170) + overlap_sum(&sessions, 170, 1000));
    assert_eq!(overlap_of(10, 5, 0, 100), 0);
    assert_eq!(overlap_of(10, 50, 0, 30), 20);
}

#[test]
fn clock_limits() {
    assert!(clock_fits(1_784_952_000, 7200));
    assert!(!clock_fits(i64::MAX, 1));
    assert!(!clock_fits(i64::MIN, 0));
    assert!(!day_clock_fits(i64::MIN, 0));
    assert!(day_clock_fits(i64::MAX, 0));
}
