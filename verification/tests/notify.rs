use timewise::model::{GoalConfig, Thresholds};
use timewise::notify::{BreakPrompt, Notifier, Outbox, WarningLadder};

#[derive(Default)]
struct Spy(Vec<(String, String)>);

impl Notifier for Spy {
    fn notify(&mut self, title: &str, body: &str) {
        self.0.push((title.to_string(), body.to_string()));
    }
}

fn goal(min: u32) -> GoalConfig {
    GoalConfig { daily_min: Some(min), weekly_min: None }
}

#[test]
fn br9_tiers_fire_in_order_once_per_day() {
    let mut ladder = WarningLadder::new(Thresholds::default()); // 90/100/110
    let mut spy = Spy::default();
    let g = goal(60); // 3600s

    ladder.evaluate("2026-07-25", 3000, &g, &mut spy); // 83%: nothing
    assert!(spy.0.is_empty());
    ladder.evaluate("2026-07-25", 3300, &g, &mut spy); // 91%: nudge
    assert_eq!(spy.0.len(), 1);
    assert_eq!(spy.0[0].0, "Almost there");
    ladder.evaluate("2026-07-25", 3400, &g, &mut spy); // still nudge tier
    assert_eq!(spy.0.len(), 1);
    ladder.evaluate("2026-07-25", 3650, &g, &mut spy); // 101%: limit
    assert_eq!(spy.0.len(), 2);
    ladder.evaluate("2026-07-25", 4000, &g, &mut spy); // 111%: over
    assert_eq!(spy.0.len(), 3);
    ladder.evaluate("2026-07-25", 5000, &g, &mut spy); // no repeats
    assert_eq!(spy.0.len(), 3);
    // New day: tiers re-arm.
    ladder.evaluate("2026-07-26", 4000, &g, &mut spy);
    assert_eq!(spy.0.len(), 6);
}

#[test]
fn no_daily_goal_no_notifications() {
    let mut ladder = WarningLadder::new(Thresholds::default());
    let mut spy = Spy::default();
    ladder.evaluate("2026-07-25", 999_999, &GoalConfig::default(), &mut spy);
    assert!(spy.0.is_empty());
}

#[test]
fn br10_prompts_after_threshold_and_resets_after_gap() {
    let mut bp = BreakPrompt::new(2400); // 40 min
    let mut spy = Spy::default();

    bp.tick(1000, true, &mut spy); // session starts
    bp.tick(1000 + 2399, true, &mut spy);
    assert!(spy.0.is_empty());
    bp.tick(1000 + 2400, true, &mut spy); // threshold reached
    assert_eq!(spy.0.len(), 1);
    bp.tick(1000 + 3000, true, &mut spy); // no repeat while same streak
    assert_eq!(spy.0.len(), 1);

    // Short gap (< 5 min): streak continues, still no re-prompt.
    bp.tick(1000 + 3100, false, &mut spy);
    bp.tick(1000 + 3300, true, &mut spy);
    bp.tick(1000 + 5000, true, &mut spy);
    assert_eq!(spy.0.len(), 1);

    // Long gap: reset; a new streak can prompt again.
    bp.tick(1000 + 5300, false, &mut spy); // inactive since 5300
    bp.tick(1000 + 5601, false, &mut spy); // gap > 300 -> reset
    assert_eq!(bp.continuous_elapsed(1000 + 5601), 0);
    bp.tick(1000 + 5700, true, &mut spy);
    bp.tick(1000 + 5700 + 2400, true, &mut spy);
    assert_eq!(spy.0.len(), 2);
}

#[test]
fn notices_in_full() {
    let mut ladder = WarningLadder::new(Thresholds::default());
    let mut out = Outbox::new();
    ladder.evaluate("d", 66 * 60, &goal(60), &mut out); // 110%: all tiers at once
    let expected = [
        ("Almost there", "Great job staying close to your goal!"),
        ("Goal reached", "You've hit your screen time goal for today - nice self-awareness!"),
        ("A little over", "You've been at it a while - maybe take a stretch break?"),
    ];
    assert_eq!(out.waiting.len(), 3);
    for (got, want) in out.waiting.iter().zip(expected) {
        assert_eq!((got.0.as_str(), got.1.as_str()), want);
    }
    // The same usage again, and a lower one, say nothing.
    ladder.evaluate("d", 66 * 60, &goal(60), &mut out);
    ladder.evaluate("d", 0, &goal(60), &mut out);
    assert_eq!(out.waiting.len(), 3);
}

#[test]
fn percentages_round_towards_zero() {
    let mut ladder = WarningLadder::new(Thresholds { nudge_pct: 0, limit_pct: 50, over_pct: 200 });
    let mut out = Outbox::new();
    ladder.evaluate("d", -37, &goal(1), &mut out); // -61%: nothing
    assert!(out.waiting.is_empty());
    ladder.evaluate("d", 29, &goal(1), &mut out); // 48%: the first tier
    assert_eq!(out.waiting.len(), 1);
    ladder.evaluate("d", 30, &goal(1), &mut out); // 50%
    assert_eq!(out.waiting.len(), 2);
    ladder.evaluate("d", i64::MAX, &goal(u32::MAX), &mut out);
    assert_eq!(out.waiting.len(), 3);
    let mut ladder = WarningLadder::new(Thresholds { nudge_pct: 0, limit_pct: 1, over_pct: 1 });
    ladder.evaluate("d", 0, &goal(0), &mut out); // a goal of zero is none
    assert_eq!(out.waiting.len(), 3);
    ladder.evaluate("d", -1, &goal(2), &mut out); // -0.8% counts as 0%
    assert_eq!(out.waiting.len(), 4);
}

#[test]
fn the_break_prompt_in_full() {
    let mut bp = BreakPrompt::new(0);
    let mut out = Outbox::new();
    bp.tick(7, true, &mut out);
    assert_eq!(out.waiting[0].0, "Time for a quick break?");
    assert_eq!(out.waiting[0].1, "You've been going for a while - stand up, stretch, rest your eyes!");
    assert_eq!(bp.continuous_elapsed(17), 10);
    assert_eq!(bp.continuous_elapsed(0), 0);
    // A gap of exactly five minutes ends the streak.
    bp.tick(306, false, &mut out);
    assert_eq!(bp.continuous_elapsed(17), 10);
    bp.tick(307, false, &mut out);
    assert_eq!(bp.continuous_elapsed(17), 0);
}

#[test]
fn a_window_after_a_long_gap_begins_a_new_streak() {
    let mut bp = BreakPrompt::new(450);
    let mut out = Outbox::new();
    bp.tick(1000, true, &mut out);
    bp.tick(1100, false, &mut out);
    bp.tick(1500, true, &mut out); // away for 400 s
    assert_eq!(bp.continuous_elapsed(1500), 0);
    assert!(out.waiting.is_empty());
    bp.tick(1950, true, &mut out);
    assert_eq!(out.waiting.len(), 1);

    // The gap counts from its first tick without a window.
    bp.tick(2000, false, &mut out);
    bp.tick(2200, false, &mut out);
    bp.tick(2299, true, &mut out); // 299 s: the streak goes on
    assert_eq!(bp.continuous_elapsed(2299), 799);
    bp.tick(2300, false, &mut out);
    bp.tick(2500, false, &mut out);
    bp.tick(2600, true, &mut out); // 300 s
    assert_eq!(bp.continuous_elapsed(2600), 0);
    bp.tick(3050, true, &mut out);
    assert_eq!(out.waiting.len(), 2);
}
