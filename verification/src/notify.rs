//! Notifications: warnings as daily usage nears and passes the goal, and
//! prompts to take a break. Both are state machines; what shows a notice is
//! behind [`Notifier`].
use crate::model::{GoalConfig, Thresholds};
use vstd::hash_set::StringHashSet;
use vstd::prelude::*;

verus! {

/// A title and a body.
pub type Notice = (Seq<char>, Seq<char>);

/// Something that shows notices, in the order in which they are given.
pub trait Notifier {
    /// What has been shown so far. Ordinary code, which has no use for it, can
    /// leave this out.
    open spec fn notices(&self) -> Seq<Notice> {
        arbitrary()
    }

    fn notify(&mut self, title: &str, body: &str)
        ensures
            final(self).notices() == old(self).notices().push((title@, body@)),
    ;
}

/// A notifier that keeps its notices until they are taken out.
#[derive(Debug)]
pub struct Outbox {
    pub waiting: Vec<(String, String)>,
}

impl Outbox {
    pub fn new() -> (res: Self)
        ensures
            res.notices() == Seq::<Notice>::empty(),
    {
        let res = Outbox { waiting: Vec::new() };
        assert(res.notices() =~= Seq::<Notice>::empty());
        res
    }
}

impl Notifier for Outbox {
    open spec fn notices(&self) -> Seq<Notice> {
        Seq::new(self.waiting@.len(), |i: int| (self.waiting@[i].0@, self.waiting@[i].1@))
    }

    fn notify(&mut self, title: &str, body: &str) {
        self.waiting.push((title.to_owned(), body.to_owned()));
        assert(self.notices() =~= old(self).notices().push((title@, body@)));
    }
}

// ---- Warnings ----
#[derive(Debug, Clone, Copy, PartialEq, Eq, PartialOrd, Ord, Hash, Structural)]
pub enum WarningTier {
    Nudge,
    Limit,
    Over,
}

/// The thresholds, and which tiers have fired on which dates.
#[verifier::ext_equal]
pub struct LadderView {
    pub thresholds: Thresholds,
    pub fired: Set<(Seq<char>, WarningTier)>,
}

/// Gives positively framed notices as daily usage crosses the thresholds of
/// the goal. Each tier fires at most once per local day.
pub struct WarningLadder {
    thresholds: Thresholds,
    nudged: StringHashSet,
    limited: StringHashSet,
    exceeded: StringHashSet,
}

impl View for WarningLadder {
    type V = LadderView;

    closed spec fn view(&self) -> LadderView {
        LadderView {
            thresholds: self.thresholds,
            fired: Set::new(
                |p: (Seq<char>, WarningTier)|
                    match p.1 {
                        WarningTier::Nudge => self.nudged@.contains(p.0),
                        WarningTier::Limit => self.limited@.contains(p.0),
                        WarningTier::Over => self.exceeded@.contains(p.0),
                    },
            ),
        }
    }
}

/// Usage in whole percent of the goal, rounded towards zero.
pub open spec fn percent(usage_s: int, goal_s: int) -> int {
    if usage_s >= 0 {
        usage_s * 100 / goal_s
    } else {
        -(-usage_s * 100 / goal_s)
    }
}

pub open spec fn threshold_of(t: Thresholds, tier: WarningTier) -> u32 {
    match tier {
        WarningTier::Nudge => t.nudge_pct,
        WarningTier::Limit => t.limit_pct,
        WarningTier::Over => t.over_pct,
    }
}

pub open spec fn notice_of(tier: WarningTier) -> Notice {
    match tier {
        WarningTier::Nudge => ("Almost there"@, "Great job staying close to your goal!"@),
        WarningTier::Limit => (
            "Goal reached"@,
            "You've hit your screen time goal for today - nice self-awareness!"@,
        ),
        WarningTier::Over => (
            "A little over"@,
            "You've been at it a while - maybe take a stretch break?"@,
        ),
    }
}

/// Whether a tier fires: there is a daily goal above zero, usage has reached
/// the threshold, and the tier has not fired on that date.
pub open spec fn fires(
    l: LadderView,
    date: Seq<char>,
    usage_s: int,
    goal: GoalConfig,
    tier: WarningTier,
) -> bool {
    &&& goal.daily_min matches Some(m) && m > 0 && percent(usage_s, m * 60) >= threshold_of(
        l.thresholds,
        tier,
    )
    &&& !l.fired.contains((date, tier))
}

/// The notices of one evaluation, lowest tier first.
pub open spec fn warnings(
    l: LadderView,
    date: Seq<char>,
    usage_s: int,
    goal: GoalConfig,
) -> Seq<Notice> {
    let of = |tier: WarningTier|
        if fires(l, date, usage_s, goal, tier) {
            seq![notice_of(tier)]
        } else {
            Seq::<Notice>::empty()
        };
    of(WarningTier::Nudge) + of(WarningTier::Limit) + of(WarningTier::Over)
}

/// The ladder after an evaluation: the tiers that fired are marked.
pub open spec fn warned(
    l: LadderView,
    date: Seq<char>,
    usage_s: int,
    goal: GoalConfig,
) -> LadderView {
    LadderView {
        fired: Set::new(
            |p: (Seq<char>, WarningTier)|
                l.fired.contains(p) || (p.0 == date && fires(l, date, usage_s, goal, p.1)),
        ),
        ..l
    }
}

impl WarningLadder {
    pub fn new(thresholds: Thresholds) -> (res: Self)
        ensures
            res@ == (LadderView { thresholds, fired: Set::empty() }),
    {
        let res = WarningLadder {
            thresholds,
            nudged: StringHashSet::new(),
            limited: StringHashSet::new(),
            exceeded: StringHashSet::new(),
        };
        assert(res@.fired =~= Set::<(Seq<char>, WarningTier)>::empty());
        res
    }

    /// `date` is the local date, `usage_s` today's usage with the session in
    /// progress. Without a daily goal nothing happens.
    pub fn evaluate<N: Notifier>(
        &mut self,
        date: &str,
        usage_s: i64,
        goal: &GoalConfig,
        notifier: &mut N,
    )
        ensures
            final(self)@ == warned(old(self)@, date@, usage_s as int, *goal),
            final(notifier).notices() == old(notifier).notices() + warnings(
                old(self)@,
                date@,
                usage_s as int,
                *goal,
            ),
    {
        let ghost before = self@;
        let ghost shown = notifier.notices();
        let daily_min: u32 = match goal.daily_min {
            Some(m) => m,
            None => 0,
        };
        if daily_min == 0 {
            proof {
                assert(warned(before, date@, usage_s as int, *goal) =~= before);
                assert(shown + warnings(before, date@, usage_s as int, *goal) =~= shown);
            }
            return;
        }
        let goal_s: i128 = daily_min as i128 * 60;
        let usage: i128 = usage_s as i128;
        let pct: i128 = if usage >= 0 {
            usage * 100 / goal_s
        } else {
            -(-usage * 100 / goal_s)
        };
        assert(pct == percent(usage_s as int, daily_min * 60));
        if pct >= self.thresholds.nudge_pct as i128 && !self.nudged.contains(date) {
            self.nudged.insert(date.to_owned());
            notifier.notify("Almost there", "Great job staying close to your goal!");
        }
        if pct >= self.thresholds.limit_pct as i128 && !self.limited.contains(date) {
            self.limited.insert(date.to_owned());
            notifier.notify(
                "Goal reached",
                "You've hit your screen time goal for today - nice self-awareness!",
            );
        }
        if pct >= self.thresholds.over_pct as i128 && !self.exceeded.contains(date) {
            self.exceeded.insert(date.to_owned());
            notifier.notify(
                "A little over",
                "You've been at it a while - maybe take a stretch break?",
            );
        }
        proof {
            assert(before.fired.contains((date@, WarningTier::Nudge)) == old(self).nudged@.contains(
                date@,
            ));
            assert(before.fired.contains((date@, WarningTier::Limit)) == old(
                self,
            ).limited@.contains(date@));
            assert(before.fired.contains((date@, WarningTier::Over)) == old(
                self,
            ).exceeded@.contains(date@));
            assert(self@ =~= warned(before, date@, usage_s as int, *goal));
            assert(notifier.notices() =~= shown + warnings(before, date@, usage_s as int, *goal));
        }
    }
}

// ---- Breaks ----
/// Since when there has been activity, when it was last seen, since when no
/// window has been focused, and whether the prompt for this streak was given.
pub struct BreakView {
    pub threshold_s: i64,
    pub reset_gap_s: i64,
    pub continuous_start: Option<i64>,
    pub last_active: Option<i64>,
    pub away_since: Option<i64>,
    pub prompted: bool,
}

/// Suggests a break after continuous usage. A gap of five minutes without a
/// focused window begins a new streak.
#[derive(Debug)]
pub struct BreakPrompt {
    threshold_s: i64,
    reset_gap_s: i64,
    continuous_start: Option<i64>,
    last_active: Option<i64>,
    away_since: Option<i64>,
    prompted: bool,
}

impl View for BreakPrompt {
    type V = BreakView;

    closed spec fn view(&self) -> BreakView {
        BreakView {
            threshold_s: self.threshold_s,
            reset_gap_s: self.reset_gap_s,
            continuous_start: self.continuous_start,
            last_active: self.last_active,
            away_since: self.away_since,
            prompted: self.prompted,
        }
    }
}

/// Whether a gap without a focused window has lasted long enough by `now` to
/// end the streak. While there is still no window the gap counts from the
/// last activity; a window that comes back ends a gap that counts from the
/// first tick without one.
pub open spec fn gap_over(b: BreakView, now: i64, in_session: bool) -> bool {
    if in_session {
        b.away_since matches Some(away) && now - away >= b.reset_gap_s
    } else {
        b.last_active matches Some(last) && now - last >= b.reset_gap_s
    }
}

/// No streak.
pub open spec fn between_streaks(b: BreakView) -> BreakView {
    BreakView {
        continuous_start: None,
        last_active: None,
        away_since: None,
        prompted: false,
        ..b
    }
}

/// What a tick goes on from: a streak that a gap has ended is forgotten.
pub open spec fn carried_on(b: BreakView, now: i64, in_session: bool) -> BreakView {
    if gap_over(b, now, in_session) {
        between_streaks(b)
    } else {
        b
    }
}

/// When the streak began that a tick with a focused window belongs to.
pub open spec fn streak_start(b: BreakView, now: i64) -> i64 {
    match carried_on(b, now, true).continuous_start {
        Some(s) => s,
        None => now,
    }
}

/// Whether a tick gives the prompt.
pub open spec fn prompts(b: BreakView, now: i64, in_session: bool) -> bool {
    in_session && !carried_on(b, now, true).prompted && now - streak_start(b, now) >= b.threshold_s
}

/// The state after a tick.
pub open spec fn ticked(b: BreakView, now: i64, in_session: bool) -> BreakView {
    let c = carried_on(b, now, in_session);
    if in_session {
        BreakView {
            last_active: Some(now),
            away_since: None,
            continuous_start: Some(streak_start(b, now)),
            prompted: c.prompted || prompts(b, now, in_session),
            ..c
        }
    } else if c.last_active is Some && c.away_since is None {
        BreakView { away_since: Some(now), ..c }
    } else {
        c
    }
}

pub open spec fn break_notice() -> Notice {
    (
        "Time for a quick break?"@,
        "You've been going for a while - stand up, stretch, rest your eyes!"@,
    )
}

impl BreakPrompt {
    pub fn new(threshold_s: i64) -> (res: Self)
        ensures
            res@ == (BreakView {
                threshold_s,
                reset_gap_s: 300,
                continuous_start: None,
                last_active: None,
                away_since: None,
                prompted: false,
            }),
    {
        BreakPrompt {
            threshold_s,
            reset_gap_s: 300,
            continuous_start: None,
            last_active: None,
            away_since: None,
            prompted: false,
        }
    }

    fn forget_streak(&mut self)
        ensures
            final(self)@ == between_streaks(old(self)@),
    {
        self.continuous_start = None;
        self.last_active = None;
        self.away_since = None;
        self.prompted = false;
    }

    /// `in_session` says that a window is focused.
    pub fn tick<N: Notifier>(&mut self, now: i64, in_session: bool, notifier: &mut N)
        ensures
            final(self)@ == ticked(old(self)@, now, in_session),
            final(notifier).notices() == if prompts(old(self)@, now, in_session) {
                old(notifier).notices().push(break_notice())
            } else {
                old(notifier).notices()
            },
    {
        if in_session {
            if let Some(away) = self.away_since {
                if now as i128 - away as i128 >= self.reset_gap_s as i128 {
                    self.forget_streak();
                }
            }
            self.last_active = Some(now);
            self.away_since = None;
            let start: i64 = match self.continuous_start {
                Some(s) => s,
                None => now,
            };
            self.continuous_start = Some(start);
            if !self.prompted && now as i128 - start as i128 >= self.threshold_s as i128 {
                notifier.notify(
                    "Time for a quick break?",
                    "You've been going for a while - stand up, stretch, rest your eyes!",
                );
                self.prompted = true;
            }
        } else if let Some(last) = self.last_active {
            if now as i128 - last as i128 >= self.reset_gap_s as i128 {
                self.forget_streak();
            } else if self.away_since.is_none() {
                self.away_since = Some(now);
            }
        }
    }

    /// The length of the streak so far.
    pub fn continuous_elapsed(&self, now: i64) -> (secs: i64)
        requires
            self@.continuous_start matches Some(s) ==> now - s <= i64::MAX,
        ensures
            secs == match self@.continuous_start {
                Some(s) => if now > s {
                    now - s
                } else {
                    0
                },
                None => 0,
            },
    {
        match self.continuous_start {
            Some(s) => if now > s {
                now - s
            } else {
                0
            },
            None => 0,
        }
    }
}

// ---- Laws ----
/// A tier that has fired on a date does not fire on it again, whatever the
/// usage and the goal, and stays marked.
pub proof fn tier_fires_once_a_day(
    l: LadderView,
    date: Seq<char>,
    usage_s: int,
    goal: GoalConfig,
    again_s: int,
    other: GoalConfig,
    tier: WarningTier,
)
    requires
        fires(l, date, usage_s, goal, tier),
    ensures
        !fires(warned(l, date, usage_s, goal), date, again_s, other, tier),
        warned(warned(l, date, usage_s, goal), date, again_s, other).fired.contains((date, tier)),
{
}

/// Evaluating twice in a row gives no second notice.
pub proof fn same_usage_warns_once(l: LadderView, date: Seq<char>, usage_s: int, goal: GoalConfig)
    ensures
        warnings(warned(l, date, usage_s, goal), date, usage_s, goal) == Seq::<Notice>::empty(),
        warned(warned(l, date, usage_s, goal), date, usage_s, goal) == warned(
            l,
            date,
            usage_s,
            goal,
        ),
{
    let after = warned(l, date, usage_s, goal);
    assert(warnings(after, date, usage_s, goal) =~= Seq::<Notice>::empty());
    assert(warned(after, date, usage_s, goal) =~= after);
}

/// A new date arms every tier again: what happened on one date does not
/// matter on another.
pub proof fn dates_are_independent(
    l: LadderView,
    date: Seq<char>,
    usage_s: int,
    goal: GoalConfig,
    next: Seq<char>,
    next_s: int,
    next_goal: GoalConfig,
)
    requires
        next != date,
    ensures
        warnings(warned(l, date, usage_s, goal), next, next_s, next_goal) == warnings(
            l,
            next,
            next_s,
            next_goal,
        ),
{
    let after = warned(l, date, usage_s, goal);
    assert forall|tier: WarningTier|
        fires(after, next, next_s, next_goal, tier) == fires(l, next, next_s, next_goal, tier) by {
    }
    assert(warnings(after, next, next_s, next_goal) =~= warnings(l, next, next_s, next_goal));
}

/// Without a daily goal, or with one of zero, nothing is shown or marked.
pub proof fn no_goal_no_warnings(l: LadderView, date: Seq<char>, usage_s: int, goal: GoalConfig)
    requires
        goal.daily_min is None || goal.daily_min == Some(0u32),
    ensures
        warnings(l, date, usage_s, goal) == Seq::<Notice>::empty(),
        warned(l, date, usage_s, goal) == l,
{
    assert(warnings(l, date, usage_s, goal) =~= Seq::<Notice>::empty());
    assert(warned(l, date, usage_s, goal) =~= l);
}

/// With thresholds that rise, a higher tier is reached only where the lower
/// ones are: tiers fire in order.
pub proof fn tiers_fire_in_order(l: LadderView, date: Seq<char>, usage_s: int, goal: GoalConfig)
    requires
        l.thresholds.nudge_pct <= l.thresholds.limit_pct <= l.thresholds.over_pct,
    ensures
        fires(l, date, usage_s, goal, WarningTier::Limit) ==> warned(
            l,
            date,
            usage_s,
            goal,
        ).fired.contains((date, WarningTier::Nudge)),
        fires(l, date, usage_s, goal, WarningTier::Over) ==> warned(
            l,
            date,
            usage_s,
            goal,
        ).fired.contains((date, WarningTier::Limit)),
{
}

/// In one streak the prompt comes at most once: after it was given, ticks in
/// a session give none.
pub proof fn one_prompt_per_streak(b: BreakView, now: i64, later: i64)
    requires
        prompts(b, now, true),
    ensures
        !prompts(ticked(b, now, true), later, true),
        ticked(ticked(b, now, true), later, true).prompted,
{
}

/// A short gap does not end a streak: while it lasts the streak stands, and
/// the window that comes back goes on with it.
pub proof fn short_gap_keeps_the_streak(b: BreakView, gone: i64, back: i64)
    requires
        b.last_active matches Some(last) && gone - last < b.reset_gap_s,
        b.continuous_start is Some,
        b.away_since is None,
        back - gone < b.reset_gap_s,
    ensures
        ({
            let away = ticked(b, gone, false);
            away.continuous_start == b.continuous_start && away.prompted == b.prompted && ticked(
                away,
                back,
                true,
            ).continuous_start == b.continuous_start && (b.prompted ==> !prompts(away, back, true))
        }),
{
}

/// A gap counts from its first tick without a window, however many follow.
pub proof fn gap_counts_from_its_first_tick(b: BreakView, gone: i64, later: i64)
    requires
        b.last_active matches Some(last) && gone - last < b.reset_gap_s && later - last
            < b.reset_gap_s,
        b.away_since is None,
    ensures
        ticked(ticked(b, gone, false), later, false) == ticked(b, gone, false),
        ticked(b, gone, false).away_since == Some(gone),
{
}

/// A window that comes back after a long gap begins a new streak, even if no
/// tick fell into the end of the gap.
pub proof fn return_after_a_long_gap_begins_a_new_streak(
    b: BreakView,
    gone: i64,
    back: i64,
    later: i64,
)
    requires
        b.last_active is Some,
        b.away_since is None,
        back - gone >= b.reset_gap_s,
        b.threshold_s > 0,
        later - back >= b.threshold_s,
    ensures
        ({
            let fresh = ticked(ticked(b, gone, false), back, true);
            fresh.continuous_start == Some(back) && !fresh.prompted && prompts(fresh, later, true)
        }),
{
}

/// A long gap ends the streak: the next one begins with the next session and
/// can prompt again.
pub proof fn long_gap_begins_a_new_streak(b: BreakView, gap: i64, now: i64, later: i64)
    requires
        b.last_active matches Some(last) && gap - last >= b.reset_gap_s,
        b.threshold_s > 0,
        later - now >= b.threshold_s,
    ensures
        ({
            let fresh = ticked(ticked(b, gap, false), now, true);
            fresh.continuous_start == Some(now) && !fresh.prompted && prompts(fresh, later, true)
        }),
{
}

// ---- When notices come ----
proof fn lemma_percent(usage_s: int, goal_s: int, pct: int)
    requires
        usage_s >= 0,
        goal_s > 0,
    ensures
        percent(usage_s, goal_s) >= pct <==> usage_s * 100 >= pct * goal_s,
{
    let a = usage_s * 100;
    let q = a / goal_s;
    vstd::arithmetic::div_mod::lemma_fundamental_div_mod(a, goal_s);
    let r = a % goal_s;
    assert(0 <= r < goal_s);
    assert(a == goal_s * q + r);
    assert(q >= pct <==> a >= pct * goal_s) by (nonlinear_arith)
        requires
            a == goal_s * q + r,
            0 <= r < goal_s,
            goal_s > 0,
    ;
}

/// The share of the goal at which a tier is reached.
pub open spec fn share_of(t: Thresholds, tier: WarningTier) -> int {
    match tier {
        WarningTier::Nudge => t.nudge_pct as int,
        WarningTier::Limit => t.limit_pct as int,
        WarningTier::Over => t.over_pct as int,
    }
}

/// A tier fires exactly if there is a daily goal of some minutes, the usage is
/// at least the tier's percentage of these, and the tier has not fired on the
/// date.
pub proof fn tier_fires_at_its_share_of_the_goal(
    l: LadderView,
    date: Seq<char>,
    usage_s: int,
    goal: GoalConfig,
    tier: WarningTier,
)
    requires
        usage_s >= 0,
    ensures
        fires(l, date, usage_s, goal, tier) <==> (goal.daily_min matches Some(m) && m > 0 && usage_s
            * 100 >= share_of(l.thresholds, tier) * (m * 60)) && !l.fired.contains((date, tier)),
{
    if let Some(m) = goal.daily_min {
        if m > 0 {
            lemma_percent(usage_s, m * 60, share_of(l.thresholds, tier));
        }
    }
}

proof fn lemma_notices_differ()
    ensures
        notice_of(WarningTier::Nudge) == (
            "Almost there"@,
            "Great job staying close to your goal!"@,
        ),
        notice_of(WarningTier::Limit) == (
            "Goal reached"@,
            "You've hit your screen time goal for today - nice self-awareness!"@,
        ),
        notice_of(WarningTier::Over) == (
            "A little over"@,
            "You've been at it a while - maybe take a stretch break?"@,
        ),
        break_notice() == (
            "Time for a quick break?"@,
            "You've been going for a while - stand up, stretch, rest your eyes!"@,
        ),
        notice_of(WarningTier::Nudge) != notice_of(WarningTier::Limit),
        notice_of(WarningTier::Nudge) != notice_of(WarningTier::Over),
        notice_of(WarningTier::Limit) != notice_of(WarningTier::Over),
        notice_of(WarningTier::Nudge) != break_notice(),
        notice_of(WarningTier::Limit) != break_notice(),
        notice_of(WarningTier::Over) != break_notice(),
{
    reveal_strlit("Almost there");
    reveal_strlit("Goal reached");
    reveal_strlit("A little over");
    reveal_strlit("Time for a quick break?");
    assert("Almost there"@[0] == 'A');
    assert("Goal reached"@[0] == 'G');
    assert("Almost there"@.len() == 12);
    assert("Goal reached"@.len() == 12);
    assert("A little over"@.len() == 13);
    assert("Time for a quick break?"@.len() == 23);
}

/// The notices of an evaluation and of a break prompt are those of the tiers
/// that fire, and the prompt if it comes, each once.
pub proof fn notices_are_those_that_fire(
    l: LadderView,
    date: Seq<char>,
    usage_s: int,
    goal: GoalConfig,
    tier: WarningTier,
    prompt: bool,
)
    ensures
        ({
            let shown = warnings(l, date, usage_s, goal) + if prompt {
                seq![break_notice()]
            } else {
                Seq::<Notice>::empty()
            };
            &&& shown.contains(notice_of(tier)) <==> fires(l, date, usage_s, goal, tier)
            &&& shown.contains(break_notice()) <==> prompt
            &&& shown.no_duplicates()
            &&& warnings(l, date, usage_s, goal).contains(notice_of(tier)) <==> fires(
                l,
                date,
                usage_s,
                goal,
                tier,
            )
        }),
{
    lemma_notices_differ();
    let n = if fires(l, date, usage_s, goal, WarningTier::Nudge) {
        seq![notice_of(WarningTier::Nudge)]
    } else {
        Seq::<Notice>::empty()
    };
    let m = if fires(l, date, usage_s, goal, WarningTier::Limit) {
        seq![notice_of(WarningTier::Limit)]
    } else {
        Seq::<Notice>::empty()
    };
    let o = if fires(l, date, usage_s, goal, WarningTier::Over) {
        seq![notice_of(WarningTier::Over)]
    } else {
        Seq::<Notice>::empty()
    };
    let p = if prompt {
        seq![break_notice()]
    } else {
        Seq::<Notice>::empty()
    };
    let w = warnings(l, date, usage_s, goal);
    assert(w == n + m + o);
    let shown = w + p;
    let (a, b, c) = (n.len() as int, m.len() as int, o.len() as int);
    if a > 0 {
        assert(w[0] == notice_of(WarningTier::Nudge));
        assert(shown[0] == notice_of(WarningTier::Nudge));
    }
    if b > 0 {
        assert(w[a] == notice_of(WarningTier::Limit));
        assert(shown[a] == notice_of(WarningTier::Limit));
    }
    if c > 0 {
        assert(w[a + b] == notice_of(WarningTier::Over));
        assert(shown[a + b] == notice_of(WarningTier::Over));
    }
    if prompt {
        assert(shown[a + b + c] == break_notice());
    }
    assert(forall|i: int| 0 <= i < w.len() ==> #[trigger] shown[i] == w[i]);
}

/// A tier counts as fired on a date exactly if it did before or fires now on
/// that date; the thresholds stay.
pub proof fn fired_tiers_are_marked(
    l: LadderView,
    date: Seq<char>,
    usage_s: int,
    goal: GoalConfig,
    day: Seq<char>,
    tier: WarningTier,
)
    ensures
        warned(l, date, usage_s, goal).fired.contains((day, tier)) <==> l.fired.contains((day, tier))
            || (day == date && fires(l, date, usage_s, goal, tier)),
        warned(l, date, usage_s, goal).thresholds == l.thresholds,
{
}

/// In a streak that goes on, the prompt comes exactly when the streak is as
/// long as the threshold; without a window it never comes; and a streak begins
/// with the first window.
pub proof fn prompt_comes_after_the_threshold(b: BreakView, now: i64)
    ensures
        !prompts(b, now, false),
        b.away_since is None && !b.prompted ==> (b.continuous_start matches Some(s) ==> (prompts(
            b,
            now,
            true,
        ) <==> now - s >= b.threshold_s)),
        b.away_since is None && b.continuous_start is None ==> ticked(
            b,
            now,
            true,
        ).continuous_start == Some(now),
        b.away_since is None && b.continuous_start is Some ==> ticked(
            b,
            now,
            true,
        ).continuous_start == b.continuous_start,
        ticked(b, now, true).last_active == Some(now),
        ticked(b, now, true).away_since is None,
        b.away_since is None ==> (ticked(b, now, true).prompted <==> b.prompted || prompts(
            b,
            now,
            true,
        )),
        ticked(b, now, true).threshold_s == b.threshold_s,
        ticked(b, now, false).threshold_s == b.threshold_s,
        ticked(b, now, true).reset_gap_s == b.reset_gap_s,
        ticked(b, now, false).reset_gap_s == b.reset_gap_s,
{
}

/// Usage below zero reaches no tier that has a threshold.
pub proof fn negative_usage_fires_nothing(
    l: LadderView,
    date: Seq<char>,
    usage_s: int,
    goal: GoalConfig,
    tier: WarningTier,
)
    requires
        usage_s < 0,
        share_of(l.thresholds, tier) > 0,
    ensures
        !fires(l, date, usage_s, goal, tier),
{
    if let Some(m) = goal.daily_min {
        if m > 0 {
            let a = -usage_s * 100;
            let g = m * 60;
            assert(a / g >= 0) by (nonlinear_arith)
                requires
                    a >= 0,
                    g > 0,
            ;
        }
    }
}

/// The streak counts from its beginning.
pub proof fn streak_counts_from_its_beginning(b: BreakPrompt, now: i64, secs: i64)
    requires
        call_ensures(BreakPrompt::continuous_elapsed, (&b, now), secs),
    ensures
        b@.continuous_start is None ==> secs == 0,
        b@.continuous_start matches Some(s) ==> (now >= s ==> secs == now - s) && (now <= s ==> secs
            == 0),
{
}

/// A gap is noted at its first tick without a window and forgotten with the
/// streak; a window ends it.
pub proof fn gap_is_noted_once<N: Notifier>(
    b: &mut BreakPrompt,
    now: i64,
    in_session: bool,
    notifier: &mut N,
)
    requires
        call_ensures(BreakPrompt::tick::<N>, (b, now, in_session, notifier), ()),
    ensures
        ({
            let was = old(b)@;
            let after = final(b)@;
            let ended = was.last_active matches Some(last) && now - last >= was.reset_gap_s;
            &&& after.threshold_s == was.threshold_s && after.reset_gap_s == was.reset_gap_s
            &&& in_session ==> after.away_since is None && after.last_active == Some(now)
            &&& !in_session && ended ==> after.away_since is None && after.last_active is None
            &&& !in_session && !ended ==> after.last_active == was.last_active
            &&& !in_session && !ended && was.away_since is None && was.last_active is Some
                ==> after.away_since == Some(now)
            &&& !in_session && !ended && (was.away_since is Some || was.last_active is None)
                ==> after.away_since == was.away_since
        }),
{
}

/// A new prompt waits for its threshold, and a pause of five minutes ends a
/// streak.
pub proof fn new_prompt_has_no_streak(threshold_s: i64, b: BreakPrompt)
    requires
        call_ensures(BreakPrompt::new, (threshold_s,), b),
    ensures
        b@.threshold_s == threshold_s,
        b@.reset_gap_s == 5 * 60,
        b@.continuous_start is None && b@.last_active is None && b@.away_since is None
            && !b@.prompted,
{
}

} // verus!
