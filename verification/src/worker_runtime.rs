//! The worker at work: what happens on every tick, on every heartbeat and at
//! the end. The caller owns the clock, the window source and the network.
use crate::categorize::{compiled_rules, table_of, Categorizer, CategorizerView};
use crate::catalog::{known_apps, known_rules};
use crate::config::{Config, ConfigView, MasterRegistration, RegistrationView};
use crate::idle::{gated, gated_window, is_self_app, own_name};
use crate::ids::random_uuid;
use crate::model::{ConfigResponseView, Thresholds};
use crate::notify::{
    break_notice, notice_of, notices_are_those_that_fire, prompts, share_of, ticked,
    tier_fires_at_its_share_of_the_goal, warned, warnings, BreakPrompt, BreakView, LadderView,
    Notice, Notifier, WarningLadder, WarningTier,
};
use crate::seqs::{
    first, lemma_filter_step, lemma_first_at, lemma_first_none, lemma_views_push, opt_view, views,
};
use crate::store::worker::{WorkerDb, WorkerTables};
use crate::sync::{backoff_delay, failed, rested, BackoffView, MasterSync, MasterSyncView};
use crate::timeutil::{
    day_clock_fits, day_fits, fits_i64, is_local_date, lemma_local_date, local_date,
    local_date_string,
};
use crate::tracker::{
    buffered, completed, differs, length_fits, observed, ActiveWindow, Tracker, TrackerView,
    WindowView,
};
use vstd::prelude::*;

verus! {

/// A worker: its configuration, its buffer, the state of each master and when
/// a cycle with it was last wanted, and the state machines that every tick
/// drives.
pub struct WorkerRuntime {
    pub config: Config,
    pub db: WorkerDb,
    pub masters: Vec<MasterSync>,
    pub tracker: Tracker,
    pub ladder: WarningLadder,
    pub breaks: BreakPrompt,
    pub last_attempts: Vec<i64>,
}

pub struct RuntimeView {
    pub config: ConfigView,
    pub tables: WorkerTables,
    pub masters: Seq<MasterSyncView>,
    pub tracker: TrackerView,
    pub ladder: LadderView,
    pub breaks: BreakView,
    pub last_attempts: Seq<i64>,
}

impl View for WorkerRuntime {
    type V = RuntimeView;

    open spec fn view(&self) -> RuntimeView {
        RuntimeView {
            config: self.config@,
            tables: self.db@,
            masters: views(self.masters@),
            tracker: self.tracker@,
            ladder: self.ladder@,
            breaks: self.breaks@,
            last_attempts: self.last_attempts@,
        }
    }
}

/// What a worker is paired with, before the first cycle.
pub open spec fn fresh_master(r: RegistrationView) -> MasterSyncView {
    MasterSyncView { registration: r, approved: false, backoff: rested(), last_config: None }
}

/// What was last pulled from the first master that has told a configuration.
pub open spec fn known_config(masters: Seq<MasterSyncView>) -> Option<ConfigResponseView> {
    match first(masters, |m: MasterSyncView| m.last_config is Some) {
        Some(m) => m.last_config,
        None => None,
    }
}

/// Seconds in the session that is in progress after an observation.
pub open spec fn elapsed_after(t: TrackerView, window: Option<WindowView>, now: i64) -> int {
    if differs(t, window) {
        0
    } else {
        match t.current {
            Some(open) => if now > open.start_ts {
                now - open.start_ts
            } else {
                0
            },
            None => 0,
        }
    }
}

/// The usage that warnings go by: what the master told last, and the session
/// in progress.
pub open spec fn live_usage(
    c: ConfigResponseView,
    t: TrackerView,
    window: Option<WindowView>,
    now: i64,
) -> int {
    c.usage.today_s + elapsed_after(t, window, now)
}

/// The numbers of a tick can be held.
pub open spec fn tick_fits(r: RuntimeView, now: i64, window: Option<WindowView>, tz: i32) -> bool {
    &&& day_fits(now as int, tz as int)
    &&& length_fits(r.tracker, now)
    &&& known_config(r.masters) matches Some(c) ==> fits_i64(
        live_usage(c, r.tracker, window, now),
    )
}

/// The window that a tick tracks.
pub open spec fn focus(r: RuntimeView, raw: Option<WindowView>, idle_s: i64) -> Option<WindowView> {
    gated(raw, idle_s, r.config.idle_threshold_s as i64)
}

/// The ladder after a tick.
pub open spec fn ladder_after(
    r: RuntimeView,
    now: i64,
    window: Option<WindowView>,
    tz: i32,
) -> LadderView {
    match known_config(r.masters) {
        Some(c) => warned(
            r.ladder,
            local_date(now as int, tz as int),
            live_usage(c, r.tracker, window, now),
            c.goal,
        ),
        None => r.ladder,
    }
}

/// The notices of a tick: warnings first, then the break prompt.
pub open spec fn notices_of(
    r: RuntimeView,
    now: i64,
    window: Option<WindowView>,
    tz: i32,
) -> Seq<Notice> {
    let w = match known_config(r.masters) {
        Some(c) => warnings(
            r.ladder,
            local_date(now as int, tz as int),
            live_usage(c, r.tracker, window, now),
            c.goal,
        ),
        None => Seq::empty(),
    };
    let p = if prompts(r.breaks, now, window is Some) {
        seq![break_notice()]
    } else {
        Seq::empty()
    };
    w + p
}

/// Whether a cycle is to be run with a master: its backoff allows one, and
/// the interval has passed since the last. A master that has approved is
/// tried again after a failure as soon as its backoff allows.
pub open spec fn cycle_wanted(r: RuntimeView, i: int, now: i64) -> bool {
    let m = r.masters[i];
    &&& now >= m.backoff.next_attempt_at
    &&& now - r.last_attempts[i] >= r.config.sync_interval_s || (m.approved && m.backoff.failures
        > 0)
}

/// With which masters a cycle is to be run.
pub open spec fn cycles_wanted(r: RuntimeView, now: i64) -> Seq<bool> {
    Seq::new(r.masters.len(), |i: int| cycle_wanted(r, i, now))
}

/// When a cycle with each master was last wanted, after a tick.
pub open spec fn attempts_after(r: RuntimeView, now: i64) -> Seq<i64> {
    Seq::new(
        r.masters.len(),
        |i: int|
            if cycle_wanted(r, i, now) {
                now
            } else {
                r.last_attempts[i]
            },
    )
}

/// The worker after a tick. `id` is for a session that the tick opens.
pub open spec fn ticked_on(
    r: RuntimeView,
    now: i64,
    window: Option<WindowView>,
    tz: i32,
    id: Seq<char>,
) -> RuntimeView {
    let (tracker, tables, _) = observed(r.tracker, r.tables, now, window, id);
    RuntimeView {
        tracker,
        tables,
        ladder: ladder_after(r, now, window, tz),
        breaks: ticked(r.breaks, now, window is Some),
        last_attempts: attempts_after(r, now),
        ..r
    }
}

impl WorkerRuntime {
    pub open spec fn wf(&self) -> bool {
        self.db.wf() && self.last_attempts.len() == self.masters.len()
    }

    pub fn new(config: Config, db: WorkerDb) -> (res: Self)
        requires
            db.wf(),
            config.break_prompt_after_min * 60 <= u64::MAX,
        ensures
            res.wf(),
            res@ == (RuntimeView {
                config: config@,
                tables: db@,
                masters: config@.masters.map_values(|r: RegistrationView| fresh_master(r)),
                tracker: TrackerView {
                    categorizer: CategorizerView {
                        table: table_of(known_apps()),
                        rules: compiled_rules(known_rules()),
                        overrides: Map::empty(),
                    },
                    current: None,
                },
                ladder: LadderView {
                    thresholds: Thresholds { nudge_pct: 90, limit_pct: 100, over_pct: 110 },
                    fired: Set::empty(),
                },
                breaks: BreakView {
                    threshold_s: (config.break_prompt_after_min * 60) as u64 as i64,
                    reset_gap_s: 300,
                    continuous_start: None,
                    last_active: None,
                    away_since: None,
                    prompted: false,
                },
                last_attempts: Seq::new(config@.masters.len(), |i: int| 0i64),
            }),
    {
        let ghost f = |r: RegistrationView| fresh_master(r);
        let mut masters: Vec<MasterSync> = Vec::new();
        let mut last_attempts: Vec<i64> = Vec::new();
        let mut i: usize = 0;
        while i < config.masters.len()
            invariant
                i <= config.masters.len(),
                f == (|r: RegistrationView| fresh_master(r)),
                views(masters@) == config@.masters.map_values(f).take(i as int),
                last_attempts@ == Seq::new(i as nat, |k: int| 0i64),
            decreases config.masters.len() - i,
        {
            let m = MasterSync::new(config.masters[i].clone());
            proof {
                lemma_views_push(masters@, m);
                assert(config@.masters.map_values(f).take(i + 1) =~= config@.masters.map_values(
                    f,
                ).take(i as int).push(m@));
            }
            masters.push(m);
            last_attempts.push(0);
            i += 1;
        }
        assert(views(masters@) =~= config@.masters.map_values(f));
        let breaks = BreakPrompt::new((config.break_prompt_after_min * 60) as i64);
        WorkerRuntime {
            config,
            db,
            masters,
            tracker: Tracker::new(Categorizer::from_bundled()),
            ladder: WarningLadder::new(Thresholds::default()),
            breaks,
            last_attempts,
        }
    }

    /// The index of the first master that has told a configuration.
    fn configured(&self) -> (res: Option<usize>)
        ensures
            match res {
                Some(i) => i < self.masters.len() && opt_view(self.masters@[i as int].last_config)
                    == known_config(self@.masters) && self.masters@[i as int].last_config is Some,
                None => known_config(self@.masters) is None,
            },
    {
        let ghost p = |m: MasterSyncView| m.last_config is Some;
        let mut i: usize = 0;
        while i < self.masters.len()
            invariant
                i <= self.masters.len(),
                p == (|m: MasterSyncView| m.last_config is Some),
                forall|j: int| 0 <= j < i ==> !p(#[trigger] self@.masters[j]),
            decreases self.masters.len() - i,
        {
            assert(self@.masters[i as int] == self.masters@[i as int]@);
            if self.masters[i].last_config.is_some() {
                proof {
                    lemma_first_at(self@.masters, p, i as int);
                }
                return Some(i);
            }
            i += 1;
        }
        proof {
            lemma_first_none(self@.masters, p);
        }
        None
    }

    /// Finds the masters that a cycle is to be run with, and notes the attempts.
    fn take_wanted(&mut self, now: i64) -> (cycles: Vec<bool>)
        requires
            old(self).wf(),
        ensures
            final(self).wf(),
            cycles@ == cycles_wanted(old(self)@, now),
            final(self)@ == (RuntimeView {
                last_attempts: attempts_after(old(self)@, now),
                ..old(self)@
            }),
    {
        let ghost before = self@;
        let mut cycles: Vec<bool> = Vec::new();
        let mut i: usize = 0;
        while i < self.masters.len()
            invariant
                i <= self.masters.len(),
                self.wf(),
                self@ == (RuntimeView { last_attempts: self.last_attempts@, ..before }),
                self.last_attempts.len() == before.last_attempts.len(),
                self.last_attempts@.take(i as int) == attempts_after(before, now).take(i as int),
                self.last_attempts@.skip(i as int) == before.last_attempts.skip(i as int),
                cycles@ == cycles_wanted(before, now).take(i as int),
            decreases self.masters.len() - i,
        {
            let ghost noted = self.last_attempts@;
            assert(before.masters[i as int] == self.masters@[i as int]@);
            assert(noted.skip(i as int)[0] == before.last_attempts.skip(i as int)[0]);
            let m = &self.masters[i];
            let waited: i128 = now as i128 - self.last_attempts[i] as i128;
            let wanted = m.backoff.due(now) && (waited >= self.config.sync_interval_s as i128 || (
            m.approved && m.backoff.failing()));
            assert(wanted == cycle_wanted(before, i as int, now));
            cycles.push(wanted);
            if wanted {
                self.last_attempts[i] = now;
            }
            proof {
                assert(self.last_attempts@.take(i + 1) =~= attempts_after(before, now).take(i + 1))
                    by {
                    assert forall|k: int| 0 <= k < i implies self.last_attempts@[k]
                        == attempts_after(before, now)[k] by {
                        assert(noted.take(i as int)[k] == attempts_after(before, now).take(
                            i as int,
                        )[k]);
                    }
                }
                assert(self.last_attempts@.skip(i + 1) =~= before.last_attempts.skip(i + 1)) by {
                    assert forall|k: int| i < k < noted.len() implies noted[k]
                        == before.last_attempts[k] by {
                        assert(noted.skip(i as int)[k - i] == before.last_attempts.skip(
                            i as int,
                        )[k - i]);
                    }
                }
                assert(cycles@ =~= cycles_wanted(before, now).take(i + 1));
            }
            i += 1;
        }
        assert(self.last_attempts@ =~= attempts_after(before, now)) by {
            assert(self.last_attempts@.take(i as int) =~= self.last_attempts@);
        }
        cycles
    }

    /// Whether the numbers of a tick can be held.
    pub fn can_tick(
        &self,
        now: i64,
        raw: &Option<ActiveWindow>,
        idle_s: i64,
        tz_offset_s: i32,
    ) -> (fits: bool)
        ensures
            fits == tick_fits(
                self@,
                now,
                focus(self@, opt_view(*raw), idle_s),
                tz_offset_s,
            ),
    {
        if !day_clock_fits(now, tz_offset_s) {
            return false;
        }
        let since: i64 = match self.tracker.length(now) {
            Some(n) => n,
            None => return false,
        };
        let changes = match raw {
            Some(w) => if idle_s > self.config.idle_threshold_s as i64 || is_self_app(
                w.app_name.as_str(),
            ) {
                self.tracker.would_change(None)
            } else {
                self.tracker.would_change(Some(w))
            },
            None => self.tracker.would_change(None),
        };
        let elapsed: i64 = if changes || since < 0 {
            0
        } else {
            since
        };
        match self.configured() {
            Some(i) => match &self.masters[i].last_config {
                Some(c) => elapsed == 0 || c.usage.today_s <= i64::MAX - elapsed,
                None => true,
            },
            None => true,
        }
    }

    /// One tick: the window is observed, warnings and the break prompt are
    /// given, and it is decided with which masters a cycle is to be run.
    pub fn tick<N: Notifier>(
        &mut self,
        now: i64,
        raw: Option<ActiveWindow>,
        idle_s: i64,
        tz_offset_s: i32,
        notifier: &mut N,
    ) -> (cycles: Vec<bool>)
        requires
            old(self).wf(),
            tick_fits(old(self)@, now, focus(old(self)@, opt_view(raw), idle_s), tz_offset_s),
        ensures
            final(self).wf(),
            exists|id: Seq<char>|
                random_uuid(id) && final(self)@ == #[trigger] ticked_on(
                    old(self)@,
                    now,
                    focus(old(self)@, opt_view(raw), idle_s),
                    tz_offset_s,
                    id,
                ),
            final(notifier).notices() == old(notifier).notices() + notices_of(
                old(self)@,
                now,
                focus(old(self)@, opt_view(raw), idle_s),
                tz_offset_s,
            ),
            cycles@ == cycles_wanted(old(self)@, now),
    {
        let ghost before = self@;
        let ghost window = focus(before, opt_view(raw), idle_s);
        let ghost shown = notifier.notices();
        let seen = gated_window(raw, idle_s, self.config.idle_threshold_s as i64);
        let in_session = seen.is_some();
        assert(opt_view(seen) == window);
        self.tracker.poll(&mut self.db, now, seen);
        let ghost id = choose|id: Seq<char>|
            random_uuid(id) && (self.tracker@, self.db@) == (
                (#[trigger] observed(before.tracker, before.tables, now, window, id)).0,
                observed(before.tracker, before.tables, now, window, id).1,
            );
        let date = local_date_string(now, tz_offset_s);
        proof {
            lemma_local_date(date@, now as int, tz_offset_s as int);
        }
        if let Some(i) = self.configured() {
            if let Some(c) = &self.masters[i].last_config {
                let usage: i64 = c.usage.today_s + self.tracker.current_elapsed(now);
                self.ladder.evaluate(date.as_str(), usage, &c.goal, notifier);
            }
        }
        self.breaks.tick(now, in_session, notifier);
        let ghost mid = self@;
        let cycles = self.take_wanted(now);
        proof {
            assert(notifier.notices() =~= shown + notices_of(before, now, window, tz_offset_s));
            assert(cycles_wanted(mid, now) =~= cycles_wanted(before, now));
            assert(attempts_after(mid, now) =~= attempts_after(before, now));
            assert(self@ == ticked_on(before, now, window, tz_offset_s, id));
        }
        cycles
    }

    /// The masters that a heartbeat goes to: those that have approved.
    pub fn heartbeat_targets(&self) -> (res: Vec<MasterRegistration>)
        ensures
            views(res@) == self@.masters.filter(|m: MasterSyncView| m.approved).map_values(
                |m: MasterSyncView| m.registration,
            ),
    {
        let ghost all = self@.masters;
        let ghost p = |m: MasterSyncView| m.approved;
        let ghost reg = |m: MasterSyncView| m.registration;
        let mut out: Vec<MasterRegistration> = Vec::new();
        let mut i: usize = 0;
        proof {
            reveal(Seq::filter);
            assert(views(out@) =~= all.take(0).filter(p).map_values(reg));
        }
        while i < self.masters.len()
            invariant
                i <= self.masters.len(),
                all == self@.masters,
                p == (|m: MasterSyncView| m.approved),
                reg == (|m: MasterSyncView| m.registration),
                views(out@) == all.take(i as int).filter(p).map_values(reg),
            decreases self.masters.len() - i,
        {
            proof {
                lemma_filter_step(all, p, i as int);
                assert(all[i as int] == self.masters@[i as int]@);
            }
            if self.masters[i].approved {
                let r = self.masters[i].registration.clone();
                proof {
                    lemma_views_push(out@, r);
                    let kept = all.take(i as int).filter(p);
                    assert(kept.push(all[i as int]).map_values(reg) =~= kept.map_values(reg).push(
                        r@,
                    ));
                }
                out.push(r);
            }
            i += 1;
        }
        assert(all.take(all.len() as int) =~= all);
        out
    }

    /// The end: the session in progress is closed.
    pub fn shut_down(&mut self, now: i64)
        requires
            old(self).wf(),
            length_fits(old(self)@.tracker, now),
        ensures
            final(self).wf(),
            final(self)@ == (RuntimeView {
                tracker: TrackerView { current: None, ..old(self)@.tracker },
                tables: buffered(old(self)@.tables, completed(old(self)@.tracker, now)),
                ..old(self)@
            }),
    {
        self.tracker.close_current(&mut self.db, now);
    }

    /// Whether the length of the session in progress can be held.
    pub fn can_shut_down(&self, now: i64) -> (fits: bool)
        ensures
            fits == length_fits(self@.tracker, now),
    {
        self.tracker.length(now).is_some()
    }
}

// ---- Laws ----
/// After a cycle that succeeded, the next one with the master is wanted once
/// the interval has passed and not before, whatever becomes of the other
/// masters; ticks in between note no attempt.
pub proof fn one_cycle_per_interval(
    r: RuntimeView,
    i: int,
    at: i64,
    now: i64,
    window: Option<WindowView>,
    tz: i32,
    id: Seq<char>,
)
    requires
        0 <= i < r.masters.len(),
        r.last_attempts[i] == at,
        r.masters[i].backoff == rested(),
    ensures
        cycle_wanted(r, i, now) <==> now - at >= r.config.sync_interval_s,
        now - at < r.config.sync_interval_s ==> ticked_on(r, now, window, tz, id).last_attempts[i]
            == at,
        now - at >= r.config.sync_interval_s ==> ticked_on(
            r,
            now,
            window,
            tz,
            id,
        ).last_attempts[i] == now,
{
}

/// A master that has approved is tried again after a failed cycle once the
/// delay has passed; one that has not is tried once the interval has passed
/// as well.
pub proof fn retried_after_the_delay(
    r: RuntimeView,
    i: int,
    before: BackoffView,
    at: i64,
    now: i64,
)
    requires
        0 <= i < r.masters.len(),
        r.last_attempts[i] == at,
        r.masters[i].backoff == failed(before, at),
        fits_i64(at + backoff_delay(before.failures)),
    ensures
        cycle_wanted(r, i, now) <==> now - at >= backoff_delay(before.failures) && (
        r.masters[i].approved || now - at >= r.config.sync_interval_s),
{
}

// ---- What a tick goes by ----
/// Master `i` is the first that has told a configuration, and this is the one.
pub open spec fn told_first(
    masters: Seq<MasterSyncView>,
    i: int,
    c: ConfigResponseView,
) -> bool {
    &&& 0 <= i < masters.len()
    &&& masters[i].last_config == Some(c)
    &&& forall|j: int| 0 <= j < i ==> (#[trigger] masters[j]).last_config is None
}

proof fn lemma_told_first(masters: Seq<MasterSyncView>, i: int, c: ConfigResponseView)
    requires
        told_first(masters, i, c),
    ensures
        known_config(masters) == Some(c),
{
    let p = |m: MasterSyncView| m.last_config is Some;
    assert forall|j: int| 0 <= j < i implies !p(#[trigger] masters[j]) by {
        assert(masters[j].last_config is None);
    }
    lemma_first_at(masters, p, i);
}

/// A warning is shown on a tick exactly if the time that the first master told
/// for today, with the seconds of the session in progress, is at least the
/// tier's percentage of the daily goal, and the tier has not fired on the
/// local date.
pub proof fn warnings_go_by_today_s_usage(
    r: RuntimeView,
    i: int,
    c: ConfigResponseView,
    now: i64,
    window: Option<WindowView>,
    tz: i32,
    date: Seq<char>,
    tier: WarningTier,
)
    requires
        told_first(r.masters, i, c),
        is_local_date(date, now as int, tz as int),
        c.usage.today_s >= 0,
    ensures
        ({
            let in_progress: int = match (r.tracker.current, window) {
                (Some(open), Some(w)) => if open.window.app_name == w.app_name && open.window.title
                    == w.title && now > open.start_ts {
                    now - open.start_ts
                } else {
                    0
                },
                _ => 0,
            };
            let usage_s = c.usage.today_s + in_progress;
            &&& notices_of(r, now, window, tz).contains(notice_of(tier)) <==> (
            c.goal.daily_min matches Some(m) && m > 0 && usage_s * 100 >= share_of(
                r.ladder.thresholds,
                tier,
            ) * (m * 60)) && !r.ladder.fired.contains((date, tier))
            &&& notices_of(r, now, window, tz).contains(break_notice()) <==> prompts(
                r.breaks,
                now,
                window is Some,
            )
        }),
{
    lemma_told_first(r.masters, i, c);
    lemma_local_date(date, now as int, tz as int);
    let usage_s = live_usage(c, r.tracker, window, now);
    if let (Some(open), Some(w)) = (r.tracker.current, window) {
        if open.window.app_name == w.app_name && open.window.title == w.title {
            assert(open.window == w);
        }
    }
    tier_fires_at_its_share_of_the_goal(r.ladder, date, usage_s, c.goal, tier);
    notices_are_those_that_fire(
        r.ladder,
        date,
        usage_s,
        c.goal,
        tier,
        prompts(r.breaks, now, window is Some),
    );
}

/// Of what the masters told, nothing but goal and today's time matters for the
/// notices of a tick and for the tiers that it marks: the week's total does
/// not.
pub proof fn only_goal_and_today_matter(
    r: RuntimeView,
    other: RuntimeView,
    now: i64,
    window: Option<WindowView>,
    tz: i32,
)
    requires
        other.tracker == r.tracker,
        other.ladder == r.ladder,
        other.breaks == r.breaks,
        other.masters.len() == r.masters.len(),
        forall|i: int|
            0 <= i < r.masters.len() ==> match (
                (#[trigger] r.masters[i]).last_config,
                (#[trigger] other.masters[i]).last_config,
            ) {
                (Some(a), Some(b)) => a.goal == b.goal && a.usage.today_s == b.usage.today_s,
                (None, None) => true,
                _ => false,
            },
    ensures
        notices_of(other, now, window, tz) == notices_of(r, now, window, tz),
        ladder_after(other, now, window, tz) == ladder_after(r, now, window, tz),
{
    let p = |m: MasterSyncView| m.last_config is Some;
    crate::seqs::lemma_first(r.masters, p);
    match first(r.masters, p) {
        Some(m) => {
            let i = choose|i: int|
                0 <= i < r.masters.len() && #[trigger] r.masters[i] == m && forall|j: int|
                    0 <= j < i ==> !p(#[trigger] r.masters[j]);
            assert forall|j: int| 0 <= j < i implies !p(#[trigger] other.masters[j]) by {
                assert(!p(r.masters[j]));
            }
            assert(other.masters[i].last_config is Some);
            lemma_first_at(other.masters, p, i);
            lemma_first_at(r.masters, p, i);
        },
        None => {
            assert forall|j: int| 0 <= j < other.masters.len() implies !p(
                #[trigger] other.masters[j],
            ) by {
                assert(!p(r.masters[j]));
            }
            lemma_first_none(other.masters, p);
        },
    }
}

/// As long as no master has told a configuration there is no warning.
pub proof fn no_warning_without_a_goal(
    r: RuntimeView,
    now: i64,
    window: Option<WindowView>,
    tz: i32,
)
    requires
        forall|j: int| 0 <= j < r.masters.len() ==> (#[trigger] r.masters[j]).last_config is None,
    ensures
        notices_of(r, now, window, tz) == if prompts(r.breaks, now, window is Some) {
            seq![break_notice()]
        } else {
            Seq::<Notice>::empty()
        },
        ladder_after(r, now, window, tz) == r.ladder,
{
    let p = |m: MasterSyncView| m.last_config is Some;
    assert forall|j: int| 0 <= j < r.masters.len() implies !p(#[trigger] r.masters[j]) by {
        assert(r.masters[j].last_config is None);
    }
    lemma_first_none(r.masters, p);
    let none = Seq::<Notice>::empty();
    assert(notices_of(r, now, window, tz) =~= none + if prompts(r.breaks, now, window is Some) {
        seq![break_notice()]
    } else {
        none
    });
}

/// A tick tracks the window that has the focus, unless there was no input for
/// longer than the configured threshold or the window is the application's
/// own; and it leaves configuration and masters as they are.
pub proof fn tick_follows_the_focus(
    r: RuntimeView,
    raw: Option<WindowView>,
    idle_s: i64,
    now: i64,
    tz: i32,
    id: Seq<char>,
)
    requires
        r.config.idle_threshold_s <= i64::MAX,
    ensures
        ({
            let window = focus(r, raw, idle_s);
            let after = ticked_on(r, now, window, tz, id);
            &&& idle_s > r.config.idle_threshold_s ==> window is None
            &&& raw is None ==> window is None
            &&& raw matches Some(w) ==> if idle_s <= r.config.idle_threshold_s && !own_name(
                w.app_name,
            ) {
                window == raw
            } else {
                window is None
            }
            &&& after.config == r.config && after.masters == r.masters
            &&& after.tracker == observed(r.tracker, r.tables, now, window, id).0
            &&& after.tables == observed(r.tracker, r.tables, now, window, id).1
            &&& after.breaks == ticked(r.breaks, now, window is Some)
        }),
{
}

/// Ordinary ticks can be made: instants, the beginning of the session in
/// progress and the time that a master told are far from the limits.
pub proof fn ordinary_ticks_fit(r: RuntimeView, now: i64, window: Option<WindowView>, tz: i32)
    requires
        -0x1000_0000_0000_0000 <= now <= 0x1000_0000_0000_0000,
        r.tracker.current matches Some(open) ==> -0x1000_0000_0000_0000 <= open.start_ts
            <= 0x1000_0000_0000_0000,
        forall|i: int|
            0 <= i < r.masters.len() ==> ((#[trigger] r.masters[i]).last_config matches Some(c)
                ==> -0x1000_0000_0000_0000 <= c.usage.today_s <= 0x1000_0000_0000_0000),
    ensures
        tick_fits(r, now, window, tz),
{
    crate::timeutil::ordinary_times_fit(now as int, tz as int);
    let p = |m: MasterSyncView| m.last_config is Some;
    crate::seqs::lemma_first(r.masters, p);
    if let Some(m) = first(r.masters, p) {
        let i = choose|i: int| 0 <= i < r.masters.len() && #[trigger] r.masters[i] == m;
        assert(r.masters[i].last_config is Some);
    }
}

/// A cycle that is wanted is noted with the time of the tick; otherwise the
/// time of the last one stays.
pub proof fn attempts_are_noted(
    r: RuntimeView,
    now: i64,
    window: Option<WindowView>,
    tz: i32,
    id: Seq<char>,
    i: int,
)
    requires
        0 <= i < r.masters.len(),
    ensures
        ({
            let after = ticked_on(r, now, window, tz, id).last_attempts;
            &&& after.len() == r.masters.len()
            &&& cycles_wanted(r, now).len() == r.masters.len()
            &&& cycles_wanted(r, now)[i] ==> after[i] == now && now
                >= r.masters[i].backoff.next_attempt_at
            &&& !cycles_wanted(r, now)[i] ==> after[i] == r.last_attempts[i]
            &&& r.masters[i].backoff.failures == 0 && cycles_wanted(r, now)[i] ==> now
                - r.last_attempts[i] >= r.config.sync_interval_s
            &&& now >= r.masters[i].backoff.next_attempt_at && now - r.last_attempts[i]
                >= r.config.sync_interval_s ==> cycles_wanted(r, now)[i]
        }),
{
}

} // verus!
