//! The values that masters and workers exchange and show. All timestamps are
//! UTC epoch seconds.
//!
//! A type that holds text has a view of the same shape over sequences of
//! characters; contracts speak of the views.
use crate::seqs::{opt_view, views};
use crate::text::{clone_opt, text_eq};
use vstd::prelude::*;

verus! {

// ---- Categories ----
/// What kind of application a session belongs to.
#[derive(Debug, Clone, Copy, PartialEq, Eq, Hash, Structural)]
pub enum Category {
    Games,
    Educational,
    Entertainment,
    SocialMedia,
    Productivity,
    Browsers,
    Other,
}

/// The name under which a category is shown, stored and sent.
pub open spec fn category_name(c: Category) -> Seq<char> {
    match c {
        Category::Games => "Games"@,
        Category::Educational => "Educational"@,
        Category::Entertainment => "Entertainment"@,
        Category::SocialMedia => "Social Media"@,
        Category::Productivity => "Productivity"@,
        Category::Browsers => "Browsers"@,
        Category::Other => "Other"@,
    }
}

/// The category that a text names, if it names one. `SocialMedia` is accepted
/// as a second spelling of `Social Media`.
pub open spec fn category_named(s: Seq<char>) -> Option<Category> {
    if s == "Games"@ {
        Some(Category::Games)
    } else if s == "Educational"@ {
        Some(Category::Educational)
    } else if s == "Entertainment"@ {
        Some(Category::Entertainment)
    } else if s == "Social Media"@ || s == "SocialMedia"@ {
        Some(Category::SocialMedia)
    } else if s == "Productivity"@ {
        Some(Category::Productivity)
    } else if s == "Browsers"@ {
        Some(Category::Browsers)
    } else if s == "Other"@ {
        Some(Category::Other)
    } else {
        None
    }
}

/// Every category is found again under its own name.
pub proof fn category_names_round_trip(c: Category)
    ensures
        category_named(category_name(c)) == Some(c),
{
    reveal_strlit("Games");
    reveal_strlit("Educational");
    reveal_strlit("Entertainment");
    reveal_strlit("Social Media");
    reveal_strlit("SocialMedia");
    reveal_strlit("Productivity");
    reveal_strlit("Browsers");
    reveal_strlit("Other");
    assert("Games"@[0] == 'G');
    assert("Educational"@[1] == 'd');
    assert("Entertainment"@[1] == 'n');
    assert("Social Media"@[0] == 'S');
    assert("Productivity"@[0] == 'P');
    assert("Browsers"@[0] == 'B');
    assert("Other"@[0] == 'O');
    assert("Educational"@[0] == 'E');
    assert("Entertainment"@[0] == 'E');
    assert("SocialMedia"@[0] == 'S');
}

impl Category {
    pub const ALL: [Category; 7] = [
        Category::Games,
        Category::Educational,
        Category::Entertainment,
        Category::SocialMedia,
        Category::Productivity,
        Category::Browsers,
        Category::Other,
    ];

    pub fn as_str(self) -> (res: &'static str)
        ensures
            res@ == category_name(self),
    {
        match self {
            Category::Games => "Games",
            Category::Educational => "Educational",
            Category::Entertainment => "Entertainment",
            Category::SocialMedia => "Social Media",
            Category::Productivity => "Productivity",
            Category::Browsers => "Browsers",
            Category::Other => "Other",
        }
    }

    pub fn from_str(s: &str) -> (res: Result<Category, ()>)
        ensures
            match res {
                Ok(c) => category_named(s@) == Some(c),
                Err(_) => category_named(s@) is None,
            },
    {
        if text_eq(s, "Games") {
            Ok(Category::Games)
        } else if text_eq(s, "Educational") {
            Ok(Category::Educational)
        } else if text_eq(s, "Entertainment") {
            Ok(Category::Entertainment)
        } else if text_eq(s, "Social Media") || text_eq(s, "SocialMedia") {
            Ok(Category::SocialMedia)
        } else if text_eq(s, "Productivity") {
            Ok(Category::Productivity)
        } else if text_eq(s, "Browsers") {
            Ok(Category::Browsers)
        } else if text_eq(s, "Other") {
            Ok(Category::Other)
        } else {
            Err(())
        }
    }

    /// The category of a stored text; a text that names none counts as `Other`.
    pub fn from_stored(s: &str) -> (res: Category)
        ensures
            res == match category_named(s@) {
                Some(c) => c,
                None => Category::Other,
            },
    {
        match Category::from_str(s) {
            Ok(c) => c,
            Err(_) => Category::Other,
        }
    }
}

// ---- Sessions and their upload ----
/// One stretch of time with one window in focus. The id is chosen by the
/// client, so an upload can be repeated without harm.
#[derive(Debug, PartialEq)]
pub struct SessionRecord {
    pub id: String,
    pub app_name: String,
    pub window_title: String,
    pub category: Category,
    pub start_ts: i64,
    pub end_ts: i64,
    pub duration_s: i64,
}

pub struct SessionView {
    pub id: Seq<char>,
    pub app_name: Seq<char>,
    pub window_title: Seq<char>,
    pub category: Category,
    pub start_ts: i64,
    pub end_ts: i64,
    pub duration_s: i64,
}

impl View for SessionRecord {
    type V = SessionView;

    open spec fn view(&self) -> SessionView {
        SessionView {
            id: self.id@,
            app_name: self.app_name@,
            window_title: self.window_title@,
            category: self.category,
            start_ts: self.start_ts,
            end_ts: self.end_ts,
            duration_s: self.duration_s,
        }
    }
}

impl Clone for SessionRecord {
    fn clone(&self) -> (res: Self)
        ensures
            res == *self,
    {
        SessionRecord {
            id: self.id.clone(),
            app_name: self.app_name.clone(),
            window_title: self.window_title.clone(),
            category: self.category,
            start_ts: self.start_ts,
            end_ts: self.end_ts,
            duration_s: self.duration_s,
        }
    }
}

#[derive(Debug)]
pub struct BatchUpload {
    pub sessions: Vec<SessionRecord>,
}

#[derive(Debug, Clone, Copy)]
pub struct BatchAccepted {
    pub accepted: usize,
}

// ---- Registration ----
#[derive(Debug)]
pub struct RegisterRequest {
    pub worker_id: String,
    pub hostname: String,
    pub os: String,
    pub os_user: String,
    pub token: String,
}

pub struct RegisterView {
    pub worker_id: Seq<char>,
    pub hostname: Seq<char>,
    pub os: Seq<char>,
    pub os_user: Seq<char>,
    pub token: Seq<char>,
}

impl View for RegisterRequest {
    type V = RegisterView;

    open spec fn view(&self) -> RegisterView {
        RegisterView {
            worker_id: self.worker_id@,
            hostname: self.hostname@,
            os: self.os@,
            os_user: self.os_user@,
            token: self.token@,
        }
    }
}

#[derive(Debug, Clone, Copy, PartialEq, Eq, Structural)]
pub enum RegistrationStatus {
    Pending,
    Approved,
}

#[derive(Debug)]
pub struct RegisterResponse {
    pub status: RegistrationStatus,
    pub child_name: Option<String>,
}

pub struct RegisterResponseView {
    pub status: RegistrationStatus,
    pub child_name: Option<Seq<char>>,
}

impl View for RegisterResponse {
    type V = RegisterResponseView;

    open spec fn view(&self) -> RegisterResponseView {
        RegisterResponseView { status: self.status, child_name: opt_view(self.child_name) }
    }
}

#[derive(Debug, Clone, Copy)]
pub struct HeartbeatResponse {
    pub server_time: i64,
}

// ---- Categorization rules ----
/// A pattern that workers and masters match against names and titles.
#[derive(Debug)]
pub struct CategoryRule {
    pub pattern: String,
    pub category: Category,
}

pub struct RuleView {
    pub pattern: Seq<char>,
    pub category: Category,
}

impl View for CategoryRule {
    type V = RuleView;

    open spec fn view(&self) -> RuleView {
        RuleView { pattern: self.pattern@, category: self.category }
    }
}

/// A parent's decision on one application.
#[derive(Debug)]
pub struct CategoryOverride {
    pub app_name: String,
    pub category: Category,
}

pub struct OverrideView {
    pub app_name: Seq<char>,
    pub category: Category,
}

impl View for CategoryOverride {
    type V = OverrideView;

    open spec fn view(&self) -> OverrideView {
        OverrideView { app_name: self.app_name@, category: self.category }
    }
}

impl Clone for CategoryOverride {
    fn clone(&self) -> (res: Self)
        ensures
            res == *self,
    {
        CategoryOverride { app_name: self.app_name.clone(), category: self.category }
    }
}

// ---- Goals, usage, configuration ----
#[derive(Debug, Clone, Copy, PartialEq, Eq)]
pub struct GoalConfig {
    pub daily_min: Option<u32>,
    pub weekly_min: Option<u32>,
}

impl Default for GoalConfig {
    fn default() -> (res: Self)
        ensures
            res.daily_min is None,
            res.weekly_min is None,
    {
        GoalConfig { daily_min: None, weekly_min: None }
    }
}

/// The percentages of the daily goal at which a warning is given.
#[derive(Debug, Clone, Copy, PartialEq, Eq, Structural)]
pub struct Thresholds {
    pub nudge_pct: u32,
    pub limit_pct: u32,
    pub over_pct: u32,
}

impl Default for Thresholds {
    fn default() -> (res: Self)
        ensures
            res == (Thresholds { nudge_pct: 90, limit_pct: 100, over_pct: 110 }),
    {
        Thresholds { nudge_pct: 90, limit_pct: 100, over_pct: 110 }
    }
}

#[derive(Debug, Clone, Copy, PartialEq, Eq, Structural)]
pub struct UsageTotals {
    pub today_s: i64,
    pub week_s: i64,
}

impl Default for UsageTotals {
    fn default() -> (res: Self)
        ensures
            res == (UsageTotals { today_s: 0, week_s: 0 }),
    {
        UsageTotals { today_s: 0, week_s: 0 }
    }
}

/// What a worker pulls from a master in every sync cycle.
#[derive(Debug)]
pub struct ConfigResponse {
    pub rules: Vec<CategoryRule>,
    pub overrides: Vec<CategoryOverride>,
    pub goal: GoalConfig,
    pub thresholds: Thresholds,
    pub usage: UsageTotals,
    pub break_prompt_after_min: u32,
    pub points_balance: i64,
}

pub struct ConfigResponseView {
    pub rules: Seq<RuleView>,
    pub overrides: Seq<OverrideView>,
    pub goal: GoalConfig,
    pub thresholds: Thresholds,
    pub usage: UsageTotals,
    pub break_prompt_after_min: u32,
    pub points_balance: i64,
}

impl View for ConfigResponse {
    type V = ConfigResponseView;

    open spec fn view(&self) -> ConfigResponseView {
        ConfigResponseView {
            rules: views(self.rules@),
            overrides: views(self.overrides@),
            goal: self.goal,
            thresholds: self.thresholds,
            usage: self.usage,
            break_prompt_after_min: self.break_prompt_after_min,
            points_balance: self.points_balance,
        }
    }
}

// ---- Time of day ----
#[derive(Debug, Clone, Copy, PartialEq, Eq, Hash, Structural)]
pub enum TodBucket {
    Morning,
    Afternoon,
    Evening,
    Night,
}

impl TodBucket {
    pub fn as_str(self) -> (res: &'static str)
        ensures
            res@ == match self {
                TodBucket::Morning => "morning"@,
                TodBucket::Afternoon => "afternoon"@,
                TodBucket::Evening => "evening"@,
                TodBucket::Night => "night"@,
            },
    {
        match self {
            TodBucket::Morning => "morning",
            TodBucket::Afternoon => "afternoon",
            TodBucket::Evening => "evening",
            TodBucket::Night => "night",
        }
    }
}

// ---- Dashboard ----
#[derive(Debug)]
pub struct ChildInfo {
    pub id: String,
    pub name: String,
}

pub struct ChildInfoView {
    pub id: Seq<char>,
    pub name: Seq<char>,
}

impl View for ChildInfo {
    type V = ChildInfoView;

    open spec fn view(&self) -> ChildInfoView {
        ChildInfoView { id: self.id@, name: self.name@ }
    }
}

/// One line of the overview: a child across all its devices.
#[derive(Debug)]
pub struct ChildSummary {
    pub id: String,
    pub name: String,
    pub online: bool,
    pub today_s: i64,
    pub week_s: i64,
    pub points_balance: i64,
}

pub struct ChildSummaryView {
    pub id: Seq<char>,
    pub name: Seq<char>,
    pub online: bool,
    pub today_s: i64,
    pub week_s: i64,
    pub points_balance: i64,
}

impl View for ChildSummary {
    type V = ChildSummaryView;

    open spec fn view(&self) -> ChildSummaryView {
        ChildSummaryView {
            id: self.id@,
            name: self.name@,
            online: self.online,
            today_s: self.today_s,
            week_s: self.week_s,
            points_balance: self.points_balance,
        }
    }
}

/// The time spent in one application. `total_s` is the time spent in all of
/// them, so that the share of this one is `duration_s` out of `total_s`.
#[derive(Debug)]
pub struct AppBreakdown {
    pub app_name: String,
    pub category: Category,
    pub duration_s: i64,
    pub total_s: i64,
}

pub struct AppBreakdownView {
    pub app_name: Seq<char>,
    pub category: Category,
    pub duration_s: i64,
    pub total_s: i64,
}

impl View for AppBreakdown {
    type V = AppBreakdownView;

    open spec fn view(&self) -> AppBreakdownView {
        AppBreakdownView {
            app_name: self.app_name@,
            category: self.category,
            duration_s: self.duration_s,
            total_s: self.total_s,
        }
    }
}

#[derive(Debug, Clone, Copy, PartialEq, Eq, Structural)]
pub struct TodDistribution {
    pub morning_s: i64,
    pub afternoon_s: i64,
    pub evening_s: i64,
    pub night_s: i64,
}

impl Default for TodDistribution {
    fn default() -> (res: Self)
        ensures
            res == (TodDistribution { morning_s: 0, afternoon_s: 0, evening_s: 0, night_s: 0 }),
    {
        TodDistribution { morning_s: 0, afternoon_s: 0, evening_s: 0, night_s: 0 }
    }
}

#[derive(Debug)]
pub struct PointsEntry {
    pub date: String,
    pub points: i64,
    pub reason: String,
}

pub struct PointsEntryView {
    pub date: Seq<char>,
    pub points: i64,
    pub reason: Seq<char>,
}

impl View for PointsEntry {
    type V = PointsEntryView;

    open spec fn view(&self) -> PointsEntryView {
        PointsEntryView { date: self.date@, points: self.points, reason: self.reason@ }
    }
}

/// A registered device or OS account, as a master shows it.
#[derive(Debug)]
pub struct WorkerInfo {
    pub worker_id: String,
    pub hostname: String,
    pub os: String,
    pub os_user: String,
    pub child_name: Option<String>,
    pub child_id: Option<String>,
    pub approved: bool,
    pub last_seen: Option<i64>,
    pub created_at: i64,
}

pub struct WorkerInfoView {
    pub worker_id: Seq<char>,
    pub hostname: Seq<char>,
    pub os: Seq<char>,
    pub os_user: Seq<char>,
    pub child_name: Option<Seq<char>>,
    pub child_id: Option<Seq<char>>,
    pub approved: bool,
    pub last_seen: Option<i64>,
    pub created_at: i64,
}

impl View for WorkerInfo {
    type V = WorkerInfoView;

    open spec fn view(&self) -> WorkerInfoView {
        WorkerInfoView {
            worker_id: self.worker_id@,
            hostname: self.hostname@,
            os: self.os@,
            os_user: self.os_user@,
            child_name: opt_view(self.child_name),
            child_id: opt_view(self.child_id),
            approved: self.approved,
            last_seen: self.last_seen,
            created_at: self.created_at,
        }
    }
}

impl Clone for WorkerInfo {
    fn clone(&self) -> (res: Self)
        ensures
            res == *self,
    {
        WorkerInfo {
            worker_id: self.worker_id.clone(),
            hostname: self.hostname.clone(),
            os: self.os.clone(),
            os_user: self.os_user.clone(),
            child_name: clone_opt(&self.child_name),
            child_id: clone_opt(&self.child_id),
            approved: self.approved,
            last_seen: self.last_seen,
            created_at: self.created_at,
        }
    }
}

/// The overview: all children, and the workers that wait for approval.
#[derive(Debug)]
pub struct DashboardSummary {
    pub children: Vec<ChildSummary>,
    pub pending: Vec<WorkerInfo>,
}

/// All about one child.
#[derive(Debug)]
pub struct ChildDetail {
    pub breakdown: Vec<AppBreakdown>,
    pub tod: TodDistribution,
    pub goal: GoalConfig,
    pub usage: UsageTotals,
    pub points_balance: i64,
    pub points_history: Vec<PointsEntry>,
}

/// An application without a category of its own.
#[derive(Debug)]
pub struct UncategorizedApp {
    pub app_name: String,
    pub total_s: i64,
}

impl View for UncategorizedApp {
    type V = (Seq<char>, i64);

    open spec fn view(&self) -> (Seq<char>, i64) {
        (self.app_name@, self.total_s)
    }
}

/// A text names a category exactly if it is the category's name, or the second
/// spelling of social media.
pub proof fn only_category_names_name_categories(s: Seq<char>, c: Category)
    ensures
        category_named(s) == Some(c) <==> s == category_name(c) || (c == Category::SocialMedia && s
            == "SocialMedia"@),
        category_name(Category::Games) == "Games"@,
        category_name(Category::Educational) == "Educational"@,
        category_name(Category::Entertainment) == "Entertainment"@,
        category_name(Category::SocialMedia) == "Social Media"@,
        category_name(Category::Productivity) == "Productivity"@,
        category_name(Category::Browsers) == "Browsers"@,
        category_name(Category::Other) == "Other"@,
{
    category_names_round_trip(c);
    reveal_strlit("SocialMedia");
    reveal_strlit("Games");
    reveal_strlit("Educational");
    reveal_strlit("Entertainment");
    assert("SocialMedia"@[0] == 'S');
    assert("Games"@[0] == 'G');
    assert("Educational"@[0] == 'E');
    assert("Entertainment"@[0] == 'E');
}

/// Categories and times of day bear their names, and a category is read back
/// from its name; a stored text that names none counts as `Other`.
pub proof fn names_are_read_back(
    c: Category,
    name: &'static str,
    s: &str,
    read: Result<Category, ()>,
    stored: Category,
    b: TodBucket,
    bucket: &'static str,
)
    requires
        call_ensures(Category::as_str, (c,), name),
        call_ensures(Category::from_str, (s,), read),
        call_ensures(Category::from_stored, (s,), stored),
        call_ensures(TodBucket::as_str, (b,), bucket),
    ensures
        name@ == match c {
            Category::Games => "Games"@,
            Category::Educational => "Educational"@,
            Category::Entertainment => "Entertainment"@,
            Category::SocialMedia => "Social Media"@,
            Category::Productivity => "Productivity"@,
            Category::Browsers => "Browsers"@,
            Category::Other => "Other"@,
        },
        read == Ok::<Category, ()>(c) <==> s@ == name@ || (c == Category::SocialMedia && s@
            == "SocialMedia"@),
        read matches Ok(r) ==> stored == r,
        read is Err ==> stored == Category::Other,
        bucket@ == match b {
            TodBucket::Morning => "morning"@,
            TodBucket::Afternoon => "afternoon"@,
            TodBucket::Evening => "evening"@,
            TodBucket::Night => "night"@,
        },
{
    only_category_names_name_categories(s@, c);
}

} // verus!
