//! Gates in front of the tracker: no input for a while, and the application's
//! own window.
use crate::seqs::opt_view;
use crate::text::{ascii_fold, eq_ignore_ascii_case};
use crate::tracker::{ActiveWindow, WindowView};
use vstd::prelude::*;

verus! {

/// Names of applications that are never recorded.
pub const SELF_APP_NAMES: [&'static str; 3] = ["timewise-app", "TimeWise", "timewise"];

/// Whether a name is one of the application's own. Case does not matter in
/// ASCII letters.
pub open spec fn own_name(app_name: Seq<char>) -> bool {
    exists|i: int|
        0 <= i < SELF_APP_NAMES@.len() && ascii_fold(app_name) == ascii_fold(
            (#[trigger] SELF_APP_NAMES@[i])@,
        )
}

pub fn is_self_app(app_name: &str) -> (own: bool)
    ensures
        own == own_name(app_name@),
{
    let mut i: usize = 0;
    while i < 3
        invariant
            i <= 3,
            forall|j: int|
                0 <= j < i ==> ascii_fold(app_name@) != ascii_fold((#[trigger] SELF_APP_NAMES@[j])@),
        decreases 3 - i,
    {
        if eq_ignore_ascii_case(app_name, SELF_APP_NAMES[i]) {
            return true;
        }
        i += 1;
    }
    false
}

/// What of an observation is tracked. `idle_s` is the time since the last
/// input in seconds, rounded up: past the threshold nothing is tracked, and
/// the application's own window never is.
pub open spec fn gated(
    window: Option<WindowView>,
    idle_s: i64,
    idle_threshold_s: i64,
) -> Option<WindowView> {
    match window {
        Some(w) => if idle_s > idle_threshold_s || own_name(w.app_name) {
            None
        } else {
            Some(w)
        },
        None => None,
    }
}

pub fn gated_window(window: Option<ActiveWindow>, idle_s: i64, idle_threshold_s: i64) -> (res: Option<
    ActiveWindow,
>)
    ensures
        opt_view(res) == gated(opt_view(window), idle_s, idle_threshold_s),
        res is Some ==> res == window,
{
    if idle_s > idle_threshold_s {
        return None;
    }
    match window {
        Some(w) => if is_self_app(w.app_name.as_str()) {
            None
        } else {
            Some(w)
        },
        None => None,
    }
}

// ---- Laws ----
/// Without input for longer than the threshold nothing is tracked.
pub proof fn idle_pauses_everything(window: Option<WindowView>, idle_s: i64, idle_threshold_s: i64)
    requires
        idle_s > idle_threshold_s,
    ensures
        gated(window, idle_s, idle_threshold_s) is None,
{
}

/// The application does not record itself, however its name is spelled.
pub proof fn own_window_is_never_tracked(
    w: WindowView,
    spelled: WindowView,
    idle_s: i64,
    idle_threshold_s: i64,
)
    requires
        own_name(w.app_name),
        ascii_fold(spelled.app_name) == ascii_fold(w.app_name),
    ensures
        gated(Some(spelled), idle_s, idle_threshold_s) is None,
{
}

/// The names that are the application's own.
pub proof fn own_names_are_three(name: Seq<char>)
    ensures
        own_name(name) <==> ascii_fold(name) == ascii_fold("timewise-app"@) || ascii_fold(name)
            == ascii_fold("TimeWise"@) || ascii_fold(name) == ascii_fold("timewise"@),
{
    assert(SELF_APP_NAMES@[0]@ == "timewise-app"@);
    assert(SELF_APP_NAMES@[1]@ == "TimeWise"@);
    assert(SELF_APP_NAMES@[2]@ == "timewise"@);
    if own_name(name) {
        let i = choose|i: int|
            0 <= i < SELF_APP_NAMES@.len() && ascii_fold(name) == ascii_fold(
                (#[trigger] SELF_APP_NAMES@[i])@,
            );
        assert(i == 0 || i == 1 || i == 2);
    }
}

/// As long as there was input within the threshold, every other window is
/// tracked, as it is.
pub proof fn other_windows_are_tracked(w: WindowView, idle_s: i64, idle_threshold_s: i64)
    requires
        idle_s <= idle_threshold_s,
        ascii_fold(w.app_name) != ascii_fold("timewise-app"@),
        ascii_fold(w.app_name) != ascii_fold("TimeWise"@),
        ascii_fold(w.app_name) != ascii_fold("timewise"@),
    ensures
        gated(Some(w), idle_s, idle_threshold_s) == Some(w),
        gated(None, idle_s, idle_threshold_s) is None,
{
    own_names_are_three(w.app_name);
}

/// A window is the application's own if it bears one of its three names, in
/// whatever case.
pub proof fn own_windows_are_known_by_name(app_name: &str, own: bool)
    requires
        call_ensures(is_self_app, (app_name,), own),
    ensures
        own <==> ascii_fold(app_name@) == ascii_fold("timewise-app"@) || ascii_fold(app_name@)
            == ascii_fold("TimeWise"@) || ascii_fold(app_name@) == ascii_fold("timewise"@),
{
    own_names_are_three(app_name@);
}

} // verus!
