use timewise::idle::{gated_window, is_self_app, SELF_APP_NAMES};
use timewise::tracker::ActiveWindow;

fn win(app: &str) -> Option<ActiveWindow> {
    Some(ActiveWindow { app_name: app.into(), title: "t".into() })
}

#[test]
fn idle_pauses_tracking() {
    assert!(gated_window(win("Roblox"), 299, 300).is_some());
    assert!(gated_window(win("Roblox"), 301, 300).is_none());
    assert!(gated_window(None, 301, 300).is_none());
}

#[test]
fn self_app_is_never_recorded() {
    assert!(gated_window(win("timewise-app"), 0, 300).is_none());
    assert!(gated_window(win("TimeWise"), 0, 300).is_none());
    assert!(gated_window(win("TIMEWISE-APP"), 0, 300).is_none());
    assert!(gated_window(win("Roblox"), 0, 300).is_some());
}

#[test]
fn the_threshold_itself_is_not_idle() {
    assert_eq!(gated_window(win("Roblox"), 300, 300), win("Roblox"));
    assert!(gated_window(None, 0, 300).is_none());
}

#[test]
fn only_whole_names_are_own() {
    for name in SELF_APP_NAMES {
        assert!(is_self_app(name));
        assert!(is_self_app(&name.to_uppercase()));
    }
    assert!(!is_self_app("timewise-app2"));
    assert!(!is_self_app(""));
    // Case is ignored in ASCII letters only.
    assert!(!is_self_app("tim\u{212a}wise"));
}
