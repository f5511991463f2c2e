use regex::Regex;
use timewise::catalog::{bundled_apps, bundled_rules};
use timewise::categorize::{decide, normalize, Categorizer};
use timewise::model::{Category, CategoryOverride, CategoryRule};

#[test]
fn bundled_json_valid_and_nonempty() {
    assert!(bundled_apps().len() >= 100, "seed table should have ~100 apps");
    let rules = bundled_rules();
    assert!(!rules.is_empty());
    for r in &rules {
        assert!(Regex::new(&r.pattern).is_ok(), "invalid bundled regex: {}", r.pattern);
    }
}

#[test]
fn precedence_override_beats_regex_beats_static() {
    let c = Categorizer::from_bundled();
    // Static hit
    assert_eq!(c.categorize("Roblox", "Roblox"), Category::Games);
    // Regex hit on a non-static app
    assert_eq!(c.categorize("Some Browser Fork", "YouTube - lo-fi beats"), Category::Entertainment);
    // Override beats both
    let c = c.with_overrides(&[CategoryOverride {
        app_name: "Roblox".into(),
        category: Category::Educational,
    }]);
    assert_eq!(c.categorize("Roblox", "Roblox"), Category::Educational);
}

#[test]
fn normalize_handles_exe_and_case() {
    let c = Categorizer::from_bundled();
    assert_eq!(c.categorize("CHROME.EXE", "New Tab"), Category::Browsers);
    assert_eq!(c.categorize("minecraft", ""), Category::Games);
}

#[test]
fn unknown_app_is_other() {
    let c = Categorizer::from_bundled();
    assert_eq!(c.categorize("Totally Unknown App", "nothing"), Category::Other);
}

#[test]
fn first_matching_rule_wins() {
    let c = Categorizer::from_bundled().with_rules(&[
        CategoryRule { pattern: "foo".into(), category: Category::Games },
        CategoryRule { pattern: "foo".into(), category: Category::Other },
    ]);
    assert_eq!(c.categorize("foo app", ""), Category::Games);
}

#[test]
fn invalid_pushed_rule_is_skipped_not_fatal() {
    let c = Categorizer::from_bundled().with_rules(&[
        CategoryRule { pattern: "([invalid".into(), category: Category::Games },
        CategoryRule { pattern: "bar".into(), category: Category::Productivity },
    ]);
    assert_eq!(c.categorize("bar", ""), Category::Productivity);
}

#[test]
fn names_are_normalized_exactly() {
    assert_eq!(normalize("  CHROME.EXE\t"), "chrome");
    assert_eq!(normalize("\u{c4}pfel"), "\u{e4}pfel");
    assert_eq!(normalize("exe"), "exe");
    assert_eq!(normalize(".exe"), "");
    assert_eq!(normalize("a.exe.exe"), "a.exe");
    assert_eq!(normalize("   "), "");
}

#[test]
fn a_rule_matches_name_or_title_and_beats_the_table() {
    let c = Categorizer::from_bundled().with_rules(&[CategoryRule {
        pattern: "^Homework$".into(),
        category: Category::Educational,
    }]);
    assert_eq!(c.categorize("Roblox", "Homework"), Category::Educational);
    assert_eq!(c.categorize("Homework", ""), Category::Educational);
    assert_eq!(c.categorize("Roblox", "homework"), Category::Games);
    // Pushed rules take the place of the bundled ones.
    assert_eq!(c.categorize("Some Browser Fork", "YouTube - lo-fi beats"), Category::Other);
}

#[test]
fn spelling_does_not_matter_for_overrides() {
    let c = Categorizer::from_bundled().with_overrides(&[
        CategoryOverride { app_name: "My Tool.exe".into(), category: Category::Games },
        CategoryOverride { app_name: "my tool".into(), category: Category::Productivity },
    ]);
    // The last override of a name counts.
    assert_eq!(c.categorize(" MY TOOL ", "x"), Category::Productivity);
}

#[test]
fn layers_in_order() {
    let hits = vec![(false, Category::Games), (true, Category::Browsers), (true, Category::Other)];
    let none: Vec<(bool, Category)> = Vec::new();
    assert_eq!(decide(Some(Category::Educational), &hits, Some(Category::Games)), Category::Educational);
    assert_eq!(decide(None, &hits, Some(Category::Games)), Category::Browsers);
    assert_eq!(decide(None, &none, Some(Category::Games)), Category::Games);
    assert_eq!(decide(None, &none, None), Category::Other);
}
