use timewise::seqs::sort;
use timewise::model::{CategoryOverride, Category, PointsEntry};
use timewise::text::{
    chars_of, decimal_text, eq_ignore_ascii_case, strip_prefix, strip_suffix, text_eq, text_le, trim,
};

#[test]
fn comparisons() {
    assert!(text_eq("a\u{e4}", "a\u{e4}"));
    assert!(!text_eq("a", "A"));
    assert!(eq_ignore_ascii_case("Ab\u{c4}z", "aB\u{c4}Z"));
    assert!(!eq_ignore_ascii_case("\u{c4}", "\u{e4}"));
    assert!(!eq_ignore_ascii_case("a", "ab"));
    assert!(!eq_ignore_ascii_case("@", "`"));
    assert!(text_le("", "a") && text_le("a", "ab") && text_le("B", "a") && text_le("z", "\u{e4}"));
    assert!(!text_le("ab", "a") && !text_le("a", ""));
    assert_eq!(chars_of("a\u{1f600}"), ['a', '\u{1f600}']);
}

#[test]
fn trimming_and_affixes() {
    for s in ["", " ", " a b\t\n", "\u{a0}x\u{3000}", "\u{200b}x", "x\u{85}"] {
        assert_eq!(trim(s), s.trim());
    }
    assert_eq!(strip_prefix("Bearer x", "Bearer "), Some("x"));
    assert_eq!(strip_prefix("Bearer", "Bearer "), None);
    assert_eq!(strip_suffix("a.exe", ".exe"), Some("a"));
    assert_eq!(strip_suffix("exe", ".exe"), None);
    assert_eq!(strip_suffix("a", ""), Some("a"));
}

#[test]
fn numbers() {
    for n in [0, 9, 10, 47820, u64::MAX] {
        assert_eq!(decimal_text(n), n.to_string());
    }
}

#[test]
fn sorting_keeps_equal_rows_in_their_order() {
    let o = |n: &str, category| CategoryOverride { app_name: n.into(), category };
    let sorted = sort(vec![o("b", Category::Games), o("a", Category::Other), o("b", Category::Other)]);
    let names: Vec<&str> = sorted.iter().map(|o| o.app_name.as_str()).collect();
    assert_eq!(names, ["a", "b", "b"]);
    assert_eq!(sorted[1].category, Category::Games);
    let none: Vec<PointsEntry> = sort(Vec::new());
    assert!(none.is_empty());
}
