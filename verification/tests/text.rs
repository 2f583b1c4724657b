use catalyzer::text::{contains, split, starts_with, str_eq, str_le, strip, Strip};

#[test]
fn split_keeps_empty_pieces() {
    assert_eq!(split("a/b/c", '/'), vec!["a", "b", "c"]);
    assert_eq!(split("/a//b/", '/'), vec!["", "a", "", "b", ""]);
    assert_eq!(split("", '/'), vec![""]);
    assert_eq!(split("abc", '/'), vec!["abc"]);
}

#[test]
fn order_is_by_code_point() {
    assert!(str_le("Alpha", "Beta"));
    assert!(str_le("Alpha", "Alpha"));
    assert!(!str_le("Beta", "Alpha"));
    assert!(str_le("Zeta", "alpha"));
    assert!(str_le("", "a"));
    assert!(!str_le("a", ""));
    assert!(str_le("ab", "abc"));
    assert!(str_le("é", "日本"));
}

#[test]
fn equality_and_search() {
    assert!(str_eq("mods", "mods"));
    assert!(!str_eq("mods", "mod"));
    assert!(contains("/store/.git/config", ".git"));
    assert!(!contains("/store/alpha", ".git"));
    assert!(contains("abc", ""));
    assert!(starts_with("refs/tags/0.G", "refs/tags/"));
    assert!(!starts_with("refs/heads/main", "refs/tags/"));
}

#[test]
fn strip_takes_off_both_ends_only() {
    assert_eq!(strip("  \t a b \n", Strip::Space), "a b");
    assert_eq!(strip("\u{3000}x\u{00A0}", Strip::Space), "x");
    assert_eq!(strip("\"\"C:\\game\"", Strip::Quote), "C:\\game");
    assert_eq!(strip("   ", Strip::Space), "");
    assert_eq!(strip("a\"b", Strip::Quote), "a\"b");
}
