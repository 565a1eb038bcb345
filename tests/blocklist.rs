use disposable_domains::blocklist::Blocklist;
use disposable_domains::text::{normalize, trim};

#[test]
fn loader_filters_comments_blanks_and_normalises() {
    let list = Blocklist::from_text("  FOO.com  \n# comment\n\nbar.com\n");
    assert_eq!(list.len(), 2);
    assert!(list.contains_exact("foo.com"));
    assert!(list.contains_exact("bar.com"));
    assert!(!list.contains_exact("FOO.com"));
    assert!(!list.contains_exact("# comment"));
}

#[test]
fn loader_collapses_duplicates() {
    let list = Blocklist::from_text("a.com\nA.COM\n  a.com\t\nb.com");
    assert_eq!(list.len(), 2);
    assert!(list.contains_exact("a.com"));
    assert!(list.contains_exact("b.com"));
}

#[test]
fn loader_handles_crlf_and_missing_final_newline() {
    let list = Blocklist::from_text("one.com\r\ntwo.com\r\nthree.com");
    assert_eq!(list.len(), 3);
    assert!(list.contains_exact("one.com"));
    assert!(list.contains_exact("two.com"));
    assert!(list.contains_exact("three.com"));
}

#[test]
fn loader_skips_indented_comments() {
    let list = Blocklist::from_text("   # not a domain\nreal.com\n#also.com");
    assert_eq!(list.len(), 1);
    assert!(list.contains_exact("real.com"));
}

#[test]
fn loader_of_empty_text_is_empty() {
    assert_eq!(Blocklist::from_text("").len(), 0);
    assert_eq!(Blocklist::from_text("\n\n  \n").len(), 0);
}

#[test]
fn trim_removes_unicode_whitespace() {
    assert_eq!(trim("\u{3000}x y\u{00A0}\t"), "x y");
    assert_eq!(trim("   "), "");
    assert_eq!(trim(""), "");
    assert_eq!(trim("abc"), "abc");
    assert_eq!(trim("\r\n a.b \n"), "a.b");
}

#[test]
fn trim_agrees_with_std() {
    for s in ["", " ", "\u{2028}a\u{205F}", "\u{85}b", "x\u{200B}", " \u{1680}c d\u{2009} "] {
        assert_eq!(trim(s), s.trim());
    }
}

#[test]
fn normalize_trims_then_lowercases() {
    assert_eq!(normalize("  MiXeD.Com\t"), "mixed.com");
    assert_eq!(normalize("ÉCOLE.FR"), "école.fr");
    assert_eq!(normalize(""), "");
}

#[test]
fn from_normalized_keeps_entries_only() {
    let lines: Vec<String> = ["foo.com", "#x", "", "bar.com", "foo.com", "# y"]
        .iter()
        .map(|s| s.to_string())
        .collect();
    let list = Blocklist::from_normalized(&lines);
    assert_eq!(list.len(), 2);
    assert!(list.contains_exact("foo.com"));
    assert!(list.contains_exact("bar.com"));
    assert!(!list.contains_exact("#x"));
    assert!(!list.contains_exact(""));
}

#[test]
fn from_normalized_takes_lines_as_given() {
    let lines: Vec<String> = vec![" Foo.com ".to_string()];
    let list = Blocklist::from_normalized(&lines);
    assert_eq!(list.len(), 1);
    assert!(list.contains_exact(" Foo.com "));
    assert!(!list.contains_exact("foo.com"));
}
