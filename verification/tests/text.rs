use file_selector::text::{text_at_most, text_eq, text_starts_with};

#[test]
fn order_is_bytewise() {
    assert!(text_at_most("a.txt", "ab.txt"));
    assert!(!text_at_most("ab.txt", "a.txt"));
    assert!(text_at_most("a", "a"));
    assert!(text_at_most("", "a"));
    assert!(!text_at_most("a", ""));
    assert!(text_at_most("Z", "a"));
    assert!(text_at_most("a", "é"));
    assert!(text_at_most("é", "日"));
    assert!(!text_at_most("日", "é"));
}

#[test]
fn a_proper_prefix_comes_first() {
    assert!(text_at_most("/tmp/x", "/tmp/x/a"));
    assert!(!text_at_most("/tmp/x/a", "/tmp/x"));
}

#[test]
fn prefix_test_matches_std() {
    assert!(text_starts_with("a.txt", "a"));
    assert!(text_starts_with("a.txt", ""));
    assert!(text_starts_with("a.txt", "a.txt"));
    assert!(!text_starts_with("a.txt", "a.txt1"));
    assert!(!text_starts_with("a.txt", "b"));
    assert!(!text_starts_with("", "b"));
    assert!(text_starts_with("日本語", "日本"));
    assert!(!text_starts_with("日本語", "本"));
}

#[test]
fn equality_is_by_content() {
    assert!(text_eq("", ""));
    assert!(text_eq("/tmp/x/a.txt", "/tmp/x/a.txt"));
    assert!(!text_eq("/tmp/x/a.txt", "/tmp/x/a.tx"));
    assert!(!text_eq("/tmp/x/a.txt", "/tmp/x/b.txt"));
}

#[test]
fn order_follows_code_points() {
    let texts = [
        "", "a", "a\u{7f}", "a\u{80}", "a\u{7ff}", "a\u{800}", "a\u{d7ff}", "a\u{e000}",
        "a\u{ffff}", "a\u{10000}", "a\u{10ffff}", "b", "\u{80}", "\u{10000}a", "\u{ffff}z",
    ];
    for a in texts {
        for b in texts {
            let by_chars = a.chars().map(|c| c as u32).le(b.chars().map(|c| c as u32));
            assert_eq!(text_at_most(a, b), by_chars, "{:?} {:?}", a, b);
            assert_eq!(text_at_most(a, b), a <= b, "{:?} {:?}", a, b);
        }
    }
}

#[test]
fn prefix_and_equality_agree_with_std() {
    let texts = ["", "a", "ab", "abc", "b", "é", "éa", "日本", "日本語", "\u{10000}", "\u{10000}x"];
    for a in texts {
        for b in texts {
            assert_eq!(text_starts_with(a, b), a.starts_with(b), "{:?} {:?}", a, b);
            assert_eq!(text_eq(a, b), a == b, "{:?} {:?}", a, b);
        }
    }
}
