use xyz_rust::text::quote;

#[test]
fn quoting_matches_debug_on_ascii() {
    for s in ["plain", "a\"b", "back\\slash", "tab\tnl\ncr\r", "nul\0", "esc\u{1b}[0m", "del\u{7f}", "bell\u{7}", "it's", ""] {
        assert_eq!(quote(s), format!("{s:?}"), "{s:?}");
    }
    assert_eq!(quote("名字"), "\"名字\"");
}
