use bouncer::text::{split_once_slash, str_eq, trim, trim_leading_slashes};

#[test]
fn trim_matches_std_trim() {
    for s in [
        "",
        "   ",
        " a ",
        "\t\n a b \r\n",
        "\u{3000}x\u{205f}",
        "\u{200b}x\u{200b}",
        "é ",
        "\u{1680}\u{2000}\u{200a}y\u{2028}\u{2029}\u{202f}",
    ] {
        assert_eq!(trim(s), s.trim(), "{:?}", s);
    }
}

#[test]
fn leading_slashes_are_stripped() {
    assert_eq!(trim_leading_slashes("///a/b/"), "a/b/");
    assert_eq!(trim_leading_slashes("a"), "a");
    assert_eq!(trim_leading_slashes("//"), "");
}

#[test]
fn split_on_first_slash() {
    assert_eq!(split_once_slash("a/b/c"), Some(("a", "b/c")));
    assert_eq!(split_once_slash("/x"), Some(("", "x")));
    assert_eq!(split_once_slash("abc"), None);
    assert_eq!(split_once_slash("ü/ß"), Some(("ü", "ß")));
}

#[test]
fn string_equality() {
    assert!(str_eq("abc", "abc"));
    assert!(!str_eq("abc", "abd"));
    assert!(!str_eq("ab", "abc"));
    assert!(str_eq("", ""));
}
