use shellenv::text::{
    chars_of, find, is_whitespace, matches_at, same_text, split_fields, split_words,
};

fn owned(items: &[&str]) -> Vec<String> {
    items.iter().map(|s| s.to_string()).collect()
}

#[test]
fn chars_of_keeps_every_character_in_order() {
    assert_eq!(chars_of("a\u{e9}\u{1F600}z"), vec!['a', '\u{e9}', '\u{1F600}', 'z']);
    assert_eq!(chars_of(""), Vec::<char>::new());
}

#[test]
fn same_text_compares_characters() {
    assert!(same_text("", ""));
    assert!(same_text("+=", "+="));
    assert!(!same_text("+=", "+=!"));
    assert!(!same_text("+=!", "+="));
    assert!(!same_text("abc", "abd"));
    assert!(same_text("\u{e9}t\u{e9}", "\u{e9}t\u{e9}"));
}

#[test]
fn is_whitespace_agrees_with_the_standard_library_on_every_character() {
    let mut code: u32 = 0;
    while code <= 0x10FFFF {
        if let Some(c) = char::from_u32(code) {
            assert_eq!(is_whitespace(c), c.is_whitespace(), "U+{:04X}", code);
        }
        code += 1;
    }
}

#[test]
fn matches_at_checks_one_place() {
    let text = chars_of("abcabc");
    let pat = chars_of("bc");
    assert!(!matches_at(&text, &pat, 0));
    assert!(matches_at(&text, &pat, 1));
    assert!(matches_at(&text, &pat, 4));
    assert!(!matches_at(&text, &pat, 5));
    assert!(!matches_at(&text, &pat, 6));
    assert!(!matches_at(&text, &pat, usize::MAX));
    assert!(matches_at(&text, &chars_of(""), 6));
    assert!(!matches_at(&text, &chars_of(""), 7));
}

#[test]
fn find_returns_the_leftmost_place() {
    let text = chars_of("xx+=yy+=zz");
    assert_eq!(find(&text, &chars_of("+=")), Some(2));
    assert_eq!(find(&text, &chars_of("zz")), Some(8));
    assert_eq!(find(&text, &chars_of("+=!")), None);
    assert_eq!(find(&text, &chars_of("xx+=yy+=zz!")), None);
    assert_eq!(find(&text, &chars_of("")), Some(0));
    assert_eq!(find(&chars_of(""), &chars_of("")), Some(0));
    assert_eq!(find(&chars_of(""), &chars_of("a")), None);
}

#[test]
fn split_fields_yields_one_piece_more_than_separators() {
    assert_eq!(split_fields("a:b", ':'), owned(&["a", "b"]));
    assert_eq!(split_fields("", ':'), owned(&[""]));
    assert_eq!(split_fields("abc", ':'), owned(&["abc"]));
    assert_eq!(split_fields("a:", ':'), owned(&["a", ""]));
    assert_eq!(split_fields(":a", ':'), owned(&["", "a"]));
    assert_eq!(split_fields("::", ':'), owned(&["", "", ""]));
    assert_eq!(split_fields("/usr/bin:/bin::/opt", ':'), owned(&["/usr/bin", "/bin", "", "/opt"]));
}

#[test]
fn split_fields_agrees_with_the_standard_library() {
    for text in ["", ":", "a", "a:b:c", "::a::", "x:y:", "\u{e9}:\u{1F600}"] {
        let expected: Vec<String> = text.split(':').map(|s| s.to_string()).collect();
        assert_eq!(split_fields(text, ':'), expected, "{:?}", text);
    }
}

#[test]
fn split_words_cuts_at_runs_of_white_space() {
    assert_eq!(split_words("PATH += /usr/bin"), owned(&["PATH", "+=", "/usr/bin"]));
    assert_eq!(split_words(""), Vec::<String>::new());
    assert_eq!(split_words("  \t\n "), Vec::<String>::new());
    assert_eq!(split_words("one"), owned(&["one"]));
    assert_eq!(split_words("  lead"), owned(&["lead"]));
    assert_eq!(split_words("trail \r\n"), owned(&["trail"]));
    assert_eq!(split_words("a\u{3000}b\u{a0}c\u{2003}d"), owned(&["a", "b", "c", "d"]));
    assert_eq!(split_words("x  y"), owned(&["x", "y"]));
}

#[test]
fn split_words_agrees_with_the_standard_library() {
    for text in [
        "",
        " ",
        "a",
        " a",
        "a ",
        "a b",
        "a\tb\nc",
        "  FOO=BAR   X+=Y\r\n",
        "\u{85}q\u{1680}",
    ] {
        let expected: Vec<String> = text.split_whitespace().map(|s| s.to_string()).collect();
        assert_eq!(split_words(text), expected, "{:?}", text);
    }
}
