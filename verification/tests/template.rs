use shellenv::template::{parse_format, preset};

#[test]
fn parse_format_fills_in_the_name_and_the_value() {
    assert_eq!(parse_format("export {N}={V}", "FOO", "BAR", ""), "export FOO=BAR");
    assert_eq!(parse_format("set -x {N} {V}", "PATH", "/usr/bin", ""), "set -x PATH /usr/bin");
}

#[test]
fn parse_format_fills_in_every_occurrence() {
    assert_eq!(
        parse_format("export {N}={V}:${N}", "PATH", "/usr/bin", "/bin"),
        "export PATH=/usr/bin:$PATH"
    );
    assert_eq!(parse_format("{V}{V} {N}{N} {C}{C}", "n", "v", "c"), "vv nn cc");
}

#[test]
fn parse_format_fills_in_the_current_value() {
    assert_eq!(parse_format("{N}: {C} -> {V}", "X", "new", "old"), "X: old -> new");
    assert_eq!(parse_format("{N}: {C} -> {V}", "X", "new", ""), "X:  -> new");
}

#[test]
fn parse_format_leaves_other_text_alone() {
    assert_eq!(parse_format("nothing to do", "A", "B", "C"), "nothing to do");
    assert_eq!(parse_format("", "A", "B", "C"), "");
    assert_eq!(parse_format("{n} {v} {X} {N {V", "A", "B", "C"), "{n} {v} {X} {N {V");
    assert_eq!(parse_format("{{N}}", "A", "B", "C"), "{A}");
}

#[test]
fn parse_format_does_not_escape() {
    assert_eq!(
        parse_format("export {N}={V}", "A", "$(rm -rf /); echo 'x y'", ""),
        "export A=$(rm -rf /); echo 'x y'"
    );
}

#[test]
fn parse_format_puts_texts_in_as_they_are() {
    assert_eq!(parse_format("export {N}={V}", "X", "{C}", "cur"), "export X={C}");
    assert_eq!(parse_format("{N}", "{V}", "{C}", "end"), "{V}");
    assert_eq!(parse_format("{V}", "name", "{N}", "cur"), "{N}");
    assert_eq!(parse_format("{C}", "name", "value", "{N}{V}"), "{N}{V}");
    assert_eq!(parse_format("{N}|{V}|{C}", "{C}", "{N}", "{V}"), "{C}|{N}|{V}");
}

#[test]
fn parse_format_does_not_read_across_what_it_put_in() {
    assert_eq!(parse_format("{N}V}", "{", "x", ""), "{V}");
    assert_eq!(parse_format("{{V}}", "n", "N", "c"), "{N}");
    assert_eq!(parse_format("{{N}C}", "n", "v", "c"), "{nC}");
    assert_eq!(parse_format("{N}{N}", "{N", "v", "c"), "{N{N");
}

#[test]
fn preset_knows_the_bourne_family() {
    for dialect in ["sh", "bash", "zsh"] {
        let found = preset(dialect).unwrap();
        assert_eq!(found.format_override, "export {N}={V}");
        assert_eq!(found.format_append, "export {N}={V}:${N}");
    }
}

#[test]
fn preset_knows_fish() {
    let found = preset("fish").unwrap();
    assert_eq!(found.format_override, "set -x {N} {V}");
    assert_eq!(found.format_append, "set -x {N} {V} ${N}");
}

#[test]
fn preset_knows_no_other_dialect() {
    for dialect in ["", "csh", "tcsh", "Bash", "fish ", "powershell", "s", "shh"] {
        assert!(preset(dialect).is_none(), "{:?}", dialect);
    }
}
