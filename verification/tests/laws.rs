use shellenv::directive::scan;
use shellenv::environment::Environment;
use shellenv::operator::Operator;
use shellenv::resolver::{parse_op, resolve};
use shellenv::template::{parse_format, preset};
use shellenv::text::{split_fields, split_words};
use shellenv::tokenizer::{split_word, tokenize};

const SAMPLES: [&str; 12] = [
    "",
    ":",
    "a",
    "a:b",
    ":a::b:",
    "PATH += /usr/bin:/bin",
    "  FOO=BAR\tBAZ=!qux  ",
    "A?=1 B+=!2\nC=3",
    "x=!=y",
    "+=",
    "{N}={V}:{C}",
    "\u{e9}\u{3000}\u{1F600}:=",
];

#[test]
fn the_pieces_of_a_split_join_back_to_the_text() {
    for text in SAMPLES {
        for sep in [':', '=', ' ', '\n'] {
            let pieces = split_fields(text, sep);
            assert!(!pieces.is_empty());
            assert!(pieces.iter().all(|piece| !piece.contains(sep)));
            assert_eq!(pieces.join(&sep.to_string()), text);
            assert_eq!(pieces.len(), text.chars().filter(|c| *c == sep).count() + 1);
        }
    }
}

#[test]
fn a_split_of_joined_pieces_gives_the_pieces_back() {
    let lists: [&[&str]; 5] = [&[""], &["a"], &["", ""], &["a", "", "b"], &["/usr/bin", "/bin", ""]];
    for pieces in lists {
        let joined = pieces.join(":");
        let expected: Vec<String> = pieces.iter().map(|p| p.to_string()).collect();
        assert_eq!(split_fields(&joined, ':'), expected);
    }
}

#[test]
fn words_are_never_empty_and_hold_no_white_space() {
    for text in SAMPLES {
        for word in split_words(text) {
            assert!(!word.is_empty());
            assert!(!word.chars().any(|c| c.is_whitespace()));
        }
    }
}

#[test]
fn words_on_either_side_of_a_space_are_found_independently() {
    for left in SAMPLES {
        for right in SAMPLES {
            let mut expected = split_words(left);
            expected.extend(split_words(right));
            assert_eq!(split_words(&format!("{} {}", left, right)), expected);
            assert_eq!(split_words(&format!("{}\n{}", left, right)), expected);
        }
    }
}

#[test]
fn tokens_are_never_empty_and_hold_no_white_space() {
    let raw: Vec<String> = SAMPLES.iter().map(|s| s.to_string()).collect();
    for token in tokenize(&raw) {
        assert!(!token.is_empty());
        assert!(!token.chars().any(|c| c.is_whitespace()));
    }
}

#[test]
fn a_word_is_cut_into_at_most_three_pieces_that_make_it_up() {
    for text in SAMPLES {
        for word in split_words(text) {
            let pieces = split_word(&word);
            assert!(!pieces.is_empty() && pieces.len() <= 3);
            assert_eq!(pieces.concat(), word);
            let markers = pieces.iter().filter(|p| Operator::parse(p).is_some()).count();
            if pieces.len() > 1 {
                assert!(markers >= 1);
            }
        }
    }
}

#[test]
fn a_template_without_an_opening_brace_is_put_out_as_it_is() {
    for template in SAMPLES {
        if !template.contains('{') {
            assert_eq!(parse_format(template, "{N}", "{V}", "{C}"), template);
        }
    }
    assert_eq!(parse_format("N} V} C} }", "n", "v", "c"), "N} V} C} }");
}

#[test]
fn text_in_front_of_a_template_does_not_change_how_it_is_read() {
    for front in ["", "a", "export ", "}", "N}", "$"] {
        for template in SAMPLES {
            let alone = parse_format(template, "n", "{V}", "c");
            let behind = parse_format(&format!("{}{}", front, template), "n", "{V}", "c");
            assert_eq!(behind, format!("{}{}", front, alone));
        }
    }
}

#[test]
fn formatting_fills_every_placeholder_of_a_template() {
    assert_eq!(
        parse_format("<{N}|{V}|{C}> {C}{V}{N} }{", "name", "value", "current"),
        "<name|value|current> currentvaluename }{"
    );
    assert_eq!(
        parse_format("<{N}|{V}|{C}> {C}{V}{N}", "{V}", "{C}", "{N}"),
        "<{V}|{C}|{N}> {N}{C}{V}"
    );
}

#[test]
fn the_presets_put_out_the_statements_of_their_shells() {
    let sh = preset("sh").unwrap();
    assert_eq!(parse_format(&sh.format_override, "A", "1", "0"), "export A=1");
    assert_eq!(parse_format(&sh.format_append, "A", "1", "0"), "export A=1:$A");
    let fish = preset("fish").unwrap();
    assert_eq!(parse_format(&fish.format_override, "A", "1", "0"), "set -x A 1");
    assert_eq!(parse_format(&fish.format_append, "A", "1", "0"), "set -x A 1 $A");
}

#[test]
fn fish_sets_an_absent_variable_under_every_operator() {
    let fish = preset("fish").unwrap();
    for marker in ["=", "=!", "+=", "+=!", "?="] {
        for force in [false, true] {
            let tokens = tokenize(&vec![format!("PATH {} /usr/bin", marker)]);
            let outcome = resolve(
                force,
                &fish.format_override,
                &fish.format_append,
                &tokens,
                &Environment::new(),
            );
            assert_eq!(outcome.error, None);
            assert_eq!(outcome.lines, vec!["set -x PATH /usr/bin".to_string()]);
        }
    }
}

#[test]
fn a_run_over_one_directive_puts_out_what_the_directive_resolves_to() {
    let mut env = Environment::new();
    env.set("P", "a:b");
    for op in [
        Operator::SetPlain,
        Operator::SetForce,
        Operator::Append,
        Operator::AppendForce,
        Operator::SetIfAbsent,
    ] {
        for force in [false, true] {
            for name in ["P", "Q"] {
                let tokens = vec![name.to_string(), op.marker().to_string(), "b:c".to_string()];
                let outcome = resolve(force, "{N}={V}", "{N}+={V}", &tokens, &env);
                let single = parse_op(force, "{N}={V}", "{N}+={V}", op, name, "b:c", env.get(name));
                assert_eq!(outcome.error, None);
                assert_eq!(outcome.lines, single.unwrap_or_default());
            }
        }
    }
}

#[test]
fn a_marker_in_the_last_place_is_always_a_fault() {
    for marker in ["=", "=!", "+=", "+=!", "?="] {
        let tokens = tokenize(&vec![format!("NAME {}", marker)]);
        let found = scan(&tokens);
        assert!(found.error.is_some());
        assert!(found.directives.is_empty());
        let outcome = resolve(false, "{N}={V}", "{N}+={V}", &tokens, &Environment::new());
        assert!(outcome.lines.is_empty());
        assert_eq!(outcome.error.unwrap().message(), "not enough arguments: NAME");
    }
}
