use shellenv::operator::Operator;
use shellenv::template::parse_format;
use shellenv::text::{split_fields, split_words};
use shellenv::tokenizer::{split_word, tokenize_one};

/// Every string of at most `longest` characters over `alphabet`.
fn strings_over(alphabet: &[char], longest: usize) -> Vec<String> {
    let mut all = vec![String::new()];
    let mut last = vec![String::new()];
    for _ in 0..longest {
        let mut next = Vec::new();
        for text in &last {
            for c in alphabet {
                let mut longer = text.clone();
                longer.push(*c);
                next.push(longer);
            }
        }
        all.extend(next.iter().cloned());
        last = next;
    }
    all
}

#[test]
fn split_fields_agrees_with_the_standard_library_on_short_strings() {
    for text in strings_over(&['a', ':', 'b'], 7) {
        let expected: Vec<String> = text.split(':').map(|s| s.to_string()).collect();
        assert_eq!(split_fields(&text, ':'), expected, "{:?}", text);
    }
}

#[test]
fn split_words_agrees_with_the_standard_library_on_short_strings() {
    for text in strings_over(&['a', ' ', '\n', '\u{2003}'], 6) {
        let expected: Vec<String> = text.split_whitespace().map(|s| s.to_string()).collect();
        assert_eq!(split_words(&text), expected, "{:?}", text);
    }
}

#[test]
fn parse_format_fills_each_placeholder_of_short_templates() {
    for template in strings_over(&['{', 'N', 'V', 'C', '}'], 6) {
        let marked = template
            .replace("{N}", "\u{e000}")
            .replace("{V}", "\u{e001}")
            .replace("{C}", "\u{e002}");
        let expected = marked
            .replace('\u{e000}', "{V}")
            .replace('\u{e001}', "{C}x")
            .replace('\u{e002}', "{N}");
        assert_eq!(parse_format(&template, "{V}", "{C}x", "{N}"), expected, "{:?}", template);
    }
}

#[test]
fn parse_format_keeps_every_other_character_of_short_templates() {
    for template in strings_over(&['{', 'N', 'V', '}', 'a'], 6) {
        let marked = template.replace("{N}", "\u{e000}").replace("{V}", "\u{e001}");
        let expected = marked.replace('\u{e000}', "").replace('\u{e001}', "");
        assert_eq!(parse_format(&template, "", "", ""), expected, "{:?}", template);
    }
}

#[test]
fn split_word_cuts_at_the_first_marker_by_priority_on_short_words() {
    for word in strings_over(&['A', '+', '=', '!', '?'], 6) {
        let mut expected: Vec<String> = Vec::new();
        let mut cut = false;
        for marker in ["+=!", "+=", "=!", "?=", "="] {
            if let Some((left, right)) = word.split_once(marker) {
                for piece in [left, marker, right] {
                    if !piece.is_empty() {
                        expected.push(piece.to_string());
                    }
                }
                cut = true;
                break;
            }
        }
        if !cut && !word.is_empty() {
            expected.push(word.clone());
        }
        assert_eq!(split_word(&word), expected, "{:?}", word);
        assert_eq!(tokenize_one(&word), expected, "{:?}", word);
    }
}

#[test]
fn only_the_five_markers_parse_as_operators_among_short_words() {
    let mut found = Vec::new();
    for word in strings_over(&['A', '+', '=', '!', '?'], 4) {
        if let Some(op) = Operator::parse(&word) {
            assert_eq!(op.marker(), word);
            found.push(word);
        }
    }
    found.sort();
    assert_eq!(found, vec!["+=", "+=!", "=", "=!", "?="]);
}
