//! Format templates and the shell dialects that come with a pair of them.
//!
//! A template is ordinary text with three placeholders: `{N}` for the
//! variable's name, `{V}` for the value and `{C}` for what the variable
//! holds now. Nothing is escaped.

use crate::text::{chars_of, same_text};
use vstd::prelude::*;

verus! {

/// `template` with its placeholders filled in, in one reading from left to
/// right: where `{N}`, `{V}` or `{C}` stands, the name, the value or the
/// current value is put in its place and the reading goes on behind the
/// placeholder; every other character is kept. What is put in is not read
/// again.
pub open spec fn format_line(
    template: Seq<char>,
    name: Seq<char>,
    value: Seq<char>,
    current: Seq<char>,
) -> Seq<char>
    decreases template.len(),
{
    if template.len() < 3 {
        template
    } else if template.take(3) == "{N}"@ {
        name + format_line(template.skip(3), name, value, current)
    } else if template.take(3) == "{V}"@ {
        value + format_line(template.skip(3), name, value, current)
    } else if template.take(3) == "{C}"@ {
        current + format_line(template.skip(3), name, value, current)
    } else {
        template.take(1) + format_line(template.skip(1), name, value, current)
    }
}

/// What the three placeholders are made of.
pub proof fn lemma_placeholders()
    ensures
        "{N}"@ == seq!['{', 'N', '}'],
        "{V}"@ == seq!['{', 'V', '}'],
        "{C}"@ == seq!['{', 'C', '}'],
{
    reveal_strlit("{N}");
    reveal_strlit("{V}");
    reveal_strlit("{C}");
    assert("{N}"@ =~= seq!['{', 'N', '}']);
    assert("{V}"@ =~= seq!['{', 'V', '}']);
    assert("{C}"@ =~= seq!['{', 'C', '}']);
}

/// The override and append templates of a shell dialect, or `None` for a
/// dialect that has no preset.
pub open spec fn preset_texts(dialect: Seq<char>) -> Option<(Seq<char>, Seq<char>)> {
    if dialect == "sh"@ || dialect == "bash"@ || dialect == "zsh"@ {
        Some(("export {N}={V}"@, "export {N}={V}:${N}"@))
    } else if dialect == "fish"@ {
        Some(("set -x {N} {V}"@, "set -x {N} {V} ${N}"@))
    } else {
        None
    }
}

/// The text for the placeholder that stands at index `i` of a template, if
/// one stands there.
fn placeholder_at<'a>(
    template: &Vec<char>,
    i: usize,
    name: &'a str,
    value: &'a str,
    current: &'a str,
) -> (text: Option<&'a str>)
    requires
        i + 3 <= template.len(),
    ensures
        match text {
            Some(text) => format_line(template@.skip(i as int), name@, value@, current@) == text@
                + format_line(template@.skip(i + 3), name@, value@, current@),
            None => format_line(template@.skip(i as int), name@, value@, current@)
                == template@.subrange(i as int, i + 1) + format_line(
                template@.skip(i + 1),
                name@,
                value@,
                current@,
            ),
        },
{
    let ghost rest = template@.skip(i as int);
    proof {
        lemma_placeholders();
        assert(rest.take(3) == seq![template@[i as int], template@[i + 1], template@[i + 2]]);
        assert(rest.skip(3) == template@.skip(i + 3));
        assert(rest.skip(1) == template@.skip(i + 1));
        assert(rest.take(1) == template@.subrange(i as int, i + 1));
    }
    if template[i] != '{' || template[i + 2] != '}' {
        assert(rest.take(3)[0] != '{' || rest.take(3)[2] != '}');
        None
    } else if template[i + 1] == 'N' {
        Some(name)
    } else if template[i + 1] == 'V' {
        Some(value)
    } else if template[i + 1] == 'C' {
        Some(current)
    } else {
        assert(rest.take(3)[1] == template@[i + 1]);
        None
    }
}

/// Fills the placeholders of `format` in.
pub fn parse_format(format: &str, name: &str, value: &str, current: &str) -> (line: String)
    ensures
        line@ == format_line(format@, name@, value@, current@),
{
    let chars = chars_of(format);
    let n = chars.len();
    let mut line = String::new();
    let mut start: usize = 0;
    let mut i: usize = 0;
    proof {
        assert(format@.skip(0) == format@);
        assert(line@ + format@.subrange(0, 0) == Seq::<char>::empty());
        assert(Seq::<char>::empty() + format_line(format@, name@, value@, current@)
            == format_line(format@, name@, value@, current@));
    }
    while n - i >= 3
        invariant
            chars@ == format@,
            n == chars.len(),
            start <= i <= n,
            line@ + format@.subrange(start as int, i as int) + format_line(
                format@.skip(i as int),
                name@,
                value@,
                current@,
            ) == format_line(format@, name@, value@, current@),
        decreases n - i,
    {
        let ghost done = line@;
        let ghost kept = format@.subrange(start as int, i as int);
        match placeholder_at(&chars, i, name, value, current) {
            Some(text) => {
                let ghost behind = format_line(format@.skip(i + 3), name@, value@, current@);
                line.append(format.substring_char(start, i));
                line.append(text);
                i += 3;
                start = i;
                assert(line@ + format@.subrange(start as int, i as int) + behind == done + kept
                    + (text@ + behind));
            },
            None => {
                let ghost behind = format_line(format@.skip(i + 1), name@, value@, current@);
                assert(done + format@.subrange(start as int, i + 1) + behind == done + kept
                    + (format@.subrange(i as int, i + 1) + behind));
                i += 1;
            },
        }
    }
    assert(format@.subrange(start as int, i as int) + format@.skip(i as int) == format@.subrange(
        start as int,
        n as int,
    ));
    line.append(format.substring_char(start, n));
    line
}

/// The pair of templates that a dialect stands for.
pub struct Preset {
    /// The template for statements that set a variable.
    pub format_override: String,
    /// The template for statements that add to a variable.
    pub format_append: String,
}

impl View for Preset {
    type V = (Seq<char>, Seq<char>);

    open spec fn view(&self) -> (Seq<char>, Seq<char>) {
        (self.format_override@, self.format_append@)
    }
}

/// The templates of the dialect `dialect`: `sh`, `bash` and `zsh` share one
/// pair, `fish` has its own, and no other dialect is known.
pub fn preset(dialect: &str) -> (found: Option<Preset>)
    ensures
        match found {
            Some(p) => preset_texts(dialect@) == Some(p@),
            None => preset_texts(dialect@) is None,
        },
{
    if same_text(dialect, "sh") || same_text(dialect, "bash") || same_text(dialect, "zsh") {
        Some(
            Preset {
                format_override: String::from_str("export {N}={V}"),
                format_append: String::from_str("export {N}={V}:${N}"),
            },
        )
    } else if same_text(dialect, "fish") {
        Some(
            Preset {
                format_override: String::from_str("set -x {N} {V}"),
                format_append: String::from_str("set -x {N} {V} ${N}"),
            },
        )
    } else {
        None
    }
}

} // verus!
