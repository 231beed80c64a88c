//! What holds of the library as a whole, proved from the definitions that
//! the contracts use.

use crate::directive::{
    directive_at, directives_before, directives_of, missing_operand, DirectiveText,
};
use crate::error::UsageFault;
use crate::operator::{lemma_marker_round_trip, lemma_marker_texts, Operator};
use crate::resolver::{
    append_line, emitted, emitted_before, is_repeat, lines_of, op_lines, resolved_lines,
};
use crate::template::{format_line, preset_texts};
use crate::template_laws::law_preset_statements;
use crate::text::{
    first_occurrence, is_space, lemma_first_occurrence, occurs, occurs_at, split_on, words,
};
use crate::text_laws::{law_leftmost_occurrence, law_one_word, law_words_are_clean, spaceless};
use crate::tokenizer::{
    leading_operator, split_each, split_token, tokens_of, tokens_of_all, unless_empty,
};
use vstd::prelude::*;

verus! {

/// A plain set of an absent variable puts out one statement: the override
/// template with the name and the value filled in and nothing for the
/// current value. Force mode makes no difference.
pub proof fn law_set_of_absent_variable(
    force: bool,
    format_override: Seq<char>,
    format_append: Seq<char>,
    name: Seq<char>,
    value: Seq<char>,
)
    ensures
        op_lines(force, format_override, format_append, Operator::SetPlain, name, value, None)
            == Some(seq![format_line(format_override, name, value, Seq::empty())]),
{
}

/// A plain set of a variable that is present puts out a statement if and
/// only if force mode is on, and the statement is then the one that it puts
/// out for an absent variable: what the variable holds does not reach the
/// template.
pub proof fn law_set_of_present_variable(
    force: bool,
    format_override: Seq<char>,
    format_append: Seq<char>,
    name: Seq<char>,
    value: Seq<char>,
    held: Seq<char>,
)
    ensures
        op_lines(
            force,
            format_override,
            format_append,
            Operator::SetPlain,
            name,
            value,
            Some(held),
        ) is Some <==> force,
        force ==> op_lines(
            force,
            format_override,
            format_append,
            Operator::SetPlain,
            name,
            value,
            Some(held),
        ) == Some(seq![format_line(format_override, name, value, Seq::empty())]),
{
}

/// Adding a piece to a list that holds it already puts out nothing with
/// force mode off, and the append template's statement with force mode on;
/// a piece that the list lacks gets the statement either way.
pub proof fn law_append_of_listed_piece(
    force: bool,
    format: Seq<char>,
    name: Seq<char>,
    piece: Seq<char>,
    held: Seq<char>,
)
    ensures
        append_line(force, format, name, piece, held) is None <==> !force && split_on(
            held,
            ':',
        ).contains(piece),
        append_line(force, format, name, piece, held) is Some ==> append_line(
            force,
            format,
            name,
            piece,
            held,
        ) == Some(format_line(format, name, piece, held)),
{
}

/// Of two identical directives in one run, the second puts out nothing
/// where force mode is off and the operator is a plain set or a plain
/// append; otherwise it puts out what the first did.
pub proof fn law_repeated_directive(
    force: bool,
    format_override: Seq<char>,
    format_append: Seq<char>,
    directive: DirectiveText,
    env: Map<Seq<char>, Seq<char>>,
)
    ensures
        emitted(force, format_override, format_append, seq![directive, directive], env) == if !force
            && directive.op.is_guarded() {
            lines_of(force, format_override, format_append, directive, env)
        } else {
            lines_of(force, format_override, format_append, directive, env) + lines_of(
                force,
                format_override,
                format_append,
                directive,
                env,
            )
        },
{
    let both = seq![directive, directive];
    let once = lines_of(force, format_override, format_append, directive, env);
    reveal_with_fuel(emitted_before, 3);
    assert(!is_repeat(both, 0));
    assert(is_repeat(both, 1) == directive.op.is_guarded()) by {
        assert(0 <= 0 < 1 && both[0] == both[1]);
    }
    assert(emitted_before(force, format_override, format_append, both, env, 1)
        == Seq::<Seq<char>>::empty() + once);
    assert(Seq::<Seq<char>>::empty() + once == once);
    assert(once + Seq::<Seq<char>>::empty() == once);
}

/// A run over the same directive twice puts its statements out once where
/// force mode is off and the operator is a plain set or a plain append, and
/// twice otherwise.
pub proof fn law_run_of_repeated_directive(
    force: bool,
    format_override: Seq<char>,
    format_append: Seq<char>,
    name: Seq<char>,
    op: Operator,
    value: Seq<char>,
    env: Map<Seq<char>, Seq<char>>,
)
    requires
        Operator::from_text(name) is None,
        Operator::from_text(value) is None,
    ensures
        missing_operand(
            seq![name, op.marker_text(), value, name, op.marker_text(), value],
        ) is None,
        resolved_lines(
            force,
            format_override,
            format_append,
            seq![name, op.marker_text(), value, name, op.marker_text(), value],
            env,
        ) == if !force && op.is_guarded() {
            lines_of(
                force,
                format_override,
                format_append,
                DirectiveText { name, op, value },
                env,
            )
        } else {
            lines_of(
                force,
                format_override,
                format_append,
                DirectiveText { name, op, value },
                env,
            ) + lines_of(
                force,
                format_override,
                format_append,
                DirectiveText { name, op, value },
                env,
            )
        },
{
    let marker = op.marker_text();
    let tokens = seq![name, marker, value, name, marker, value];
    let directive = DirectiveText { name, op, value };
    let nothing = Seq::<DirectiveText>::empty();
    lemma_marker_round_trip(op, marker);
    assert(tokens[0] == name && tokens[1] == marker && tokens[2] == value);
    assert(tokens[3] == name && tokens[4] == marker && tokens[5] == value);
    assert(tokens.last() == value);
    assert(directive_at(tokens, 0) is None);
    assert(directive_at(tokens, 1) == Some(directive));
    assert(directive_at(tokens, 2) is None);
    assert(directive_at(tokens, 3) is None);
    assert(directive_at(tokens, 4) == Some(directive));
    assert(directive_at(tokens, 5) is None);
    assert(directives_before(tokens, 0) == nothing);
    assert(directives_before(tokens, 1) == nothing);
    assert(directives_before(tokens, 2) == seq![directive]);
    assert(directives_before(tokens, 3) == seq![directive]);
    assert(directives_before(tokens, 4) == seq![directive]);
    assert(directives_before(tokens, 5) == seq![directive, directive]);
    assert(directives_before(tokens, 6) == seq![directive, directive]);
    law_repeated_directive(force, format_override, format_append, directive, env);
}

/// In any run with force mode off, a directive that repeats an earlier one
/// under a plain set or a plain append adds nothing to the output.
pub proof fn law_repeat_adds_nothing(
    format_override: Seq<char>,
    format_append: Seq<char>,
    directives: Seq<DirectiveText>,
    env: Map<Seq<char>, Seq<char>>,
    j: int,
    k: int,
)
    requires
        0 <= j < k < directives.len(),
        directives[j] == directives[k],
        directives[k].op.is_guarded(),
    ensures
        emitted_before(false, format_override, format_append, directives, env, k + 1)
            == emitted_before(false, format_override, format_append, directives, env, k),
{
    assert(is_repeat(directives, k));
    assert(emitted_before(false, format_override, format_append, directives, env, k)
        + Seq::<Seq<char>>::empty() == emitted_before(
        false,
        format_override,
        format_append,
        directives,
        env,
        k,
    ));
}

/// The directives of a token sequence whose operators stand exactly at
/// the given places, each with a token on either side.
proof fn lemma_directives_of_one(name: Seq<char>, op: Operator, value: Seq<char>)
    requires
        Operator::from_text(name) is None,
        Operator::from_text(value) is None,
    ensures
        directives_of(seq![name, op.marker_text(), value]) == seq![
            DirectiveText { name, op, value },
        ],
        missing_operand(seq![name, op.marker_text(), value]) is None,
{
    let tokens = seq![name, op.marker_text(), value];
    let directive = DirectiveText { name, op, value };
    let nothing = Seq::<DirectiveText>::empty();
    lemma_marker_round_trip(op, op.marker_text());
    assert(tokens[0] == name && tokens[1] == op.marker_text() && tokens[2] == value);
    assert(tokens.last() == value);
    assert(directive_at(tokens, 0) is None);
    assert(directive_at(tokens, 1) == Some(directive));
    assert(directive_at(tokens, 2) is None);
    assert(directives_before(tokens, 0) == nothing);
    assert(directives_before(tokens, 1) == nothing + nothing);
    assert(directives_before(tokens, 2) == directives_before(tokens, 1) + seq![directive]);
    assert(directives_before(tokens, 3) == directives_before(tokens, 2) + nothing);
    assert(nothing + nothing + seq![directive] + nothing == seq![directive]);
}

/// A run over one directive, written as a name, a marker and a value of
/// which only the marker reads as an operator, ends without a fault and
/// puts out what the directive resolves to.
pub proof fn law_run_of_one_directive(
    force: bool,
    format_override: Seq<char>,
    format_append: Seq<char>,
    name: Seq<char>,
    op: Operator,
    value: Seq<char>,
    env: Map<Seq<char>, Seq<char>>,
)
    requires
        Operator::from_text(name) is None,
        Operator::from_text(value) is None,
    ensures
        missing_operand(seq![name, op.marker_text(), value]) is None,
        resolved_lines(
            force,
            format_override,
            format_append,
            seq![name, op.marker_text(), value],
            env,
        ) == lines_of(
            force,
            format_override,
            format_append,
            DirectiveText { name, op, value },
            env,
        ),
{
    let directive = DirectiveText { name, op, value };
    let one = seq![directive];
    let lines = lines_of(force, format_override, format_append, directive, env);
    lemma_directives_of_one(name, op, value);
    assert(!is_repeat(one, 0));
    assert(emitted_before(force, format_override, format_append, one, env, 0)
        == Seq::<Seq<char>>::empty());
    assert(emitted_before(force, format_override, format_append, one, env, 1)
        == Seq::<Seq<char>>::empty() + lines);
    assert(Seq::<Seq<char>>::empty() + lines == lines);
}

/// A run over a plain set of an absent variable puts out exactly the
/// override template with the name and the value filled in and nothing for
/// the current value, with force mode on or off.
pub proof fn law_run_sets_absent_variable(
    force: bool,
    format_override: Seq<char>,
    format_append: Seq<char>,
    name: Seq<char>,
    value: Seq<char>,
    env: Map<Seq<char>, Seq<char>>,
)
    requires
        Operator::from_text(name) is None,
        Operator::from_text(value) is None,
        !env.dom().contains(name),
    ensures
        resolved_lines(
            force,
            format_override,
            format_append,
            seq![name, Operator::SetPlain.marker_text(), value],
            env,
        ) == seq![format_line(format_override, name, value, Seq::empty())],
{
    law_run_of_one_directive(
        force,
        format_override,
        format_append,
        name,
        Operator::SetPlain,
        value,
        env,
    );
}

/// A run over a plain set of a variable that is present puts out a
/// statement if and only if force mode is on: the override template with
/// the name and the value filled in and nothing for the current value.
pub proof fn law_run_sets_present_variable(
    force: bool,
    format_override: Seq<char>,
    format_append: Seq<char>,
    name: Seq<char>,
    value: Seq<char>,
    env: Map<Seq<char>, Seq<char>>,
)
    requires
        Operator::from_text(name) is None,
        Operator::from_text(value) is None,
        env.dom().contains(name),
    ensures
        resolved_lines(
            force,
            format_override,
            format_append,
            seq![name, Operator::SetPlain.marker_text(), value],
            env,
        ) == if force {
            seq![format_line(format_override, name, value, Seq::empty())]
        } else {
            Seq::empty()
        },
{
    law_run_of_one_directive(
        force,
        format_override,
        format_append,
        name,
        Operator::SetPlain,
        value,
        env,
    );
}

/// Under the preset of `fish`, a run over one directive for an absent
/// variable puts out `set -x`, the name and the value, whatever the
/// operator and with force mode on or off.
pub proof fn law_fish_sets_absent_variable(
    force: bool,
    name: Seq<char>,
    op: Operator,
    value: Seq<char>,
    env: Map<Seq<char>, Seq<char>>,
)
    requires
        Operator::from_text(name) is None,
        Operator::from_text(value) is None,
        !env.dom().contains(name),
    ensures
        preset_texts("fish"@) == Some(("set -x {N} {V}"@, "set -x {N} {V} ${N}"@)),
        resolved_lines(
            force,
            "set -x {N} {V}"@,
            "set -x {N} {V} ${N}"@,
            seq![name, op.marker_text(), value],
            env,
        ) == seq!["set -x "@ + name + " "@ + value],
{
    assert(preset_texts("fish"@) == Some(("set -x {N} {V}"@, "set -x {N} {V} ${N}"@))) by {
        reveal_strlit("fish");
        reveal_strlit("sh");
        reveal_strlit("bash");
        reveal_strlit("zsh");
        assert("fish"@.len() == 4 && "sh"@.len() == 2);
        assert("fish"@[0] != "bash"@[0]);
        assert("fish"@[0] != "zsh"@[0]);
    }
    law_run_of_one_directive(
        force,
        "set -x {N} {V}"@,
        "set -x {N} {V} ${N}"@,
        name,
        op,
        value,
        env,
    );
    law_preset_statements(name, value, Seq::empty());
}

/// A run over a name and a marker with nothing behind it puts out nothing
/// and ends with the fault that reports the name.
pub proof fn law_missing_value(
    force: bool,
    format_override: Seq<char>,
    format_append: Seq<char>,
    name: Seq<char>,
    op: Operator,
    env: Map<Seq<char>, Seq<char>>,
)
    requires
        Operator::from_text(name) is None,
    ensures
        missing_operand(seq![name, op.marker_text()]) == Some(
            UsageFault::NotEnoughArguments { near: Some(name) },
        ),
        resolved_lines(force, format_override, format_append, seq![name, op.marker_text()], env)
            == Seq::<Seq<char>>::empty(),
{
    let tokens = seq![name, op.marker_text()];
    let nothing = Seq::<DirectiveText>::empty();
    lemma_marker_round_trip(op, op.marker_text());
    assert(tokens[0] == name && tokens.last() == op.marker_text());
    assert(directive_at(tokens, 0) is None);
    assert(directive_at(tokens, 1) is None);
    assert(directives_before(tokens, 0) == nothing);
    assert(directives_before(tokens, 1) == nothing + nothing);
    assert(directives_before(tokens, 2) == directives_before(tokens, 1) + nothing);
    assert(nothing + nothing + nothing == nothing);
}

/// The characters that markers are made of.
pub open spec fn is_marker_char(c: char) -> bool {
    c == '+' || c == '=' || c == '!' || c == '?'
}

/// Text that can stand beside a marker without changing how a word is cut:
/// it holds neither white space nor a character that markers are made of.
pub open spec fn is_plain(s: Seq<char>) -> bool {
    forall|i: int| 0 <= i < s.len() ==> !is_space(#[trigger] s[i]) && !is_marker_char(s[i])
}

/// Where a text made of marker characters stands in a marker with plain
/// text on either side, it stands within the marker.
proof fn lemma_occurrence_within_marker(
    left: Seq<char>,
    marker: Seq<char>,
    right: Seq<char>,
    pat: Seq<char>,
    i: int,
)
    requires
        is_plain(left),
        is_plain(right),
        pat.len() > 0,
        forall|k: int| 0 <= k < pat.len() ==> is_marker_char(#[trigger] pat[k]),
        occurs_at(left + marker + right, pat, i),
    ensures
        left.len() <= i,
        i + pat.len() <= left.len() + marker.len(),
        occurs_at(marker, pat, i - left.len()),
{
    let joined = left + marker + right;
    let sub = joined.subrange(i, i + pat.len());
    assert(sub[0] == joined[i]);
    assert(is_marker_char(pat[0]));
    assert(sub[pat.len() - 1] == joined[i + pat.len() - 1]);
    assert(is_marker_char(pat[pat.len() - 1]));
    if i < left.len() {
        assert(joined[i] == left[i]);
    }
    if i + pat.len() > left.len() + marker.len() {
        assert(joined[i + pat.len() - 1] == right[i + pat.len() - 1 - left.len() - marker.len()]);
    }
    assert(marker.subrange(i - left.len(), i - left.len() + pat.len()) == sub);
}

/// The place of an operator in the order in which markers are tried.
spec fn rank(op: Operator) -> int {
    match op {
        Operator::AppendForce => 0,
        Operator::Append => 1,
        Operator::SetForce => 2,
        Operator::SetIfAbsent => 3,
        Operator::SetPlain => 4,
    }
}

/// No marker holds a marker that is tried before it.
proof fn lemma_marker_in_marker(inner: Operator, outer: Operator, k: int)
    requires
        occurs_at(outer.marker_text(), inner.marker_text(), k),
    ensures
        rank(outer) <= rank(inner),
{
    lemma_marker_texts();
    let small = inner.marker_text();
    let large = outer.marker_text();
    let sub = large.subrange(k, k + small.len());
    assert(sub[0] == large[k]);
    if small.len() >= 2 {
        assert(sub[1] == large[k + 1]);
    }
}

/// The leading operator of a word is the first, in the order of trial,
/// whose marker the word holds.
proof fn lemma_leading_operator(word: Seq<char>, op: Operator)
    requires
        occurs(word, op.marker_text()),
        forall|other: Operator| occurs(word, other.marker_text()) ==> rank(op) <= rank(other),
    ensures
        leading_operator(word) == Some(op),
{
    assert(rank(Operator::AppendForce) == 0);
    assert(rank(Operator::Append) == 1);
    assert(rank(Operator::SetForce) == 2);
    assert(rank(Operator::SetIfAbsent) == 3);
    assert(rank(Operator::SetPlain) == 4);
}

/// Every marker is a non-empty text of marker characters.
proof fn lemma_marker_chars(op: Operator)
    ensures
        op.marker_text().len() > 0,
        forall|k: int|
            0 <= k < op.marker_text().len() ==> is_marker_char(#[trigger] op.marker_text()[k]),
{
    lemma_marker_texts();
}

/// Where a marker has plain text on either side, every marker in the whole
/// stands at or behind that marker's place and is tried no earlier.
proof fn lemma_markers_around_marker(
    left: Seq<char>,
    op: Operator,
    right: Seq<char>,
    other: Operator,
    i: int,
)
    requires
        is_plain(left),
        is_plain(right),
        occurs_at(left + op.marker_text() + right, other.marker_text(), i),
    ensures
        left.len() <= i,
        rank(op) <= rank(other),
{
    lemma_marker_chars(other);
    lemma_occurrence_within_marker(left, op.marker_text(), right, other.marker_text(), i);
    lemma_marker_in_marker(other, op, i - left.len());
}

/// Where a marker has plain text on either side, its operator leads the
/// whole, and the marker's place is the leftmost at which it stands.
proof fn lemma_marker_leads(left: Seq<char>, op: Operator, right: Seq<char>)
    requires
        is_plain(left),
        is_plain(right),
    ensures
        leading_operator(left + op.marker_text() + right) == Some(op),
        first_occurrence(left + op.marker_text() + right, op.marker_text()) == left.len(),
{
    let marker = op.marker_text();
    let joined = left + marker + right;
    let at = left.len() as int;
    assert(occurs_at(joined, marker, at)) by {
        assert(joined.subrange(at, at + marker.len()) == marker);
    }
    assert forall|j: int| occurs_at(joined, marker, j) implies at <= j by {
        lemma_markers_around_marker(left, op, right, op, j);
    }
    lemma_first_occurrence(joined, marker, at);
    assert forall|other: Operator| occurs(joined, other.marker_text()) implies rank(op) <= rank(
        other,
    ) by {
        let i = choose|i: int| occurs_at(joined, other.marker_text(), i);
        lemma_markers_around_marker(left, op, right, other, i);
    }
    lemma_leading_operator(joined, op);
}

/// A marker with plain text on either side is cut into the text before it,
/// the marker, and the text behind it.
pub proof fn lemma_split_around_marker(left: Seq<char>, op: Operator, right: Seq<char>)
    requires
        is_plain(left),
        is_plain(right),
    ensures
        split_token(left + op.marker_text() + right) == unless_empty(left) + seq![
            op.marker_text(),
        ] + unless_empty(right),
{
    let marker = op.marker_text();
    let joined = left + marker + right;
    let at = left.len() as int;
    lemma_marker_leads(left, op, right);
    assert(joined.take(at) == left);
    assert(joined.skip(at + marker.len()) == right);
}

/// Plain text is its own token, or no token where it is empty.
pub proof fn lemma_plain_token(s: Seq<char>)
    requires
        is_plain(s),
    ensures
        leading_operator(s) is None,
        split_token(s) == unless_empty(s),
{
    lemma_marker_texts();
    assert forall|op: Operator| !occurs(s, op.marker_text()) by {
        if occurs(s, op.marker_text()) {
            let i = choose|i: int| occurs_at(s, op.marker_text(), i);
            assert(s.subrange(i, i + op.marker_text().len())[0] == s[i]);
            assert(is_marker_char(op.marker_text()[0]));
        }
    }
}

/// A marker holds no white space.
proof fn lemma_marker_spaceless(op: Operator)
    ensures
        op.marker_text().len() > 0,
        spaceless(op.marker_text()),
{
    lemma_marker_texts();
}

/// Texts without white space, one after the other, have none.
proof fn lemma_spaceless_concat(a: Seq<char>, b: Seq<char>)
    requires
        spaceless(a),
        spaceless(b),
    ensures
        spaceless(a + b),
{
    assert forall|i: int| 0 <= i < (a + b).len() implies !is_space(#[trigger] (a + b)[i]) by {
        if i < a.len() {
            assert((a + b)[i] == a[i]);
        } else {
            assert((a + b)[i] == b[i - a.len()]);
        }
    }
}

/// The tokens of a text that is one word are those of the word's cut.
proof fn lemma_tokens_of_word(word: Seq<char>)
    requires
        word.len() > 0,
        spaceless(word),
    ensures
        tokens_of(word) == split_token(word),
{
    law_one_word(word);
    lemma_each_of_one(word);
}

/// The tokens of three raw strings are those of each, in order.
proof fn lemma_tokens_of_three(a: Seq<char>, b: Seq<char>, c: Seq<char>)
    ensures
        tokens_of_all(seq![a, b, c]) == tokens_of(a) + tokens_of(b) + tokens_of(c),
{
    let nothing = Seq::<Seq<char>>::empty();
    let three = seq![a, b, c];
    let two = seq![a, b];
    let one = seq![a];
    assert(three.drop_last() == two);
    assert(two.drop_last() == one);
    assert(one.drop_last() == nothing);
    assert(tokens_of_all(nothing) == nothing);
    assert(tokens_of_all(one) == nothing + tokens_of(a));
    assert(nothing + tokens_of(a) == tokens_of(a));
    assert(tokens_of_all(two) == tokens_of(a) + tokens_of(b));
}

/// A marker on its own is its own single token.
proof fn lemma_marker_token(op: Operator)
    ensures
        tokens_of(op.marker_text()) == seq![op.marker_text()],
{
    let marker = op.marker_text();
    let none = Seq::<char>::empty();
    let nothing = Seq::<Seq<char>>::empty();
    lemma_marker_spaceless(op);
    lemma_tokens_of_word(marker);
    lemma_split_around_marker(none, op, none);
    assert(none + marker + none == marker);
    assert(nothing + seq![marker] + nothing == seq![marker]);
}

/// A directive written as one word reads as the same three tokens as the
/// directive written as three words, where the name and the value are plain
/// and not empty: the name, the marker and the value.
pub proof fn law_joined_directive(name: Seq<char>, op: Operator, value: Seq<char>)
    requires
        name.len() > 0,
        value.len() > 0,
        is_plain(name),
        is_plain(value),
    ensures
        tokens_of(name + op.marker_text() + value) == seq![name, op.marker_text(), value],
        tokens_of_all(seq![name + op.marker_text() + value]) == seq![
            name,
            op.marker_text(),
            value,
        ],
        tokens_of_all(seq![name, op.marker_text(), value]) == seq![name, op.marker_text(), value],
{
    let marker = op.marker_text();
    let joined = name + marker + value;
    assert(spaceless(name) && spaceless(value));
    assert(tokens_of_all(seq![joined]) == tokens_of(joined)) by {
        let nothing = Seq::<Seq<char>>::empty();
        assert(seq![joined].drop_last() == nothing);
        assert(tokens_of_all(nothing) == nothing);
        assert(nothing + tokens_of(joined) == tokens_of(joined));
    }
    assert(tokens_of(joined) == seq![name, marker, value]) by {
        lemma_marker_spaceless(op);
        lemma_spaceless_concat(name, marker);
        lemma_spaceless_concat(name + marker, value);
        lemma_tokens_of_word(joined);
        lemma_split_around_marker(name, op, value);
        assert(seq![name] + seq![marker] + seq![value] == seq![name, marker, value]);
    }
    assert(tokens_of(name) == seq![name]) by {
        lemma_tokens_of_word(name);
        lemma_plain_token(name);
    }
    assert(tokens_of(value) == seq![value]) by {
        lemma_tokens_of_word(value);
        lemma_plain_token(value);
    }
    lemma_marker_token(op);
    lemma_tokens_of_three(name, marker, value);
    assert(seq![name] + seq![marker] + seq![value] == seq![name, marker, value]);
}

/// Every text of the sequence is non-empty and free of white space.
pub open spec fn all_clean(texts: Seq<Seq<char>>) -> bool {
    forall|i: int| 0 <= i < texts.len() ==> (#[trigger] texts[i]).len() > 0 && spaceless(texts[i])
}

/// The cut of a word yields no empty piece and brings no white space in.
proof fn lemma_split_token_clean(word: Seq<char>)
    requires
        word.len() > 0,
        spaceless(word),
    ensures
        all_clean(split_token(word)),
{
    match leading_operator(word) {
        Some(op) => {
            let marker = op.marker_text();
            let at = first_occurrence(word, marker);
            law_leftmost_occurrence(word, marker);
            lemma_marker_spaceless(op);
            let left = word.take(at);
            let right = word.skip(at + marker.len());
            assert(spaceless(left)) by {
                assert forall|i: int| 0 <= i < left.len() implies !is_space(#[trigger] left[i]) by {
                    assert(left[i] == word[i]);
                }
            }
            assert(spaceless(right)) by {
                assert forall|i: int| 0 <= i < right.len() implies !is_space(
                    #[trigger] right[i],
                ) by {
                    assert(right[i] == word[i + at + marker.len()]);
                }
            }
            lemma_clean_concat(unless_empty(left), seq![marker]);
            lemma_clean_concat(unless_empty(left) + seq![marker], unless_empty(right));
        },
        None => {},
    }
}

/// Clean sequences, one after the other, are clean.
proof fn lemma_clean_concat(a: Seq<Seq<char>>, b: Seq<Seq<char>>)
    requires
        all_clean(a),
        all_clean(b),
    ensures
        all_clean(a + b),
{
    assert forall|i: int| 0 <= i < (a + b).len() implies (#[trigger] (a + b)[i]).len() > 0
        && spaceless((a + b)[i]) by {
        if i < a.len() {
            assert((a + b)[i] == a[i]);
        } else {
            assert((a + b)[i] == b[i - a.len()]);
        }
    }
}

/// The cuts of clean words are clean.
proof fn lemma_split_each_clean(found: Seq<Seq<char>>)
    requires
        all_clean(found),
    ensures
        all_clean(split_each(found)),
    decreases found.len(),
{
    if found.len() > 0 {
        let front = found.drop_last();
        assert(all_clean(front)) by {
            assert forall|i: int| 0 <= i < front.len() implies (#[trigger] front[i]).len() > 0
                && spaceless(front[i]) by {
                assert(front[i] == found[i]);
            }
        }
        lemma_split_each_clean(front);
        assert(found[found.len() - 1] == found.last());
        lemma_split_token_clean(found.last());
        lemma_clean_concat(split_each(front), split_token(found.last()));
    }
}

/// No token is empty and no token holds white space, whatever the raw
/// strings are.
pub proof fn law_tokens_are_clean(raw: Seq<Seq<char>>)
    ensures
        all_clean(tokens_of_all(raw)),
    decreases raw.len(),
{
    if raw.len() > 0 {
        law_tokens_are_clean(raw.drop_last());
        law_words_are_clean(raw.last());
        lemma_split_each_clean(words(raw.last()));
        lemma_clean_concat(tokens_of_all(raw.drop_last()), tokens_of(raw.last()));
    }
}

/// The tokens of a single word are those of its cut.
proof fn lemma_each_of_one(word: Seq<char>)
    ensures
        split_each(seq![word]) == split_token(word),
{
    let nothing = Seq::<Seq<char>>::empty();
    assert(seq![word].drop_last() == nothing);
    assert(split_each(nothing) == nothing);
    assert(nothing + split_token(word) == split_token(word));
}

} // verus!
