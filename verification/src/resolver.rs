//! What directives resolve to, given what their variables hold.

use crate::dedup::DedupGuard;
use crate::directive::{directives_of, missing_operand, scan, Directive, DirectiveText};
use crate::environment::Environment;
use crate::error::UsageError;
use crate::operator::Operator;
use crate::template::{format_line, parse_format};
use crate::text::{same_text, split_fields, split_on};
use vstd::prelude::*;

verus! {

/// The statement that adds `piece` to a variable that holds `current`, or
/// `None` where `piece` is already one of the colon-separated elements of
/// `current` and `force` is off.
pub open spec fn append_line(
    force: bool,
    format: Seq<char>,
    name: Seq<char>,
    piece: Seq<char>,
    current: Seq<char>,
) -> Option<Seq<char>> {
    if !force && split_on(current, ':').contains(piece) {
        None
    } else {
        Some(format_line(format, name, piece, current))
    }
}

/// The statements that add `pieces`, one after the other, to a variable
/// that holds `current`.
pub open spec fn append_lines(
    force: bool,
    format: Seq<char>,
    name: Seq<char>,
    pieces: Seq<Seq<char>>,
    current: Seq<char>,
) -> Seq<Seq<char>>
    decreases pieces.len(),
{
    if pieces.len() == 0 {
        Seq::empty()
    } else {
        append_lines(force, format, name, pieces.drop_last(), current) + match append_line(
            force,
            format,
            name,
            pieces.last(),
            current,
        ) {
            Some(line) => seq![line],
            None => Seq::empty(),
        }
    }
}

/// The statements that one directive resolves to, or `None` where the
/// directive leaves a variable alone because it is already set.
///
/// An absent variable is set from the override template, whatever the
/// operator, with nothing for the current value. For a variable that holds
/// `current`:
/// - `=` does nothing, unless `force` is on: then it sets the variable as if
///   it were absent;
/// - `=!` sets the variable, and the template sees `current`;
/// - `?=` does nothing;
/// - `+=` cuts the value at colons and adds each piece that `current` does
///   not hold yet, or each piece where `force` is on;
/// - `+=!` cuts the value at colons and adds each piece.
pub open spec fn op_lines(
    force: bool,
    format_override: Seq<char>,
    format_append: Seq<char>,
    op: Operator,
    name: Seq<char>,
    value: Seq<char>,
    current: Option<Seq<char>>,
) -> Option<Seq<Seq<char>>> {
    match current {
        None => Some(seq![format_line(format_override, name, value, Seq::empty())]),
        Some(held) => match op {
            Operator::SetPlain => if force {
                Some(seq![format_line(format_override, name, value, Seq::empty())])
            } else {
                None
            },
            Operator::SetForce => Some(seq![format_line(format_override, name, value, held)]),
            Operator::SetIfAbsent => None,
            Operator::Append => Some(
                append_lines(force, format_append, name, split_on(value, ':'), held),
            ),
            Operator::AppendForce => Some(
                append_lines(true, format_append, name, split_on(value, ':'), held),
            ),
        },
    }
}

/// The statement that adds `value` to the variable `name`, which holds
/// `current`; `None` where `current` already lists `value` and `force` is
/// off.
pub fn parse_append(force: bool, format: &str, name: &str, value: &str, current: &str) -> (line:
    Option<String>)
    ensures
        line.deep_view() == append_line(force, format@, name@, value@, current@),
{
    if !force {
        let held = split_fields(current, ':');
        let mut i: usize = 0;
        while i < held.len()
            invariant
                !force,
                i <= held.len(),
                held.deep_view() == split_on(current@, ':'),
                forall|j: int| 0 <= j < i ==> held.deep_view()[j] != value@,
            decreases held.len() - i,
        {
            if same_text(held[i].as_str(), value) {
                assert(held.deep_view()[i as int] == value@);
                assert(split_on(current@, ':').contains(value@));
                return None;
            }
            i += 1;
        }
    }
    Some(parse_format(format, name, value, current))
}

/// The one statement that sets `name` from the override template.
fn set_line(format_override: &str, name: &str, value: &str, current: &str) -> (lines: Vec<String>)
    ensures
        lines.deep_view() == seq![format_line(format_override@, name@, value@, current@)],
{
    let mut lines: Vec<String> = Vec::new();
    lines.push(parse_format(format_override, name, value, current));
    assert(lines.deep_view() == seq![format_line(format_override@, name@, value@, current@)]);
    lines
}

/// The statements that add the colon-separated pieces of `value`.
fn add_lines(force: bool, format_append: &str, name: &str, value: &str, current: &str) -> (lines:
    Vec<String>)
    ensures
        lines.deep_view() == append_lines(
            force,
            format_append@,
            name@,
            split_on(value@, ':'),
            current@,
        ),
{
    let pieces = split_fields(value, ':');
    let mut lines: Vec<String> = Vec::new();
    let mut i: usize = 0;
    assert(pieces.deep_view().take(0) == Seq::<Seq<char>>::empty());
    assert(lines.deep_view() == Seq::<Seq<char>>::empty());
    while i < pieces.len()
        invariant
            i <= pieces.len(),
            lines.deep_view() == append_lines(
                force,
                format_append@,
                name@,
                pieces.deep_view().take(i as int),
                current@,
            ),
        decreases pieces.len() - i,
    {
        let ghost before = lines.deep_view();
        assert(pieces.deep_view().take(i + 1).drop_last() == pieces.deep_view().take(i as int));
        match parse_append(force, format_append, name, pieces[i].as_str(), current) {
            Some(line) => {
                lines.push(line);
                assert(lines.deep_view() == before + seq![line@]);
            },
            None => {
                assert(lines.deep_view() == before + Seq::<Seq<char>>::empty());
            },
        }
        i += 1;
    }
    assert(pieces.deep_view().take(i as int) == pieces.deep_view());
    lines
}

/// Resolves one directive against what its variable holds: `current` is
/// `None` for an absent variable.
pub fn parse_op(
    force: bool,
    format_override: &str,
    format_append: &str,
    op: Operator,
    name: &str,
    value: &str,
    current: Option<&str>,
) -> (lines: Option<Vec<String>>)
    ensures
        lines.deep_view() == op_lines(
            force,
            format_override@,
            format_append@,
            op,
            name@,
            value@,
            current.deep_view(),
        ),
{
    proof {
        reveal_strlit("");
        assert(""@ == Seq::<char>::empty());
    }
    match current {
        None => Some(set_line(format_override, name, value, "")),
        Some(held) => match op {
            Operator::SetPlain => if force {
                Some(set_line(format_override, name, value, ""))
            } else {
                None
            },
            Operator::SetForce => Some(set_line(format_override, name, value, held)),
            Operator::SetIfAbsent => None,
            Operator::Append => Some(add_lines(force, format_append, name, value, held)),
            Operator::AppendForce => Some(add_lines(true, format_append, name, value, held)),
        },
    }
}

/// Whether the directive at index `k` repeats an earlier one of the same
/// name, operator and value, and has an operator for which repetitions are
/// suppressed.
pub open spec fn is_repeat(directives: Seq<DirectiveText>, k: int) -> bool {
    directives[k].op.is_guarded() && exists|j: int| 0 <= j < k && directives[j] == directives[k]
}

/// The statements of one directive against the snapshot `env`; none where
/// the directive leaves its variable alone.
pub open spec fn lines_of(
    force: bool,
    format_override: Seq<char>,
    format_append: Seq<char>,
    directive: DirectiveText,
    env: Map<Seq<char>, Seq<char>>,
) -> Seq<Seq<char>> {
    match op_lines(
        force,
        format_override,
        format_append,
        directive.op,
        directive.name,
        directive.value,
        env.get(directive.name),
    ) {
        Some(lines) => lines,
        None => Seq::empty(),
    }
}

/// The statements of the first `n` directives, in order. With `force` off a
/// repeated directive contributes nothing.
pub open spec fn emitted_before(
    force: bool,
    format_override: Seq<char>,
    format_append: Seq<char>,
    directives: Seq<DirectiveText>,
    env: Map<Seq<char>, Seq<char>>,
    n: int,
) -> Seq<Seq<char>>
    decreases n,
{
    if n <= 0 {
        Seq::empty()
    } else {
        emitted_before(force, format_override, format_append, directives, env, n - 1) + if !force
            && is_repeat(directives, n - 1) {
            Seq::empty()
        } else {
            lines_of(force, format_override, format_append, directives[n - 1], env)
        }
    }
}

/// The statements of a sequence of directives, in order.
pub open spec fn emitted(
    force: bool,
    format_override: Seq<char>,
    format_append: Seq<char>,
    directives: Seq<DirectiveText>,
    env: Map<Seq<char>, Seq<char>>,
) -> Seq<Seq<char>> {
    emitted_before(
        force,
        format_override,
        format_append,
        directives,
        env,
        directives.len() as int,
    )
}

/// The statements that a run over `tokens` puts out.
pub open spec fn resolved_lines(
    force: bool,
    format_override: Seq<char>,
    format_append: Seq<char>,
    tokens: Seq<Seq<char>>,
    env: Map<Seq<char>, Seq<char>>,
) -> Seq<Seq<char>> {
    emitted(force, format_override, format_append, directives_of(tokens), env)
}

/// The guarded directives among the first `k`.
spec fn guarded_before(directives: Seq<DirectiveText>, k: int) -> Set<DirectiveText> {
    Set::new(
        |d: DirectiveText|
            d.op.is_guarded() && exists|j: int| 0 <= j < k && directives[j] == d,
    )
}

/// Resolves `directives` one after the other against the snapshot `env`.
pub fn emit(
    force: bool,
    format_override: &str,
    format_append: &str,
    directives: &Vec<Directive>,
    env: &Environment,
) -> (lines: Vec<String>)
    ensures
        lines.deep_view() == emitted(
            force,
            format_override@,
            format_append@,
            directives.deep_view(),
            env@,
        ),
{
    let ghost all = directives.deep_view();
    let mut guard = DedupGuard::new();
    let mut lines: Vec<String> = Vec::new();
    let mut k: usize = 0;
    assert(lines.deep_view() == Seq::<Seq<char>>::empty());
    assert(guard@ == guarded_before(all, 0));
    while k < directives.len()
        invariant
            k <= directives.len(),
            all == directives.deep_view(),
            guard@ == guarded_before(all, k as int),
            lines.deep_view() == emitted_before(
                force,
                format_override@,
                format_append@,
                all,
                env@,
                k as int,
            ),
        decreases directives.len() - k,
    {
        let directive = &directives[k];
        let ghost before = lines.deep_view();
        assert(directive@ == all[k as int]);
        assert(guard@.contains(directive@) == is_repeat(all, k as int));
        let go = guard.allow(force, directive);
        assert(guard@ == guarded_before(all, k + 1)) by {
            assert forall|d: DirectiveText|
                guarded_before(all, k + 1).contains(d) <==> (guarded_before(all, k as int).contains(
                    d,
                ) || (d == all[k as int] && d.op.is_guarded())) by {
                if guarded_before(all, k + 1).contains(d) {
                    let j = choose|j: int| 0 <= j < k + 1 && all[j] == d;
                    if j < k {
                        assert(guarded_before(all, k as int).contains(d));
                    }
                }
                if guarded_before(all, k as int).contains(d) {
                    let j = choose|j: int| 0 <= j < k && all[j] == d;
                    assert(0 <= j < k + 1 && all[j] == d);
                }
                if d == all[k as int] && d.op.is_guarded() {
                    assert(0 <= k < k + 1 && all[k as int] == d);
                }
            }
        }
        if go {
            let found = parse_op(
                force,
                format_override,
                format_append,
                directive.op,
                directive.name.as_str(),
                directive.value.as_str(),
                env.get(directive.name.as_str()),
            );
            match found {
                Some(more) => {
                    let mut more = more;
                    let ghost added = more.deep_view();
                    lines.append(&mut more);
                    assert(lines.deep_view() == before + added);
                },
                None => {
                    assert(lines.deep_view() == before + Seq::<Seq<char>>::empty());
                },
            }
        } else {
            assert(lines.deep_view() == before + Seq::<Seq<char>>::empty());
        }
        k += 1;
    }
    lines
}

/// What a run came to: the statements to print, in order, and the fault
/// that ended it, if any. The statements of the directives before a fault
/// are part of the outcome.
pub struct Resolution {
    pub lines: Vec<String>,
    pub error: Option<UsageError>,
}

/// Runs over `tokens`: reads them as directives and resolves each against
/// the snapshot `env`, suppressing repeated directives unless `force` is on.
pub fn resolve(
    force: bool,
    format_override: &str,
    format_append: &str,
    tokens: &Vec<String>,
    env: &Environment,
) -> (outcome: Resolution)
    ensures
        outcome.lines.deep_view() == resolved_lines(
            force,
            format_override@,
            format_append@,
            tokens.deep_view(),
            env@,
        ),
        outcome.error.deep_view() == missing_operand(tokens.deep_view()),
{
    let found = scan(tokens);
    let lines = emit(force, format_override, format_append, &found.directives, env);
    Resolution { lines, error: found.error }
}

} // verus!
