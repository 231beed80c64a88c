//! What formatting amounts to on a template that is put together from
//! literal text and placeholders: every placeholder is filled in by its
//! text, and the literal text stays as it is, whatever the name, the value
//! and the current value hold.

use crate::template::{format_line, lemma_placeholders};
use vstd::prelude::*;

verus! {

/// A part of a template: literal text or one of the three placeholders.
pub ghost enum Segment {
    Text(Seq<char>),
    Name,
    Value,
    Current,
}

/// `s` holds no opening brace.
pub open spec fn brace_free(s: Seq<char>) -> bool {
    forall|i: int| 0 <= i < s.len() ==> #[trigger] s[i] != '{'
}

/// How a segment is written in a template.
pub open spec fn slot(segment: Segment) -> Seq<char> {
    match segment {
        Segment::Text(text) => text,
        Segment::Name => "{N}"@,
        Segment::Value => "{V}"@,
        Segment::Current => "{C}"@,
    }
}

/// What a segment reads as once the placeholders are filled in.
pub open spec fn filled(
    segment: Segment,
    name: Seq<char>,
    value: Seq<char>,
    current: Seq<char>,
) -> Seq<char> {
    match segment {
        Segment::Text(text) => text,
        Segment::Name => name,
        Segment::Value => value,
        Segment::Current => current,
    }
}

/// The template that the segments make up.
pub open spec fn template_of(segments: Seq<Segment>) -> Seq<char>
    decreases segments.len(),
{
    if segments.len() == 0 {
        Seq::empty()
    } else {
        slot(segments.first()) + template_of(segments.drop_first())
    }
}

/// What the segments read as once the placeholders are filled in.
pub open spec fn filled_in(
    segments: Seq<Segment>,
    name: Seq<char>,
    value: Seq<char>,
    current: Seq<char>,
) -> Seq<char>
    decreases segments.len(),
{
    if segments.len() == 0 {
        Seq::empty()
    } else {
        filled(segments.first(), name, value, current) + filled_in(
            segments.drop_first(),
            name,
            value,
            current,
        )
    }
}

/// No literal text among the segments holds an opening brace.
pub open spec fn literals_brace_free(segments: Seq<Segment>) -> bool {
    forall|i: int|
        0 <= i < segments.len() ==> (#[trigger] segments[i] matches Segment::Text(text)
            ==> brace_free(text))
}

/// Text without an opening brace in front of a template comes through
/// unchanged, and the template behind it is read as if it stood alone.
pub proof fn law_format_behind_plain_text(
    plain: Seq<char>,
    template: Seq<char>,
    name: Seq<char>,
    value: Seq<char>,
    current: Seq<char>,
)
    requires
        brace_free(plain),
    ensures
        format_line(plain + template, name, value, current) == plain + format_line(
            template,
            name,
            value,
            current,
        ),
    decreases plain.len(),
{
    let whole = plain + template;
    let behind = format_line(template, name, value, current);
    if plain.len() == 0 {
        assert(whole == template);
        assert(plain + behind == behind);
    } else if whole.len() < 3 {
    } else {
        lemma_placeholders();
        assert(whole.take(3)[0] == plain[0]);
        let rest = plain.skip(1);
        assert(brace_free(rest)) by {
            assert forall|i: int| 0 <= i < rest.len() implies #[trigger] rest[i] != '{' by {
                assert(rest[i] == plain[i + 1]);
            }
        }
        assert(whole.skip(1) == rest + template);
        law_format_behind_plain_text(rest, template, name, value, current);
        assert(whole.take(1) + (rest + behind) == plain + behind) by {
            assert(whole.take(1) + rest == plain);
        }
    }
}

/// A placeholder in front of a template is filled in by its text, and the
/// template behind it is read as if it stood alone.
pub proof fn law_format_behind_placeholder(
    kind: Segment,
    template: Seq<char>,
    name: Seq<char>,
    value: Seq<char>,
    current: Seq<char>,
)
    requires
        !(kind is Text),
    ensures
        format_line(slot(kind) + template, name, value, current) == filled(
            kind,
            name,
            value,
            current,
        ) + format_line(template, name, value, current),
{
    lemma_placeholders();
    let whole = slot(kind) + template;
    assert(whole.take(3) == slot(kind));
    assert(whole.skip(3) == template);
    assert("{N}"@[1] != "{V}"@[1] && "{N}"@[1] != "{C}"@[1] && "{V}"@[1] != "{C}"@[1]);
}

/// Formatting a template fills every placeholder in and leaves the literal
/// text as it is, where the literal text holds no opening brace. The name,
/// the value and the current value may hold anything, placeholders
/// included: they are put in as they are.
pub proof fn law_format_fills_placeholders(
    segments: Seq<Segment>,
    name: Seq<char>,
    value: Seq<char>,
    current: Seq<char>,
)
    requires
        literals_brace_free(segments),
    ensures
        format_line(template_of(segments), name, value, current) == filled_in(
            segments,
            name,
            value,
            current,
        ),
    decreases segments.len(),
{
    if segments.len() > 0 {
        let head = segments.first();
        let rest = segments.drop_first();
        assert(literals_brace_free(rest)) by {
            assert forall|i: int| 0 <= i < rest.len() implies (#[trigger] rest[i] matches
                Segment::Text(t) ==> brace_free(t)) by {
                assert(rest[i] == segments[i + 1]);
            }
        }
        law_format_fills_placeholders(rest, name, value, current);
        assert(segments[0] == head);
        match head {
            Segment::Text(text) => {
                law_format_behind_plain_text(text, template_of(rest), name, value, current);
            },
            _ => {
                law_format_behind_placeholder(head, template_of(rest), name, value, current);
            },
        }
    }
}

/// A template without an opening brace is put out as it is.
pub proof fn law_format_without_placeholder(
    template: Seq<char>,
    name: Seq<char>,
    value: Seq<char>,
    current: Seq<char>,
)
    requires
        brace_free(template),
    ensures
        format_line(template, name, value, current) == template,
{
    let none = Seq::<char>::empty();
    law_format_behind_plain_text(template, none, name, value, current);
    assert(template + none == template);
}

/// Four segments make up, and read as, their four texts one after the
/// other.
proof fn lemma_four_segments(
    a: Segment,
    b: Segment,
    c: Segment,
    d: Segment,
    rest: Seq<Segment>,
    name: Seq<char>,
    value: Seq<char>,
    current: Seq<char>,
)
    ensures
        template_of(seq![a, b, c, d] + rest) == slot(a) + slot(b) + slot(c) + slot(d)
            + template_of(rest),
        filled_in(seq![a, b, c, d] + rest, name, value, current) == filled(
            a,
            name,
            value,
            current,
        ) + filled(b, name, value, current) + filled(c, name, value, current) + filled(
            d,
            name,
            value,
            current,
        ) + filled_in(rest, name, value, current),
{
    let all = seq![a, b, c, d] + rest;
    let three = seq![b, c, d] + rest;
    let two = seq![c, d] + rest;
    let one = seq![d] + rest;
    assert(all.drop_first() == three);
    assert(three.drop_first() == two);
    assert(two.drop_first() == one);
    assert(one.drop_first() == rest);
    reveal_with_fuel(template_of, 4);
    reveal_with_fuel(filled_in, 4);
    assert(slot(a) + (slot(b) + (slot(c) + (slot(d) + template_of(rest)))) =~= slot(a) + slot(b)
        + slot(c) + slot(d) + template_of(rest));
    let (fa, fb) = (filled(a, name, value, current), filled(b, name, value, current));
    let (fc, fd) = (filled(c, name, value, current), filled(d, name, value, current));
    let behind = filled_in(rest, name, value, current);
    assert(fa + (fb + (fc + (fd + behind))) =~= fa + fb + fc + fd + behind);
}

/// What a pair of templates of the presets' shape puts out: `lead`, the
/// name, `link` and the value, and for the append template further `tail`
/// and the name again.
proof fn lemma_preset_statements(
    lead: Seq<char>,
    link: Seq<char>,
    tail: Seq<char>,
    name: Seq<char>,
    value: Seq<char>,
    current: Seq<char>,
)
    requires
        brace_free(lead) && brace_free(link) && brace_free(tail),
    ensures
        format_line(lead + "{N}"@ + link + "{V}"@, name, value, current) == lead + name + link
            + value,
        format_line(lead + "{N}"@ + link + "{V}"@ + tail + "{N}"@, name, value, current) == lead
            + name + link + value + tail + name,
{
    let none = Seq::<Segment>::empty();
    let end = Seq::<char>::empty();
    let (a, b, c, d) = (Segment::Text(lead), Segment::Name, Segment::Text(link), Segment::Value);
    let sets = seq![a, b, c, d];
    let more = seq![Segment::Text(tail), Segment::Name];
    lemma_four_segments(a, b, c, d, none, name, value, current);
    assert(sets + none == sets);
    assert(lead + "{N}"@ + link + "{V}"@ + end == lead + "{N}"@ + link + "{V}"@);
    assert(lead + name + link + value + end == lead + name + link + value);
    law_format_fills_placeholders(sets, name, value, current);

    lemma_four_segments(a, b, c, d, more, name, value, current);
    assert(template_of(more) == tail + "{N}"@ && filled_in(more, name, value, current) == tail
        + name) by {
        assert(more.drop_first() == seq![Segment::Name]);
        assert(seq![Segment::Name].drop_first().len() == 0);
        reveal_with_fuel(template_of, 3);
        reveal_with_fuel(filled_in, 3);
        assert(tail + ("{N}"@ + end) =~= tail + "{N}"@);
        assert(tail + (name + end) =~= tail + name);
    }
    assert(literals_brace_free(sets + more));
    law_format_fills_placeholders(sets + more, name, value, current);
    assert(lead + "{N}"@ + link + "{V}"@ + (tail + "{N}"@) =~= lead + "{N}"@ + link + "{V}"@
        + tail + "{N}"@);
    assert(lead + name + link + value + (tail + name) =~= lead + name + link + value + tail
        + name);
}

/// What the presets put out, whatever the name, the value and the current
/// value hold: the Bourne family exports, fish sets with `-x`, and the
/// append templates put the value before a reference to the variable.
pub proof fn law_preset_statements(name: Seq<char>, value: Seq<char>, current: Seq<char>)
    ensures
        format_line("export {N}={V}"@, name, value, current) == "export "@ + name + "="@ + value,
        format_line("export {N}={V}:${N}"@, name, value, current) == "export "@ + name + "="@
            + value + ":$"@ + name,
        format_line("set -x {N} {V}"@, name, value, current) == "set -x "@ + name + " "@ + value,
        format_line("set -x {N} {V} ${N}"@, name, value, current) == "set -x "@ + name + " "@
            + value + " $"@ + name,
{
    assert(brace_free("export "@) && brace_free("="@) && brace_free(":$"@)) by {
        reveal_strlit("export ");
        reveal_strlit("=");
        reveal_strlit(":$");
    }
    assert(brace_free("set -x "@) && brace_free(" "@) && brace_free(" $"@)) by {
        reveal_strlit("set -x ");
        reveal_strlit(" ");
        reveal_strlit(" $");
    }
    lemma_preset_statements("export "@, "="@, ":$"@, name, value, current);
    lemma_preset_statements("set -x "@, " "@, " $"@, name, value, current);
    reveal_strlit("{N}");
    reveal_strlit("{V}");
    assert("export {N}={V}"@ == "export "@ + "{N}"@ + "="@ + "{V}"@) by {
        reveal_strlit("export {N}={V}");
        reveal_strlit("export ");
        reveal_strlit("=");
        assert("export {N}={V}"@ =~= "export "@ + "{N}"@ + "="@ + "{V}"@);
    }
    assert("export {N}={V}:${N}"@ == "export "@ + "{N}"@ + "="@ + "{V}"@ + ":$"@ + "{N}"@) by {
        reveal_strlit("export {N}={V}:${N}");
        reveal_strlit("export ");
        reveal_strlit("=");
        reveal_strlit(":$");
        assert("export {N}={V}:${N}"@ =~= "export "@ + "{N}"@ + "="@ + "{V}"@ + ":$"@ + "{N}"@);
    }
    assert("set -x {N} {V}"@ == "set -x "@ + "{N}"@ + " "@ + "{V}"@) by {
        reveal_strlit("set -x {N} {V}");
        reveal_strlit("set -x ");
        reveal_strlit(" ");
        assert("set -x {N} {V}"@ =~= "set -x "@ + "{N}"@ + " "@ + "{V}"@);
    }
    assert("set -x {N} {V} ${N}"@ == "set -x "@ + "{N}"@ + " "@ + "{V}"@ + " $"@ + "{N}"@) by {
        reveal_strlit("set -x {N} {V} ${N}");
        reveal_strlit("set -x ");
        reveal_strlit(" ");
        reveal_strlit(" $");
        assert("set -x {N} {V} ${N}"@ =~= "set -x "@ + "{N}"@ + " "@ + "{V}"@ + " $"@ + "{N}"@);
    }
}

} // verus!
