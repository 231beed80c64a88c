//! From raw text to a flat sequence of tokens.
//!
//! Raw strings are cut at white space into words. A word that holds an
//! operator marker is cut once more, around the leftmost occurrence of the
//! first marker, in order of priority, that it holds.

use crate::operator::Operator;
use crate::text::{
    chars_of, find, first_occurrence, is_first_occurrence, lemma_first_occurrence, matches_at,
    occurs, occurs_at, split_fields, split_on, split_words, words,
};
use vstd::prelude::*;

verus! {

/// The operator at which a word is cut: markers are tried from the most
/// specific to the least, so that `+=!` is never read as `+=` or `=`.
pub open spec fn leading_operator(word: Seq<char>) -> Option<Operator> {
    if occurs(word, Operator::AppendForce.marker_text()) {
        Some(Operator::AppendForce)
    } else if occurs(word, Operator::Append.marker_text()) {
        Some(Operator::Append)
    } else if occurs(word, Operator::SetForce.marker_text()) {
        Some(Operator::SetForce)
    } else if occurs(word, Operator::SetIfAbsent.marker_text()) {
        Some(Operator::SetIfAbsent)
    } else if occurs(word, Operator::SetPlain.marker_text()) {
        Some(Operator::SetPlain)
    } else {
        None
    }
}

/// `s` as a sequence of one piece, or of none where `s` is empty.
pub open spec fn unless_empty(s: Seq<char>) -> Seq<Seq<char>> {
    if s.len() > 0 {
        seq![s]
    } else {
        Seq::empty()
    }
}

/// The tokens of one word: what stands before the leading operator's
/// leftmost marker, the marker, and what stands behind it, empty pieces
/// left out. A word without a marker is its own token.
pub open spec fn split_token(word: Seq<char>) -> Seq<Seq<char>> {
    match leading_operator(word) {
        Some(op) => {
            let marker = op.marker_text();
            let at = first_occurrence(word, marker);
            unless_empty(word.take(at)) + seq![marker] + unless_empty(word.skip(at + marker.len()))
        },
        None => unless_empty(word),
    }
}

/// The tokens of a sequence of words, in order.
pub open spec fn split_each(found: Seq<Seq<char>>) -> Seq<Seq<char>>
    decreases found.len(),
{
    if found.len() == 0 {
        Seq::empty()
    } else {
        split_each(found.drop_last()) + split_token(found.last())
    }
}

/// The tokens of one raw string.
pub open spec fn tokens_of(raw: Seq<char>) -> Seq<Seq<char>> {
    split_each(words(raw))
}

/// The tokens of a sequence of raw strings, in order.
pub open spec fn tokens_of_all(raw: Seq<Seq<char>>) -> Seq<Seq<char>>
    decreases raw.len(),
{
    if raw.len() == 0 {
        Seq::empty()
    } else {
        tokens_of_all(raw.drop_last()) + tokens_of(raw.last())
    }
}

/// A line that is left out of piped input: one that starts with `//` or
/// with `#`.
pub open spec fn is_comment(line: Seq<char>) -> bool {
    occurs_at(line, "//"@, 0) || occurs_at(line, "#"@, 0)
}

/// `lines` without its comment lines.
pub open spec fn without_comments(lines: Seq<Seq<char>>) -> Seq<Seq<char>>
    decreases lines.len(),
{
    if lines.len() == 0 {
        Seq::empty()
    } else if is_comment(lines.last()) {
        without_comments(lines.drop_last())
    } else {
        without_comments(lines.drop_last()).push(lines.last())
    }
}

/// The lines of piped text that carry directives: the pieces between line
/// feeds, comment lines left out. A carriage return before a line feed
/// stays with its line, and text that ends in a line feed has an empty last
/// line: both are nothing but white space to the tokenizer.
pub open spec fn directive_lines(piped: Seq<char>) -> Seq<Seq<char>> {
    without_comments(split_on(piped, '\n'))
}

/// The raw strings of a run: the command line without the program's name,
/// then the directive lines of what is piped in, if anything is.
pub open spec fn raw_texts(args: Seq<Seq<char>>, piped: Option<Seq<char>>) -> Seq<Seq<char>> {
    let tail = if args.len() > 0 {
        args.skip(1)
    } else {
        Seq::empty()
    };
    match piped {
        Some(text) => tail + directive_lines(text),
        None => tail,
    }
}

/// Moves the strings of `more` to the end of `all`.
fn extend(all: &mut Vec<String>, more: Vec<String>)
    ensures
        final(all).deep_view() == old(all).deep_view() + more.deep_view(),
{
    let mut more = more;
    let ghost before = all.deep_view();
    let ghost added = more.deep_view();
    all.append(&mut more);
    assert(all.deep_view() =~= before + added);
}

/// The leading operator of a word and the index of its leftmost marker.
fn seek(word: &Vec<char>) -> (hit: Option<(Operator, usize)>)
    ensures
        match hit {
            Some((op, at)) => {
                &&& leading_operator(word@) == Some(op)
                &&& is_first_occurrence(word@, op.marker_text(), at as int)
                &&& first_occurrence(word@, op.marker_text()) == at
            },
            None => leading_operator(word@) is None,
        },
{
    let order = [
        Operator::AppendForce,
        Operator::Append,
        Operator::SetForce,
        Operator::SetIfAbsent,
        Operator::SetPlain,
    ];
    let mut k: usize = 0;
    while k < 5
        invariant
            k <= 5,
            order@ == seq![
                Operator::AppendForce,
                Operator::Append,
                Operator::SetForce,
                Operator::SetIfAbsent,
                Operator::SetPlain,
            ],
            forall|j: int| 0 <= j < k ==> !occurs(word@, #[trigger] order@[j].marker_text()),
        decreases 5 - k,
    {
        let op = order[k];
        let marker = chars_of(op.marker());
        match find(word, &marker) {
            Some(at) => {
                proof {
                    lemma_first_occurrence(word@, marker@, at as int);
                    assert(k > 0 ==> !occurs(word@, order@[0].marker_text()));
                    assert(k > 1 ==> !occurs(word@, order@[1].marker_text()));
                    assert(k > 2 ==> !occurs(word@, order@[2].marker_text()));
                    assert(k > 3 ==> !occurs(word@, order@[3].marker_text()));
                }
                return Some((op, at));
            },
            None => {},
        }
        k += 1;
    }
    proof {
        assert(!occurs(word@, order@[0].marker_text()));
        assert(!occurs(word@, order@[1].marker_text()));
        assert(!occurs(word@, order@[2].marker_text()));
        assert(!occurs(word@, order@[3].marker_text()));
        assert(!occurs(word@, order@[4].marker_text()));
    }
    None
}

/// Cuts one word around its leading operator, if it has one.
pub fn split_word(word: &str) -> (tokens: Vec<String>)
    ensures
        tokens.deep_view() == split_token(word@),
{
    let chars = chars_of(word);
    let n = chars.len();
    let mut tokens: Vec<String> = Vec::new();
    assert(tokens.deep_view() == Seq::<Seq<char>>::empty());
    match seek(&chars) {
        Some((op, at)) => {
            let marker = op.marker();
            let m = marker.unicode_len();
            if at > 0 {
                tokens.push(String::from_str(word.substring_char(0, at)));
            }
            assert(tokens.deep_view() == unless_empty(word@.take(at as int)));
            let ghost left = tokens.deep_view();
            tokens.push(String::from_str(marker));
            assert(tokens.deep_view() == left + seq![marker@]);
            let ghost middle = tokens.deep_view();
            if at + m < n {
                tokens.push(String::from_str(word.substring_char(at + m, n)));
                assert(tokens.deep_view() == middle + seq![word@.skip(at + m)]);
            }
            assert(tokens.deep_view() == middle + unless_empty(word@.skip(at + m)));
        },
        None => {
            if n > 0 {
                tokens.push(String::from_str(word));
            }
            assert(tokens.deep_view() == unless_empty(word@));
        },
    }
    tokens
}

/// The tokens of one raw string.
pub fn tokenize_one(raw: &str) -> (tokens: Vec<String>)
    ensures
        tokens.deep_view() == tokens_of(raw@),
{
    let found = split_words(raw);
    let mut tokens: Vec<String> = Vec::new();
    let mut i: usize = 0;
    assert(found.deep_view().take(0) == Seq::<Seq<char>>::empty());
    assert(tokens.deep_view() == Seq::<Seq<char>>::empty());
    while i < found.len()
        invariant
            i <= found.len(),
            tokens.deep_view() == split_each(found.deep_view().take(i as int)),
        decreases found.len() - i,
    {
        let more = split_word(found[i].as_str());
        extend(&mut tokens, more);
        assert(found.deep_view().take(i + 1).drop_last() == found.deep_view().take(i as int));
        i += 1;
    }
    assert(found.deep_view().take(i as int) == found.deep_view());
    tokens
}

/// The tokens of a sequence of raw strings, in order: each string is cut at
/// white space, and each word around its leading operator.
pub fn tokenize(raw: &Vec<String>) -> (tokens: Vec<String>)
    ensures
        tokens.deep_view() == tokens_of_all(raw.deep_view()),
{
    let mut tokens: Vec<String> = Vec::new();
    let mut i: usize = 0;
    assert(raw.deep_view().take(0) == Seq::<Seq<char>>::empty());
    assert(tokens.deep_view() == Seq::<Seq<char>>::empty());
    while i < raw.len()
        invariant
            i <= raw.len(),
            tokens.deep_view() == tokens_of_all(raw.deep_view().take(i as int)),
        decreases raw.len() - i,
    {
        let more = tokenize_one(raw[i].as_str());
        extend(&mut tokens, more);
        assert(raw.deep_view().take(i + 1).drop_last() == raw.deep_view().take(i as int));
        i += 1;
    }
    assert(raw.deep_view().take(i as int) == raw.deep_view());
    tokens
}

/// The lines of piped text that carry directives.
pub fn piped_lines(piped: &str) -> (lines: Vec<String>)
    ensures
        lines.deep_view() == directive_lines(piped@),
{
    let all = split_fields(piped, '\n');
    let slashes = chars_of("//");
    let hash = chars_of("#");
    let mut lines: Vec<String> = Vec::new();
    let mut i: usize = 0;
    assert(all.deep_view().take(0) == Seq::<Seq<char>>::empty());
    assert(lines.deep_view() == Seq::<Seq<char>>::empty());
    while i < all.len()
        invariant
            i <= all.len(),
            slashes@ == "//"@,
            hash@ == "#"@,
            lines.deep_view() == without_comments(all.deep_view().take(i as int)),
        decreases all.len() - i,
    {
        let line = chars_of(all[i].as_str());
        assert(all.deep_view().take(i + 1).drop_last() == all.deep_view().take(i as int));
        if !(matches_at(&line, &slashes, 0) || matches_at(&line, &hash, 0)) {
            let ghost before = lines.deep_view();
            lines.push(all[i].clone());
            assert(lines.deep_view() == before.push(all[i as int]@));
        }
        i += 1;
    }
    assert(all.deep_view().take(i as int) == all.deep_view());
    lines
}

/// Gathers the raw strings of a run. `args` is the whole command line, the
/// program's name first: the options and their arguments are raw strings
/// like any other.
pub fn gather(args: &Vec<String>, piped: Option<&str>) -> (raw: Vec<String>)
    ensures
        raw.deep_view() == raw_texts(args.deep_view(), piped.deep_view()),
{
    let mut raw: Vec<String> = Vec::new();
    let mut i: usize = 1;
    assert(raw.deep_view() == Seq::<Seq<char>>::empty());
    while i < args.len()
        invariant
            1 <= i,
            i <= args.len() || args.len() == 0,
            args.len() > 0 ==> raw.deep_view() == args.deep_view().subrange(1, i as int),
            args.len() == 0 ==> raw.deep_view() == Seq::<Seq<char>>::empty(),
        decreases args.len() - i,
    {
        let ghost before = raw.deep_view();
        raw.push(args[i].clone());
        assert(raw.deep_view() == before.push(args[i as int]@));
        i += 1;
    }
    assert(args.len() > 0 ==> args.deep_view().subrange(1, i as int) == args.deep_view().skip(1));
    match piped {
        Some(text) => {
            extend(&mut raw, piped_lines(text));
        },
        None => {},
    }
    raw
}

} // verus!
