//! What the definitions of the text module amount to: each recursive
//! definition is tied to the property that makes it the only one of its
//! kind.

use crate::text::{
    first_occurrence, is_first_occurrence, is_space, occurs, occurs_at, split_on, words,
};
use vstd::prelude::*;

verus! {

/// A pattern that stands somewhere in a text has a leftmost place there,
/// and `first_occurrence` names it.
pub proof fn law_leftmost_occurrence(s: Seq<char>, pat: Seq<char>)
    requires
        occurs(s, pat),
    ensures
        is_first_occurrence(s, pat, first_occurrence(s, pat)),
{
    let i = choose|i: int| occurs_at(s, pat, i);
    lemma_least_occurrence(s, pat, i);
}

/// At or before any place at which a pattern stands there is a leftmost
/// one.
proof fn lemma_least_occurrence(s: Seq<char>, pat: Seq<char>, i: int)
    requires
        occurs_at(s, pat, i),
    ensures
        exists|k: int| is_first_occurrence(s, pat, k),
    decreases i,
{
    if exists|j: int| occurs_at(s, pat, j) && j < i {
        let j = choose|j: int| occurs_at(s, pat, j) && j < i;
        lemma_least_occurrence(s, pat, j);
    } else {
        assert(is_first_occurrence(s, pat, i));
    }
}

/// `pieces` written one after the other with `sep` between neighbours.
pub open spec fn join(pieces: Seq<Seq<char>>, sep: char) -> Seq<char>
    decreases pieces.len(),
{
    if pieces.len() == 0 {
        Seq::empty()
    } else if pieces.len() == 1 {
        pieces[0]
    } else {
        join(pieces.drop_last(), sep) + seq![sep] + pieces.last()
    }
}

/// No piece holds the separator.
pub open spec fn free_of(pieces: Seq<Seq<char>>, sep: char) -> bool {
    forall|i: int| 0 <= i < pieces.len() ==> !(#[trigger] pieces[i]).contains(sep)
}

/// Cutting a text at a separator yields at least one piece, no piece holds
/// the separator, and the pieces joined by the separator are the text.
pub proof fn law_split_joins_back(s: Seq<char>, sep: char)
    ensures
        split_on(s, sep).len() >= 1,
        free_of(split_on(s, sep), sep),
        join(split_on(s, sep), sep) == s,
    decreases s.len(),
{
    if s.len() == 0 {
        assert(join(seq![Seq::<char>::empty()], sep) == s);
    } else {
        let front = s.drop_last();
        let before = split_on(front, sep);
        law_split_joins_back(front, sep);
        assert(front.push(s.last()) == s);
        if s.last() == sep {
            let after = before.push(Seq::empty());
            assert(after.drop_last() == before);
            assert(join(after, sep) == join(before, sep) + seq![sep] + Seq::<char>::empty());
            assert(join(before, sep) + seq![sep] + Seq::<char>::empty() == front.push(sep));
        } else {
            let grown = before.last().push(s.last());
            let after = before.drop_last().push(grown);
            assert forall|i: int| 0 <= i < after.len() implies !(#[trigger] after[i]).contains(
                sep,
            ) by {
                if i < after.len() - 1 {
                    assert(after[i] == before[i]);
                } else {
                    assert(!before[i].contains(sep));
                    if grown.contains(sep) {
                        let k = choose|k: int| 0 <= k < grown.len() && grown[k] == sep;
                        assert(before[i][k] == sep);
                    }
                }
            }
            assert(after.drop_last() == before.drop_last());
            if before.len() == 1 {
                assert(join(after, sep) == grown);
                assert(join(before, sep) == before[0]);
            } else {
                assert(join(after, sep) == join(before.drop_last(), sep) + seq![sep] + grown);
                assert(join(before.drop_last(), sep) + seq![sep] + grown == (join(
                    before.drop_last(),
                    sep,
                ) + seq![sep] + before.last()).push(s.last()));
            }
        }
    }
}

/// Text without the separator, put behind any text, only extends the last
/// piece.
proof fn lemma_split_extended(a: Seq<char>, b: Seq<char>, sep: char)
    requires
        !b.contains(sep),
    ensures
        split_on(a, sep).len() >= 1,
        split_on(a + b, sep) == split_on(a, sep).drop_last().push(split_on(a, sep).last() + b),
    decreases b.len(),
{
    law_split_joins_back(a, sep);
    let pieces = split_on(a, sep);
    if b.len() == 0 {
        assert(a + b == a);
        assert(pieces.last() + b == pieces.last());
        assert(pieces.drop_last().push(pieces.last()) == pieces);
    } else {
        let front = b.drop_last();
        assert(!front.contains(sep)) by {
            if front.contains(sep) {
                let k = choose|k: int| 0 <= k < front.len() && front[k] == sep;
                assert(b[k] == sep);
            }
        }
        assert(b.last() != sep) by {
            assert(b[b.len() - 1] == b.last());
        }
        lemma_split_extended(a, front, sep);
        assert((a + b).drop_last() == a + front);
        assert((a + b).last() == b.last());
        let mid = pieces.drop_last().push(pieces.last() + front);
        assert(mid.drop_last() == pieces.drop_last());
        assert((pieces.last() + front).push(b.last()) == pieces.last() + b);
    }
}

/// Cutting what was joined gives the pieces back: text that is put together
/// from pieces without the separator is cut into just these pieces.
pub proof fn law_split_of_joined(pieces: Seq<Seq<char>>, sep: char)
    requires
        pieces.len() >= 1,
        free_of(pieces, sep),
    ensures
        split_on(join(pieces, sep), sep) == pieces,
    decreases pieces.len(),
{
    let last = pieces.last();
    assert(!last.contains(sep));
    if pieces.len() == 1 {
        let none = Seq::<char>::empty();
        lemma_split_extended(none, last, sep);
        assert(none + last == last);
        assert(split_on(none, sep) == seq![none]);
        assert(seq![none].drop_last().push(none + last) == pieces);
    } else {
        let front = pieces.drop_last();
        assert(free_of(front, sep)) by {
            assert forall|i: int| 0 <= i < front.len() implies !(#[trigger] front[i]).contains(
                sep,
            ) by {
                assert(front[i] == pieces[i]);
            }
        }
        law_split_of_joined(front, sep);
        let ahead = join(front, sep) + seq![sep];
        assert(ahead.drop_last() == join(front, sep));
        assert(split_on(ahead, sep) == front.push(Seq::empty()));
        lemma_split_extended(ahead, last, sep);
        assert(front.push(Seq::empty()).drop_last().push(Seq::<char>::empty() + last)
            == pieces);
    }
}

/// No character of `s` is white space.
pub open spec fn spaceless(s: Seq<char>) -> bool {
    forall|i: int| 0 <= i < s.len() ==> !is_space(#[trigger] s[i])
}

/// Every word is non-empty and free of white space, and a text that ends
/// in a character that is no white space has a last word.
pub proof fn law_words_are_clean(s: Seq<char>)
    ensures
        forall|i: int|
            0 <= i < words(s).len() ==> (#[trigger] words(s)[i]).len() > 0 && spaceless(
                words(s)[i],
            ),
        s.len() > 0 && !is_space(s.last()) ==> words(s).len() > 0,
    decreases s.len(),
{
    if s.len() > 0 {
        let front = s.drop_last();
        let before = words(front);
        law_words_are_clean(front);
        if is_space(s.last()) {
        } else if s.len() >= 2 && !is_space(s[s.len() - 2]) {
            assert(front.last() == s[s.len() - 2]);
            let grown = before.last().push(s.last());
            let after = before.drop_last().push(grown);
            assert forall|i: int| 0 <= i < after.len() implies (#[trigger] after[i]).len() > 0
                && spaceless(after[i]) by {
                if i < after.len() - 1 {
                    assert(after[i] == before[i]);
                } else {
                    assert(spaceless(before[i]));
                    assert forall|k: int| 0 <= k < grown.len() implies !is_space(
                        #[trigger] grown[k],
                    ) by {
                        if k < grown.len() - 1 {
                            assert(grown[k] == before[i][k]);
                        }
                    }
                }
            }
        } else {
            let after = before.push(seq![s.last()]);
            assert forall|i: int| 0 <= i < after.len() implies (#[trigger] after[i]).len() > 0
                && spaceless(after[i]) by {
                if i < after.len() - 1 {
                    assert(after[i] == before[i]);
                }
            }
        }
    }
}

/// A non-empty text without white space is one word.
pub proof fn law_one_word(s: Seq<char>)
    requires
        s.len() > 0,
        spaceless(s),
    ensures
        words(s) == seq![s],
    decreases s.len(),
{
    if s.len() == 1 {
        assert(words(s.drop_last()) == Seq::<Seq<char>>::empty());
        assert(seq![s.last()] == s);
        assert(Seq::<Seq<char>>::empty().push(s) == seq![s]);
    } else {
        let front = s.drop_last();
        assert(spaceless(front)) by {
            assert forall|i: int| 0 <= i < front.len() implies !is_space(#[trigger] front[i]) by {
                assert(front[i] == s[i]);
            }
        }
        law_one_word(front);
        assert(!is_space(s[s.len() - 2]));
        assert(front.push(s.last()) == s);
        assert(seq![front].drop_last().push(seq![front].last().push(s.last())) == seq![s]);
    }
}

/// The words of two texts with a white space between them are the words of
/// the first followed by the words of the second.
pub proof fn law_words_across_space(a: Seq<char>, space: char, b: Seq<char>)
    requires
        is_space(space),
    ensures
        words(a + seq![space] + b) == words(a) + words(b),
    decreases b.len(),
{
    let ahead = a + seq![space];
    if b.len() == 0 {
        assert(ahead + b == ahead);
        assert(ahead.drop_last() == a);
        assert(words(a) + words(b) == words(a));
    } else {
        let front = b.drop_last();
        let c = b.last();
        let whole = ahead + b;
        law_words_across_space(a, space, front);
        law_words_are_clean(front);
        assert(whole.drop_last() == ahead + front);
        assert(whole.last() == c);
        let before = words(a) + words(front);
        if is_space(c) {
        } else if front.len() > 0 && !is_space(front.last()) {
            assert(whole[whole.len() - 2] == front.last());
            assert(b[b.len() - 2] == front.last());
            assert(before.drop_last() == words(a) + words(front).drop_last());
            assert(before.last() == words(front).last());
            assert((words(a) + words(front).drop_last()).push(words(front).last().push(c))
                == words(a) + words(front).drop_last().push(words(front).last().push(c)));
        } else {
            if front.len() == 0 {
                assert(whole[whole.len() - 2] == space);
            } else {
                assert(whole[whole.len() - 2] == front.last());
                assert(b[b.len() - 2] == front.last());
            }
            assert(before.push(seq![c]) == words(a) + words(front).push(seq![c]));
        }
    }
}

} // verus!
