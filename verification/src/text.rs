//! Character sequences: the mathematical vocabulary shared by the other
//! modules, and the executable helpers that walk a `&str`.

use vstd::prelude::*;
use vstd::std_specs::iter::IteratorSpec;

verus! {

/// `pat` stands in `s` at index `i`.
pub open spec fn occurs_at(s: Seq<char>, pat: Seq<char>, i: int) -> bool {
    &&& 0 <= i
    &&& i + pat.len() <= s.len()
    &&& s.subrange(i, i + pat.len()) == pat
}

/// `pat` stands somewhere in `s`.
pub open spec fn occurs(s: Seq<char>, pat: Seq<char>) -> bool {
    exists|i: int| occurs_at(s, pat, i)
}

/// `pat` stands in `s` at index `i` and nowhere before it.
pub open spec fn is_first_occurrence(s: Seq<char>, pat: Seq<char>, i: int) -> bool {
    &&& occurs_at(s, pat, i)
    &&& forall|j: int| occurs_at(s, pat, j) ==> i <= j
}

/// The leftmost index at which `pat` stands in `s`; meaningful only where
/// `occurs(s, pat)`.
pub open spec fn first_occurrence(s: Seq<char>, pat: Seq<char>) -> int {
    choose|i: int| is_first_occurrence(s, pat, i)
}

/// A leftmost occurrence is the one that `first_occurrence` names.
pub proof fn lemma_first_occurrence(s: Seq<char>, pat: Seq<char>, i: int)
    requires
        is_first_occurrence(s, pat, i),
    ensures
        occurs(s, pat),
        first_occurrence(s, pat) == i,
{
    let j = first_occurrence(s, pat);
    assert(is_first_occurrence(s, pat, j));
}

/// The pieces of `s` between occurrences of `sep`: reading left to right, a
/// separator closes the current piece and opens an empty one, any other
/// character extends the current piece. There is always one piece more than
/// there are separators.
pub open spec fn split_on(s: Seq<char>, sep: char) -> Seq<Seq<char>>
    decreases s.len(),
{
    if s.len() == 0 {
        seq![Seq::empty()]
    } else {
        let before = split_on(s.drop_last(), sep);
        if s.last() == sep {
            before.push(Seq::empty())
        } else {
            before.drop_last().push(before.last().push(s.last()))
        }
    }
}

/// Unicode's `White_Space` property.
pub open spec fn is_space(c: char) -> bool {
    let u = c as u32;
    ||| 0x09 <= u <= 0x0D
    ||| u == 0x20
    ||| u == 0x85
    ||| u == 0xA0
    ||| u == 0x1680
    ||| 0x2000 <= u <= 0x200A
    ||| u == 0x2028
    ||| u == 0x2029
    ||| u == 0x202F
    ||| u == 0x205F
    ||| u == 0x3000
}

/// The maximal runs of non-space characters of `s`, in order: reading left
/// to right, a space contributes nothing, a character after a non-space
/// extends the last word, and any other character starts a new word.
pub open spec fn words(s: Seq<char>) -> Seq<Seq<char>>
    decreases s.len(),
{
    if s.len() == 0 {
        Seq::empty()
    } else {
        let before = words(s.drop_last());
        if is_space(s.last()) {
            before
        } else if s.len() >= 2 && !is_space(s[s.len() - 2]) {
            before.drop_last().push(before.last().push(s.last()))
        } else {
            before.push(seq![s.last()])
        }
    }
}

/// The characters of `s`, in order, with constant-time indexing.
pub fn chars_of(s: &str) -> (v: Vec<char>)
    ensures
        v@ == s@,
{
    let mut v: Vec<char> = Vec::new();
    for c in it: s.chars()
        invariant
            it.seq() == s@,
            v@ == s@.take(it.index() as int),
    {
        v.push(c);
    }
    v
}

/// Whether two strings hold the same characters.
pub fn same_text(a: &str, b: &str) -> (same: bool)
    ensures
        same == (a@ == b@),
{
    let mut left = a.chars();
    let mut right = b.chars();
    let ghost mut done: Seq<char> = Seq::empty();
    assert(done + left.remaining() == a@);
    assert(done + right.remaining() == b@);
    loop
        invariant
            a@ == done + left.remaining(),
            b@ == done + right.remaining(),
            left.decrease() is Some,
        decreases left.decrease()->0,
    {
        let ghost left_before = left.remaining();
        let ghost right_before = right.remaining();
        match (left.next(), right.next()) {
            (Some(x), Some(y)) => {
                if x != y {
                    assert(a@[done.len() as int] == x);
                    assert(b@[done.len() as int] == y);
                    return false;
                }
                proof {
                    assert(done.push(x) + left.remaining() == done + left_before);
                    assert(done.push(x) + right.remaining() == done + right_before);
                    done = done.push(x);
                }
            },
            (None, None) => {
                return true;
            },
            _ => {
                assert(a@.len() != b@.len());
                return false;
            },
        }
    }
}

/// Whether `c` is white space.
pub fn is_whitespace(c: char) -> (space: bool)
    ensures
        space == is_space(c),
{
    let u: u32 = c as u32;
    (0x09 <= u && u <= 0x0D) || u == 0x20 || u == 0x85 || u == 0xA0 || u == 0x1680 || (0x2000 <= u
        && u <= 0x200A) || u == 0x2028 || u == 0x2029 || u == 0x202F || u == 0x205F || u == 0x3000
}

/// Whether `pat` stands in `text` at index `i`.
pub fn matches_at(text: &Vec<char>, pat: &Vec<char>, i: usize) -> (found: bool)
    ensures
        found == occurs_at(text@, pat@, i as int),
{
    if pat.len() > text.len() || i > text.len() - pat.len() {
        return false;
    }
    let mut k: usize = 0;
    while k < pat.len()
        invariant
            i + pat.len() <= text.len(),
            k <= pat.len(),
            text@.subrange(i as int, i + k) == pat@.take(k as int),
        decreases pat.len() - k,
    {
        if text[i + k] != pat[k] {
            assert(text@.subrange(i as int, i + pat.len())[k as int] != pat@[k as int]);
            return false;
        }
        assert(text@.subrange(i as int, i + k + 1) == text@.subrange(i as int, i + k).push(
            text@[i + k],
        ));
        assert(pat@.take(k + 1) == pat@.take(k as int).push(pat@[k as int]));
        k += 1;
    }
    assert(pat@ == pat@.take(k as int));
    true
}

/// The leftmost index at which `pat` stands in `text`, if it stands there at
/// all.
pub fn find(text: &Vec<char>, pat: &Vec<char>) -> (at: Option<usize>)
    ensures
        match at {
            Some(i) => is_first_occurrence(text@, pat@, i as int),
            None => !occurs(text@, pat@),
        },
{
    if pat.len() > text.len() {
        return None;
    }
    let mut i: usize = 0;
    while text.len() - i >= pat.len()
        invariant
            i <= text.len(),
            forall|j: int| 0 <= j < i ==> !occurs_at(text@, pat@, j),
        decreases text.len() - i,
    {
        if matches_at(text, pat, i) {
            return Some(i);
        }
        assert(i < text.len()) by {
            if i == text.len() {
                assert(text@.subrange(i as int, i as int) == pat@);
            }
        }
        i += 1;
    }
    None
}

/// The pieces of `s` between occurrences of `sep`.
pub fn split_fields(s: &str, sep: char) -> (pieces: Vec<String>)
    ensures
        pieces.deep_view() == split_on(s@, sep),
{
    let v = chars_of(s);
    let n = v.len();
    let mut pieces: Vec<String> = Vec::new();
    let mut start: usize = 0;
    let mut i: usize = 0;
    assert(s@.take(0) == Seq::<char>::empty());
    assert(pieces.deep_view().push(s@.subrange(0, 0)) == seq![Seq::<char>::empty()]);
    while i < n
        invariant
            v@ == s@,
            n == v.len(),
            start <= i <= n,
            split_on(s@.take(i as int), sep) == pieces.deep_view().push(
                s@.subrange(start as int, i as int),
            ),
        decreases n - i,
    {
        let ghost old_pieces = pieces.deep_view();
        assert(s@.take(i + 1).drop_last() == s@.take(i as int));
        if v[i] == sep {
            pieces.push(String::from_str(s.substring_char(start, i)));
            assert(pieces.deep_view() == old_pieces.push(s@.subrange(start as int, i as int)));
            start = i + 1;
            assert(s@.subrange(start as int, i + 1) == Seq::<char>::empty());
        } else {
            assert(s@.subrange(start as int, i + 1) == s@.subrange(start as int, i as int).push(
                s@[i as int],
            ));
            assert(pieces.deep_view().push(s@.subrange(start as int, i as int)).drop_last()
                == pieces.deep_view());
        }
        i += 1;
    }
    let ghost old_pieces = pieces.deep_view();
    pieces.push(String::from_str(s.substring_char(start, n)));
    assert(pieces.deep_view() == old_pieces.push(s@.subrange(start as int, n as int)));
    assert(s@.take(n as int) == s@);
    pieces
}

/// The maximal runs of non-space characters of `s`, in order.
pub fn split_words(s: &str) -> (found: Vec<String>)
    ensures
        found.deep_view() == words(s@),
{
    let v = chars_of(s);
    let n = v.len();
    let mut found: Vec<String> = Vec::new();
    let mut start: usize = 0;
    let mut inside = false;
    let mut i: usize = 0;
    assert(found.deep_view() == Seq::<Seq<char>>::empty());
    while i < n
        invariant
            v@ == s@,
            n == v.len(),
            i <= n,
            inside ==> start < i,
            inside <==> (i > 0 && !is_space(s@[i - 1])),
            words(s@.take(i as int)) == if inside {
                found.deep_view().push(s@.subrange(start as int, i as int))
            } else {
                found.deep_view()
            },
        decreases n - i,
    {
        let ghost old_found = found.deep_view();
        assert(s@.take(i + 1).drop_last() == s@.take(i as int));
        if is_whitespace(v[i]) {
            if inside {
                found.push(String::from_str(s.substring_char(start, i)));
                assert(found.deep_view() == old_found.push(s@.subrange(start as int, i as int)));
                inside = false;
            }
        } else if inside {
            assert(s@.subrange(start as int, i + 1) == s@.subrange(start as int, i as int).push(
                s@[i as int],
            ));
            assert(old_found.push(s@.subrange(start as int, i as int)).drop_last() == old_found);
        } else {
            start = i;
            inside = true;
            assert(s@.subrange(start as int, i + 1) == seq![s@[i as int]]);
        }
        i += 1;
    }
    assert(s@.take(n as int) == s@);
    if inside {
        let ghost old_found = found.deep_view();
        found.push(String::from_str(s.substring_char(start, n)));
        assert(found.deep_view() == old_found.push(s@.subrange(start as int, n as int)));
    }
    found
}

} // verus!
