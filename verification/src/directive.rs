//! Directives, and how a token sequence is read as directives.
//!
//! Every token that is an operator marker is an operator, wherever it
//! stands; the token before it is the name and the token behind it the
//! value, even where that token is a marker itself.

use crate::error::{UsageError, UsageFault};
use crate::operator::Operator;
use vstd::prelude::*;

verus! {

/// One unit of input: what to do, to which variable, with which value.
#[derive(Debug, PartialEq, Eq)]
pub struct Directive {
    pub name: String,
    pub op: Operator,
    pub value: String,
}

/// A `Directive` as plain values.
pub ghost struct DirectiveText {
    pub name: Seq<char>,
    pub op: Operator,
    pub value: Seq<char>,
}

impl View for Directive {
    type V = DirectiveText;

    open spec fn view(&self) -> DirectiveText {
        DirectiveText { name: self.name@, op: self.op, value: self.value@ }
    }
}

impl DeepView for Directive {
    type V = DirectiveText;

    open spec fn deep_view(&self) -> DirectiveText {
        self.view()
    }
}

impl Directive {
    /// A directive made of copies of `name` and `value`.
    pub fn new(name: &str, op: Operator, value: &str) -> (made: Directive)
        ensures
            made@ == (DirectiveText { name: name@, op, value: value@ }),
    {
        Directive { name: String::from_str(name), op, value: String::from_str(value) }
    }
}

/// Whether the first token is an operator, which then lacks its name.
pub open spec fn starts_with_operator(tokens: Seq<Seq<char>>) -> bool {
    tokens.len() > 0 && Operator::from_text(tokens[0]) is Some
}

/// Whether the last token is an operator, which then lacks its value.
pub open spec fn ends_with_operator(tokens: Seq<Seq<char>>) -> bool {
    tokens.len() > 0 && Operator::from_text(tokens.last()) is Some
}

/// The directive whose operator stands at index `i`, if an operator with a
/// token on either side stands there.
pub open spec fn directive_at(tokens: Seq<Seq<char>>, i: int) -> Option<DirectiveText> {
    if 0 < i < tokens.len() - 1 {
        match Operator::from_text(tokens[i]) {
            Some(op) => Some(DirectiveText { name: tokens[i - 1], op, value: tokens[i + 1] }),
            None => None,
        }
    } else {
        None
    }
}

/// The directives whose operators stand before index `n`, in order.
pub open spec fn directives_before(tokens: Seq<Seq<char>>, n: int) -> Seq<DirectiveText>
    decreases n,
{
    if n <= 0 {
        Seq::empty()
    } else {
        directives_before(tokens, n - 1) + match directive_at(tokens, n - 1) {
            Some(d) => seq![d],
            None => Seq::empty(),
        }
    }
}

/// The directives that a run works through: those of all the operators that
/// have a token on either side, in order. A run whose first token is an
/// operator stops before any directive.
pub open spec fn directives_of(tokens: Seq<Seq<char>>) -> Seq<DirectiveText> {
    if starts_with_operator(tokens) {
        Seq::empty()
    } else {
        directives_before(tokens, tokens.len() as int)
    }
}

/// The fault that ends a run, if any: an operator in the first place has
/// no name and nothing to report beside it; an operator in the last place
/// has no value, and the token before it is reported.
pub open spec fn missing_operand(tokens: Seq<Seq<char>>) -> Option<UsageFault> {
    if starts_with_operator(tokens) {
        Some(UsageFault::NotEnoughArguments { near: None })
    } else if ends_with_operator(tokens) {
        Some(UsageFault::NotEnoughArguments { near: Some(tokens[tokens.len() - 2]) })
    } else {
        None
    }
}

/// The directives found in a token sequence, and the fault that the
/// sequence ends the run with, if any.
pub struct Scan {
    pub directives: Vec<Directive>,
    pub error: Option<UsageError>,
}

/// Reads `tokens` as directives.
pub fn scan(tokens: &Vec<String>) -> (found: Scan)
    ensures
        found.directives.deep_view() == directives_of(tokens.deep_view()),
        found.error.deep_view() == missing_operand(tokens.deep_view()),
{
    let ghost texts = tokens.deep_view();
    let n = tokens.len();
    let mut directives: Vec<Directive> = Vec::new();
    let mut i: usize = 0;
    assert(directives.deep_view() == Seq::<DirectiveText>::empty());
    while i < n
        invariant
            n == tokens.len(),
            texts == tokens.deep_view(),
            i <= n,
            forall|j: int|
                0 <= j < i && Operator::from_text(#[trigger] texts[j]) is Some ==> 0 < j < n - 1,
            directives.deep_view() == directives_before(texts, i as int),
        decreases n - i,
    {
        let ghost before = directives.deep_view();
        match Operator::parse(tokens[i].as_str()) {
            Some(op) => {
                if i == 0 {
                    assert(directives.deep_view() == Seq::<DirectiveText>::empty());
                    return Scan {
                        directives,
                        error: Some(UsageError::NotEnoughArguments { near: None }),
                    };
                }
                if i + 1 >= n {
                    assert(directives_before(texts, n as int) == before + Seq::<
                        DirectiveText,
                    >::empty());
                    return Scan {
                        directives,
                        error: Some(
                            UsageError::NotEnoughArguments { near: Some(tokens[i - 1].clone()) },
                        ),
                    };
                }
                directives.push(
                    Directive::new(tokens[i - 1].as_str(), op, tokens[i + 1].as_str()),
                );
                assert(directives.deep_view() == before + seq![directive_at(texts, i as int)->0]);
            },
            None => {
                assert(directives.deep_view() == before + Seq::<DirectiveText>::empty());
            },
        }
        i += 1;
    }
    Scan { directives, error: None }
}

} // verus!
