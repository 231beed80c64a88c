//! The closed set of directive operators and their markers.

use crate::text::same_text;
use vstd::prelude::*;

verus! {

/// What a directive asks for.
#[derive(Clone, Copy, Debug, PartialEq, Eq, Structural, Hash)]
pub enum Operator {
    /// `=`: set the variable unless it is already set.
    SetPlain,
    /// `=!`: set the variable whatever it holds.
    SetForce,
    /// `+=`: add to a colon-separated list what it does not hold yet.
    Append,
    /// `+=!`: add to a colon-separated list unconditionally.
    AppendForce,
    /// `?=`: set the variable only where it is absent.
    SetIfAbsent,
}

impl Operator {
    /// The text that stands for the operator in input.
    pub open spec fn marker_text(self) -> Seq<char> {
        match self {
            Operator::SetPlain => "="@,
            Operator::SetForce => "=!"@,
            Operator::Append => "+="@,
            Operator::AppendForce => "+=!"@,
            Operator::SetIfAbsent => "?="@,
        }
    }

    /// The operator that `token` stands for, if it is a marker.
    pub open spec fn from_text(token: Seq<char>) -> Option<Operator> {
        if token == Operator::AppendForce.marker_text() {
            Some(Operator::AppendForce)
        } else if token == Operator::Append.marker_text() {
            Some(Operator::Append)
        } else if token == Operator::SetForce.marker_text() {
            Some(Operator::SetForce)
        } else if token == Operator::SetIfAbsent.marker_text() {
            Some(Operator::SetIfAbsent)
        } else if token == Operator::SetPlain.marker_text() {
            Some(Operator::SetPlain)
        } else {
            None
        }
    }

    /// Whether repeated directives with this operator are suppressed within
    /// one run: the plain set and the plain append.
    pub open spec fn is_guarded(self) -> bool {
        self == Operator::SetPlain || self == Operator::Append
    }

    /// The text that stands for the operator in input.
    pub fn marker(self) -> (text: &'static str)
        ensures
            text@ == self.marker_text(),
    {
        match self {
            Operator::SetPlain => "=",
            Operator::SetForce => "=!",
            Operator::Append => "+=",
            Operator::AppendForce => "+=!",
            Operator::SetIfAbsent => "?=",
        }
    }

    /// The operator that `token` stands for, if it is a marker.
    pub fn parse(token: &str) -> (op: Option<Operator>)
        ensures
            op == Operator::from_text(token@),
    {
        if same_text(token, "+=!") {
            Some(Operator::AppendForce)
        } else if same_text(token, "+=") {
            Some(Operator::Append)
        } else if same_text(token, "=!") {
            Some(Operator::SetForce)
        } else if same_text(token, "?=") {
            Some(Operator::SetIfAbsent)
        } else if same_text(token, "=") {
            Some(Operator::SetPlain)
        } else {
            None
        }
    }

    /// Whether repeated directives with this operator are suppressed within
    /// one run.
    pub fn guarded(self) -> (guarded: bool)
        ensures
            guarded == self.is_guarded(),
    {
        match self {
            Operator::SetPlain | Operator::Append => true,
            _ => false,
        }
    }
}

/// What each marker is made of, character by character.
pub proof fn lemma_marker_texts()
    ensures
        Operator::SetPlain.marker_text() == seq!['='],
        Operator::SetForce.marker_text() == seq!['=', '!'],
        Operator::Append.marker_text() == seq!['+', '='],
        Operator::AppendForce.marker_text() == seq!['+', '=', '!'],
        Operator::SetIfAbsent.marker_text() == seq!['?', '='],
{
    reveal_strlit("=");
    reveal_strlit("=!");
    reveal_strlit("+=");
    reveal_strlit("+=!");
    reveal_strlit("?=");
    assert(Operator::SetPlain.marker_text() =~= seq!['=']);
    assert(Operator::SetForce.marker_text() =~= seq!['=', '!']);
    assert(Operator::Append.marker_text() =~= seq!['+', '=']);
    assert(Operator::AppendForce.marker_text() =~= seq!['+', '=', '!']);
    assert(Operator::SetIfAbsent.marker_text() =~= seq!['?', '=']);
}

/// A marker reads back as the operator it stands for, and only markers read
/// as operators.
pub proof fn lemma_marker_round_trip(op: Operator, token: Seq<char>)
    ensures
        Operator::from_text(op.marker_text()) == Some(op),
        Operator::from_text(token) == Some(op) <==> token == op.marker_text(),
{
    lemma_marker_texts();
    let a = Operator::SetPlain.marker_text();
    let b = Operator::SetForce.marker_text();
    let c = Operator::Append.marker_text();
    let d = Operator::AppendForce.marker_text();
    let e = Operator::SetIfAbsent.marker_text();
    assert(a.len() == 1 && b.len() == 2 && c.len() == 2 && d.len() == 3 && e.len() == 2);
    assert(b[0] == '=' && c[0] == '+' && e[0] == '?');
}

} // verus!
