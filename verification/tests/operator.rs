use shellenv::operator::Operator;

const ALL: [Operator; 5] = [
    Operator::SetPlain,
    Operator::SetForce,
    Operator::Append,
    Operator::AppendForce,
    Operator::SetIfAbsent,
];

#[test]
fn markers_are_the_documented_ones() {
    assert_eq!(Operator::SetPlain.marker(), "=");
    assert_eq!(Operator::SetForce.marker(), "=!");
    assert_eq!(Operator::Append.marker(), "+=");
    assert_eq!(Operator::AppendForce.marker(), "+=!");
    assert_eq!(Operator::SetIfAbsent.marker(), "?=");
}

#[test]
fn a_marker_parses_as_its_operator() {
    for op in ALL {
        assert_eq!(Operator::parse(op.marker()), Some(op));
    }
}

#[test]
fn other_text_is_no_operator() {
    for token in ["", "==", "+", "!", "?", "=+", "!=", "+=!!", " =", "= ", "FOO", "=?", "+=?"] {
        assert_eq!(Operator::parse(token), None, "{:?}", token);
    }
}

#[test]
fn only_the_plain_operators_are_guarded() {
    assert!(Operator::SetPlain.guarded());
    assert!(Operator::Append.guarded());
    assert!(!Operator::SetForce.guarded());
    assert!(!Operator::AppendForce.guarded());
    assert!(!Operator::SetIfAbsent.guarded());
}
