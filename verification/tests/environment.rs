use shellenv::dedup::DedupGuard;
use shellenv::directive::Directive;
use shellenv::environment::Environment;
use shellenv::operator::Operator;

#[test]
fn a_new_snapshot_holds_nothing() {
    let env = Environment::new();
    assert_eq!(env.get("PATH"), None);
    assert_eq!(env.get(""), None);
}

#[test]
fn a_snapshot_returns_what_was_set() {
    let mut env = Environment::new();
    env.set("PATH", "/usr/bin");
    env.set("EMPTY", "");
    assert_eq!(env.get("PATH"), Some("/usr/bin"));
    assert_eq!(env.get("EMPTY"), Some(""));
    assert_eq!(env.get("path"), None);
    assert_eq!(env.get("PAT"), None);
}

#[test]
fn a_later_binding_replaces_an_earlier_one() {
    let mut env = Environment::new();
    env.set("A", "1");
    env.set("B", "2");
    env.set("A", "3");
    assert_eq!(env.get("A"), Some("3"));
    assert_eq!(env.get("B"), Some("2"));
}

#[test]
fn a_new_guard_has_seen_nothing() {
    let guard = DedupGuard::new();
    assert!(!guard.contains(&Directive::new("A", Operator::SetPlain, "1")));
}

#[test]
fn the_guard_lets_a_plain_directive_pass_once() {
    let mut guard = DedupGuard::new();
    let d = Directive::new("A", Operator::SetPlain, "1");
    assert!(guard.allow(false, &d));
    assert!(guard.contains(&d));
    assert!(!guard.allow(false, &d));
    assert!(!guard.allow(false, &Directive::new("A", Operator::SetPlain, "1")));
    assert!(guard.allow(false, &Directive::new("A", Operator::SetPlain, "2")));
    assert!(guard.allow(false, &Directive::new("B", Operator::SetPlain, "1")));
    assert!(guard.allow(false, &Directive::new("A", Operator::Append, "1")));
    assert!(!guard.allow(false, &Directive::new("A", Operator::Append, "1")));
}

#[test]
fn the_guard_lets_everything_pass_when_forced() {
    let mut guard = DedupGuard::new();
    let d = Directive::new("A", Operator::Append, "1");
    assert!(guard.allow(true, &d));
    assert!(guard.allow(true, &d));
    assert!(guard.contains(&d));
    assert!(!guard.allow(false, &d));
}

#[test]
fn the_guard_does_not_remember_forced_operators() {
    let mut guard = DedupGuard::new();
    for op in [Operator::SetForce, Operator::AppendForce, Operator::SetIfAbsent] {
        let d = Directive::new("A", op, "1");
        assert!(guard.allow(false, &d));
        assert!(!guard.contains(&d));
        assert!(guard.allow(false, &d));
    }
}
