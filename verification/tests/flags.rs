use shellenv::environment::Environment;
use shellenv::error::{exit_status, UsageError};
use shellenv::flags::{scan_flags, Invocation, Settings};
use shellenv::resolver::resolve;
use shellenv::tokenizer::tokenize;

fn command(items: &[&str]) -> Vec<String> {
    items.iter().map(|s| s.to_string()).collect()
}

fn settings(force: bool, format_override: &str, format_append: &str) -> Invocation {
    Invocation::Run(Settings {
        force,
        format_override: format_override.to_string(),
        format_append: format_append.to_string(),
    })
}

#[test]
fn no_argument_at_all_asks_for_help() {
    assert_eq!(scan_flags(&Vec::new()), Invocation::Help);
}

#[test]
fn help_wins_where_it_is_read_first() {
    assert_eq!(scan_flags(&command(&["tool", "--help"])), Invocation::Help);
    assert_eq!(scan_flags(&command(&["tool", "-f", "fish", "A=1", "--help"])), Invocation::Help);
    assert_eq!(scan_flags(&command(&["tool", "--help", "-f"])), Invocation::Help);
    assert_eq!(scan_flags(&command(&["tool", "-fo", "--help"])), Invocation::Help);
}

#[test]
fn help_behind_a_fault_or_a_stop_is_not_read() {
    assert_eq!(
        scan_flags(&command(&["tool", "-f", "nope", "--help"])),
        Invocation::Refused(UsageError::UnrecognizedPreset { dialect: "nope".to_string() })
    );
    assert_eq!(
        scan_flags(&command(&["tool", "-f", "sh", "--", "--help"])),
        settings(false, "export {N}={V}", "export {N}={V}:${N}")
    );
}

#[test]
fn a_preset_gives_both_templates() {
    for dialect in ["sh", "bash", "zsh"] {
        for flag in ["--format", "-f"] {
            assert_eq!(
                scan_flags(&command(&["tool", flag, dialect])),
                settings(false, "export {N}={V}", "export {N}={V}:${N}")
            );
        }
    }
    assert_eq!(
        scan_flags(&command(&["tool", "--format", "fish"])),
        settings(false, "set -x {N} {V}", "set -x {N} {V} ${N}")
    );
}

#[test]
fn an_unknown_preset_is_refused() {
    let refused = scan_flags(&command(&["tool", "--format", "tcsh", "A=1"]));
    assert_eq!(
        refused,
        Invocation::Refused(UsageError::UnrecognizedPreset { dialect: "tcsh".to_string() })
    );
    if let Invocation::Refused(error) = refused {
        assert_eq!(error.message(), "unrecognized preset format: tcsh");
        assert_eq!(exit_status(&Some(error)), 1);
    }
}

#[test]
fn templates_can_be_given_one_by_one() {
    assert_eq!(
        scan_flags(&command(&["tool", "--format-override", "O", "--format-append", "A"])),
        settings(false, "O", "A")
    );
    assert_eq!(scan_flags(&command(&["tool", "-fa", "A", "-fo", "O"])), settings(false, "O", "A"));
}

#[test]
fn the_last_template_given_counts() {
    assert_eq!(
        scan_flags(&command(&["tool", "-f", "fish", "-fo", "O"])),
        settings(false, "O", "set -x {N} {V} ${N}")
    );
    assert_eq!(
        scan_flags(&command(&["tool", "-fo", "O", "-fa", "A", "-f", "fish"])),
        settings(false, "set -x {N} {V}", "set -x {N} {V} ${N}")
    );
    assert_eq!(
        scan_flags(&command(&["tool", "-fo", "O1", "-fa", "A", "-fo", "O2"])),
        settings(false, "O2", "A")
    );
}

#[test]
fn force_has_two_spellings() {
    assert_eq!(
        scan_flags(&command(&["tool", "--force", "-f", "sh"])),
        settings(true, "export {N}={V}", "export {N}={V}:${N}")
    );
    assert_eq!(
        scan_flags(&command(&["tool", "-f", "sh", "A=1", "-F"])),
        settings(true, "export {N}={V}", "export {N}={V}:${N}")
    );
}

#[test]
fn an_option_does_not_consume_its_argument() {
    assert_eq!(
        scan_flags(&command(&["tool", "-fo", "-F", "-fa", "A"])),
        settings(true, "-F", "A")
    );
    assert_eq!(
        scan_flags(&command(&["tool", "-fa", "A", "-fo", "--"])),
        settings(false, "--", "A")
    );
}

#[test]
fn a_double_dash_ends_the_options() {
    assert_eq!(
        scan_flags(&command(&["tool", "-f", "sh", "--", "--force", "-fo", "O"])),
        settings(false, "export {N}={V}", "export {N}={V}:${N}")
    );
    assert_eq!(
        scan_flags(&command(&["tool", "--", "-f", "sh"])),
        Invocation::Refused(UsageError::NoOverrideFormat)
    );
    assert_eq!(
        scan_flags(&command(&["tool", "-f", "sh", "--", "-f"])),
        settings(false, "export {N}={V}", "export {N}={V}:${N}")
    );
}

#[test]
fn an_option_in_the_last_place_lacks_its_argument() {
    for flag in ["--format-override", "-fo", "--format-append", "-fa", "--format", "-f"] {
        assert_eq!(
            scan_flags(&command(&["tool", "A=1", flag])),
            Invocation::Refused(UsageError::NotEnoughArguments { near: Some("A=1".to_string()) })
        );
        assert_eq!(
            scan_flags(&command(&["tool", flag])),
            Invocation::Refused(UsageError::NotEnoughArguments { near: Some("tool".to_string()) })
        );
        assert_eq!(
            scan_flags(&command(&[flag])),
            Invocation::Refused(UsageError::NotEnoughArguments { near: None })
        );
    }
}

#[test]
fn a_run_needs_both_templates() {
    assert_eq!(
        scan_flags(&command(&["tool"])),
        Invocation::Refused(UsageError::NoOverrideFormat)
    );
    assert_eq!(
        scan_flags(&command(&["tool", "A=1"])),
        Invocation::Refused(UsageError::NoOverrideFormat)
    );
    assert_eq!(
        scan_flags(&command(&["tool", "-fa", "A"])),
        Invocation::Refused(UsageError::NoOverrideFormat)
    );
    assert_eq!(
        scan_flags(&command(&["tool", "-fo", "O"])),
        Invocation::Refused(UsageError::NoAppendFormat)
    );
    assert_eq!(
        scan_flags(&command(&["tool", "-fo", "", "-fa", "A"])),
        Invocation::Refused(UsageError::NoOverrideFormat)
    );
    assert_eq!(
        scan_flags(&command(&["tool", "-fo", "O", "-fa", ""])),
        Invocation::Refused(UsageError::NoAppendFormat)
    );
}

#[test]
fn every_fault_has_its_message() {
    assert_eq!(
        UsageError::NotEnoughArguments { near: None }.message(),
        "not enough arguments"
    );
    assert_eq!(
        UsageError::NotEnoughArguments { near: Some("-f".to_string()) }.message(),
        "not enough arguments: -f"
    );
    assert_eq!(
        UsageError::UnrecognizedPreset { dialect: "csh".to_string() }.message(),
        "unrecognized preset format: csh"
    );
    assert_eq!(UsageError::NoOverrideFormat.message(), "nothing for format override");
    assert_eq!(UsageError::NoAppendFormat.message(), "nothing for format append");
}

#[test]
fn every_fault_has_status_one() {
    for error in [
        UsageError::NotEnoughArguments { near: None },
        UsageError::UnrecognizedPreset { dialect: "csh".to_string() },
        UsageError::NoOverrideFormat,
        UsageError::NoAppendFormat,
    ] {
        assert_eq!(exit_status(&Some(error)), 1);
    }
    assert_eq!(exit_status(&None), 0);
}

#[test]
fn fish_preset_sets_an_absent_path() {
    let args = command(&["tool", "--format", "fish", "PATH", "+=", "/usr/bin"]);
    let chosen = match scan_flags(&args) {
        Invocation::Run(chosen) => chosen,
        other => panic!("{:?}", other),
    };
    let tokens = tokenize(&args[1..].to_vec());
    let outcome = resolve(
        chosen.force,
        &chosen.format_override,
        &chosen.format_append,
        &tokens,
        &Environment::new(),
    );
    assert_eq!(outcome.error, None);
    assert_eq!(outcome.lines, vec!["set -x PATH /usr/bin".to_string()]);
}

#[test]
fn fish_preset_adds_to_a_present_path() {
    let args = command(&["tool", "-f", "fish", "PATH += /usr/bin:/opt/bin"]);
    let chosen = match scan_flags(&args) {
        Invocation::Run(chosen) => chosen,
        other => panic!("{:?}", other),
    };
    let mut env = Environment::new();
    env.set("PATH", "/bin:/usr/bin");
    let tokens = tokenize(&args[1..].to_vec());
    let outcome = resolve(
        chosen.force,
        &chosen.format_override,
        &chosen.format_append,
        &tokens,
        &env,
    );
    assert_eq!(outcome.error, None);
    assert_eq!(outcome.lines, vec!["set -x PATH /opt/bin $PATH".to_string()]);
}
