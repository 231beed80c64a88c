//! The options that precede the directives on the command line.
//!
//! The arguments are read from the first to the last, the program's own
//! name included, until `--` or the end. An option does not consume its
//! argument: the argument is read as the next option in its turn.

use crate::error::{UsageError, UsageFault};
use crate::template::{preset, preset_texts};
use crate::text::same_text;
use vstd::prelude::*;

verus! {

/// What the options settle for a run.
#[derive(Debug, PartialEq, Eq)]
pub struct Settings {
    /// Whether nothing is suppressed.
    pub force: bool,
    /// The template for statements that set a variable.
    pub format_override: String,
    /// The template for statements that add to a variable.
    pub format_append: String,
}

/// `Settings` as plain values.
pub ghost struct SettingsText {
    pub force: bool,
    pub format_override: Seq<char>,
    pub format_append: Seq<char>,
}

impl View for Settings {
    type V = SettingsText;

    open spec fn view(&self) -> SettingsText {
        SettingsText {
            force: self.force,
            format_override: self.format_override@,
            format_append: self.format_append@,
        }
    }
}

/// What the command line asks for.
#[derive(Debug, PartialEq, Eq)]
pub enum Invocation {
    /// Print the usage text and do nothing else.
    Help,
    /// Work through the directives under these settings.
    Run(Settings),
    /// Report the fault and do nothing else.
    Refused(UsageError),
}

/// An `Invocation` as plain values.
pub ghost enum InvocationText {
    Help,
    Run(SettingsText),
    Refused(UsageFault),
}

impl View for Invocation {
    type V = InvocationText;

    open spec fn view(&self) -> InvocationText {
        match self {
            Invocation::Help => InvocationText::Help,
            Invocation::Run(settings) => InvocationText::Run(settings@),
            Invocation::Refused(error) => InvocationText::Refused(error@),
        }
    }
}

/// What reading one argument leads to.
pub ghost enum FlagStep {
    /// Go on to the next argument under these settings.
    Next(SettingsText),
    /// Stop reading: the settings are complete.
    Last(SettingsText),
    /// The argument asks for the usage text.
    Help,
    /// The argument cannot be read.
    Refused(UsageFault),
}

/// Whether `arg` is an option that takes the argument after it.
pub open spec fn takes_argument(arg: Seq<char>) -> bool {
    ||| arg == "--format-override"@
    ||| arg == "-fo"@
    ||| arg == "--format-append"@
    ||| arg == "-fa"@
    ||| arg == "--format"@
    ||| arg == "-f"@
}

/// Reads the argument at index `i` under the settings `so_far`.
pub open spec fn flag_step(args: Seq<Seq<char>>, i: int, so_far: SettingsText) -> FlagStep {
    let arg = args[i];
    if arg == "--help"@ {
        FlagStep::Help
    } else if takes_argument(arg) && i + 1 >= args.len() {
        FlagStep::Refused(
            UsageFault::NotEnoughArguments {
                near: if i == 0 {
                    None
                } else {
                    Some(args[i - 1])
                },
            },
        )
    } else if arg == "--force"@ || arg == "-F"@ {
        FlagStep::Next(SettingsText { force: true, ..so_far })
    } else if arg == "--format-override"@ || arg == "-fo"@ {
        FlagStep::Next(SettingsText { format_override: args[i + 1], ..so_far })
    } else if arg == "--format-append"@ || arg == "-fa"@ {
        FlagStep::Next(SettingsText { format_append: args[i + 1], ..so_far })
    } else if arg == "--format"@ || arg == "-f"@ {
        match preset_texts(args[i + 1]) {
            Some((format_override, format_append)) => FlagStep::Next(
                SettingsText { format_override, format_append, ..so_far },
            ),
            None => FlagStep::Refused(UsageFault::UnrecognizedPreset { dialect: args[i + 1] }),
        }
    } else if arg == "--"@ {
        FlagStep::Last(so_far)
    } else {
        FlagStep::Next(so_far)
    }
}

/// What complete settings come to: a run needs both templates, and the
/// override template is asked for first.
pub open spec fn settled(settings: SettingsText) -> InvocationText {
    if settings.format_override.len() == 0 {
        InvocationText::Refused(UsageFault::NoOverrideFormat)
    } else if settings.format_append.len() == 0 {
        InvocationText::Refused(UsageFault::NoAppendFormat)
    } else {
        InvocationText::Run(settings)
    }
}

/// What the arguments from index `i` on come to under the settings
/// `so_far`.
pub open spec fn read_from(args: Seq<Seq<char>>, i: int, so_far: SettingsText) -> InvocationText
    decreases args.len() - i,
{
    if i < 0 || i >= args.len() {
        settled(so_far)
    } else {
        match flag_step(args, i, so_far) {
            FlagStep::Next(settings) => read_from(args, i + 1, settings),
            FlagStep::Last(settings) => settled(settings),
            FlagStep::Help => InvocationText::Help,
            FlagStep::Refused(fault) => InvocationText::Refused(fault),
        }
    }
}

/// What a command line comes to. Without any argument, not even the
/// program's name, it asks for the usage text.
pub open spec fn invocation_of(args: Seq<Seq<char>>) -> InvocationText {
    if args.len() == 0 {
        InvocationText::Help
    } else {
        read_from(
            args,
            0,
            SettingsText {
                force: false,
                format_override: Seq::empty(),
                format_append: Seq::empty(),
            },
        )
    }
}

/// Whether `arg` is one of the two spellings `long` and `short`.
fn is_flag(arg: &str, long: &str, short: &str) -> (hit: bool)
    ensures
        hit == (arg@ == long@ || arg@ == short@),
{
    same_text(arg, long) || same_text(arg, short)
}

/// Whether a run can start under `settings`.
fn settle(settings: Settings) -> (invocation: Invocation)
    ensures
        invocation@ == settled(settings@),
{
    if settings.format_override.as_str().unicode_len() == 0 {
        Invocation::Refused(UsageError::NoOverrideFormat)
    } else if settings.format_append.as_str().unicode_len() == 0 {
        Invocation::Refused(UsageError::NoAppendFormat)
    } else {
        Invocation::Run(settings)
    }
}

/// Reads the options of a command line. `args` is the whole command line,
/// the program's name first.
pub fn scan_flags(args: &Vec<String>) -> (invocation: Invocation)
    ensures
        invocation@ == invocation_of(args.deep_view()),
{
    let ghost texts = args.deep_view();
    let n = args.len();
    if n == 0 {
        return Invocation::Help;
    }
    let mut settings = Settings {
        force: false,
        format_override: String::new(),
        format_append: String::new(),
    };
    let mut i: usize = 0;
    while i < n
        invariant
            n == args.len(),
            texts == args.deep_view(),
            i <= n,
            read_from(texts, i as int, settings@) == invocation_of(texts),
        decreases n - i,
    {
        let arg = args[i].as_str();
        assert(arg@ == texts[i as int]);
        let override_flag = is_flag(arg, "--format-override", "-fo");
        let append_flag = is_flag(arg, "--format-append", "-fa");
        let preset_flag = is_flag(arg, "--format", "-f");
        if same_text(arg, "--help") {
            return Invocation::Help;
        } else if (override_flag || append_flag || preset_flag) && i + 1 >= n {
            let near = if i == 0 {
                None
            } else {
                Some(args[i - 1].clone())
            };
            return Invocation::Refused(UsageError::NotEnoughArguments { near });
        } else if is_flag(arg, "--force", "-F") {
            settings.force = true;
        } else if override_flag {
            settings.format_override = args[i + 1].clone();
        } else if append_flag {
            settings.format_append = args[i + 1].clone();
        } else if preset_flag {
            match preset(args[i + 1].as_str()) {
                Some(found) => {
                    settings.format_override = found.format_override;
                    settings.format_append = found.format_append;
                },
                None => {
                    return Invocation::Refused(
                        UsageError::UnrecognizedPreset { dialect: args[i + 1].clone() },
                    );
                },
            }
        } else if same_text(arg, "--") {
            return settle(settings);
        }
        i += 1;
    }
    settle(settings)
}

} // verus!
