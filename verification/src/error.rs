//! What can be wrong with an invocation.

use vstd::prelude::*;

verus! {

/// A fatal fault in the arguments or the piped input. Each ends the run
/// with the exit status 1.
#[derive(Debug, PartialEq, Eq)]
pub enum UsageError {
    /// An option that takes an argument stands last, or an operator lacks
    /// the name before it or the value behind it. `near` is the token just
    /// before the offending one, where there is one.
    NotEnoughArguments { near: Option<String> },
    /// `--format` names a dialect that has no preset.
    UnrecognizedPreset { dialect: String },
    /// No override template was given.
    NoOverrideFormat,
    /// No append template was given.
    NoAppendFormat,
}

/// A `UsageError` as plain values.
pub ghost enum UsageFault {
    NotEnoughArguments { near: Option<Seq<char>> },
    UnrecognizedPreset { dialect: Seq<char> },
    NoOverrideFormat,
    NoAppendFormat,
}

impl View for UsageError {
    type V = UsageFault;

    open spec fn view(&self) -> UsageFault {
        match self {
            UsageError::NotEnoughArguments { near } => UsageFault::NotEnoughArguments {
                near: near.deep_view(),
            },
            UsageError::UnrecognizedPreset { dialect } => UsageFault::UnrecognizedPreset {
                dialect: dialect@,
            },
            UsageError::NoOverrideFormat => UsageFault::NoOverrideFormat,
            UsageError::NoAppendFormat => UsageFault::NoAppendFormat,
        }
    }
}

impl DeepView for UsageError {
    type V = UsageFault;

    open spec fn deep_view(&self) -> UsageFault {
        self.view()
    }
}

impl UsageFault {
    /// The line that reports the fault.
    pub open spec fn message(self) -> Seq<char> {
        match self {
            UsageFault::NotEnoughArguments { near: None } => "not enough arguments"@,
            UsageFault::NotEnoughArguments { near: Some(token) } => "not enough arguments: "@
                + token,
            UsageFault::UnrecognizedPreset { dialect } => "unrecognized preset format: "@ + dialect,
            UsageFault::NoOverrideFormat => "nothing for format override"@,
            UsageFault::NoAppendFormat => "nothing for format append"@,
        }
    }
}

impl UsageError {
    /// The line that reports the fault.
    pub fn message(&self) -> (line: String)
        ensures
            line@ == self@.message(),
    {
        match self {
            UsageError::NotEnoughArguments { near: None } => String::from_str(
                "not enough arguments",
            ),
            UsageError::NotEnoughArguments { near: Some(token) } => {
                let mut line = String::from_str("not enough arguments: ");
                line.append(token.as_str());
                line
            },
            UsageError::UnrecognizedPreset { dialect } => {
                let mut line = String::from_str("unrecognized preset format: ");
                line.append(dialect.as_str());
                line
            },
            UsageError::NoOverrideFormat => String::from_str("nothing for format override"),
            UsageError::NoAppendFormat => String::from_str("nothing for format append"),
        }
    }
}

/// The exit status of a run that ended with `error`: 0 without a fault, 1
/// with one.
pub fn exit_status(error: &Option<UsageError>) -> (status: i32)
    ensures
        status == if error is Some { 1i32 } else { 0i32 },
{
    match error {
        Some(_) => 1,
        None => 0,
    }
}

} // verus!
