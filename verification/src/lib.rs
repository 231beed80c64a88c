//! Shell statements for environment-variable directives.
//!
//! A directive is a variable name, an operator and a value: `PATH += /opt/bin`
//! or `EDITOR=vi`. The library turns raw text into directives and decides,
//! against a snapshot of the environment, which statements a calling shell
//! should evaluate. It changes nothing itself.
//!
//! - [`flags`] reads the options of a command line;
//! - [`tokenizer`] cuts raw strings into tokens;
//! - [`directive`] reads a token sequence as directives;
//! - [`resolver`] resolves directives against an [`environment`] snapshot,
//!   with [`dedup`] guarding against repeated directives;
//! - [`template`] fills the placeholders of a format template in;
//! - [`operator`], [`error`] and [`text`] hold what the others share;
//! - [`laws`], [`template_laws`] and [`text_laws`] state and prove what
//!   holds across these functions.

pub mod dedup;
pub mod directive;
pub mod environment;
pub mod error;
pub mod flags;
pub mod laws;
pub mod operator;
pub mod resolver;
pub mod template;
pub mod template_laws;
pub mod text;
pub mod text_laws;
pub mod tokenizer;
