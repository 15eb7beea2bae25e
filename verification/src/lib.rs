//! Turns a declarative option definition and a script's raw arguments into
//! shell code that the calling script evaluates.
//!
//! The definitions are parsed (`opt_def`) and validated (`validation`),
//! the arguments are tokenized (`arg_parser`) and matched against the
//! options (`matching`), and the code that carries the options out is
//! rendered for one of the supported shells (`shell_code`). `parseargs`
//! runs all of it for one call.

pub mod text;
pub mod shell_code;
pub mod arg_parser;
pub mod opt_def;
pub mod validation;
pub mod init_code;
pub mod matching;
pub mod matching_laws;
pub mod parseargs;
