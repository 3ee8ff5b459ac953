//! Command-line data and decisions: arguments, colors, exit codes and the
//! clean command.

pub mod args;
pub mod clean;
pub mod exit_codes;
pub mod output;
