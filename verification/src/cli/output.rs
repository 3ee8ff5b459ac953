//! Deciding whether output is colored.

use vstd::prelude::*;

verus! {

/// When to color output.
#[derive(Debug, Clone, Copy, PartialEq, Eq, Structural)]
pub enum ColorMode {
    Auto,
    Always,
    Never,
}

/// The stream that output goes to.
#[derive(Debug, Clone, Copy, PartialEq, Eq, Structural)]
pub enum ColorStream {
    Stdout,
    Stderr,
}

/// Colors are used when forced, never when disabled, and in automatic mode
/// only when `NO_COLOR` is unset and the stream is a terminal.
pub open spec fn spec_use_color(mode: ColorMode, no_color_set: bool, is_terminal: bool) -> bool {
    match mode {
        ColorMode::Always => true,
        ColorMode::Never => false,
        ColorMode::Auto => !no_color_set && is_terminal,
    }
}

/// Whether to color output, given whether `NO_COLOR` is set and whether the
/// stream is a terminal.
pub fn color_decision(mode: ColorMode, no_color_set: bool, is_terminal: bool) -> (b: bool)
    ensures
        b == spec_use_color(mode, no_color_set, is_terminal),
{
    match mode {
        ColorMode::Always => true,
        ColorMode::Never => false,
        ColorMode::Auto => !no_color_set && is_terminal,
    }
}

} // verus!
