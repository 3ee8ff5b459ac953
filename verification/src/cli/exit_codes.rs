//! Process exit codes.

use vstd::prelude::*;

verus! {

/// Nothing malicious found.
pub const SUCCESS: i32 = 0;

/// Violations found.
pub const VIOLATIONS_FOUND: i32 = 1;

/// A configuration, I/O or other runtime error.
pub const ERROR: i32 = 2;

/// Some files could not be scanned.
pub const PARTIAL_SUCCESS: i32 = 3;

} // verus!
