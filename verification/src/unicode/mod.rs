//! Unicode tables and range arithmetic.

pub mod blocks;
pub mod categories;
pub mod malicious;
pub mod ranges;
