//! Core of a test harness for authoring competitive-programming problems:
//! the toolchain model, the naming and pairing of testcases, and the
//! decisions of the generate, validate, solve and judge stages.

pub mod compile;
pub mod decimal;
pub mod error;
pub mod generate;
pub mod judge;
pub mod language;
pub mod order;
pub mod path;
pub mod pattern;
pub mod solve;
pub mod text;
pub mod utils;
pub mod validate;
