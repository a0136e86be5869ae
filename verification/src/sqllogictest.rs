//! Running logic tests: what a test file asks for, how a server's answers are
//! judged, and how a file's expectations are rewritten.

pub mod ast;
pub mod decoding;
pub mod format;
pub mod judging;
pub mod laws;
pub mod layout;
pub mod mutate;
pub mod order;
pub mod outcome;
pub mod pattern;
pub mod query;
pub mod reporting;
pub mod reset;
pub mod rewrite;
pub mod run;
pub mod slt;
pub mod texts;
pub mod value;
pub mod writing;
