//! SQL: tokens, the syntax tree, and a recursive-descent parser.

pub mod alignment;
pub mod alter;
pub mod as_of;
pub mod checks;
pub mod clauses;
pub mod commands;
pub mod constructs;
pub mod create;
pub mod expr;
pub mod functions;
pub mod grant;
pub mod joined;
pub mod keywords;
pub mod laws;
pub mod kind;
pub mod lexer;
pub mod names;
pub mod number;
pub mod options;
pub mod outcome;
pub mod parse;
pub mod parser;
pub mod query;
pub mod query_reading;
pub mod reading;
pub mod select;
pub mod settings;
pub mod show;
pub mod sources;
pub mod spelling;
pub mod statement;
pub mod syntax;
pub mod tables;
pub mod terms;
pub mod text;
pub mod token;
pub mod white_space;
