//! What a test file asks for.

use vstd::prelude::*;

use crate::sql_parser::text::{decimal, decimal_text, no_text, texts_view};
use crate::sqllogictest::texts::{copy_texts, same_texts};

verus! {

/// A place in a test file.
#[derive(Debug)]
pub struct Location {
    pub file: String,
    pub line: usize,
}

impl View for Location {
    type V = (Seq<char>, usize);

    open spec fn view(&self) -> (Seq<char>, usize) {
        (self.file@, self.line)
    }
}

/// How a place in a file is written.
pub open spec fn location_text(l: (Seq<char>, usize)) -> Seq<char> {
    no_text() + l.0 + ":"@ + decimal(l.1 as nat)
}

impl Location {
    /// How the place is written.
    pub fn to_text(&self) -> (r: String)
        ensures
            r@ == location_text(self@),
    {
        String::new().concat(self.file.as_str()).concat(":").concat(decimal_text(self.line as u64).as_str())
    }

    /// The same place.
    pub fn copy(&self) -> (r: Location)
        ensures
            r@ == self@,
    {
        Location { file: self.file.clone(), line: self.line }
    }
}

/// A part of a test file: where it starts and how long it is, in characters.
#[derive(Debug, Copy, Clone, PartialEq, Eq, Structural)]
pub struct Span {
    pub start: usize,
    pub len: usize,
}

/// The type of a result column.
#[derive(Debug, Copy, Clone, PartialEq, Eq, Structural)]
pub enum Type {
    Text,
    Integer,
    Real,
    Bool,
    Oid,
}

/// How results are sorted before they are compared.
#[derive(Debug, Copy, Clone, PartialEq, Eq, Structural)]
pub enum Sort {
    No,
    Row,
    Value,
}

impl Sort {
    /// Whether results are sorted at all.
    pub fn yes(&self) -> (r: bool)
        ensures
            r == (*self != Sort::No),
    {
        match self {
            Sort::No => false,
            _ => true,
        }
    }
}

/// The dialect of a test file.
#[derive(Debug, Copy, Clone, PartialEq, Eq, Structural)]
pub enum Mode {
    Standard,
    Cockroach,
}

/// What a query is to return: its values, or how many there are and their hash.
#[derive(Debug)]
pub enum Output {
    Values(Vec<String>),
    Hashed { num_values: usize, md5: String },
}

/// What an [`Output`] stands for.
pub enum OutputView {
    Values(Seq<Seq<char>>),
    Hashed { num_values: usize, md5: Seq<char> },
}

impl View for Output {
    type V = OutputView;

    open spec fn view(&self) -> OutputView {
        match self {
            Output::Values(vs) => OutputView::Values(texts_view(vs@)),
            Output::Hashed { num_values, md5 } => OutputView::Hashed {
                num_values: *num_values,
                md5: md5@,
            },
        }
    }
}

impl Output {
    /// The same output.
    pub fn copy(&self) -> (r: Output)
        ensures
            r@ == self@,
    {
        match self {
            Output::Values(vs) => Output::Values(copy_texts(vs)),
            Output::Hashed { num_values, md5 } => Output::Hashed {
                num_values: *num_values,
                md5: md5.clone(),
            },
        }
    }

    /// Whether two outputs are the same.
    pub fn same(&self, other: &Output) -> (r: bool)
        ensures
            r == (self@ == other@),
    {
        match (self, other) {
            (Output::Values(a), Output::Values(b)) => same_texts(a, b),
            (
                Output::Hashed { num_values: n, md5: a },
                Output::Hashed { num_values: m, md5: b },
            ) => *n == *m && crate::sql_parser::text::text_eq(a.as_str(), b.as_str()),
            _ => false,
        }
    }
}

/// The expected result of a query that succeeds.
#[derive(Debug)]
pub struct QueryOutput {
    pub types: Vec<Type>,
    pub sort: Sort,
    pub column_names: Option<Vec<String>>,
    pub mode: Mode,
    pub output: Output,
    /// Where the expected output stands in the file.
    pub output_span: Span,
}

/// A part of a test file that names a text.
#[derive(Debug)]
pub struct Quoted {
    pub text: String,
    pub span: Span,
}

/// A record of a test file.
#[derive(Debug)]
pub enum Record {
    Statement {
        location: Location,
        expected_error: Option<Quoted>,
        rows_affected: Option<u64>,
        sql: Quoted,
    },
    Query { location: Location, sql: Quoted, output: Result<QueryOutput, Quoted> },
    Simple {
        location: Location,
        conn: Option<String>,
        user: Option<String>,
        sql: String,
        output: Output,
        output_span: Span,
    },
    Copy { table_name: String, tsv_path: String },
    ResetServer,
    Other,
}

} // verus!
