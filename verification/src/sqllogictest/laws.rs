//! What holds of running records and of rewriting what they expect.

use vstd::prelude::*;

use crate::sqllogictest::ast::{Output, QueryOutput};
use crate::sqllogictest::outcome::{error_pattern, top_message, ErrorChain, OutcomeView};
use crate::sqllogictest::pattern::regex_search;
use crate::sqllogictest::query::{
    expected_search, rows_outcome, simple_outcome, statement_outcome, ResultRow, SimpleMessage,
};

verus! {

/// A query whose output was not the expected one succeeds on the same rows once the output that
/// it had is expected.
pub proof fn law_actual_output_succeeds(
    o: QueryOutput,
    actual: Output,
    rows: Seq<ResultRow>,
    md5: Seq<char>,
    shown: Seq<char>,
    location: (Seq<char>, usize),
)
    requires
        rows_outcome(o, rows, md5, shown, location) matches OutcomeView::OutputFailure {
            actual_output,
            ..
        } && actual_output == actual@,
    ensures
        rows_outcome(QueryOutput { output: actual, ..o }, rows, md5, shown, location)
            == OutcomeView::Success,
{
}

/// A simple query whose lines were not the expected ones succeeds on the same answer once the
/// lines that it had are expected.
pub proof fn law_actual_lines_succeed(
    expected: Output,
    actual: Output,
    answer: Result<Vec<SimpleMessage>, ErrorChain>,
    location: (Seq<char>, usize),
)
    requires
        simple_outcome(expected@, answer, location) matches OutcomeView::OutputFailure {
            actual_output,
            ..
        } && actual_output == actual@,
    ensures
        simple_outcome(actual@, answer, location) == OutcomeView::Success,
{
}

/// A statement that failed succeeds on the same error once the message of its outcome is
/// expected, given that the message matches the error that it was made of.
pub proof fn law_actual_error_succeeds(
    expected_error: Option<Seq<char>>,
    expected_rows: Option<u64>,
    error: Seq<Seq<char>>,
    found: Result<bool, Seq<char>>,
    location: (Seq<char>, usize),
)
    requires
        statement_outcome(
            expected_error,
            expected_rows,
            Err(error),
            found,
            location,
        ) matches Ok(outcome) && error_pattern(outcome) matches Some(message) && regex_search(
            message,
            top_message(error),
        ) == Ok::<bool, Seq<char>>(true),
    ensures
        statement_outcome(
            expected_error,
            expected_rows,
            Err(error),
            found,
            location,
        ) matches Ok(outcome) && error_pattern(outcome) matches Some(message) && statement_outcome(
            Some(message),
            expected_rows,
            Err(error),
            expected_search(Some(message), top_message(error)),
            location,
        ) == Ok::<OutcomeView, Seq<char>>(OutcomeView::Success),
{
}

} // verus!
