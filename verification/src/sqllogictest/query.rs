//! Running statements and queries: what is sent to the server, and how its answers are judged.

use vstd::prelude::*;

use crate::sql_parser::kind::Kind;
use crate::sql_parser::outcome::{FailureView, ParserError};
use crate::sql_parser::parse::{statements_of, try_parse_statements};
use crate::sql_parser::syntax::{group_tree_views, views, views_index, Tree, TreeView};
use crate::sql_parser::text::{chars_of, decimal, decimal_text, no_text, text_eq, text_of, texts_view};
use crate::sqllogictest::ast::{
    Location, Mode, Output, OutputView, QueryOutput, Quoted, Sort, Type,
};
use crate::sqllogictest::format::{
    can_format_row, format_row, row_formats, row_texts,
};
use crate::sqllogictest::order::{by_row, by_text, rows_view, sort_rows, sort_texts};
use crate::sqllogictest::outcome::{top_message, ErrorChain, Outcome, OutcomeView};
use crate::sqllogictest::pattern::{is_match, occurs, regex_search};
use crate::sqllogictest::texts::{copy_texts, join, joined, same_texts};
use crate::sqllogictest::value::Cell;

verus! {

/// Whether a record expects an error, and which.
pub open spec fn expected_error_of(output: Result<QueryOutput, Quoted>) -> Option<Seq<char>> {
    match output {
        Ok(_) => None,
        Err(q) => Some(q.text@),
    }
}

/// What comes of matching an expected error, if there is one, against a message.
pub open spec fn expected_search(expected: Option<Seq<char>>, message: Seq<char>) -> Result<bool, Seq<char>> {
    match expected {
        Some(pattern) => regex_search(pattern, message),
        None => Ok(false),
    }
}

/// What a searched result stands for.
pub open spec fn search_view(r: Result<bool, String>) -> Result<bool, Seq<char>> {
    match r {
        Ok(b) => Ok(b),
        Err(e) => Err(e@),
    }
}

/// What a text that may be missing stands for.
pub open spec fn option_view(s: Option<&str>) -> Option<Seq<char>> {
    match s {
        Some(s) => Some(s@),
        None => None,
    }
}

fn search_expected(expected: Option<&str>, message: &str) -> (r: Result<bool, String>)
    ensures
        search_view(r) == expected_search(option_view(expected), message@),
{
    match expected {
        Some(pattern) => is_match(pattern, message),
        None => Ok(false),
    }
}

// Statements.

/// Statements that are not sent to the server and taken to succeed.
pub open spec fn unsupported_index_pattern() -> Seq<char> {
    "^(CREATE UNIQUE INDEX|REINDEX)"@
}

/// Whether a statement is not sent to the server and taken to succeed. The second result is
/// why that could not be told.
pub fn skips_statement(sql: &str) -> (r: Result<bool, String>)
    ensures
        search_view(r) == regex_search(unsupported_index_pattern(), sql@),
{
    is_match("^(CREATE UNIQUE INDEX|REINDEX)", sql)
}

/// What an answer to a statement stands for.
pub open spec fn answer_view(answer: Result<u64, ErrorChain>) -> Result<u64, Seq<Seq<char>>> {
    match answer {
        Ok(n) => Ok(n),
        Err(e) => Err(e@),
    }
}

/// How a statement comes out, given the server's answer and, where that is an error, whether
/// the expected error matches it; or why that is no regular expression.
pub open spec fn statement_outcome(
    expected_error: Option<Seq<char>>,
    expected_rows: Option<u64>,
    answer: Result<u64, Seq<Seq<char>>>,
    found: Result<bool, Seq<char>>,
    location: (Seq<char>, usize),
) -> Result<OutcomeView, Seq<char>> {
    match answer {
        Ok(actual) => match expected_error {
            Some(expected_error) => Ok(
                OutcomeView::UnexpectedPlanSuccess { expected_error, location },
            ),
            None => match expected_rows {
                Some(expected) if expected != actual => Ok(
                    OutcomeView::WrongNumberOfRowsInserted {
                        expected_count: expected,
                        actual_count: actual,
                        location,
                    },
                ),
                _ => Ok(OutcomeView::Success),
            },
        },
        Err(error) => match expected_error {
            Some(_) => match found {
                Ok(true) => Ok(OutcomeView::Success),
                Ok(false) => Ok(OutcomeView::PlanFailure { error, location }),
                Err(e) => Err(e),
            },
            None => Ok(OutcomeView::PlanFailure { error, location }),
        },
    }
}

/// Whether an outcome, or the reason that there is none, is the one described.
pub open spec fn is_outcome(r: Result<Outcome, String>, described: Result<OutcomeView, Seq<char>>) -> bool {
    match r {
        Ok(o) => described == Ok::<OutcomeView, Seq<char>>(o@),
        Err(e) => described == Err::<OutcomeView, Seq<char>>(e@),
    }
}

/// How a statement comes out, given whether the expected error matches.
pub fn judge_statement_with(
    expected_error: Option<&str>,
    expected_rows: Option<u64>,
    answer: Result<u64, ErrorChain>,
    found: Result<bool, String>,
    location: Location,
) -> (r: Result<Outcome, String>)
    ensures
        is_outcome(
            r,
            statement_outcome(
                option_view(expected_error),
                expected_rows,
                answer_view(answer),
                search_view(found),
                location@,
            ),
        ),
{
    match answer {
        Ok(actual) => {
            if let Some(expected_error) = expected_error {
                return Ok(
                    Outcome::UnexpectedPlanSuccess {
                        expected_error: String::from_str(expected_error),
                        location,
                    },
                );
            }
            match expected_rows {
                None => Ok(Outcome::Success),
                Some(expected) => {
                    if expected != actual {
                        Ok(
                            Outcome::WrongNumberOfRowsInserted {
                                expected_count: expected,
                                actual_count: actual,
                                location,
                            },
                        )
                    } else {
                        Ok(Outcome::Success)
                    }
                },
            }
        },
        Err(error) => {
            if expected_error.is_some() {
                match found {
                    Ok(true) => {
                        return Ok(Outcome::Success);
                    },
                    Ok(false) => {},
                    Err(e) => {
                        return Err(e);
                    },
                }
            }
            Ok(Outcome::PlanFailure { error, location })
        },
    }
}

/// The message of an answer, where it is an error.
pub open spec fn answer_message(answer: Result<u64, Seq<Seq<char>>>) -> Seq<char> {
    match answer {
        Ok(_) => no_text(),
        Err(error) => top_message(error),
    }
}

/// How a statement comes out, given the server's answer.
pub fn judge_statement(
    expected_error: Option<&str>,
    expected_rows: Option<u64>,
    answer: Result<u64, ErrorChain>,
    location: Location,
) -> (r: Result<Outcome, String>)
    ensures
        is_outcome(
            r,
            statement_outcome(
                option_view(expected_error),
                expected_rows,
                answer_view(answer),
                expected_search(option_view(expected_error), answer_message(answer_view(answer))),
                location@,
            ),
        ),
{
    let message = match &answer {
        Ok(_) => String::new(),
        Err(error) => error.message(),
    };
    let found = match &answer {
        Ok(_) => Ok(false),
        Err(_) => search_expected(expected_error, message.as_str()),
    };
    judge_statement_with(expected_error, expected_rows, answer, found, location)
}

// Queries: what is sent to the server.

/// Why a query could not be run.
#[derive(Debug)]
pub enum QueryFault {
    /// The expected error is no regular expression.
    BadPattern(String),
    /// There is no statement.
    NoStatements,
    /// There are several statements.
    ManyStatements(Vec<Tree>),
    /// The grammar takes a word of the query but gives it no meaning.
    Unhandled,
}

/// What a [`QueryFault`] stands for.
pub enum FaultView {
    BadPattern(Seq<char>),
    NoStatements,
    ManyStatements(Seq<TreeView>),
    Unhandled,
}

impl View for QueryFault {
    type V = FaultView;

    open spec fn view(&self) -> FaultView {
        match self {
            QueryFault::BadPattern(e) => FaultView::BadPattern(e@),
            QueryFault::NoStatements => FaultView::NoStatements,
            QueryFault::ManyStatements(ts) => FaultView::ManyStatements(views(ts@)),
            QueryFault::Unhandled => FaultView::Unhandled,
        }
    }
}

/// What is to be done about a query.
#[derive(Debug)]
pub enum QueryPlan {
    /// Nothing: it has come out already.
    Done(Outcome),
    /// Send the commands, then the query. Whether a transaction is then open.
    Run(Vec<String>, bool),
}

/// What a [`QueryPlan`] stands for.
pub enum PlanView {
    Done(OutcomeView),
    Run(Seq<Seq<char>>, bool),
}

impl View for QueryPlan {
    type V = PlanView;

    open spec fn view(&self) -> PlanView {
        match self {
            QueryPlan::Done(o) => PlanView::Done(o@),
            QueryPlan::Run(commands, open) => PlanView::Run(texts_view(commands@), *open),
        }
    }
}

/// The commands sent before a query, and whether a transaction is then open: queries that are
/// to succeed run inside one, queries that are to fail and `SHOW` run outside.
pub open spec fn transaction_steps(
    expects_rows: bool,
    is_show: bool,
    auto_transactions: bool,
    in_transaction: bool,
) -> (Seq<Seq<char>>, bool) {
    if !auto_transactions {
        (Seq::empty(), in_transaction)
    } else if expects_rows {
        let begin = if in_transaction {
            Seq::<Seq<char>>::empty()
        } else {
            seq!["BEGIN"@]
        };
        if is_show {
            (begin.push("COMMIT"@), false)
        } else {
            (begin, true)
        }
    } else if in_transaction {
        (seq!["COMMIT"@], false)
    } else {
        (Seq::empty(), false)
    }
}

/// Whether a statement is a `SHOW`.
pub open spec fn is_show(t: TreeView) -> bool {
    t matches TreeView::Node(kind, _) && kind == Kind::ShowStatement
}

/// What is to be done about a query, given what it was parsed into and, where it was not
/// parsed, whether the expected error matches.
pub open spec fn planned(
    parsed: Result<Seq<TreeView>, FailureView>,
    expected_error: Option<Seq<char>>,
    found: Result<bool, Seq<char>>,
    location: (Seq<char>, usize),
    auto_transactions: bool,
    in_transaction: bool,
) -> Result<PlanView, FaultView> {
    match parsed {
        Err(FailureView::Unhandled) => Err(FaultView::Unhandled),
        Err(FailureView::Error { message, .. }) => {
            let failure = Ok(
                PlanView::Done(OutcomeView::ParseFailure { error: seq![message], location }),
            );
            match expected_error {
                None => failure,
                Some(_) => match found {
                    Ok(true) => Ok(PlanView::Done(OutcomeView::Success)),
                    Ok(false) => failure,
                    Err(e) => Err(FaultView::BadPattern(e)),
                },
            }
        },
        Ok(statements) => if statements.len() == 0 {
            Err(FaultView::NoStatements)
        } else if statements.len() > 1 {
            Err(FaultView::ManyStatements(statements))
        } else {
            let steps = transaction_steps(
                expected_error is None,
                is_show(statements[0]),
                auto_transactions,
                in_transaction,
            );
            Ok(PlanView::Run(steps.0, steps.1))
        },
    }
}

/// Whether a plan, or the reason that there is none, is the one described.
pub open spec fn is_plan(r: Result<QueryPlan, QueryFault>, described: Result<PlanView, FaultView>) -> bool {
    match r {
        Ok(p) => described == Ok::<PlanView, FaultView>(p@),
        Err(e) => described == Err::<PlanView, FaultView>(e@),
    }
}

fn shows(t: &Tree) -> (r: bool)
    ensures
        r == is_show(t@),
{
    broadcast use group_tree_views;

    match t {
        Tree::Node(kind, ts) => {
            assert(t@ == Tree::Node(*kind, *ts)@);
            *kind == Kind::ShowStatement
        },
        _ => {
            proof {
                reveal(<Tree as View>::view);
            }
            false
        },
    }
}

/// The commands sent before a query, and whether a transaction is then open.
pub fn transaction_commands(
    expects_rows: bool,
    is_show: bool,
    auto_transactions: bool,
    in_transaction: bool,
) -> (r: (Vec<String>, bool))
    ensures
        (texts_view(r.0@), r.1) == transaction_steps(
            expects_rows,
            is_show,
            auto_transactions,
            in_transaction,
        ),
{
    let mut commands: Vec<String> = Vec::new();
    let mut open = in_transaction;
    if auto_transactions {
        if expects_rows {
            if !open {
                commands.push(String::from_str("BEGIN"));
                open = true;
            }
        } else if open {
            commands.push(String::from_str("COMMIT"));
            open = false;
        }
        // `SHOW` commands reference catalog schema, thus are not in the same timedomain and
        // not allowed in the same transaction.
        if is_show && open {
            commands.push(String::from_str("COMMIT"));
            open = false;
        }
    }
    assert(texts_view(commands@) =~= transaction_steps(
        expects_rows,
        is_show,
        auto_transactions,
        in_transaction,
    ).0);
    (commands, open)
}

/// What a parsed text stands for.
pub open spec fn parsed_view(parsed: Option<Result<Vec<Tree>, ParserError>>) -> Result<Seq<TreeView>, FailureView> {
    match parsed {
        None => Err(FailureView::Unhandled),
        Some(Ok(ts)) => Ok(views(ts@)),
        Some(Err(e)) => Err(FailureView::Error { pos: e.pos as int, message: e.message@ }),
    }
}

/// What is to be done about a query, given whether the expected error matches.
pub fn plan_query_with(
    parsed: Option<Result<Vec<Tree>, ParserError>>,
    expected_error: Option<&str>,
    found: Result<bool, String>,
    location: Location,
    auto_transactions: bool,
    in_transaction: bool,
) -> (r: Result<QueryPlan, QueryFault>)
    ensures
        is_plan(
            r,
            planned(
                parsed_view(parsed),
                option_view(expected_error),
                search_view(found),
                location@,
                auto_transactions,
                in_transaction,
            ),
        ),
{
    let statements = match parsed {
        None => {
            return Err(QueryFault::Unhandled);
        },
        Some(Err(e)) => {
            if expected_error.is_some() {
                match found {
                    Ok(true) => {
                        return Ok(QueryPlan::Done(Outcome::Success));
                    },
                    Ok(false) => {},
                    Err(e) => {
                        return Err(QueryFault::BadPattern(e));
                    },
                }
            }
            return Ok(
                QueryPlan::Done(
                    Outcome::ParseFailure { error: ErrorChain::of(e.to_text()), location },
                ),
            );
        },
        Some(Ok(statements)) => statements,
    };
    if statements.len() == 0 {
        return Err(QueryFault::NoStatements);
    }
    if statements.len() > 1 {
        return Err(QueryFault::ManyStatements(statements));
    }
    let show = shows(&statements[0]);
    proof {
        views_index(statements@, 0);
    }
    let (commands, open) = transaction_commands(
        expected_error.is_none(),
        show,
        auto_transactions,
        in_transaction,
    );
    Ok(QueryPlan::Run(commands, open))
}

/// The message of a text that could not be parsed.
pub open spec fn parse_message(parsed: Result<Seq<TreeView>, FailureView>) -> Seq<char> {
    match parsed {
        Err(FailureView::Error { message, .. }) => message,
        _ => no_text(),
    }
}

/// What comes of matching an expected error, if there is one, against a text that could not be
/// parsed.
pub open spec fn parse_search(parsed: Result<Seq<TreeView>, FailureView>, expected_error: Option<Seq<char>>) -> Result<
    bool,
    Seq<char>,
> {
    if parsed is Err {
        expected_search(expected_error, parse_message(parsed))
    } else {
        Ok(false)
    }
}

/// What is to be done about a query.
pub fn plan_query(
    sql: &str,
    expected_error: Option<&str>,
    location: Location,
    auto_transactions: bool,
    in_transaction: bool,
) -> (r: Result<QueryPlan, QueryFault>)
    requires
        sql@.len() < usize::MAX,
    ensures
        is_plan(
            r,
            planned(
                statements_of(sql@),
                option_view(expected_error),
                parse_search(statements_of(sql@), option_view(expected_error)),
                location@,
                auto_transactions,
                in_transaction,
            ),
        ),
{
    let parsed = try_parse_statements(sql);
    assert(parsed_view(parsed) == statements_of(sql@));
    let found = match &parsed {
        Some(Err(e)) => search_expected(expected_error, e.to_text().as_str()),
        None => search_expected(expected_error, ""),
        Some(Ok(_)) => Ok(false),
    };
    plan_query_with(parsed, expected_error, found, location, auto_transactions, in_transaction)
}

// Queries: how the answer is judged.

/// A row of an answer.
#[derive(Debug)]
pub struct ResultRow {
    pub column_names: Vec<String>,
    pub cells: Vec<Option<Cell>>,
}

/// An answer to a query: its rows, and how the client shows them.
#[derive(Debug)]
pub struct ResultRows {
    pub rows: Vec<ResultRow>,
    pub shown: String,
}

/// Whether the names of the columns are the expected ones, as far as that can be told.
pub open spec fn names_agree(expected: Option<Vec<String>>, rows: Seq<ResultRow>) -> bool {
    match expected {
        Some(names) => rows.len() == 0 || texts_view(names@) == texts_view(rows[0].column_names@),
        None => true,
    }
}

/// The first row from `i` on with another number of columns than expected, or the number of
/// rows.
pub open spec fn first_misfit(rows: Seq<ResultRow>, i: int, n: int) -> int
    decreases rows.len() - i,
{
    if 0 <= i < rows.len() && rows[i].cells.len() == n {
        first_misfit(rows, i + 1, n)
    } else {
        i
    }
}

/// The texts of the first `n` rows.
pub open spec fn formatted_rows(rows: Seq<ResultRow>, n: int, types: Seq<Type>, mode: Mode, sort: Sort) -> Seq<
    Seq<Seq<char>>,
> {
    Seq::new(n as nat, |k: int| row_texts(rows[k].cells@, types, mode, sort))
}

/// The texts of rows one after the other.
pub open spec fn flattened(rows: Seq<Seq<Seq<char>>>) -> Seq<Seq<char>>
    decreases rows.len(),
{
    if rows.len() == 0 {
        Seq::empty()
    } else {
        flattened(rows.drop_last()) + rows.last()
    }
}

/// The values of an answer, in the order in which they are compared.
pub open spec fn answer_values(rows: Seq<ResultRow>, types: Seq<Type>, mode: Mode, sort: Sort) -> Seq<Seq<char>> {
    let formatted = formatted_rows(rows, rows.len() as int, types, mode, sort);
    match sort {
        Sort::No => flattened(formatted),
        Sort::Row => flattened(formatted.sort_by(by_row())),
        Sort::Value => flattened(formatted).sort_by(by_text()),
    }
}

/// The text whose hash stands for values: each with a line break.
pub open spec fn hashed_text(values: Seq<Seq<char>>) -> Seq<char>
    decreases values.len(),
{
    if values.len() == 0 {
        no_text()
    } else {
        hashed_text(values.drop_last()) + values.last() + "\n"@
    }
}

/// The hexadecimal MD5 hash of a text's UTF-8 encoding.
pub uninterp spec fn md5_hex(text: Seq<char>) -> Seq<char>;

/// `md5::Md5` over the bytes of a text, in lowercase hexadecimal.
#[verifier::external_body]
fn md5_of(text: &str) -> (r: String)
    ensures
        r@ == md5_hex(text@),
{
    format!("{:x}", <md5::Md5 as md5::Digest>::digest(text.as_bytes()))
}

/// How values compare with the expected output, given their hash.
pub open spec fn values_outcome(
    expected: OutputView,
    values: Seq<Seq<char>>,
    md5: Seq<char>,
    shown: Seq<char>,
    location: (Seq<char>, usize),
) -> OutcomeView {
    let actual = match expected {
        OutputView::Values(_) => OutputView::Values(values),
        OutputView::Hashed { .. } => OutputView::Hashed { num_values: values.len() as usize, md5 },
    };
    if actual == expected {
        OutcomeView::Success
    } else {
        OutcomeView::OutputFailure {
            expected_output: expected,
            actual_raw_output: shown,
            actual_output: actual,
            location,
        }
    }
}

/// How values compare with the expected output, given their hash.
pub fn judge_values(
    expected: &Output,
    values: Vec<String>,
    md5: String,
    shown: String,
    location: Location,
) -> (r: Outcome)
    ensures
        r@ == values_outcome(expected@, texts_view(values@), md5@, shown@, location@),
{
    let actual = match expected {
        Output::Values(_) => Output::Values(values),
        Output::Hashed { .. } => Output::Hashed { num_values: values.len(), md5 },
    };
    if actual.same(expected) {
        Outcome::Success
    } else {
        Outcome::OutputFailure {
            expected_output: expected.copy(),
            actual_raw_output: shown,
            actual_output: actual,
            location,
        }
    }
}

/// Whether an error message says that something is not supported.
pub open spec fn says_unsupported(message: Seq<char>) -> bool {
    occurs(message, "supported"@) || occurs(message, "overload"@)
}

/// Whether each value that is looked at can be written as a value of its column's type.
pub open spec fn answer_formats(output: Result<QueryOutput, Quoted>, answer: Result<ResultRows, ErrorChain>) -> bool {
    match (output, answer) {
        (Ok(o), Ok(rows)) => names_agree(o.column_names, rows.rows@) ==> forall|k: int|
            0 <= k < first_misfit(rows.rows@, 0, o.types.len() as int) ==> row_formats(
                (#[trigger] rows.rows@[k]).cells@,
                o.types@,
                o.mode,
            ),
        _ => true,
    }
}

/// How a query comes out that returned rows, where rows are expected.
pub open spec fn rows_outcome(
    o: QueryOutput,
    rows: Seq<ResultRow>,
    md5: Seq<char>,
    shown: Seq<char>,
    location: (Seq<char>, usize),
) -> OutcomeView {
    let bad = first_misfit(rows, 0, o.types.len() as int);
    if !names_agree(o.column_names, rows) {
        OutcomeView::WrongColumnNames {
            expected_column_names: texts_view(o.column_names->0@),
            actual_column_names: texts_view(rows[0].column_names@),
            location,
        }
    } else if bad < rows.len() {
        OutcomeView::WrongColumnCount {
            expected_count: o.types.len(),
            actual_count: rows[bad].cells.len(),
            location,
        }
    } else {
        values_outcome(o.output@, answer_values(rows, o.types@, o.mode, o.sort), md5, shown, location)
    }
}

/// How a query comes out, given the server's answer and, where that is an error, whether the
/// expected error matches it; or why that is no regular expression.
pub open spec fn query_outcome(
    output: Result<QueryOutput, Quoted>,
    answer: Result<ResultRows, ErrorChain>,
    found: Result<bool, Seq<char>>,
    md5: Seq<char>,
    location: (Seq<char>, usize),
) -> Result<OutcomeView, Seq<char>> {
    match answer {
        Err(error) => match output {
            Ok(_) => if says_unsupported(top_message(error@)) {
                Ok(OutcomeView::Unsupported { error: error@, location })
            } else {
                Ok(OutcomeView::PlanFailure { error: error@, location })
            },
            Err(_) => match found {
                Ok(true) => Ok(OutcomeView::Success),
                Ok(false) => Ok(OutcomeView::PlanFailure { error: error@, location }),
                Err(e) => Err(e),
            },
        },
        Ok(rows) => match output {
            Err(q) => Ok(
                OutcomeView::UnexpectedPlanSuccess { expected_error: q.text@, location },
            ),
            Ok(o) => Ok(rows_outcome(o, rows.rows@, md5, rows.shown@, location)),
        },
    }
}

/// Whether `part` occurs in `text`.
fn contains(text: &str, part: &str) -> (r: bool)
    ensures
        r == occurs(text@, part@),
{
    let cs = chars_of(text);
    let ps = chars_of(part);
    if ps.len() > cs.len() {
        return false;
    }
    let mut i: usize = 0;
    while i <= cs.len() - ps.len()
        invariant
            cs@ == text@,
            ps@ == part@,
            ps.len() <= cs.len(),
            i <= cs.len() - ps.len() + 1,
            forall|j: int| 0 <= j < i ==> #[trigger] text@.subrange(j, j + part@.len()) != part@,
        decreases cs.len() - i,
    {
        let here = text_of(&cs, i, i + ps.len());
        if text_eq(here.as_str(), part) {
            assert(text@.subrange(i as int, i + part@.len()) == part@);
            return true;
        }
        if i == cs.len() {
            assert forall|j: int| 0 <= j <= text@.len() - part@.len() implies #[trigger] text@.subrange(
                j,
                j + part@.len(),
            ) != part@ by {}
            return false;
        }
        i += 1;
    }
    false
}

/// The first row with another number of columns than expected, or the number of rows.
fn find_misfit(rows: &Vec<ResultRow>, n: usize) -> (r: usize)
    ensures
        r == first_misfit(rows@, 0, n as int),
        r <= rows.len(),
        forall|k: int| 0 <= k < r ==> (#[trigger] rows@[k]).cells.len() == n,
{
    let mut k: usize = 0;
    while k < rows.len() && rows[k].cells.len() == n
        invariant
            k <= rows.len(),
            first_misfit(rows@, k as int, n as int) == first_misfit(rows@, 0, n as int),
            forall|j: int| 0 <= j < k ==> (#[trigger] rows@[j]).cells.len() == n,
        decreases rows.len() - k,
    {
        k += 1;
    }
    k
}

fn agree(expected: &Option<Vec<String>>, rows: &Vec<ResultRow>) -> (r: bool)
    ensures
        r == names_agree(*expected, rows@),
{
    match expected {
        Some(names) => rows.len() == 0 || same_texts(names, &rows[0].column_names),
        None => true,
    }
}

/// Whether each value that is looked at can be written as a value of its column's type.
pub fn can_judge_query(output: &Result<QueryOutput, Quoted>, answer: &Result<ResultRows, ErrorChain>) -> (r: bool)
    ensures
        r == answer_formats(*output, *answer),
{
    match (output, answer) {
        (Ok(o), Ok(rows)) => {
            if !agree(&o.column_names, &rows.rows) {
                return true;
            }
            let n = find_misfit(&rows.rows, o.types.len());
            let mut k: usize = 0;
            #[verifier::loop_isolation(false)]
            while k < n
                invariant
                    k <= n <= rows.rows.len(),
                    forall|j: int|
                        0 <= j < n ==> (#[trigger] rows.rows@[j]).cells.len() == o.types.len(),
                    forall|j: int|
                        0 <= j < k ==> row_formats(
                            (#[trigger] rows.rows@[j]).cells@,
                            o.types@,
                            o.mode,
                        ),
                decreases n - k,
            {
                if !can_format_row(&rows.rows[k].cells, &o.types, o.mode) {
                    assert(!row_formats(rows.rows@[k as int].cells@, o.types@, o.mode));
                    return false;
                }
                k += 1;
            }
            true
        },
        _ => true,
    }
}

/// The values of an answer, in the order in which they are compared.
fn values_of(rows: &Vec<ResultRow>, types: &Vec<Type>, mode: Mode, sort: Sort) -> (r: Vec<String>)
    requires
        forall|k: int|
            0 <= k < rows.len() ==> (#[trigger] rows@[k]).cells.len() == types.len() && row_formats(
                rows@[k].cells@,
                types@,
                mode,
            ),
    ensures
        texts_view(r@) == answer_values(rows@, types@, mode, sort),
{
    let mut formatted: Vec<Vec<String>> = Vec::new();
    let mut k: usize = 0;
    while k < rows.len()
        invariant
            k <= rows.len(),
            formatted.len() == k,
            forall|k: int|
                0 <= k < rows.len() ==> (#[trigger] rows@[k]).cells.len() == types.len() && row_formats(
                    rows@[k].cells@,
                    types@,
                    mode,
                ),
            forall|j: int|
                0 <= j < k ==> texts_view((#[trigger] formatted@[j])@) == row_texts(
                    rows@[j].cells@,
                    types@,
                    mode,
                    sort,
                ),
        decreases rows.len() - k,
    {
        let row = format_row(&rows[k].cells, types, mode, sort);
        formatted.push(row);
        k += 1;
    }
    assert(rows_view(formatted@) =~= formatted_rows(rows@, rows@.len() as int, types@, mode, sort));
    if matches!(sort, Sort::Row) {
        sort_rows(&mut formatted);
    }
    let ghost all = rows_view(formatted@);
    let mut values: Vec<String> = Vec::new();
    let mut k: usize = 0;
    assert(texts_view(values@) =~= Seq::empty());
    while k < formatted.len()
        invariant
            k <= formatted.len(),
            all == rows_view(formatted@),
            texts_view(values@) == flattened(all.take(k as int)),
        decreases formatted.len() - k,
    {
        assert(all.take(k + 1).drop_last() =~= all.take(k as int));
        let ghost before = texts_view(values@);
        let mut row = copy_texts(&formatted[k]);
        let ghost more = texts_view(row@);
        values.append(&mut row);
        assert(texts_view(values@) =~= before + more);
        k += 1;
    }
    assert(all.take(k as int) =~= all);
    if matches!(sort, Sort::Value) {
        sort_texts(&mut values);
    }
    values
}

fn hashed(values: &Vec<String>) -> (r: String)
    ensures
        r@ == hashed_text(texts_view(values@)),
{
    let mut out = String::new();
    let mut k: usize = 0;
    let ghost all = texts_view(values@);
    while k < values.len()
        invariant
            k <= values.len(),
            all == texts_view(values@),
            out@ == hashed_text(all.take(k as int)),
        decreases values.len() - k,
    {
        assert(all.take(k + 1).drop_last() =~= all.take(k as int));
        out = out.concat(values[k].as_str()).concat("\n");
        k += 1;
    }
    assert(all.take(k as int) =~= all);
    out
}

/// How a query comes out that returned rows, where rows are expected.
fn judge_rows(o: &QueryOutput, rows: &Vec<ResultRow>, shown: String, location: Location) -> (r: Outcome)
    requires
        names_agree(o.column_names, rows@) ==> forall|k: int|
            0 <= k < first_misfit(rows@, 0, o.types.len() as int) ==> row_formats(
                (#[trigger] rows@[k]).cells@,
                o.types@,
                o.mode,
            ),
    ensures
        r@ == rows_outcome(
            *o,
            rows@,
            md5_hex(hashed_text(answer_values(rows@, o.types@, o.mode, o.sort))),
            shown@,
            location@,
        ),
{
    // Various checks as long as there are returned rows.
    if !agree(&o.column_names, rows) {
        match &o.column_names {
            Some(expected) => {
                return Outcome::WrongColumnNames {
                    expected_column_names: copy_texts(expected),
                    actual_column_names: copy_texts(&rows[0].column_names),
                    location,
                };
            },
            None => {},
        }
    }
    let bad = find_misfit(rows, o.types.len());
    if bad < rows.len() {
        return Outcome::WrongColumnCount {
            expected_count: o.types.len(),
            actual_count: rows[bad].cells.len(),
            location,
        };
    }
    let values = values_of(rows, &o.types, o.mode, o.sort);
    let md5 = md5_of(hashed(&values).as_str());
    judge_values(&o.output, values, md5, shown, location)
}

/// The message of an answer, where it is an error.
pub open spec fn rows_message(answer: Result<ResultRows, ErrorChain>) -> Seq<char> {
    match answer {
        Ok(_) => no_text(),
        Err(error) => top_message(error@),
    }
}

/// What comes of matching an expected error, if there is one, against an answer.
pub open spec fn answer_search(output: Result<QueryOutput, Quoted>, answer: Result<ResultRows, ErrorChain>) -> Result<
    bool,
    Seq<char>,
> {
    if answer is Err {
        expected_search(expected_error_of(output), rows_message(answer))
    } else {
        Ok(false)
    }
}

/// The hash of an answer's values.
pub open spec fn answer_md5(output: Result<QueryOutput, Quoted>, answer: Result<ResultRows, ErrorChain>) -> Seq<char> {
    match (output, answer) {
        (Ok(o), Ok(rows)) => md5_hex(
            hashed_text(answer_values(rows.rows@, o.types@, o.mode, o.sort)),
        ),
        _ => no_text(),
    }
}

/// How a query comes out, given the server's answer and whether the expected error matches.
pub fn judge_query_with(
    output: &Result<QueryOutput, Quoted>,
    answer: Result<ResultRows, ErrorChain>,
    found: Result<bool, String>,
    location: Location,
) -> (r: Result<Outcome, String>)
    requires
        answer_formats(*output, answer),
    ensures
        is_outcome(
            r,
            query_outcome(*output, answer, search_view(found), answer_md5(*output, answer), location@),
        ),
{
    match answer {
        Err(error) => match output {
            Ok(_) => {
                let message = error.message();
                if contains(message.as_str(), "supported") || contains(message.as_str(), "overload") {
                    // this is a failure, but it's caused by lack of support rather than by bugs
                    Ok(Outcome::Unsupported { error, location })
                } else {
                    Ok(Outcome::PlanFailure { error, location })
                }
            },
            Err(_) => match found {
                Ok(true) => Ok(Outcome::Success),
                Ok(false) => Ok(Outcome::PlanFailure { error, location }),
                Err(e) => Err(e),
            },
        },
        Ok(rows) => match output {
            Err(q) => Ok(
                Outcome::UnexpectedPlanSuccess { expected_error: q.text.clone(), location },
            ),
            Ok(o) => Ok(judge_rows(o, &rows.rows, rows.shown, location)),
        },
    }
}

/// How a query comes out, given the server's answer.
pub fn judge_query(
    output: &Result<QueryOutput, Quoted>,
    answer: Result<ResultRows, ErrorChain>,
    location: Location,
) -> (r: Result<Outcome, String>)
    requires
        answer_formats(*output, answer),
    ensures
        is_outcome(
            r,
            query_outcome(
                *output,
                answer,
                answer_search(*output, answer),
                answer_md5(*output, answer),
                location@,
            ),
        ),
{
    let expected: Option<&str> = match output {
        Ok(_) => None,
        Err(q) => Some(q.text.as_str()),
    };
    let found = match &answer {
        Ok(_) => Ok(false),
        Err(error) => search_expected(expected, error.message().as_str()),
    };
    judge_query_with(output, answer, found, location)
}

// Simple queries.

/// A message of the answer to a simple query.
#[derive(Debug)]
pub enum SimpleMessage {
    Row(Vec<Option<String>>),
    CommandComplete(u64),
}

/// The texts of a row's values.
pub open spec fn simple_cells(row: Seq<Option<String>>) -> Seq<Seq<char>> {
    Seq::new(
        row.len(),
        |k: int|
            match row[k] {
                Some(s) => s@,
                None => "NULL"@,
            },
    )
}

/// The line for a message.
pub open spec fn simple_line(m: SimpleMessage) -> Seq<char> {
    match m {
        SimpleMessage::Row(row) => joined(simple_cells(row@), ","@),
        SimpleMessage::CommandComplete(n) => no_text() + "COMPLETE "@ + decimal(n as nat),
    }
}

/// Where the line that starts at `i` ends.
pub open spec fn line_end(s: Seq<char>, i: int) -> int
    decreases s.len() - i,
{
    if 0 <= i < s.len() && s[i] != '\n' {
        line_end(s, i + 1)
    } else {
        i
    }
}

/// A line without the carriage return at its end, if the line is ended by a line break.
pub open spec fn without_return(s: Seq<char>, start: int, end: int) -> Seq<char> {
    if end < s.len() && start < end && s[end - 1] == '\r' {
        s.subrange(start, end - 1)
    } else {
        s.subrange(start, end)
    }
}

/// The lines of `s` from `i` on.
pub open spec fn lines_from(s: Seq<char>, i: int) -> Seq<Seq<char>>
    decreases s.len() + 1 - i,
    when 0 <= i
    via lines_decrease
{
    if i >= s.len() {
        Seq::empty()
    } else {
        seq![without_return(s, i, line_end(s, i))] + lines_from(s, line_end(s, i) + 1)
    }
}

#[via_fn]
proof fn lines_decrease(s: Seq<char>, i: int) {
    lemma_line_end(s, i);
}

proof fn lemma_line_end(s: Seq<char>, i: int)
    requires
        0 <= i,
    ensures
        i <= line_end(s, i),
        i <= s.len() ==> line_end(s, i) <= s.len(),
    decreases s.len() - i,
{
    if i < s.len() {
        lemma_line_end(s, i + 1);
    }
}

fn lines(s: &str) -> (r: Vec<String>)
    ensures
        texts_view(r@) == lines_from(s@, 0),
{
    let cs = chars_of(s);
    let mut out: Vec<String> = Vec::new();
    let mut i: usize = 0;
    let ghost mut at: int = 0;
    assert(texts_view(out@) + lines_from(s@, 0) =~= lines_from(s@, 0));
    while i < cs.len()
        invariant
            cs@ == s@,
            0 <= at,
            i == at || (i == cs.len() && at == cs.len() + 1),
            i <= cs.len(),
            texts_view(out@) + lines_from(s@, at) == lines_from(s@, 0),
        decreases cs.len() - i,
    {
        let mut end: usize = i;
        while end < cs.len() && cs[end] != '\n'
            invariant
                cs@ == s@,
                i <= end <= cs.len(),
                line_end(s@, end as int) == line_end(s@, i as int),
            decreases cs.len() - end,
        {
            end += 1;
        }
        let line = if end < cs.len() && i < end && cs[end - 1] == '\r' {
            text_of(&cs, i, end - 1)
        } else {
            text_of(&cs, i, end)
        };
        let ghost before = texts_view(out@);
        out.push(line);
        proof {
            assert(texts_view(out@) =~= before.push(line@));
            assert(before + (seq![line@] + lines_from(s@, end + 1)) =~= texts_view(out@) + lines_from(
                s@,
                end + 1,
            ));
            at = end + 1;
        }
        if end < cs.len() {
            i = end + 1;
        } else {
            i = end;
        }
    }
    assert(lines_from(s@, at) =~= Seq::empty());
    assert(texts_view(out@) + Seq::<Seq<char>>::empty() =~= texts_view(out@));
    out
}

/// The lines of the answer to a simple query. Errors can contain multiple lines (say if there
/// are details), and each is a line of the output.
pub open spec fn simple_lines(answer: Result<Vec<SimpleMessage>, ErrorChain>) -> Seq<Seq<char>> {
    match answer {
        Ok(messages) => Seq::new(messages@.len(), |k: int| simple_line(messages@[k])),
        Err(error) => lines_from(top_message(error@), 0),
    }
}

/// How a simple query comes out.
pub open spec fn simple_outcome(
    output: OutputView,
    answer: Result<Vec<SimpleMessage>, ErrorChain>,
    location: (Seq<char>, usize),
) -> OutcomeView {
    let actual = OutputView::Values(simple_lines(answer));
    if output == actual {
        OutcomeView::Success
    } else {
        OutcomeView::OutputFailure {
            expected_output: output,
            actual_raw_output: "[]"@,
            actual_output: actual,
            location,
        }
    }
}

fn simple_text(m: &SimpleMessage) -> (r: String)
    ensures
        r@ == simple_line(*m),
{
    match m {
        SimpleMessage::Row(row) => {
            let mut cells: Vec<String> = Vec::new();
            let mut k: usize = 0;
            while k < row.len()
                invariant
                    k <= row.len(),
                    cells.len() == k,
                    forall|j: int| 0 <= j < k ==> (#[trigger] cells@[j])@ == simple_cells(row@)[j],
                decreases row.len() - k,
            {
                let cell = match &row[k] {
                    Some(s) => s.clone(),
                    None => String::from_str("NULL"),
                };
                cells.push(cell);
                k += 1;
            }
            assert(texts_view(cells@) =~= simple_cells(row@));
            join(&cells, ",")
        },
        SimpleMessage::CommandComplete(n) => String::new().concat("COMPLETE ").concat(
            decimal_text(*n).as_str(),
        ),
    }
}

/// How a simple query comes out, given the server's answer.
pub fn judge_simple(
    output: &Output,
    answer: &Result<Vec<SimpleMessage>, ErrorChain>,
    location: Location,
) -> (r: Outcome)
    ensures
        r@ == simple_outcome(output@, *answer, location@),
{
    let values = match answer {
        Ok(messages) => {
            let mut values: Vec<String> = Vec::new();
            let mut k: usize = 0;
            while k < messages.len()
                invariant
                    k <= messages.len(),
                    values.len() == k,
                    forall|j: int| 0 <= j < k ==> (#[trigger] values@[j])@ == simple_line(messages@[j]),
                decreases messages.len() - k,
            {
                values.push(simple_text(&messages[k]));
                k += 1;
            }
            assert(texts_view(values@) =~= simple_lines(*answer));
            values
        },
        Err(error) => lines(error.message().as_str()),
    };
    let actual = Output::Values(values);
    if output.same(&actual) {
        Outcome::Success
    } else {
        Outcome::OutputFailure {
            expected_output: output.copy(),
            actual_raw_output: String::from_str("[]"),
            actual_output: actual,
            location,
        }
    }
}

} // verus!
