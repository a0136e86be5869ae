//! Running the records of a test file.

use vstd::prelude::*;

use crate::sql_parser::text::{no_text, text_eq, texts_view};
use crate::sqllogictest::ast::{Location, Record};
use crate::sqllogictest::outcome::{
    outcome_code, outcome_text, Outcome, OutcomeView, Outcomes, NUM_OUTCOMES,
};
use crate::sqllogictest::texts::{indent, indented};

verus! {

/// Where lines are written to.
pub trait WriteFmt {
    fn write_line(&self, line: &str);
}

/// How test files are run.
pub struct RunConfig<'a> {
    pub stdout: &'a dyn WriteFmt,
    pub stderr: &'a dyn WriteFmt,
    pub verbosity: usize,
    pub postgres_url: String,
    pub no_fail: bool,
    pub fail_fast: bool,
    pub auto_index_tables: bool,
    pub auto_transactions: bool,
    pub enable_table_keys: bool,
}

/// The line that shows a record, if it has one.
pub open spec fn record_line(record: Record) -> Option<Seq<char>> {
    match record {
        Record::Statement { sql, .. } => Some(indented(sql.text@, 4)),
        Record::Query { sql, .. } => Some(indented(sql.text@, 4)),
        _ => None,
    }
}

/// The line that shows a record, if it has one.
pub fn print_record(record: &Record) -> (r: Option<String>)
    ensures
        match r {
            Some(s) => record_line(*record) == Some(s@),
            None => record_line(*record) is None,
        },
{
    match record {
        Record::Statement { sql, .. } => Some(indent(sql.text.as_str(), 4)),
        Record::Query { sql, .. } => Some(indent(sql.text.as_str(), 4)),
        _ => None,
    }
}

/// The lines written before a record is run. In maximal-verbosity mode, the query is printed
/// before it is run, so that it can be told which one it was if running it panics.
pub open spec fn lines_before(verbosity: int, record: Record) -> Seq<Seq<char>> {
    match record_line(record) {
        Some(line) if verbosity >= 2 => seq![line],
        _ => Seq::empty(),
    }
}

/// The lines written once a record has come out.
pub open spec fn lines_after(verbosity: int, record: Record, outcome: OutcomeView) -> Seq<Seq<char>> {
    if verbosity >= 1 && !(outcome is Success) {
        let first = match record_line(record) {
            Some(line) if verbosity < 2 => seq![line],
            _ => Seq::empty(),
        };
        first.push(indented(outcome_text(outcome), 4)).push(indented("----"@, 4))
    } else {
        Seq::empty()
    }
}

/// The lines written before a record is run.
pub fn show_before(verbosity: usize, record: &Record) -> (r: Vec<String>)
    ensures
        texts_view(r@) == lines_before(verbosity as int, *record),
{
    let mut out: Vec<String> = Vec::new();
    if verbosity >= 2 {
        if let Some(line) = print_record(record) {
            out.push(line);
        }
    }
    assert(texts_view(out@) =~= lines_before(verbosity as int, *record));
    out
}

/// The lines written once a record has come out.
pub fn show_after(verbosity: usize, record: &Record, outcome: &Outcome) -> (r: Vec<String>)
    ensures
        texts_view(r@) == lines_after(verbosity as int, *record, outcome@),
{
    let mut out: Vec<String> = Vec::new();
    // Print failures in verbose mode.
    if verbosity >= 1 && !outcome.success() {
        if verbosity < 2 {
            // If `verbosity >= 2`, we'll already have printed the record,
            // so don't print it again.
            if let Some(line) = print_record(record) {
                out.push(line);
            }
        }
        out.push(indent(outcome.to_text().as_str(), 4));
        out.push(indent("----", 4));
    }
    assert(texts_view(out@) =~= lines_after(verbosity as int, *record, outcome@));
    out
}

/// Whether the rest of a file is left out after an outcome.
pub open spec fn stops(outcome: OutcomeView, fail_fast: bool) -> bool {
    outcome is Bail || (fail_fast && !(outcome is Success))
}

/// Counts an outcome. The result is whether the rest of the file is left out.
pub fn tally(outcomes: &mut Outcomes, outcome: &Outcome, fail_fast: bool) -> (r: bool)
    requires
        old(outcomes)@[outcome_code(outcome@)] < usize::MAX,
    ensures
        final(outcomes)@ == old(outcomes)@.update(
            outcome_code(outcome@),
            (old(outcomes)@[outcome_code(outcome@)] + 1) as usize,
        ),
        r == stops(outcome@, fail_fast),
{
    outcomes.count(outcome.code());
    if let Outcome::Bail { .. } = outcome {
        return true;
    }
    fail_fast && !outcome.success()
}

/// How many outcomes are counted: up to the first after which the rest is left out, or all.
pub open spec fn counted_until(outcomes: Seq<OutcomeView>, fail_fast: bool) -> int
    decreases outcomes.len(),
{
    if outcomes.len() == 0 {
        0
    } else if stops(outcomes[0], fail_fast) {
        1
    } else {
        1 + counted_until(outcomes.drop_first(), fail_fast)
    }
}

/// How many of the first `n` outcomes have a code.
pub open spec fn with_code(outcomes: Seq<OutcomeView>, n: int, code: int) -> int
    decreases n,
{
    if n <= 0 || n > outcomes.len() {
        0
    } else {
        with_code(outcomes, n - 1, code) + if outcome_code(outcomes[n - 1]) == code {
            1int
        } else {
            0
        }
    }
}

/// The outcomes themselves.
pub open spec fn outcomes_view(outcomes: Seq<Outcome>) -> Seq<OutcomeView> {
    Seq::new(outcomes.len(), |k: int| outcomes[k]@)
}

/// Counts outcomes in order, up to the first after which the rest of a file is left out.
pub fn tally_all(outcomes: &Vec<Outcome>, fail_fast: bool) -> (r: Outcomes)
    ensures
        forall|code: int|
            0 <= code < NUM_OUTCOMES ==> #[trigger] r@[code] == with_code(
                outcomes_view(outcomes@),
                counted_until(outcomes_view(outcomes@), fail_fast),
                code,
            ),
{
    let ghost all = outcomes_view(outcomes@);
    let mut r = Outcomes::none();
    let mut k: usize = 0;
    assert(all.skip(0) =~= all);
    while k < outcomes.len()
        invariant
            k <= outcomes.len(),
            all == outcomes_view(outcomes@),
            counted_until(all, fail_fast) == k + counted_until(all.skip(k as int), fail_fast),
            r@.len() == NUM_OUTCOMES,
            forall|code: int|
                0 <= code < NUM_OUTCOMES ==> #[trigger] r@[code] == with_code(all, k as int, code),
        decreases outcomes.len() - k,
    {
        proof {
            lemma_with_code(all, k as int, outcome_code(all[k as int]));
            assert(all.skip(k as int)[0] == all[k as int]);
            assert(all.skip(k as int).drop_first() =~= all.skip(k + 1));
        }
        let stop = tally(&mut r, &outcomes[k], fail_fast);
        k += 1;
        if stop {
            return r;
        }
    }
    assert(all.skip(k as int) =~= Seq::empty());
    r
}

proof fn lemma_with_code(outcomes: Seq<OutcomeView>, n: int, code: int)
    requires
        0 <= n <= outcomes.len(),
    ensures
        0 <= with_code(outcomes, n, code) <= n,
    decreases n,
{
    if n > 0 {
        lemma_with_code(outcomes, n - 1, code);
    }
}

/// What is done with the outcome of a statement.
pub open spec fn settled(outcome: OutcomeView, expects_error: bool, location: (Seq<char>, usize)) -> OutcomeView {
    if outcome is Success || expects_error {
        outcome
    } else {
        OutcomeView::Bail { cause: Box::new(outcome), location }
    }
}

/// What is done with the outcome of a statement. If a statement that was supposed to succeed
/// failed, running the rest of the tests in the file will probably cause false positives, so
/// the file is given up entirely.
pub fn settle_statement(outcome: Outcome, expects_error: bool, location: &Location) -> (r: Outcome)
    ensures
        r@ == settled(outcome@, expects_error, location@),
{
    if outcome.success() || expects_error {
        outcome
    } else {
        Outcome::Bail { cause: Box::new(outcome), location: location.copy() }
    }
}

/// Which connection a simple query runs on.
#[derive(Debug, Copy, Clone, PartialEq, Eq, Structural)]
pub enum Connection {
    /// The one that all other queries run on.
    Main,
    /// One that was opened before.
    Known,
    /// A new one, to the server's port for users.
    New,
    /// A new one, to the server's port for system users.
    NewInternal,
}

/// Whether a user connects to the port for system users.
pub open spec fn is_system_user(user: Option<&str>) -> bool {
    match user {
        Some(user) => user@ == "mz_system"@ || user@ == "mz_introspection"@,
        None => false,
    }
}

/// Which connection a simple query runs on: by its name and whether a connection of that name
/// was opened before.
pub fn choose_connection(name: Option<&str>, known: bool, user: Option<&str>) -> (r: Connection)
    ensures
        r == (if name is None {
            Connection::Main
        } else if known {
            Connection::Known
        } else if is_system_user(user) {
            Connection::NewInternal
        } else {
            Connection::New
        }),
{
    if name.is_none() {
        Connection::Main
    } else if known {
        Connection::Known
    } else {
        match user {
            Some(user) => if text_eq(user, "mz_system") || text_eq(user, "mz_introspection") {
                Connection::NewInternal
            } else {
                Connection::New
            },
            None => Connection::New,
        }
    }
}

/// How a connection is asked for.
pub open spec fn connection_text(ip: Seq<char>, port: Seq<char>, user: Option<&str>) -> Seq<char> {
    no_text() + "host="@ + ip + " port="@ + port + " user="@ + match user {
        Some(user) => user@,
        None => "materialize"@,
    }
}

/// How a connection is asked for.
pub fn connection_config(ip: &str, port: &str, user: Option<&str>) -> (r: String)
    ensures
        r@ == connection_text(ip@, port@, user),
{
    let user = match user {
        Some(user) => user,
        None => "materialize",
    };
    String::new().concat("host=").concat(ip).concat(" port=").concat(port).concat(" user=").concat(
        user,
    )
}

/// The command that loads a table.
pub fn copy_command(table_name: &str) -> (r: String)
    ensures
        r@ == no_text() + "COPY "@ + table_name@ + " FROM STDIN"@,
{
    String::new().concat("COPY ").concat(table_name).concat(" FROM STDIN")
}

} // verus!
