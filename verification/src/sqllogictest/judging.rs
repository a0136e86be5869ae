//! What holds of how answers are judged.

use vstd::prelude::*;
use vstd::relations::sorted_by;

use crate::sql_parser::outcome::FailureView;
use crate::sql_parser::kind::Kind;
use crate::sql_parser::syntax::TreeView;
use crate::sql_parser::text::texts_view;
use crate::sqllogictest::ast::{Mode, OutputView, QueryOutput, Quoted, Sort, Type};
use crate::sqllogictest::format::{cell_text, cell_texts};
use crate::sqllogictest::order::{by_char, by_row, by_text, lemma_by_row, lemma_by_text, lex_le};
use crate::sqllogictest::outcome::{outcome_code, top_message, ErrorChain, OutcomeView};
use crate::sqllogictest::pattern::occurs;
use crate::sqllogictest::query::{
    answer_md5, answer_values, first_misfit, flattened, formatted_rows, hashed_text, md5_hex, names_agree,
    planned, query_outcome, rows_outcome, simple_cells, simple_line, simple_lines, simple_outcome,
    statement_outcome, transaction_steps, PlanView, ResultRow, ResultRows, SimpleMessage,
};
use crate::sqllogictest::run::{counted_until, settled, stops, with_code};
use crate::sqllogictest::texts::joined;
use crate::sqllogictest::value::ValueView;
use crate::sqllogictest::writing::writes_number;

verus! {

/// Whether each row has one value for each column.
pub open spec fn is_table(rows: Seq<ResultRow>, columns: int) -> bool {
    forall|k: int| 0 <= k < rows.len() ==> (#[trigger] rows[k]).cells@.len() == columns
}

proof fn lemma_first_misfit(rows: Seq<ResultRow>, i: int, n: int)
    requires
        0 <= i <= rows.len(),
    ensures
        i <= first_misfit(rows, i, n) <= rows.len(),
        forall|k: int| i <= k < first_misfit(rows, i, n) ==> (#[trigger] rows[k]).cells@.len() == n,
        first_misfit(rows, i, n) < rows.len() ==> rows[first_misfit(rows, i, n)].cells@.len() != n,
    decreases rows.len() - i,
{
    if i < rows.len() && rows[i].cells.len() == n {
        lemma_first_misfit(rows, i + 1, n);
    }
}

/// An answer succeeds exactly where the names of the columns are those that are expected, if any
/// are, each row has as many values as there are columns, and the values are the expected ones:
/// one by one, or by their number and their hash.
pub proof fn law_rows_judged(
    o: QueryOutput,
    rows: Seq<ResultRow>,
    md5: Seq<char>,
    shown: Seq<char>,
    location: (Seq<char>, usize),
)
    ensures
        (rows_outcome(o, rows, md5, shown, location) == OutcomeView::Success) == ({
            &&& (o.column_names matches Some(names) ==> rows.len() == 0 || texts_view(names@)
                == texts_view(rows[0].column_names@))
            &&& is_table(rows, o.types@.len() as int)
            &&& match o.output@ {
                OutputView::Values(expected) => expected == answer_values(rows, o.types@, o.mode, o.sort),
                OutputView::Hashed { num_values, md5: expected } => num_values == answer_values(
                    rows,
                    o.types@,
                    o.mode,
                    o.sort,
                ).len() as usize && expected == md5,
            }
        }),
{
    lemma_first_misfit(rows, 0, o.types@.len() as int);
    let bad = first_misfit(rows, 0, o.types.len() as int);
    if bad < rows.len() {
        assert(rows[bad].cells@.len() != o.types@.len());
    } else {
        assert(is_table(rows, o.types@.len() as int));
    }
}

/// A row with another number of values than there are columns is reported with both numbers;
/// the first such row, unless the names of the columns are wrong.
pub proof fn law_column_count_judged(
    o: QueryOutput,
    rows: Seq<ResultRow>,
    k: int,
    md5: Seq<char>,
    shown: Seq<char>,
    location: (Seq<char>, usize),
)
    requires
        names_agree(o.column_names, rows),
        0 <= k < rows.len(),
        is_table(rows.take(k), o.types@.len() as int),
        rows[k].cells@.len() != o.types@.len(),
    ensures
        rows_outcome(o, rows, md5, shown, location) == (OutcomeView::WrongColumnCount {
            expected_count: o.types@.len() as usize,
            actual_count: rows[k].cells@.len() as usize,
            location,
        }),
{
    lemma_first_misfit(rows, 0, o.types@.len() as int);
    let bad = first_misfit(rows, 0, o.types.len() as int);
    if bad < k {
        assert(rows.take(k)[bad].cells@.len() == o.types@.len());
    }
}

/// Names of columns that are not those that are expected are reported, both of them.
pub proof fn law_column_names_judged(
    o: QueryOutput,
    rows: Seq<ResultRow>,
    md5: Seq<char>,
    shown: Seq<char>,
    location: (Seq<char>, usize),
)
    requires
        o.column_names is Some,
        rows.len() > 0,
        texts_view(o.column_names->0@) != texts_view(rows[0].column_names@),
    ensures
        rows_outcome(o, rows, md5, shown, location) == (OutcomeView::WrongColumnNames {
            expected_column_names: texts_view(o.column_names->0@),
            actual_column_names: texts_view(rows[0].column_names@),
            location,
        }),
{
}

/// Values that are not the expected ones are reported as an output failure, with both.
pub proof fn law_wrong_values_judged(
    o: QueryOutput,
    rows: Seq<ResultRow>,
    md5: Seq<char>,
    shown: Seq<char>,
    location: (Seq<char>, usize),
)
    requires
        names_agree(o.column_names, rows),
        is_table(rows, o.types@.len() as int),
        rows_outcome(o, rows, md5, shown, location) != OutcomeView::Success,
    ensures
        rows_outcome(o, rows, md5, shown, location) == (OutcomeView::OutputFailure {
            expected_output: o.output@,
            actual_raw_output: shown,
            actual_output: match o.output@ {
                OutputView::Values(_) => OutputView::Values(
                    answer_values(rows, o.types@, o.mode, o.sort),
                ),
                OutputView::Hashed { .. } => OutputView::Hashed {
                    num_values: answer_values(rows, o.types@, o.mode, o.sort).len() as usize,
                    md5,
                },
            },
            location,
        }),
{
    lemma_first_misfit(rows, 0, o.types@.len() as int);
}

/// The only value of an answer with one truth value succeeds exactly against its text.
pub proof fn law_boolean_answer(
    o: QueryOutput,
    row: ResultRow,
    b: bool,
    expected: Seq<char>,
    md5: Seq<char>,
    shown: Seq<char>,
    location: (Seq<char>, usize),
)
    requires
        o.types@ == seq![Type::Bool],
        o.sort == Sort::No,
        o.column_names is None,
        o.output@ == OutputView::Values(seq![expected]),
        row.cells@.len() == 1,
        row.cells@[0] matches Some(c) && c.value@ == ValueView::Bool(b),
    ensures
        (rows_outcome(o, seq![row], md5, shown, location) == OutcomeView::Success) == (expected == (if b {
            "true"@
        } else {
            "false"@
        })),
{
    let rows = seq![row];
    law_rows_judged(o, rows, md5, shown, location);
    assert(is_table(rows, 1));
    law_unsorted(rows, o.types@, o.mode, 0, 0);
    let values = answer_values(rows, o.types@, o.mode, o.sort);
    let m = rows.len() as int;
    let n = o.types@.len() as int;
    assert(m * n == 1 && 0 * n == 0) by (nonlinear_arith)
        requires
            m == 1,
            n == 1,
    ;
    assert(values.len() == 1);
    assert(values[0] == cell_text(row.cells@[0], Type::Bool, o.mode)->0);
    if values[0] == expected {
        assert(values =~= seq![expected]);
    } else {
        assert(seq![expected][0] == expected);
    }
}

proof fn lemma_flattened(rows: Seq<Seq<Seq<char>>>, n: int, r: int, c: int)
    requires
        forall|k: int| 0 <= k < rows.len() ==> (#[trigger] rows[k]).len() == n,
    ensures
        flattened(rows).len() == rows.len() * n,
        0 <= r < rows.len() && 0 <= c < n ==> 0 <= r * n + c < rows.len() * n && flattened(rows)[r * n
            + c] == rows[r][c],
    decreases rows.len(),
{
    if rows.len() > 0 {
        let front = rows.drop_last();
        let m = front.len() as int;
        assert forall|k: int| 0 <= k < front.len() implies (#[trigger] front[k]).len() == n by {
            assert(front[k] == rows[k]);
        }
        lemma_flattened(front, n, r, c);
        assert((m + 1) * n == m * n + n) by (nonlinear_arith);
        if 0 <= r < rows.len() && 0 <= c < n {
            if r == m {
                assert(r * n == m * n);
                assert(m * n >= 0) by (nonlinear_arith)
                    requires
                        m >= 0,
                        n >= 0,
                ;
            } else {
                assert(front[r] == rows[r]);
            }
        }
    } else {
        assert(0 * n == 0) by (nonlinear_arith);
    }
}

/// Values that are not sorted come row by row, and in a row column by column, each in the text of
/// its column's type.
pub proof fn law_unsorted(rows: Seq<ResultRow>, types: Seq<Type>, mode: Mode, r: int, c: int)
    requires
        is_table(rows, types.len() as int),
        0 <= r < rows.len(),
        0 <= c < types.len(),
    ensures
        answer_values(rows, types, mode, Sort::No).len() == rows.len() * types.len(),
        0 <= r * types.len() + c < rows.len() * types.len(),
        answer_values(rows, types, mode, Sort::No)[r * types.len() + c] == cell_text(
            rows[r].cells@[c],
            types[c],
            mode,
        )->0,
{
    let formatted = formatted_rows(rows, rows.len() as int, types, mode, Sort::No);
    assert forall|k: int| 0 <= k < formatted.len() implies (#[trigger] formatted[k]).len() == types.len() by {
        assert(rows[k].cells@.len() == types.len());
    }
    lemma_flattened(formatted, types.len() as int, r, c);
}

/// Sorted by rows, an answer is the same rows in ascending order, one after the other.
pub proof fn law_sorted_rows(rows: Seq<ResultRow>, types: Seq<Type>) -> (sorted: Seq<Seq<Seq<char>>>)
    ensures
        sorted_by(sorted, by_row()),
        sorted.to_multiset() == Seq::new(
            rows.len(),
            |k: int| cell_texts(rows[k].cells@, types, Mode::Standard),
        ).to_multiset(),
        answer_values(rows, types, Mode::Standard, Sort::Row) == flattened(sorted),
{
    let given = Seq::new(rows.len(), |k: int| cell_texts(rows[k].cells@, types, Mode::Standard));
    let formatted = formatted_rows(rows, rows.len() as int, types, Mode::Standard, Sort::Row);
    assert(formatted =~= given);
    lemma_by_row();
    formatted.lemma_sort_by_ensures(by_row());
    formatted.sort_by(by_row())
}

/// Sorted by values, an answer is the same values in ascending order.
pub proof fn law_sorted_values(rows: Seq<ResultRow>, types: Seq<Type>)
    ensures
        sorted_by(answer_values(rows, types, Mode::Standard, Sort::Value), by_text()),
        answer_values(rows, types, Mode::Standard, Sort::Value).to_multiset() == answer_values(
            rows,
            types,
            Mode::Standard,
            Sort::No,
        ).to_multiset(),
{
    let a = formatted_rows(rows, rows.len() as int, types, Mode::Standard, Sort::Value);
    let b = formatted_rows(rows, rows.len() as int, types, Mode::Standard, Sort::No);
    assert(a =~= b);
    lemma_by_text();
    flattened(a).lemma_sort_by_ensures(by_text());
}

/// In ascending order, the first character in which texts differ decides, the one with the lower
/// code point first, and a text comes before those that it is the beginning of.
pub proof fn law_text_order(a: Seq<char>, b: Seq<char>, k: int)
    requires
        0 <= k <= a.len(),
        k < b.len(),
        a.take(k) == b.take(k),
        k < a.len() ==> a[k] < b[k],
    ensures
        by_text()(a, b),
        !by_text()(b, a),
{
    lemma_lex(a, b, k, by_char());
}

/// In ascending order of rows, the first column in which rows differ decides.
pub proof fn law_row_order(a: Seq<Seq<char>>, b: Seq<Seq<char>>, k: int)
    requires
        0 <= k < a.len(),
        k < b.len(),
        a.take(k) == b.take(k),
        by_text()(a[k], b[k]),
        !by_text()(b[k], a[k]),
    ensures
        by_row()(a, b),
        !by_row()(b, a),
{
    lemma_by_text();
    lemma_lex(a, b, k, by_text());
}

proof fn lemma_lex<A>(a: Seq<A>, b: Seq<A>, k: int, le: spec_fn(A, A) -> bool)
    requires
        0 <= k <= a.len(),
        k < b.len(),
        a.take(k) == b.take(k),
        k < a.len() ==> a[k] != b[k] && le(a[k], b[k]) && !le(b[k], a[k]),
    ensures
        lex_le(a, b, le),
        !lex_le(b, a, le),
    decreases k,
{
    if k > 0 {
        assert(a.take(k)[0] == b.take(k)[0]);
        assert(a[0] == a.take(k)[0] && b[0] == b.take(k)[0]);
        let x = a.drop_first();
        let y = b.drop_first();
        assert(x.take(k - 1) =~= a.take(k).drop_first());
        assert(y.take(k - 1) =~= b.take(k).drop_first());
        if k < a.len() {
            assert(x[k - 1] == a[k] && y[k - 1] == b[k]);
        }
        lemma_lex(x, y, k - 1, le);
    }
}

/// What is hashed is each value with a line break behind it, in order.
pub proof fn law_hashed_text(values: Seq<Seq<char>>, more: Seq<Seq<char>>)
    ensures
        hashed_text(Seq::empty()) == Seq::<char>::empty(),
        values.len() == 1 ==> hashed_text(values) == values[0] + "\n"@,
        hashed_text(values + more) == hashed_text(values) + hashed_text(more),
    decreases more.len(),
{
    assert(hashed_text(Seq::empty()) =~= Seq::<char>::empty());
    if values.len() == 1 {
        assert(values.drop_last() =~= Seq::empty());
        assert(hashed_text(values) =~= values[0] + "\n"@);
    }
    if more.len() == 0 {
        assert(values + more =~= values);
        assert(hashed_text(values) + hashed_text(more) =~= hashed_text(values));
    } else {
        law_hashed_text(values, more.drop_last());
        assert((values + more).drop_last() =~= values + more.drop_last());
        assert(hashed_text(values + more) =~= hashed_text(values) + hashed_text(more));
    }
}

/// An expected hash is compared with that of the values in the order in which they would be
/// compared one by one.
pub proof fn law_hash_judged(
    o: QueryOutput,
    rows: ResultRows,
    found: Result<bool, Seq<char>>,
    num_values: usize,
    md5: Seq<char>,
    location: (Seq<char>, usize),
)
    requires
        o.output@ == (OutputView::Hashed { num_values, md5 }),
        o.column_names is None,
        is_table(rows.rows@, o.types@.len() as int),
    ensures
        (query_outcome(Ok(o), Ok(rows), found, answer_md5(Ok(o), Ok(rows)), location) == Ok::<
            OutcomeView,
            Seq<char>,
        >(OutcomeView::Success)) == ({
            let values = answer_values(rows.rows@, o.types@, o.mode, o.sort);
            num_values == values.len() as usize && md5 == md5_hex(hashed_text(values))
        }),
{
    law_rows_judged(o, rows.rows@, answer_md5(Ok(o), Ok(rows)), rows.shown@, location);
}

/// A query that is to return rows never succeeds with an error: the error is reported, as
/// something unsupported where its message says so.
pub proof fn law_error_judged(
    o: QueryOutput,
    error: ErrorChain,
    found: Result<bool, Seq<char>>,
    md5: Seq<char>,
    location: (Seq<char>, usize),
)
    ensures
        occurs(top_message(error@), "supported"@) || occurs(top_message(error@), "overload"@)
            ==> query_outcome(Ok(o), Err(error), found, md5, location) == Ok::<OutcomeView, Seq<char>>(
            OutcomeView::Unsupported { error: error@, location },
        ),
        !occurs(top_message(error@), "supported"@) && !occurs(top_message(error@), "overload"@)
            ==> query_outcome(Ok(o), Err(error), found, md5, location) == Ok::<OutcomeView, Seq<char>>(
            OutcomeView::PlanFailure { error: error@, location },
        ),
{
}

/// A query that is to fail succeeds exactly with an error that the expected one matches. Rows
/// and other errors are reported.
pub proof fn law_expected_error_judged(
    q: Quoted,
    answer: Result<ResultRows, ErrorChain>,
    found: bool,
    md5: Seq<char>,
    location: (Seq<char>, usize),
)
    ensures
        (query_outcome(Err(q), answer, Ok(found), md5, location) == Ok::<OutcomeView, Seq<char>>(
            OutcomeView::Success,
        )) == (answer is Err && found),
        answer is Ok ==> query_outcome(Err(q), answer, Ok(found), md5, location) == Ok::<
            OutcomeView,
            Seq<char>,
        >(OutcomeView::UnexpectedPlanSuccess { expected_error: q.text@, location }),
        answer is Err && !found ==> query_outcome(Err(q), answer, Ok(found), md5, location)
            == Ok::<OutcomeView, Seq<char>>(OutcomeView::PlanFailure { error: answer->Err_0@, location }),
{
}

/// A statement succeeds exactly where it is to succeed and does, with as many rows as are
/// expected if a number is, or where it is to fail and does with an error that matches.
pub proof fn law_statement_judged(
    expected_error: Option<Seq<char>>,
    expected_rows: Option<u64>,
    answer: Result<u64, Seq<Seq<char>>>,
    found: bool,
    location: (Seq<char>, usize),
)
    ensures
        (statement_outcome(expected_error, expected_rows, answer, Ok(found), location) == Ok::<
            OutcomeView,
            Seq<char>,
        >(OutcomeView::Success)) == (match answer {
            Ok(n) => expected_error is None && (expected_rows is None || expected_rows == Some(n)),
            Err(_) => expected_error is Some && found,
        }),
        answer is Ok && expected_error is Some ==> statement_outcome(
            expected_error,
            expected_rows,
            answer,
            Ok(found),
            location,
        ) == Ok::<OutcomeView, Seq<char>>(
            OutcomeView::UnexpectedPlanSuccess { expected_error: expected_error->0, location },
        ),
        answer is Ok && expected_error is None && expected_rows is Some && expected_rows->0 != answer->Ok_0
            ==> statement_outcome(expected_error, expected_rows, answer, Ok(found), location) == Ok::<
            OutcomeView,
            Seq<char>,
        >(
            OutcomeView::WrongNumberOfRowsInserted {
                expected_count: expected_rows->0,
                actual_count: answer->Ok_0,
                location,
            },
        ),
        answer is Err && !(expected_error is Some && found) ==> statement_outcome(
            expected_error,
            expected_rows,
            answer,
            Ok(found),
            location,
        ) == Ok::<OutcomeView, Seq<char>>(OutcomeView::PlanFailure { error: answer->Err_0, location }),
{
}

/// A statement that was to succeed and did not ends its file; one that was to fail does not.
pub proof fn law_failed_statement_ends_file(
    outcome: OutcomeView,
    expects_error: bool,
    fail_fast: bool,
    location: (Seq<char>, usize),
)
    ensures
        outcome is Success ==> settled(outcome, expects_error, location) is Success && !stops(
            outcome,
            fail_fast,
        ),
        !(outcome is Success) && !expects_error ==> stops(
            settled(outcome, expects_error, location),
            fail_fast,
        ) && (settled(outcome, expects_error, location) matches OutcomeView::Bail { cause, .. } && *cause
            == outcome),
        expects_error ==> settled(outcome, expects_error, location) == outcome,
        !fail_fast && !(outcome is Bail) ==> !stops(outcome, fail_fast),
        fail_fast && !(outcome is Success) ==> stops(outcome, fail_fast),
{
}

/// Outcomes are counted up to the first that ends the file: none before it ends the file, and it
/// is the last that is counted.
pub proof fn law_counted_until(outcomes: Seq<OutcomeView>, fail_fast: bool)
    ensures
        0 <= counted_until(outcomes, fail_fast) <= outcomes.len(),
        forall|k: int|
            0 <= k < counted_until(outcomes, fail_fast) - 1 ==> !stops(#[trigger] outcomes[k], fail_fast),
        counted_until(outcomes, fail_fast) < outcomes.len() ==> counted_until(outcomes, fail_fast) > 0
            && stops(outcomes[counted_until(outcomes, fail_fast) - 1], fail_fast),
    decreases outcomes.len(),
{
    if outcomes.len() > 0 && !stops(outcomes[0], fail_fast) {
        let rest = outcomes.drop_first();
        law_counted_until(rest, fail_fast);
        let n = counted_until(rest, fail_fast);
        assert forall|k: int| 0 <= k < n implies !stops(#[trigger] outcomes[k], fail_fast) by {
            if k > 0 {
                assert(rest[k - 1] == outcomes[k]);
            }
        }
        if n < rest.len() {
            assert(rest[n - 1] == outcomes[n]);
        }
    }
}

/// Each outcome that is counted counts for its own code and for no other, and different kinds of
/// outcomes have different codes.
pub proof fn law_outcomes_counted(outcomes: Seq<OutcomeView>, n: int, code: int, a: OutcomeView, b: OutcomeView)
    requires
        0 <= n <= outcomes.len(),
    ensures
        with_code(outcomes, n, code) == outcomes.take(n).filter(
            |o: OutcomeView| outcome_code(o) == code,
        ).len(),
        0 <= outcome_code(a) < 10,
        outcome_code(a) == 9 <==> a is Success,
        outcome_code(a) == outcome_code(b) ==> (a is Unsupported == b is Unsupported) && (a is ParseFailure
            == b is ParseFailure) && (a is PlanFailure == b is PlanFailure) && (a is UnexpectedPlanSuccess
            == b is UnexpectedPlanSuccess) && (a is WrongNumberOfRowsInserted
            == b is WrongNumberOfRowsInserted) && (a is WrongColumnCount == b is WrongColumnCount) && (
        a is WrongColumnNames == b is WrongColumnNames) && (a is OutputFailure == b is OutputFailure) && (
        a is Bail == b is Bail),
    decreases n,
{
    reveal(Seq::filter);
    if n > 0 {
        law_outcomes_counted(outcomes, n - 1, code, a, b);
        assert(outcomes.take(n).drop_last() =~= outcomes.take(n - 1));
        assert(outcomes.take(n).last() == outcomes[n - 1]);
    }
}

/// A simple query succeeds exactly where the lines of its answer are the expected ones.
pub proof fn law_simple_judged(
    expected: Seq<Seq<char>>,
    answer: Result<Vec<SimpleMessage>, ErrorChain>,
    location: (Seq<char>, usize),
)
    ensures
        (simple_outcome(OutputView::Values(expected), answer, location) == OutcomeView::Success) == (expected
            == simple_lines(answer)),
        answer matches Ok(messages) ==> simple_lines(answer).len() == messages@.len() && forall|k: int|
            0 <= k < messages@.len() ==> #[trigger] simple_lines(answer)[k] == simple_line(messages@[k]),
{
}

/// A row is a line of its values with commas between them, those that are missing as `NULL`; the
/// end of a command is a line with the number of rows.
pub proof fn law_simple_lines(row: Vec<Option<String>>, n: u64)
    ensures
        simple_cells(row@).len() == row@.len(),
        forall|k: int|
            0 <= k < row@.len() ==> #[trigger] simple_cells(row@)[k] == (match row@[k] {
                Some(s) => s@,
                None => "NULL"@,
            }),
        simple_line(SimpleMessage::Row(row)) == joined(simple_cells(row@), ","@),
        exists|s: Seq<char>|
            #![trigger writes_number(s, n as int)]
            writes_number(s, n as int) && simple_line(SimpleMessage::CommandComplete(n)) == "COMPLETE "@ + s,
{
    let s = crate::sql_parser::text::decimal(n as nat);
    crate::sqllogictest::writing::law_decimal(n as nat);
    assert(simple_line(SimpleMessage::CommandComplete(n)) =~= "COMPLETE "@ + s);
    assert(writes_number(s, n as int));
}

/// Whether a transaction is open after commands, if `open` says so before them.
pub open spec fn open_after(open: bool, commands: Seq<Seq<char>>) -> bool
    decreases commands.len(),
{
    if commands.len() == 0 {
        open
    } else if commands.last() == "BEGIN"@ {
        true
    } else if commands.last() == "COMMIT"@ {
        false
    } else {
        open_after(open, commands.drop_last())
    }
}

/// What is recorded of transactions is what the commands do; where transactions are automatic, a
/// query that is to return rows runs in one unless it is a `SHOW`, and all else runs in none.
/// Otherwise nothing is sent. No transaction is begun inside another.
pub proof fn law_transactions(
    expects_rows: bool,
    is_show: bool,
    auto_transactions: bool,
    in_transaction: bool,
)
    ensures
        ({
            let (commands, open) = transaction_steps(
                expects_rows,
                is_show,
                auto_transactions,
                in_transaction,
            );
            &&& open == open_after(in_transaction, commands)
            &&& auto_transactions ==> open == (expects_rows && !is_show)
            &&& !auto_transactions ==> commands.len() == 0
            &&& in_transaction && commands.len() > 0 ==> commands[0] != "BEGIN"@
            &&& auto_transactions && !in_transaction && expects_rows ==> commands.len() > 0 && commands[0]
                == "BEGIN"@
        }),
{
    reveal_strlit("BEGIN");
    reveal_strlit("COMMIT");
    assert("BEGIN"@[0] != "COMMIT"@[0]);
    let begin = seq!["BEGIN"@];
    let commit = seq!["COMMIT"@];
    let both = begin.push("COMMIT"@);
    assert(begin.last() == "BEGIN"@);
    assert(commit.last() == "COMMIT"@);
    assert(both.last() == "COMMIT"@);
    assert(Seq::<Seq<char>>::empty().push("COMMIT"@).last() == "COMMIT"@);
    reveal_with_fuel(open_after, 2);
}

/// A query with one statement is run, whatever it is expected to do, inside or outside of a
/// transaction; one that cannot be parsed has come out: as a success where an error is expected
/// that matches, as a parse failure with the parser's message otherwise.
pub proof fn law_queries_planned(
    parsed: Result<Seq<TreeView>, FailureView>,
    expected_error: Option<Seq<char>>,
    found: bool,
    location: (Seq<char>, usize),
    auto_transactions: bool,
    in_transaction: bool,
)
    ensures
        ({
            let plan = planned(
                parsed,
                expected_error,
                Ok(found),
                location,
                auto_transactions,
                in_transaction,
            );
            match parsed {
                Ok(statements) => (plan is Ok) == (statements.len() == 1) && (plan matches Ok(p) ==> (
                p matches PlanView::Run(commands, open) && (commands, open) == transaction_steps(
                    expected_error is None,
                    statements[0] matches TreeView::Node(kind, _) && kind == Kind::ShowStatement,
                    auto_transactions,
                    in_transaction,
                ))),
                Err(FailureView::Error { message, .. }) => plan matches Ok(PlanView::Done(outcome))
                    && outcome == (if expected_error is Some && found {
                    OutcomeView::Success
                } else {
                    OutcomeView::ParseFailure { error: seq![message], location }
                }),
                Err(FailureView::Unhandled) => plan is Err,
            }
        }),
{
}

} // verus!
