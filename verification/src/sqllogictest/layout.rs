//! What holds of how an expected output is written into a file.

use vstd::arithmetic::div_mod::{
    lemma_fundamental_div_mod_converse_div, lemma_fundamental_div_mod_converse_mod,
};
use vstd::prelude::*;

use crate::sql_parser::text::no_text;
use crate::sqllogictest::ast::{Mode, OutputView, Record, Span};
use crate::sqllogictest::outcome::{error_pattern, escaped, is_meta, top_message, OutcomeView};
use crate::sqllogictest::rewrite::{edit_of, edited, laid_out, BufferView, Edit};
use crate::sqllogictest::texts::{first_line, joined};
use crate::sqllogictest::writing::{law_decimal, writes_number};

verus! {

/// The `r`-th row of values that come row by row.
pub open spec fn row_of(values: Seq<Seq<char>>, columns: int, r: int) -> Seq<Seq<char>> {
    values.subrange(r * columns, r * columns + columns)
}

/// The lines of a table: each row with two spaces between its values.
pub open spec fn table_lines(values: Seq<Seq<char>>, columns: int, rows: int) -> Seq<Seq<char>> {
    Seq::new(rows as nat, |r: int| joined(row_of(values, columns, r), "  "@))
}

proof fn lemma_joined_push(texts: Seq<Seq<char>>, t: Seq<char>, sep: Seq<char>)
    ensures
        texts.len() > 0 ==> joined(texts.push(t), sep) == joined(texts, sep) + sep + t,
        texts.len() == 0 ==> joined(texts.push(t), sep) == t,
{
    assert(texts.push(t).drop_last() =~= texts);
    if texts.len() == 0 {
        assert(joined(texts.push(t), sep) =~= t);
    }
}

proof fn lemma_index(columns: int, r: int, c: int)
    requires
        columns > 0,
        0 <= r,
        0 <= c < columns,
    ensures
        (r * columns + c) % columns == c,
        (r * columns + c) / columns == r,
        r * columns >= 0,
        r > 0 ==> r * columns > 0,
{
    lemma_fundamental_div_mod_converse_mod(r * columns + c, columns, r, c);
    lemma_fundamental_div_mod_converse_div(r * columns + c, columns, r, c);
    assert(r * columns >= 0 && (r > 0 ==> r * columns > 0)) by (nonlinear_arith)
        requires
            columns > 0,
            r >= 0,
    ;
}

proof fn lemma_row_laid_out(values: Seq<Seq<char>>, columns: int, r: int, c: int)
    requires
        columns > 0,
        0 <= r,
        0 < c <= columns,
        r * columns + c <= values.len(),
    ensures
        laid_out(values, r * columns + c, columns, Mode::Cockroach) == laid_out(
            values,
            r * columns,
            columns,
            Mode::Cockroach,
        ) + (if r == 0 {
            no_text()
        } else {
            "\n"@
        }) + joined(values.subrange(r * columns, r * columns + c), "  "@),
    decreases c,
{
    let k = r * columns + c - 1;
    lemma_index(columns, r, c - 1);
    let start = r * columns;
    let before = values.subrange(start, start + c - 1);
    assert(values.subrange(start, start + c) =~= before.push(values[k]));
    lemma_joined_push(before, values[k], "  "@);
    if c > 1 {
        lemma_row_laid_out(values, columns, r, c - 1);
        assert(laid_out(values, k + 1, columns, Mode::Cockroach) =~= laid_out(
            values,
            start,
            columns,
            Mode::Cockroach,
        ) + (if r == 0 {
            no_text()
        } else {
            "\n"@
        }) + joined(values.subrange(start, start + c), "  "@));
    } else {
        assert(before =~= Seq::empty());
        assert(laid_out(values, k + 1, columns, Mode::Cockroach) =~= laid_out(
            values,
            start,
            columns,
            Mode::Cockroach,
        ) + (if r == 0 {
            no_text()
        } else {
            "\n"@
        }) + joined(values.subrange(start, start + c), "  "@));
    }
}

/// In Cockroach mode, values are laid out as a table: its rows on lines of their own, each with
/// two spaces between its values.
pub proof fn law_table_laid_out(values: Seq<Seq<char>>, columns: int, rows: int)
    requires
        columns > 0,
        rows >= 0,
        rows * columns <= values.len(),
    ensures
        laid_out(values, rows * columns, columns, Mode::Cockroach) == joined(
            table_lines(values, columns, rows),
            "\n"@,
        ),
    decreases rows,
{
    if rows == 0 {
        assert(0 * columns == 0) by (nonlinear_arith);
        assert(joined(table_lines(values, columns, 0), "\n"@) =~= no_text());
    } else {
        let r = rows - 1;
        assert(rows * columns == r * columns + columns) by (nonlinear_arith)
            requires
                r == rows - 1,
        ;
        law_table_laid_out(values, columns, r);
        lemma_row_laid_out(values, columns, r, columns);
        let lines = table_lines(values, columns, r);
        let line = joined(row_of(values, columns, r), "  "@);
        assert(table_lines(values, columns, rows) =~= lines.push(line));
        lemma_joined_push(lines, line, "\n"@);
        if r == 0 {
            assert(0 * columns == 0) by (nonlinear_arith);
            assert(laid_out(values, rows * columns, columns, Mode::Cockroach) =~= line);
        }
    }
}

/// In Cockroach mode, two spaces stand before a value exactly where the value before it is in the
/// same row, and a line break elsewhere.
pub proof fn law_separators(values: Seq<Seq<char>>, columns: int, k: int)
    requires
        columns > 0,
        0 <= k,
        k + 1 < values.len(),
    ensures
        laid_out(values, k + 2, columns, Mode::Cockroach) == laid_out(
            values,
            k + 1,
            columns,
            Mode::Cockroach,
        ) + (if k / columns == (k + 1) / columns {
            "  "@
        } else {
            "\n"@
        }) + values[k + 1],
{
    assert((k / columns == (k + 1) / columns) == ((k + 1) % columns != 0)) by (nonlinear_arith)
        requires
            columns > 0,
            k >= 0,
    ;
    assert(laid_out(values, k + 2, columns, Mode::Cockroach) =~= laid_out(
        values,
        k + 1,
        columns,
        Mode::Cockroach,
    ) + (if k / columns == (k + 1) / columns {
        "  "@
    } else {
        "\n"@
    }) + values[k + 1]);
}

/// In standard mode, each value is on a line of its own.
pub proof fn law_values_laid_out(values: Seq<Seq<char>>, columns: int, n: int)
    requires
        0 <= n <= values.len(),
    ensures
        laid_out(values, n, columns, Mode::Standard) == joined(values.take(n), "\n"@),
    decreases n,
{
    if n == 0 {
        assert(joined(values.take(0), "\n"@) =~= no_text());
    } else {
        law_values_laid_out(values, columns, n - 1);
        assert(values.take(n) =~= values.take(n - 1).push(values[n - 1]));
        lemma_joined_push(values.take(n - 1), values[n - 1], "\n"@);
        assert(laid_out(values, n, columns, Mode::Standard) =~= joined(values.take(n), "\n"@));
    }
}

/// A query that returned other values than expected comes to expect those: in standard mode each
/// on a line, in Cockroach mode each row.
pub proof fn law_values_rewritten(record: Record, outcome: OutcomeView, actual: Seq<Seq<char>>, rows: int)
    requires
        record matches Record::Query { output: Ok(o), .. } && o.output is Values,
        outcome matches OutcomeView::OutputFailure { actual_output, .. } && actual_output
            == OutputView::Values(actual),
        rows >= 0,
        record->Query_output->Ok_0.mode is Cockroach ==> record->Query_output->Ok_0.types@.len() > 0
            && actual.len() == rows * record->Query_output->Ok_0.types@.len(),
    ensures
        ({
            let o = record->Query_output->Ok_0;
            edit_of(record, outcome) == Edit::NewOutput(
                o.output_span,
                if o.mode is Cockroach {
                    joined(table_lines(actual, o.types@.len() as int, rows), "\n"@)
                } else {
                    joined(actual, "\n"@)
                },
            )
        }),
{
    let o = record->Query_output->Ok_0;
    let columns = o.types@.len() as int;
    assert(actual.take(actual.len() as int) =~= actual);
    law_values_laid_out(actual, columns, actual.len() as int);
    if o.mode is Cockroach {
        law_table_laid_out(actual, columns, rows);
    }
}

/// A query whose hash was another than expected comes to expect the number of values and the hash
/// that it had; a simple query comes to expect the lines that it had.
pub proof fn law_hash_rewritten(
    record: Record,
    outcome: OutcomeView,
    num_values: usize,
    md5: Seq<char>,
    lines: Seq<Seq<char>>,
)
    requires
        outcome is OutputFailure,
    ensures
        record matches Record::Query { output: Ok(o), .. } ==> o.output is Hashed
            ==> outcome->OutputFailure_actual_output == (OutputView::Hashed { num_values, md5 }) ==> exists|
            s: Seq<char>,
        |
            #![trigger writes_number(s, num_values as int)]
            writes_number(s, num_values as int) && edit_of(record, outcome) == Edit::NewOutput(
                o.output_span,
                s + " values hashing to "@ + md5 + "\n"@,
            ),
        record matches Record::Simple { output_span, .. } ==> outcome->OutputFailure_actual_output
            == OutputView::Values(lines) ==> edit_of(record, outcome) == Edit::NewOutput(
            output_span,
            joined(lines, "\n"@),
        ),
{
    let s = crate::sql_parser::text::decimal(num_values as nat);
    law_decimal(num_values as nat);
    assert(writes_number(s, num_values as int));
    assert(no_text() + s + " values hashing to "@ + md5 + "\n"@ =~= s + " values hashing to "@ + md5 + "\n"@);
}

/// A query or a statement that was to fail, and did so with another error, comes to expect that
/// error, in front of its unchanged text; nothing else of it changes.
pub proof fn law_errors_rewritten(record: Record, error: Seq<Seq<char>>, location: (Seq<char>, usize))
    ensures
        record matches Record::Query { sql, output: Err(err), .. } ==> edit_of(
            record,
            OutcomeView::PlanFailure { error, location },
        ) == Edit::NewError(err.span, escaped(first_line(top_message(error))), sql.text@, sql.span),
        record matches Record::Statement { sql, expected_error: Some(err), .. } ==> edit_of(
            record,
            OutcomeView::PlanFailure { error, location },
        ) == Edit::NewError(err.span, escaped(first_line(top_message(error))), sql.text@, sql.span),
        record is Statement && record->Statement_expected_error is None ==> edit_of(
            record,
            OutcomeView::PlanFailure { error, location },
        ) == Edit::Unexpected,
{
}

/// What came out as expected stays as it is.
pub proof fn law_success_kept(record: Record, b: BufferView)
    ensures
        edit_of(record, OutcomeView::Success) == Edit::Keep,
        edited(b, Edit::Keep) == b,
        edited(b, Edit::Unexpected) == b,
{
}

/// A new output always follows a separator on a line of its own, and none is put there twice.
pub proof fn law_separator_once(b: BufferView, span: Span)
    requires
        b.wf(),
        b.reaches(span),
    ensures
        b.with_header(span).ends_with("\n----\n"@),
        ({
            let f = b.flushed(span.start as int);
            let added = b.with_header(span).output.len() - f.output.len();
            &&& f.ends_with("\n----\n"@) ==> added == 0
            &&& f.ends_with("\n----"@) ==> added == 1
            &&& !f.ends_with("\n----"@) && !f.ends_with("\n----\n"@) ==> added == 6
        }),
        b.with_header(span).offset == span.start + span.len,
{
    reveal_strlit("\n----\n");
    reveal_strlit("\n----");
    reveal_strlit("\n");
    let f = b.flushed(span.start as int).skipped(span.start + span.len);
    let h = b.with_header(span);
    assert(f.output == b.flushed(span.start as int).output);
    if f.ends_with("\n----"@) {
        let n = f.output.len();
        let tail = f.output.skip(n - 5);
        assert(tail == "\n----"@);
        assert(h.output == f.output + "\n"@);
        assert(h.output.skip(h.output.len() - 6) =~= "\n----\n"@) by {
            assert forall|k: int| 0 <= k < 6 implies h.output.skip(h.output.len() - 6)[k] == "\n----\n"@[k] by {
                if k < 5 {
                    assert(tail[k] == f.output[n - 5 + k]);
                    assert(tail[k] == "\n----"@[k]);
                }
            }
        }
        if f.ends_with("\n----\n"@) {
            assert(f.output.skip(n - 6)[5] == '\n');
            assert(tail[4] == '-');
        }
    } else if !f.ends_with("\n----\n"@) {
        assert(h.output.skip(h.output.len() - 6) =~= "\n----\n"@);
    }
}

/// The text that a regular expression without operators matches: a backslash stands before
/// characters that mean something else; nothing, if there is an operator.
pub open spec fn unescaped(s: Seq<char>) -> Option<Seq<char>>
    decreases s.len(),
{
    if s.len() == 0 {
        Some(Seq::empty())
    } else if s.len() >= 2 && s[s.len() - 2] == '\\' && is_meta(s.last()) {
        match unescaped(s.take(s.len() - 2)) {
            Some(front) => Some(front.push(s.last())),
            None => None,
        }
    } else if is_meta(s.last()) {
        None
    } else {
        match unescaped(s.drop_last()) {
            Some(front) => Some(front.push(s.last())),
            None => None,
        }
    }
}

/// What is escaped stands for itself and for nothing else.
pub proof fn law_escaped(s: Seq<char>)
    ensures
        unescaped(escaped(s)) == Some(s),
    decreases s.len(),
{
    if s.len() == 0 {
        assert(escaped(s) =~= Seq::<char>::empty());
        assert(s =~= Seq::<char>::empty());
    } else {
        law_escaped(s.drop_last());
        let front = escaped(s.drop_last());
        let e = escaped(s);
        assert(s.drop_last().push(s.last()) =~= s);
        if is_meta(s.last()) {
            assert(e.take(e.len() - 2) =~= front);
        } else {
            assert(e.drop_last() =~= front);
        }
    }
}

/// The pattern of an error is its first line, escaped; only outcomes with an error have one.
pub proof fn law_error_pattern(o: OutcomeView)
    ensures
        error_pattern(o) is Some == (o is Unsupported || o is ParseFailure || o is PlanFailure),
        o matches OutcomeView::PlanFailure { error, .. } ==> (error_pattern(o) matches Some(p) && unescaped(p)
            == Some(first_line(top_message(error)))),
        o matches OutcomeView::ParseFailure { error, .. } ==> (error_pattern(o) matches Some(p) && unescaped(
            p,
        ) == Some(first_line(top_message(error)))),
        o matches OutcomeView::Unsupported { error, .. } ==> (error_pattern(o) matches Some(p) && unescaped(
            p,
        ) == Some(first_line(top_message(error)))),
{
    match o {
        OutcomeView::PlanFailure { error, .. }
        | OutcomeView::ParseFailure { error, .. }
        | OutcomeView::Unsupported { error, .. } => {
            law_escaped(first_line(top_message(error)));
        },
        _ => {},
    }
}

} // verus!
