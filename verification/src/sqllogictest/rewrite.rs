//! Rewriting a test file so that it expects what was observed.

use vstd::prelude::*;

use crate::sql_parser::text::{chars_of, decimal, decimal_text, no_text, text_eq, text_of, texts_view};
use crate::sqllogictest::ast::{Mode, Output, OutputView, QueryOutput, Record, Span};
use crate::sqllogictest::outcome::{error_pattern, Outcome, OutcomeView};
use crate::sqllogictest::texts::{join, joined};

verus! {

/// Provides a means to rewrite a test file while iterating over it.
///
/// This struct takes the file as its `input`, tracks a cursor into it
/// (`input_offset`), and provides a buffer (`output`) to store the rewritten
/// results. Offsets count characters.
///
/// Functions that modify the file will lazily move `input` into `output` using
/// `flush_to`. However, those calls should all be interior to other functions.
#[derive(Debug)]
pub struct RewriteBuffer {
    input: Vec<char>,
    input_offset: usize,
    output: Vec<char>,
}

/// What a [`RewriteBuffer`] stands for.
#[verifier::ext_equal]
pub struct BufferView {
    pub input: Seq<char>,
    pub offset: int,
    pub output: Seq<char>,
}

impl View for RewriteBuffer {
    type V = BufferView;

    closed spec fn view(&self) -> BufferView {
        BufferView {
            input: self.input@,
            offset: self.input_offset as int,
            output: self.output@,
        }
    }
}

impl BufferView {
    /// Whether the cursor is inside the file.
    pub open spec fn wf(self) -> bool {
        0 <= self.offset <= self.input.len()
    }

    /// The buffer once the file up to `offset` is moved to the output.
    pub open spec fn flushed(self, offset: int) -> BufferView {
        BufferView {
            input: self.input,
            offset,
            output: self.output + self.input.subrange(self.offset, offset),
        }
    }

    /// The buffer once the file up to `offset` is left out.
    pub open spec fn skipped(self, offset: int) -> BufferView {
        BufferView { input: self.input, offset, output: self.output }
    }

    /// The buffer with `s` at the end of the output.
    pub open spec fn appended(self, s: Seq<char>) -> BufferView {
        BufferView { input: self.input, offset: self.offset, output: self.output + s }
    }

    /// Whether a part of the file lies behind the cursor.
    pub open spec fn reaches(self, span: Span) -> bool {
        self.offset <= span.start && span.start + span.len <= self.input.len()
    }

    /// Whether the output ends with `s`.
    pub open spec fn ends_with(self, s: Seq<char>) -> bool {
        s.len() <= self.output.len() && self.output.skip(self.output.len() - s.len()) == s
    }

    /// The buffer with the file up to an expected output moved to the output, and the result
    /// separator behind it.
    pub open spec fn with_header(self, span: Span) -> BufferView {
        let b = self.flushed(span.start as int).skipped(span.start + span.len);
        if b.ends_with("\n----"@) {
            b.appended("\n"@)
        } else if b.ends_with("\n----\n"@) {
            b
        } else {
            b.appended("\n----\n"@)
        }
    }

    /// The buffer with an expected error replaced, up to the end of the query behind it.
    pub open spec fn with_error(self, old_err: Span, new_err: Seq<char>, query: Seq<char>, query_at: Span) -> BufferView {
        self.flushed(old_err.start as int).appended(new_err).appended("\n"@).appended(query).skipped(
            query_at.start + query_at.len,
        )
    }

    /// The text of the rewritten file.
    pub open spec fn finished(self) -> Seq<char> {
        self.flushed(self.input.len() as int).output
    }
}

/// The buffer before anything is rewritten.
pub open spec fn new_buffer(input: Seq<char>) -> BufferView {
    BufferView { input, offset: 0, output: Seq::empty() }
}

/// A file of which nothing is rewritten stays as it is.
pub proof fn law_no_rewrite(input: Seq<char>)
    ensures
        new_buffer(input).finished() == input,
{
    assert(new_buffer(input).finished() =~= input);
}

/// How far the file is moved or left out does not change what comes behind: moving a part of
/// the file and then the rest is moving all of it.
pub proof fn law_flush_twice(b: BufferView, to: int)
    requires
        b.wf(),
        b.offset <= to <= b.input.len(),
    ensures
        b.flushed(to).finished() == b.finished(),
{
    assert(b.flushed(to).finished() =~= b.finished());
}

/// An expected output and nothing else is replaced: the file before it, from the cursor on,
/// and the file behind it stay as they are. Between them stands the separator, unless it was
/// there, and the new output.
pub proof fn law_output_rewritten(b: BufferView, span: Span, s: Seq<char>)
    requires
        b.wf(),
        b.reaches(span),
    ensures
        exists|sep: Seq<char>|
            (sep == Seq::<char>::empty() || sep == "\n"@ || sep == "\n----\n"@) && b.with_header(
                span,
            ).appended(s).finished() == b.output + b.input.subrange(b.offset, span.start as int) + #[trigger]
            (sep + s) + b.input.skip(span.start + span.len),
{
    let f = b.flushed(span.start as int).skipped(span.start + span.len);
    let sep = if f.ends_with("\n----"@) {
        "\n"@
    } else if f.ends_with("\n----\n"@) {
        Seq::<char>::empty()
    } else {
        "\n----\n"@
    };
    let whole = b.with_header(span).appended(s).finished();
    let parts = b.output + b.input.subrange(b.offset, span.start as int) + (sep + s) + b.input.skip(
        span.start + span.len,
    );
    assert(b.with_header(span).output =~= f.output + sep);
    assert(whole =~= parts);
}

/// An expected error, up to the end of the query behind it, and nothing else is replaced.
pub proof fn law_error_rewritten(b: BufferView, old_err: Span, new_err: Seq<char>, query: Seq<char>, query_at: Span)
    requires
        b.wf(),
        b.reaches(old_err),
        old_err.start <= query_at.start,
        query_at.start + query_at.len <= b.input.len(),
    ensures
        b.with_error(old_err, new_err, query, query_at).finished() == b.output + b.input.subrange(
            b.offset,
            old_err.start as int,
        ) + new_err + "\n"@ + query + b.input.skip(query_at.start + query_at.len),
{
    assert(b.with_error(old_err, new_err, query, query_at).finished() =~= b.output + b.input.subrange(
        b.offset,
        old_err.start as int,
    ) + new_err + "\n"@ + query + b.input.skip(query_at.start + query_at.len));
}

/// The `k`-th of the values, with what stands before it.
pub open spec fn laid_out_value(values: Seq<Seq<char>>, k: int, per_row: int, mode: Mode) -> Seq<char> {
    let sep = if k == 0 {
        no_text()
    } else if mode == Mode::Cockroach && k % per_row != 0 {
        "  "@
    } else {
        "\n"@
    };
    sep + values[k]
}

/// The first `n` values as the output of a query: in standard mode each on a line of its own;
/// in Cockroach mode each row on a line of its own, with two spaces between the columns.
pub open spec fn laid_out(values: Seq<Seq<char>>, n: int, per_row: int, mode: Mode) -> Seq<char>
    decreases n,
{
    if n <= 0 {
        no_text()
    } else {
        laid_out(values, n - 1, per_row, mode) + laid_out_value(values, n - 1, per_row, mode)
    }
}

/// What is to be rewritten.
pub enum Edit {
    /// Nothing.
    Keep,
    /// An expected output.
    NewOutput(Span, Seq<char>),
    /// An expected error, up to the end of the query behind it.
    NewError(Span, Seq<char>, Seq<char>, Span),
    /// The outcome is not one that can be rewritten.
    Unexpected,
}

/// What is to be rewritten for a record that came out in some way.
pub open spec fn edit_of(record: Record, outcome: OutcomeView) -> Edit {
    match (record, outcome) {
        (
            Record::Query {
                output: Ok(
                    QueryOutput { mode, output: Output::Values(_), output_span, types, .. },
                ),
                ..
            },
            OutcomeView::OutputFailure { actual_output: OutputView::Values(actual), .. },
        ) => Edit::NewOutput(
            output_span,
            laid_out(actual, actual.len() as int, types.len() as int, mode),
        ),
        (
            Record::Query {
                output: Ok(QueryOutput { output: Output::Hashed { .. }, output_span, .. }),
                ..
            },
            OutcomeView::OutputFailure { actual_output: OutputView::Hashed { num_values, md5 }, .. },
        ) => Edit::NewOutput(
            output_span,
            no_text() + decimal(num_values as nat) + " values hashing to "@ + md5 + "\n"@,
        ),
        (
            Record::Simple { output_span, .. },
            OutcomeView::OutputFailure { actual_output: OutputView::Values(actual), .. },
        ) => Edit::NewOutput(output_span, joined(actual, "\n"@)),
        (Record::Query { sql, output: Err(err), .. }, _) if error_pattern(outcome) is Some =>
            Edit::NewError(err.span, error_pattern(outcome)->0, sql.text@, sql.span),
        (Record::Statement { expected_error: Some(err), sql, .. }, _) if error_pattern(
            outcome,
        ) is Some => Edit::NewError(err.span, error_pattern(outcome)->0, sql.text@, sql.span),
        (_, OutcomeView::Success) => Edit::Keep,
        _ => Edit::Unexpected,
    }
}

/// Whether an edit lies behind the cursor.
pub open spec fn edit_fits(b: BufferView, e: Edit) -> bool {
    match e {
        Edit::NewOutput(span, _) => b.reaches(span),
        Edit::NewError(err, _, _, query) => b.offset <= err.start && err.start <= b.input.len() && err.start
            <= query.start + query.len && query.start + query.len <= b.input.len(),
        _ => true,
    }
}

/// The buffer after an edit.
pub open spec fn edited(b: BufferView, e: Edit) -> BufferView {
    match e {
        Edit::NewOutput(span, s) => b.with_header(span).appended(s),
        Edit::NewError(err, message, sql, query) => b.with_error(err, message, sql, query),
        _ => b,
    }
}

/// Whether an outcome of a record can be written out: a row has at least one column.
pub open spec fn has_layout(record: Record, outcome: OutcomeView) -> bool {
    match (record, outcome) {
        (
            Record::Query { output: Ok(QueryOutput { output: Output::Values(_), types, .. }), .. },
            OutcomeView::OutputFailure { actual_output: OutputView::Values(_), .. },
        ) => types.len() > 0,
        _ => true,
    }
}

fn append_chars(out: &mut Vec<char>, s: &str)
    ensures
        final(out)@ == old(out)@ + s@,
{
    let mut cs = chars_of(s);
    out.append(&mut cs);
}

impl RewriteBuffer {
    /// A buffer for a file with the given text.
    pub fn new(input: &str) -> (r: RewriteBuffer)
        ensures
            r@ == new_buffer(input@),
            r@.wf(),
    {
        RewriteBuffer { input: chars_of(input), input_offset: 0, output: Vec::new() }
    }

    /// Moves the file up to `offset` to the output.
    pub fn flush_to(&mut self, offset: usize)
        requires
            old(self)@.wf(),
            old(self)@.offset <= offset <= old(self)@.input.len(),
        ensures
            final(self)@ == old(self)@.flushed(offset as int),
            final(self)@.wf(),
    {
        let ghost before = self@;
        let mut k: usize = self.input_offset;
        while k < offset
            invariant
                0 <= before.offset <= k <= offset <= before.input.len(),
                self.input@ == before.input,
                self.output@ == before.output + before.input.subrange(before.offset, k as int),
            decreases offset - k,
        {
            let c = self.input[k];
            self.output.push(c);
            k += 1;
            assert(before.input.subrange(before.offset, k as int) =~= before.input.subrange(
                before.offset,
                k - 1,
            ).push(c));
        }
        self.input_offset = offset;
        assert(self@ =~= before.flushed(offset as int));
    }

    /// Leaves the file out up to `offset`.
    pub fn skip_to(&mut self, offset: usize)
        requires
            old(self)@.wf(),
            old(self)@.offset <= offset <= old(self)@.input.len(),
        ensures
            final(self)@ == old(self)@.skipped(offset as int),
            final(self)@.wf(),
    {
        self.input_offset = offset;
    }

    /// Puts `s` at the end of the output.
    pub fn append(&mut self, s: &str)
        ensures
            final(self)@ == old(self)@.appended(s@),
    {
        append_chars(&mut self.output, s);
    }

    /// Moves the file up to an expected output to the output, and leaves the expected output
    /// out. Installs the result separator (----), if it does not already exist.
    pub fn append_header(&mut self, expected_output: Span)
        requires
            old(self)@.wf(),
            old(self)@.reaches(expected_output),
        ensures
            final(self)@ == old(self)@.with_header(expected_output),
            final(self)@.wf(),
    {
        assert(self.input.len() == self@.input.len());
        // Output everything before this record.
        self.flush_to(expected_output.start);
        self.skip_to(expected_output.start + expected_output.len);
        proof {
            reveal_strlit("\n----");
            reveal_strlit("\n----\n");
        }
        if self.output.len() >= 5 && text_eq(self.peek_last(5).as_str(), "\n----") {
            self.append("\n");
        } else if !(self.output.len() >= 6 && text_eq(self.peek_last(6).as_str(), "\n----\n")) {
            self.append("\n----\n");
        }
    }

    /// Replaces an expected error, up to the end of the query behind it.
    pub fn rewrite_expected_error(&mut self, old_err: Span, new_err: &str, query: &str, query_at: Span)
        requires
            old(self)@.wf(),
            old(self)@.offset <= old_err.start <= old(self)@.input.len(),
            old_err.start <= query_at.start + query_at.len <= old(self)@.input.len(),
        ensures
            final(self)@ == old(self)@.with_error(old_err, new_err@, query@, query_at),
            final(self)@.wf(),
    {
        assert(self.input.len() == self@.input.len());
        // Output everything before this error message.
        self.flush_to(old_err.start);
        self.append(new_err);
        self.append("\n");
        self.append(query);
        self.skip_to(query_at.start + query_at.len)
    }

    /// The last `n` characters of the output.
    pub fn peek_last(&self, n: usize) -> (r: String)
        requires
            n <= self@.output.len(),
        ensures
            r@ == self@.output.skip(self@.output.len() - n),
    {
        let len = self.output.len();
        let r = text_of(&self.output, len - n, len);
        assert(r@ =~= self@.output.skip(self@.output.len() - n));
        r
    }

    /// The text of the rewritten file.
    pub fn finish(self) -> (r: String)
        requires
            self@.wf(),
        ensures
            r@ == self@.finished(),
    {
        let mut buffer = self;
        let len = buffer.input.len();
        buffer.flush_to(len);
        let n = buffer.output.len();
        let r = text_of(&buffer.output, 0, n);
        assert(r@ =~= buffer.output@);
        r
    }
}

fn lay_out(values: &Vec<String>, per_row: usize, mode: Mode) -> (r: String)
    requires
        per_row > 0,
    ensures
        r@ == laid_out(texts_view(values@), values@.len() as int, per_row as int, mode),
{
    let mut out = String::new();
    let mut k: usize = 0;
    while k < values.len()
        invariant
            k <= values.len(),
            per_row > 0,
            out@ == laid_out(texts_view(values@), k as int, per_row as int, mode),
        decreases values.len() - k,
    {
        let mut next = String::new();
        if k != 0 {
            if matches!(mode, Mode::Cockroach) && k % per_row != 0 {
                next = String::from_str("  ");
            } else {
                next = String::from_str("\n");
            }
        }
        next = next.concat(values[k].as_str());
        out = out.concat(next.as_str());
        k += 1;
    }
    out
}

/// What is to be rewritten, with the texts themselves.
#[derive(Debug)]
pub enum Rewrite {
    Keep,
    NewOutput(Span, String),
    NewError(Span, String, String, Span),
    Unexpected,
}

impl View for Rewrite {
    type V = Edit;

    open spec fn view(&self) -> Edit {
        match self {
            Rewrite::Keep => Edit::Keep,
            Rewrite::NewOutput(span, s) => Edit::NewOutput(*span, s@),
            Rewrite::NewError(err, message, sql, query) => Edit::NewError(
                *err,
                message@,
                sql@,
                *query,
            ),
            Rewrite::Unexpected => Edit::Unexpected,
        }
    }
}

/// What is to be rewritten for a record that came out in some way.
pub fn rewrite_of(record: &Record, outcome: &Outcome) -> (r: Rewrite)
    requires
        has_layout(*record, outcome@),
    ensures
        r@ == edit_of(*record, outcome@),
{
    match (record, outcome) {
        // If we see an output failure for a query, rewrite the expected output
        // to match the observed output.
        (
            Record::Query {
                output: Ok(
                    QueryOutput { mode, output: Output::Values(_), output_span, types, .. },
                ),
                ..
            },
            Outcome::OutputFailure { actual_output: Output::Values(actual), .. },
        ) => {
            return Rewrite::NewOutput(*output_span, lay_out(actual, types.len(), *mode));
        },
        (
            Record::Query {
                output: Ok(QueryOutput { output: Output::Hashed { .. }, output_span, .. }),
                ..
            },
            Outcome::OutputFailure { actual_output: Output::Hashed { num_values, md5 }, .. },
        ) => {
            return Rewrite::NewOutput(
                *output_span,
                String::new().concat(decimal_text(*num_values as u64).as_str()).concat(
                    " values hashing to ",
                ).concat(md5.as_str()).concat("\n"),
            );
        },
        (
            Record::Simple { output_span, .. },
            Outcome::OutputFailure { actual_output: Output::Values(actual), .. },
        ) => {
            return Rewrite::NewOutput(*output_span, join(actual, "\n"));
        },
        _ => {},
    }
    let message = outcome.err_msg();
    match (record, message) {
        (Record::Query { sql, output: Err(err), .. }, Some(message)) => Rewrite::NewError(
            err.span,
            message,
            sql.text.clone(),
            sql.span,
        ),
        (Record::Statement { expected_error: Some(err), sql, .. }, Some(message)) => Rewrite::NewError(
            err.span,
            message,
            sql.text.clone(),
            sql.span,
        ),
        _ => if outcome.success() {
            Rewrite::Keep
        } else {
            Rewrite::Unexpected
        },
    }
}

impl RewriteBuffer {
    /// Whether an edit lies behind the cursor.
    pub fn fits(&self, e: &Rewrite) -> (r: bool)
        ensures
            r == edit_fits(self@, e@),
    {
        let len = self.input.len();
        match e {
            Rewrite::NewOutput(span, _) => self.input_offset <= span.start && span.start <= len && span.len
                <= len - span.start,
            Rewrite::NewError(err, _, _, query) => self.input_offset <= err.start && err.start <= len
                && query.start <= len && query.len <= len - query.start && err.start <= query.start
                + query.len,
            _ => true,
        }
    }

    /// Carries out an edit. The result is whether the outcome was one that can be rewritten.
    pub fn apply(&mut self, e: &Rewrite) -> (r: bool)
        requires
            old(self)@.wf(),
            edit_fits(old(self)@, e@),
        ensures
            final(self)@ == edited(old(self)@, e@),
            final(self)@.wf(),
            r == !(e@ is Unexpected),
    {
        match e {
            Rewrite::Keep => true,
            Rewrite::NewOutput(span, s) => {
                self.append_header(*span);
                self.append(s.as_str());
                true
            },
            Rewrite::NewError(err, message, sql, query) => {
                self.rewrite_expected_error(*err, message.as_str(), sql.as_str(), *query);
                true
            },
            Rewrite::Unexpected => false,
        }
    }
}

} // verus!
