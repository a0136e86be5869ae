//! Parsing SQL text.

use vstd::prelude::*;
use vstd::utf8::encode_utf8;

use crate::sql_parser::checks::text_in;
use crate::sql_parser::expr::expr;
use crate::sql_parser::kind::Kind;
use crate::sql_parser::lexer::{byte_at, lex, tokens_of};
use crate::sql_parser::names::data_type;
use crate::sql_parser::outcome::Out::{Failed, Got};
use crate::sql_parser::outcome::{error_view, Failure, FailureView, Out, ParserError};
use crate::sql_parser::parser::{position, token_at, Input, Parser};
use crate::sql_parser::statement::{set_variable_value_list, statements};
use crate::sql_parser::syntax::{group_tree_views, trees0, views, views_index, Tree, TreeView, Trees};
use crate::sql_parser::text::{chars_of, decimal, decimal_text, is_white, no_text, texts_view, white};
use crate::sql_parser::token::TokenView;

verus! {

/// Maximum allowed size for a batch of statements in bytes: 1MB.
pub const MAX_STATEMENT_BATCH_SIZE: usize = 1_000_000;

/// What the parser reads of a text with the given tokens.
pub open spec fn input_of(sql: Seq<char>, toks: Seq<(TokenView, int)>) -> Input {
    Input { toks, end: encode_utf8(sql).len() as int, depth: 0 }
}

/// What the outcome of a grammar rule gives.
pub open spec fn given<T>(out: Out<T>) -> Result<T, FailureView> {
    match out {
        Got(v, _) => Ok(v),
        Failed(f, _) => Err(f),
    }
}

/// An outcome that must have consumed all tokens.
pub open spec fn given_whole(p: Input, out: Out<TreeView>, message: Seq<char>) -> Result<TreeView, FailureView> {
    match out {
        Got(v, i) => if token_at(p, i) is Some {
            Err(error_view(position(p, i), message))
        } else {
            Ok(v)
        },
        Failed(f, _) => Err(f),
    }
}

/// The statements of a text, or why it has none.
pub open spec fn statements_of(sql: Seq<char>) -> Result<Seq<TreeView>, FailureView> {
    match tokens_of(sql) {
        Ok(toks) => given(statements(input_of(sql, toks), 0, false, Seq::empty())),
        Err(b) => Err(error_view(byte_at(sql, b.at), b.message)),
    }
}

/// The expression that a text is, or why it is none.
pub open spec fn expr_of(sql: Seq<char>) -> Result<TreeView, FailureView> {
    match tokens_of(sql) {
        Ok(toks) => given_whole(
            input_of(sql, toks),
            expr(input_of(sql, toks), 0),
            "extra token after expression"@,
        ),
        Err(b) => Err(error_view(byte_at(sql, b.at), b.message)),
    }
}

/// The data type that a text is, or why it is none.
pub open spec fn data_type_of(sql: Seq<char>) -> Result<TreeView, FailureView> {
    match tokens_of(sql) {
        Ok(toks) => given_whole(
            input_of(sql, toks),
            data_type(input_of(sql, toks), 0),
            "extra token after data type"@,
        ),
        Err(b) => Err(error_view(byte_at(sql, b.at), b.message)),
    }
}

/// Whether the result of an exec function is the one described.
pub open spec fn is_tree_result(r: Result<Tree, ParserError>, described: Result<TreeView, FailureView>) -> bool {
    match r {
        Ok(t) => described == Ok::<TreeView, FailureView>(t@),
        Err(e) => described == Err::<TreeView, FailureView>(error_view(e@.0, e@.1)),
    }
}

/// Whether the result of an exec function is the one described.
pub open spec fn is_trees_result(r: Result<Vec<Tree>, ParserError>, described: Result<Seq<TreeView>, FailureView>) -> bool {
    match r {
        Ok(ts) => described == Ok::<Seq<TreeView>, FailureView>(views(ts@)),
        Err(e) => described == Err::<Seq<TreeView>, FailureView>(error_view(e@.0, e@.1)),
    }
}

/// Whether an error is at a byte position in a text, or at its end.
pub open spec fn is_in_text(e: ParserError, sql: Seq<char>) -> bool {
    e.pos <= encode_utf8(sql).len()
}

/// The parser at the start of a text.
fn start(sql: &str) -> (r: Result<Parser, ParserError>)
    requires
        sql@.len() < usize::MAX,
    ensures
        match r {
            Ok(p) => {
                &&& tokens_of(sql@) matches Ok(toks)
                &&& p.input() == input_of(sql@, toks)
                &&& p.index == 0
                &&& p.ready()
            },
            Err(e) => {
                &&& tokens_of(sql@) matches Err(b)
                &&& e@ == (byte_at(sql@, b.at), b.message)
                &&& e.pos <= encode_utf8(sql@).len()
            },
        },
{
    let tokens = lex(sql)?;
    Ok(Parser::new(sql.as_bytes().len(), tokens))
}

/// Parses a SQL string containing zero or more SQL statements. The result is
/// `None` where the grammar takes a word but gives it no meaning.
pub fn try_parse_statements(sql: &str) -> (r: Option<Result<Vec<Tree>, ParserError>>)
    requires
        sql@.len() < usize::MAX,
    ensures
        match r {
            Some(r) => is_trees_result(r, statements_of(sql@)),
            None => statements_of(sql@) == Err::<Seq<TreeView>, FailureView>(FailureView::Unhandled),
        },
        r matches Some(Err(e)) ==> is_in_text(e, sql@),
{
    let mut parser = match start(sql) {
        Ok(p) => p,
        Err(e) => {
            return Some(Err(e));
        },
    };
    match parser.parse_statements(false, trees0()) {
        Ok(ts) => {
            proof {
                reveal(<Trees as View>::view);
            }
            Some(Ok(ts.0))
        },
        Err(Failure::Error(e)) => Some(Err(e)),
        Err(Failure::Unhandled) => None,
    }
}

/// Parses a SQL string containing zero or more SQL statements.
pub fn parse_statements(sql: &str) -> (r: Result<Vec<Tree>, ParserError>)
    requires
        sql@.len() < usize::MAX,
        statements_of(sql@) != Err::<Seq<TreeView>, FailureView>(FailureView::Unhandled),
    ensures
        is_trees_result(r, statements_of(sql@)),
        r matches Err(e) ==> is_in_text(e, sql@),
{
    match try_parse_statements(sql) {
        Some(r) => r,
        None => Ok(Vec::new()),
    }
}

/// The display formatting of `bytesize::ByteSize::b`. A million bytes are 1000.0 KB: their
/// logarithm is less than twice that of 1024, so they are counted in thousands. Nothing is said
/// of other numbers.
#[verifier::external_body]
fn byte_size_string(n: u64) -> (r: String)
    ensures
        n == 1_000_000 ==> r@ == "1000.0 KB"@,
{
    bytesize::ByteSize::b(n).to_string()
}

/// What is said of a batch of statements that is larger than a limit, given the limit's text.
pub open spec fn oversize_text(limit: Seq<char>) -> Seq<char> {
    no_text() + "statement batch size cannot exceed "@ + limit
}

/// What is said of a batch of statements that is larger than a limit, given the limit's text.
pub fn oversize_message(limit: &str) -> (r: String)
    ensures
        r@ == oversize_text(limit@),
{
    String::new().concat("statement batch size cannot exceed ").concat(limit)
}

/// Whether a text is too large to be parsed as a batch of statements.
pub open spec fn is_oversized(sql: Seq<char>) -> bool {
    encode_utf8(sql).len() > MAX_STATEMENT_BATCH_SIZE
}

/// Parses a SQL string containing zero or more SQL statements.
/// Statements larger than [`MAX_STATEMENT_BATCH_SIZE`] are rejected.
///
/// The outer Result is for errors related to the statement size. The inner Result is for
/// errors during the parsing.
pub fn parse_statements_with_limit(sql: &str) -> (r: Result<Result<Vec<Tree>, ParserError>, String>)
    requires
        sql@.len() < usize::MAX,
        is_oversized(sql@) || statements_of(sql@) != Err::<Seq<TreeView>, FailureView>(
            FailureView::Unhandled,
        ),
    ensures
        match r {
            Ok(inner) => {
                &&& !is_oversized(sql@)
                &&& is_trees_result(inner, statements_of(sql@))
                &&& inner matches Err(e) ==> is_in_text(e, sql@)
            },
            Err(message) => is_oversized(sql@) && message@ == oversize_text("1000.0 KB"@),
        },
{
    if sql.as_bytes().len() > MAX_STATEMENT_BATCH_SIZE {
        let limit = byte_size_string(1_000_000);
        Err(oversize_message(limit.as_str()))
    } else {
        Ok(parse_statements(sql))
    }
}

/// Parses a SQL string containing one SQL expression.
pub fn parse_expr(sql: &str) -> (r: Result<Tree, ParserError>)
    requires
        sql@.len() < usize::MAX,
    ensures
        is_tree_result(r, expr_of(sql@)),
        r matches Err(e) ==> is_in_text(e, sql@),
{
    let mut parser = start(sql)?;
    match parser.parse_expr() {
        Ok(e) => {
            let pos: usize = parser.peek_pos();
            if parser.next_token().is_some() {
                Err(ParserError::new(pos, String::from_str("extra token after expression")))
            } else {
                Ok(e)
            }
        },
        Err(Failure::Error(e)) => Err(e),
        Err(Failure::Unhandled) => Err(ParserError::new(0, String::new())),
    }
}

/// Parses a SQL string containing a single data type.
pub fn parse_data_type(sql: &str) -> (r: Result<Tree, ParserError>)
    requires
        sql@.len() < usize::MAX,
    ensures
        is_tree_result(r, data_type_of(sql@)),
        r matches Err(e) ==> is_in_text(e, sql@),
{
    let mut parser = start(sql)?;
    match parser.parse_data_type() {
        Ok(t) => {
            let pos: usize = parser.peek_pos();
            if parser.next_token().is_some() {
                Err(ParserError::new(pos, String::from_str("extra token after data type")))
            } else {
                Ok(t)
            }
        },
        Err(Failure::Error(e)) => Err(e),
        Err(Failure::Unhandled) => Err(ParserError::new(0, String::new())),
    }
}

/// Whether a text is nothing but white space.
pub open spec fn is_blank(s: Seq<char>) -> bool {
    forall|k: int| 0 <= k < s.len() ==> is_white(#[trigger] s[k])
}

fn is_blank_text(s: &str) -> (r: bool)
    ensures
        r == is_blank(s@),
{
    let cs = chars_of(s);
    let mut k: usize = 0;
    while k < cs.len()
        invariant
            k <= cs.len(),
            cs@ == s@,
            forall|j: int| 0 <= j < k ==> is_white(#[trigger] s@[j]),
        decreases cs.len() - k,
    {
        let c = cs[k];
        if !white(c) {
            assert(!is_white(s@[k as int]));
            return false;
        }
        k += 1;
    }
    true
}

/// `s` with each single quote doubled.
pub open spec fn double_single_quotes(s: Seq<char>) -> Seq<char>
    decreases s.len(),
{
    if s.len() == 0 {
        no_text()
    } else {
        let rest = double_single_quotes(s.drop_last());
        if s.last() == '\'' {
            rest.push('\'').push('\'')
        } else {
            rest.push(s.last())
        }
    }
}

fn escape_single_quotes(s: &str) -> (r: String)
    ensures
        r@ == double_single_quotes(s@),
{
    let cs = chars_of(s);
    let mut out = String::new();
    let mut k: usize = 0;
    while k < cs.len()
        invariant
            k <= cs.len(),
            cs@ == s@,
            out@ == double_single_quotes(s@.take(k as int)),
        decreases cs.len() - k,
    {
        assert(s@.take(k + 1).drop_last() =~= s@.take(k as int));
        if cs[k] == '\'' {
            out.push('\'');
        }
        out.push(cs[k]);
        k += 1;
    }
    assert(s@.take(k as int) =~= s@);
    out
}

/// How a field of an interval is written.
pub open spec fn field_name(t: TreeView) -> Seq<char> {
    match t {
        TreeView::Node(Kind::Year, _) => "YEAR"@,
        TreeView::Node(Kind::Month, _) => "MONTH"@,
        TreeView::Node(Kind::Day, _) => "DAY"@,
        TreeView::Node(Kind::Hour, _) => "HOUR"@,
        TreeView::Node(Kind::Minute, _) => "MINUTE"@,
        _ => "SECOND"@,
    }
}

/// How the range of fields and the precision of an interval literal are written.
pub open spec fn interval_range(high: TreeView, low: TreeView, precision: TreeView) -> Seq<char> {
    let from_year = high matches TreeView::Node(Kind::Year, _);
    let to_second = low matches TreeView::Node(Kind::Second, _);
    match precision {
        TreeView::Num(n) => if from_year && to_second {
            no_text() + " SECOND("@ + decimal(n as nat) + ")"@
        } else {
            no_text() + " "@ + field_name(high) + " TO "@ + field_name(low) + "("@ + decimal(n as nat)
                + ")"@
        },
        _ => if from_year && to_second {
            no_text()
        } else if from_year {
            no_text() + " "@ + field_name(low)
        } else {
            no_text() + " "@ + field_name(high) + " TO "@ + field_name(low)
        },
    }
}

/// How a literal value is written.
#[verifier::opaque]
pub open spec fn literal_text(v: TreeView) -> Seq<char> {
    match v {
        TreeView::Node(kind, cs) => match kind {
            Kind::NumberValue => if cs.len() == 1 {
                text_in(cs[0])
            } else {
                no_text()
            },
            Kind::StringValue => if cs.len() == 1 {
                no_text() + "'"@ + double_single_quotes(text_in(cs[0])) + "'"@
            } else {
                no_text()
            },
            Kind::HexStringValue => if cs.len() == 1 {
                no_text() + "X'"@ + text_in(cs[0]) + "'"@
            } else {
                no_text()
            },
            Kind::BooleanValue => if cs.len() == 1 && cs[0] == TreeView::Flag(true) {
                "true"@
            } else {
                "false"@
            },
            Kind::Interval => if cs.len() == 4 {
                no_text() + "INTERVAL '"@ + double_single_quotes(text_in(cs[0])) + "'"@ + interval_range(
                    cs[1],
                    cs[2],
                    cs[3],
                )
            } else {
                no_text()
            },
            _ => "NULL"@,
        },
        _ => no_text(),
    }
}

/// What a variable is set to by a value: the text of a string or of an identifier,
/// and any other literal as it is written.
#[verifier::opaque]
pub open spec fn unquoted_value(v: TreeView) -> Seq<char> {
    match v {
        TreeView::Node(Kind::LiteralVariable, cs) => if cs.len() == 1 {
            match cs[0] {
                TreeView::Node(Kind::StringValue, ss) => if ss.len() == 1 {
                    text_in(ss[0])
                } else {
                    no_text()
                },
                _ => literal_text(cs[0]),
            }
        } else {
            no_text()
        },
        TreeView::Node(_, cs) => if cs.len() == 1 {
            text_in(cs[0])
        } else {
            no_text()
        },
        _ => no_text(),
    }
}

fn field_string(t: &Tree) -> (r: String)
    ensures
        r@ == field_name(t@),
{
    if t.is_node(Kind::Year) {
        String::from_str("YEAR")
    } else if t.is_node(Kind::Month) {
        String::from_str("MONTH")
    } else if t.is_node(Kind::Day) {
        String::from_str("DAY")
    } else if t.is_node(Kind::Hour) {
        String::from_str("HOUR")
    } else if t.is_node(Kind::Minute) {
        String::from_str("MINUTE")
    } else {
        String::from_str("SECOND")
    }
}

fn interval_range_string(high: &Tree, low: &Tree, precision: &Tree) -> (r: String)
    ensures
        r@ == interval_range(high@, low@, precision@),
{
    proof {
        reveal(<Tree as View>::view);
    }
    let from_year = high.is_node(Kind::Year);
    let to_second = low.is_node(Kind::Second);
    match precision {
        Tree::Num(n) => {
            if from_year && to_second {
                String::new().concat(" SECOND(").concat(decimal_text(*n).as_str()).concat(")")
            } else {
                String::new().concat(" ").concat(field_string(high).as_str()).concat(" TO ").concat(
                    field_string(low).as_str(),
                ).concat("(").concat(decimal_text(*n).as_str()).concat(")")
            }
        },
        _ => {
            if from_year && to_second {
                String::new()
            } else if from_year {
                String::new().concat(" ").concat(field_string(low).as_str())
            } else {
                String::new().concat(" ").concat(field_string(high).as_str()).concat(" TO ").concat(
                    field_string(low).as_str(),
                )
            }
        },
    }
}

/// How a literal value is written.
pub fn literal_string(v: &Tree) -> (r: String)
    ensures
        r@ == literal_text(v@),
{
    broadcast use {group_tree_views, views_index};

    proof {
        reveal(literal_text);
        reveal(<Tree as View>::view);
    }
    match v {
        Tree::Node(kind, cs) => {
            let kind = *kind;
            if kind == Kind::NumberValue {
                if cs.len() == 1 {
                    cs[0].text()
                } else {
                    String::new()
                }
            } else if kind == Kind::StringValue {
                if cs.len() == 1 {
                    String::new().concat("'").concat(
                        escape_single_quotes(cs[0].text().as_str()).as_str(),
                    ).concat("'")
                } else {
                    String::new()
                }
            } else if kind == Kind::HexStringValue {
                if cs.len() == 1 {
                    String::new().concat("X'").concat(cs[0].text().as_str()).concat("'")
                } else {
                    String::new()
                }
            } else if kind == Kind::BooleanValue {
                let on = if cs.len() == 1 {
                    match &cs[0] {
                        Tree::Flag(b) => *b,
                        _ => false,
                    }
                } else {
                    false
                };
                if on {
                    String::from_str("true")
                } else {
                    String::from_str("false")
                }
            } else if kind == Kind::Interval {
                if cs.len() == 4 {
                    String::new().concat("INTERVAL '").concat(
                        escape_single_quotes(cs[0].text().as_str()).as_str(),
                    ).concat("'").concat(interval_range_string(&cs[1], &cs[2], &cs[3]).as_str())
                } else {
                    String::new()
                }
            } else {
                String::from_str("NULL")
            }
        },
        _ => String::new(),
    }
}

/// What a variable is set to by a value.
pub fn unquoted_string(v: &Tree) -> (r: String)
    ensures
        r@ == unquoted_value(v@),
{
    broadcast use {group_tree_views, views_index};

    proof {
        reveal(unquoted_value);
        reveal(<Tree as View>::view);
    }
    match v {
        Tree::Node(kind, cs) => {
            if cs.len() != 1 {
                String::new()
            } else if *kind == Kind::LiteralVariable {
                match &cs[0] {
                    Tree::Node(Kind::StringValue, ss) => {
                        if ss.len() == 1 {
                            ss[0].text()
                        } else {
                            String::new()
                        }
                    },
                    _ => literal_string(&cs[0]),
                }
            } else {
                cs[0].text()
            }
        },
        _ => String::new(),
    }
}

/// The values that a comma-separated list of identifiers and literals gives.
pub open spec fn split_identifiers(s: Seq<char>) -> Result<Seq<Seq<char>>, FailureView> {
    if is_blank(s) {
        Ok(Seq::empty())
    } else {
        match tokens_of(s) {
            Ok(toks) => match set_variable_value_list(input_of(s, toks), 0, Seq::empty()) {
                Got(vs, _) => Ok(Seq::new(vs.len(), |k: int| unquoted_value(vs[k]))),
                Failed(f, _) => Err(f),
            },
            Err(b) => Err(error_view(byte_at(s, b.at), b.message)),
        }
    }
}

/// Parses a string containing a comma-separated list of identifiers and
/// returns their underlying string values. Leading and trailing whitespace is
/// ignored, and empty input gives a 0-length result.
///
/// This is analogous to the `SplitIdentifierString` function in PostgreSQL.
pub fn split_identifier_string(s: &str) -> (r: Result<Vec<String>, ParserError>)
    requires
        s@.len() < usize::MAX,
    ensures
        match r {
            Ok(texts) => split_identifiers(s@) == Ok::<Seq<Seq<char>>, FailureView>(texts_view(texts@)),
            Err(e) => split_identifiers(s@) == Err::<Seq<Seq<char>>, FailureView>(
                error_view(e@.0, e@.1),
            ),
        },
        r matches Err(e) ==> is_in_text(e, s@),
{
    if is_blank_text(s) {
        let texts: Vec<String> = Vec::new();
        assert(texts_view(texts@) =~= Seq::empty());
        return Ok(texts);
    }
    let mut parser = start(s)?;
    match parser.parse_set_variable_value_list(trees0()) {
        Ok(vs) => {
            let mut texts: Vec<String> = Vec::new();
            let mut k: usize = 0;
            proof {
                reveal(<Trees as View>::view);
            }
            while k < vs.0.len()
                invariant
                    k <= vs.0.len(),
                    texts.len() == k,
                    forall|j: int|
                        0 <= j < k ==> (#[trigger] texts@[j])@ == unquoted_value(views(vs.0@)[j]),
                decreases vs.0.len() - k,
            {
                broadcast use views_index;

                let t = unquoted_string(&vs.0[k]);
                texts.push(t);
                k += 1;
            }
            assert(texts_view(texts@) =~= Seq::new(vs@.len(), |j: int| unquoted_value(vs@[j])));
            Ok(texts)
        },
        Err(Failure::Error(e)) => Err(e),
        Err(Failure::Unhandled) => Err(ParserError::new(0, String::new())),
    }
}

} // verus!
