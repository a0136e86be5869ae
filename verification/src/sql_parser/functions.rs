//! What functions, windows, intervals and whole texts come to.

use vstd::prelude::*;

use crate::sql_parser::alignment::expr::{unfold_function, unfold_in_predicate, unfold_range_predicate};
use crate::sql_parser::checks::{date_time_field, field_order, is_node};
use crate::sql_parser::constructs::{reads, reads_list};
use crate::sql_parser::expr::{
    distinct_choice, expr, function, interval_precision, interval_value, range_predicate, window_frame,
    window_frame_bound,
};
use crate::sql_parser::keywords::Keyword;
use crate::sql_parser::kind::Kind;
use crate::sql_parser::lexer::{tokens_of, Blame};
use crate::sql_parser::names::{data_type, literal_string, literal_uint, optional_precision};
use crate::sql_parser::outcome::Out::{Failed, Got};
use crate::sql_parser::outcome::{error_view, FailureView};
use crate::sql_parser::parse::{double_single_quotes, literal_text, unquoted_value, data_type_of, expr_of, input_of, is_oversized, oversize_text};
use crate::sql_parser::parser::{at_keyword, at_token, token_at, Input};
use crate::sql_parser::query::{optional_args, order_by_expr_list, query};
use crate::sql_parser::spelling::doubled;
use crate::sql_parser::statement::{statement, statements};
use crate::sql_parser::syntax::TreeView;
use crate::sql_parser::token::TokenView;

verus! {

/// A function takes only different arguments exactly where `DISTINCT` stands before them.
pub proof fn law_distinct_arguments_read(p: Input, i: int, name: TreeView, distinct: bool, args: TreeView, j: int)
    requires
        0 <= i,
        at_token(p, i, TokenView::LParen),
        at_keyword(p, i + 1, Keyword::DISTINCT) == distinct,
        !at_keyword(p, i + 1, Keyword::ALL),
        distinct ==> !at_keyword(p, i + 2, Keyword::ALL),
        optional_args(
            p,
            if distinct {
                i + 2
            } else {
                i + 1
            },
            true,
        ) == Got::<TreeView>(args, j),
        i + 1 < j <= p.toks.len(),
        distinct ==> i + 2 < j,
        !is_node(args, Kind::StarArgs),
        !at_keyword(p, j, Keyword::FILTER),
        !at_keyword(p, j, Keyword::OVER),
    ensures
        function(p, i, name) == Got::<TreeView>(
            TreeView::Node(
                Kind::Function,
                seq![name, args, TreeView::Absent, TreeView::Absent, TreeView::Flag(distinct)],
            ),
            j,
        ),
{
    reveal(distinct_choice);
    unfold_function(p, i, name);
}

/// `FILTER (WHERE c)` behind a function takes only the rows where `c`.
pub proof fn law_filter_read(p: Input, i: int, name: TreeView, args: TreeView, j: int, c: TreeView, k: int)
    requires
        0 <= i,
        at_token(p, i, TokenView::LParen),
        !at_keyword(p, i + 1, Keyword::DISTINCT),
        !at_keyword(p, i + 1, Keyword::ALL),
        optional_args(p, i + 1, true) == Got::<TreeView>(args, j),
        i + 1 < j <= p.toks.len(),
        at_keyword(p, j, Keyword::FILTER),
        at_token(p, j + 1, TokenView::LParen),
        at_keyword(p, j + 2, Keyword::WHERE),
        reads(p, j + 3, c, k),
        at_token(p, k, TokenView::RParen),
        !at_keyword(p, k + 1, Keyword::OVER),
    ensures
        function(p, i, name) == Got::<TreeView>(
            TreeView::Node(
                Kind::Function,
                seq![name, args, c, TreeView::Absent, TreeView::Flag(false)],
            ),
            k + 1,
        ),
{
    reveal(distinct_choice);
    unfold_function(p, i, name);
}

/// `OVER (PARTITION BY .. ORDER BY ..)` behind a function names the rows that it looks at.
pub proof fn law_over_read(
    p: Input,
    i: int,
    name: TreeView,
    args: TreeView,
    j: int,
    es: Seq<TreeView>,
    k: int,
    os: Seq<TreeView>,
    l: int,
)
    requires
        0 <= i,
        at_token(p, i, TokenView::LParen),
        !at_keyword(p, i + 1, Keyword::DISTINCT),
        !at_keyword(p, i + 1, Keyword::ALL),
        optional_args(p, i + 1, true) == Got::<TreeView>(args, j),
        i + 1 < j <= p.toks.len(),
        at_keyword(p, j, Keyword::OVER),
        at_token(p, j + 1, TokenView::LParen),
        at_keyword(p, j + 2, Keyword::PARTITION),
        at_keyword(p, j + 3, Keyword::BY),
        reads_list(p, j + 4, es, k),
        at_keyword(p, k, Keyword::ORDER),
        at_keyword(p, k + 1, Keyword::BY),
        order_by_expr_list(p, k + 2, Seq::empty()) == Got::<Seq<TreeView>>(os, l),
        at_token(p, l, TokenView::RParen),
    ensures
        function(p, i, name) == Got::<TreeView>(
            TreeView::Node(
                Kind::Function,
                seq![
                    name,
                    args,
                    TreeView::Absent,
                    TreeView::Node(
                        Kind::WindowSpec,
                        seq![TreeView::List(es), TreeView::List(os), TreeView::Absent],
                    ),
                    TreeView::Flag(false),
                ],
            ),
            l + 1,
        ),
{
    reveal(distinct_choice);
    unfold_function(p, i, name);
}

/// The bounds of a window lie before the current row, at it, or behind it, by a number of rows or
/// without a bound.
pub proof fn law_window_bounds_read(p: Input, i: int, n: u64)
    ensures
        at_keyword(p, i, Keyword::CURRENT) && at_keyword(p, i + 1, Keyword::ROW) ==> window_frame_bound(p, i)
            == Got::<TreeView>(TreeView::Node(Kind::CurrentRow, Seq::<TreeView>::empty()), i + 2),
        at_keyword(p, i, Keyword::UNBOUNDED) && at_keyword(p, i + 1, Keyword::PRECEDING)
            ==> window_frame_bound(p, i) == Got::<TreeView>(
            TreeView::Node(Kind::Preceding, seq![TreeView::Absent]),
            i + 2,
        ),
        at_keyword(p, i, Keyword::UNBOUNDED) && at_keyword(p, i + 1, Keyword::FOLLOWING)
            ==> window_frame_bound(p, i) == Got::<TreeView>(
            TreeView::Node(Kind::Following, seq![TreeView::Absent]),
            i + 2,
        ),
        literal_uint(p, i) == Got::<u64>(n, i + 1) && token_at(p, i) is Some
            && token_at(p, i)->0 is Number && at_keyword(p, i + 1, Keyword::PRECEDING) ==> window_frame_bound(p, i) == Got::<TreeView>(
            TreeView::Node(Kind::Preceding, seq![TreeView::Num(n)]),
            i + 2,
        ),
        literal_uint(p, i) == Got::<u64>(n, i + 1) && token_at(p, i) is Some
            && token_at(p, i)->0 is Number && at_keyword(p, i + 1, Keyword::FOLLOWING) ==> window_frame_bound(p, i) == Got::<TreeView>(
            TreeView::Node(Kind::Following, seq![TreeView::Num(n)]),
            i + 2,
        ),
{
    reveal(window_frame_bound);
}

/// The extent of a window is counted in rows, values or groups, as it is named, and has a start
/// and maybe an end.
pub proof fn law_window_extent_read(p: Input, i: int, k: Keyword, a: TreeView, j: int, b: TreeView, l: int)
    requires
        k == Keyword::ROWS || k == Keyword::RANGE || k == Keyword::GROUPS,
        at_keyword(p, i, k),
    ensures
        ({
            let units = TreeView::Node(
                match k {
                    Keyword::ROWS => Kind::Rows,
                    Keyword::RANGE => Kind::Range,
                    _ => Kind::Groups,
                },
                Seq::<TreeView>::empty(),
            );
            &&& at_keyword(p, i + 1, Keyword::BETWEEN) && window_frame_bound(p, i + 2) == Got::<TreeView>(a, j)
                && at_keyword(p, j, Keyword::AND) && window_frame_bound(p, j + 1) == Got::<TreeView>(b, l)
                ==> window_frame(p, i) == Got::<TreeView>(
                TreeView::Node(Kind::WindowFrame, seq![units, a, b]),
                l,
            )
            &&& !at_keyword(p, i + 1, Keyword::BETWEEN) && window_frame_bound(p, i + 1) == Got::<TreeView>(
                a,
                j,
            ) ==> window_frame(p, i) == Got::<TreeView>(
                TreeView::Node(Kind::WindowFrame, seq![units, a, TreeView::Absent]),
                j,
            )
        }),
{
    let ks = seq![Keyword::ROWS, Keyword::RANGE, Keyword::GROUPS];
    assert(ks[0] == Keyword::ROWS && ks[1] == Keyword::RANGE && ks[2] == Keyword::GROUPS);
    assert(ks.contains(k));
    reveal(window_frame);
}

/// `e IN (q)` asks whether `e` is among the rows of a query, and is negated exactly where `NOT`
/// stands before `IN`.
pub proof fn law_in_query_read(p: Input, i: int, e: TreeView, negated: bool, q: TreeView, j: int)
    requires
        at_keyword(p, i, Keyword::NOT) == negated,
        ({
            let at = if negated {
                i + 1
            } else {
                i
            };
            &&& at_keyword(p, at, Keyword::IN)
            &&& at_token(p, at + 1, TokenView::LParen)
            &&& at_keyword(p, at + 2, Keyword::SELECT)
            &&& query(p, at + 2) == Got::<TreeView>(q, j)
        }),
        at_token(p, j, TokenView::RParen),
    ensures
        range_predicate(p, i, e) == Got::<TreeView>(
            TreeView::Node(Kind::InSubquery, seq![e, q, TreeView::Flag(negated)]),
            j + 1,
        ),
{
    let ks = seq![Keyword::SELECT, Keyword::VALUES, Keyword::WITH];
    assert(ks[0] == Keyword::SELECT);
    assert(ks.contains(Keyword::SELECT));
    let next = if negated {
        i + 2
    } else {
        i + 1
    };
    unfold_range_predicate(p, i, e);
    unfold_in_predicate(p, next, e, negated);
}

/// Whether a keyword is a field of an interval.
pub open spec fn is_field(k: Keyword) -> bool {
    k == Keyword::YEAR || k == Keyword::MONTH || k == Keyword::DAY || k == Keyword::HOUR || k
        == Keyword::MINUTE || k == Keyword::SECOND
}

/// An interval counts up to the field that is named, or from one field to another that is less
/// significant; a range in the other direction is refused.
pub proof fn law_interval_read(p: Input, i: int, s: Seq<char>, d: Keyword, e: Keyword)
    requires
        at_token(p, i, TokenView::String(s)),
        is_field(d),
        at_keyword(p, i + 1, d),
        is_field(e),
    ensures
        !at_keyword(p, i + 2, Keyword::TO) && !at_token(p, i + 2, TokenView::LParen) ==> interval_value(p, i)
            == Got::<TreeView>(
            TreeView::Node(
                Kind::Interval,
                seq![
                    TreeView::Text(s),
                    TreeView::Node(Kind::Year, Seq::<TreeView>::empty()),
                    date_time_field(d),
                    TreeView::Absent,
                ],
            ),
            i + 2,
        ),
        at_keyword(p, i + 2, Keyword::TO) && at_keyword(p, i + 3, e) && field_order(d) < field_order(e)
            && !at_token(p, i + 4, TokenView::LParen) ==> interval_value(p, i) == Got::<TreeView>(
            TreeView::Node(
                Kind::Interval,
                seq![TreeView::Text(s), date_time_field(d), date_time_field(e), TreeView::Absent],
            ),
            i + 4,
        ),
        at_keyword(p, i + 2, Keyword::TO) && at_keyword(p, i + 3, e) && field_order(d) >= field_order(e)
            ==> interval_value(p, i) is Failed,
{
    let ks = seq![
        Keyword::YEAR,
        Keyword::MONTH,
        Keyword::DAY,
        Keyword::HOUR,
        Keyword::MINUTE,
        Keyword::SECOND,
        Keyword::YEARS,
        Keyword::MONTHS,
        Keyword::DAYS,
        Keyword::HOURS,
        Keyword::MINUTES,
        Keyword::SECONDS,
    ];
    assert(ks[0] == Keyword::YEAR && ks[1] == Keyword::MONTH && ks[2] == Keyword::DAY && ks[3] == Keyword::HOUR
        && ks[4] == Keyword::MINUTE && ks[5] == Keyword::SECOND);
    assert(ks.contains(d) && ks.contains(e));
    reveal(interval_value);
    reveal(literal_string);
    reveal(interval_precision);
    reveal(optional_precision);
}

/// Fields are the more significant the longer they last, and each is what it is called.
pub proof fn law_fields()
    ensures
        field_order(Keyword::YEAR) < field_order(Keyword::MONTH),
        field_order(Keyword::MONTH) < field_order(Keyword::DAY),
        field_order(Keyword::DAY) < field_order(Keyword::HOUR),
        field_order(Keyword::HOUR) < field_order(Keyword::MINUTE),
        field_order(Keyword::MINUTE) < field_order(Keyword::SECOND),
        date_time_field(Keyword::YEAR) == TreeView::Node(Kind::Year, Seq::<TreeView>::empty()),
        date_time_field(Keyword::MONTH) == TreeView::Node(Kind::Month, Seq::<TreeView>::empty()),
        date_time_field(Keyword::DAY) == TreeView::Node(Kind::Day, Seq::<TreeView>::empty()),
        date_time_field(Keyword::HOUR) == TreeView::Node(Kind::Hour, Seq::<TreeView>::empty()),
        date_time_field(Keyword::MINUTE) == TreeView::Node(Kind::Minute, Seq::<TreeView>::empty()),
        date_time_field(Keyword::SECOND) == TreeView::Node(Kind::Second, Seq::<TreeView>::empty()),
{
}

/// A text is an expression, or a data type, only as a whole: what is left behind it is an error
/// at the place where it starts.
pub proof fn law_whole_texts(sql: Seq<char>, toks: Seq<(TokenView, int)>, e: TreeView, j: int)
    requires
        tokens_of(sql) == Ok::<Seq<(TokenView, int)>, Blame>(toks),
        0 <= j <= toks.len(),
    ensures
        expr(input_of(sql, toks), 0) == Got::<TreeView>(e, j) && j == toks.len() ==> expr_of(sql) == Ok::<
            TreeView,
            FailureView,
        >(e),
        expr(input_of(sql, toks), 0) == Got::<TreeView>(e, j) && j < toks.len() ==> expr_of(sql) == Err::<
            TreeView,
            FailureView,
        >(error_view(toks[j].1, "extra token after expression"@)),
        data_type(input_of(sql, toks), 0) == Got::<TreeView>(e, j) && j == toks.len() ==> data_type_of(sql)
            == Ok::<TreeView, FailureView>(e),
        data_type(input_of(sql, toks), 0) == Got::<TreeView>(e, j) && j < toks.len() ==> data_type_of(sql)
            == Err::<TreeView, FailureView>(error_view(toks[j].1, "extra token after data type"@)),
{
}

/// A statement is followed by a delimiter or the end of the text; anything else is an error at
/// the place where it stands.
pub proof fn law_statements_delimited(p: Input, i: int, s: TreeView, j: int, stmts: Seq<TreeView>)
    requires
        0 <= i < j < p.toks.len(),
        statement(p, i) == Got::<TreeView>(s, j),
        !at_token(p, i, TokenView::Semicolon),
        !at_token(p, j, TokenView::Semicolon),
    ensures
        statements(p, i, false, stmts) matches Failed(FailureView::Error { pos, .. }, _) && pos == p.toks[j].1,
{
    reveal(statements);
    reveal_with_fuel(statements, 2);
}

/// A batch of statements is too large exactly where it has more than a million bytes.
pub proof fn law_batch_size(sql: Seq<char>)
    ensures
        is_oversized(sql) == (vstd::utf8::encode_utf8(sql).len() > 1_000_000),
        oversize_text("1000.0 KB"@) == "statement batch size cannot exceed "@ + "1000.0 KB"@,
{
    assert(oversize_text("1000.0 KB"@) =~= "statement batch size cannot exceed "@ + "1000.0 KB"@);
}

proof fn lemma_doubled(w: Seq<char>, d: char, c: char)
    ensures
        doubled(w.push(d), c) == doubled(w, c) + (if d == c {
            seq![c, c]
        } else {
            seq![d]
        }),
    decreases w.len(),
{
    reveal_with_fuel(doubled, 2);
    let v = w.push(d);
    if w.len() == 0 {
        assert(v.drop_first() =~= w);
        assert(doubled(v.drop_first(), c) =~= Seq::<char>::empty());
        assert(doubled(v, c) =~= doubled(w, c) + (if d == c {
            seq![c, c]
        } else {
            seq![d]
        }));
    } else {
        assert(v.drop_first() =~= w.drop_first().push(d));
        lemma_doubled(w.drop_first(), d, c);
        assert(doubled(v, c) =~= doubled(w, c) + (if d == c {
            seq![c, c]
        } else {
            seq![d]
        }));
    }
}

proof fn lemma_quotes_doubled(w: Seq<char>)
    ensures
        double_single_quotes(w) == doubled(w, '\''),
    decreases w.len(),
{
    if w.len() > 0 {
        lemma_quotes_doubled(w.drop_last());
        lemma_doubled(w.drop_last(), w.last(), '\'');
        assert(w.drop_last().push(w.last()) =~= w);
        assert(double_single_quotes(w) =~= doubled(w, '\''));
    } else {
        assert(double_single_quotes(w) =~= doubled(w, '\''));
    }
}

/// A string is written between quotes, each quote in it twice, so that it is read back; numbers
/// and booleans are written as they are.
pub proof fn law_literals_written(w: Seq<char>, b: bool)
    ensures
        literal_text(TreeView::Node(Kind::StringValue, seq![TreeView::Text(w)])) == seq!['\''] + (doubled(w, '\'')
            + seq!['\'']),
        literal_text(TreeView::Node(Kind::HexStringValue, seq![TreeView::Text(w)])) == seq!['X', '\''] + w + seq![
            '\'',
        ],
        literal_text(TreeView::Node(Kind::NumberValue, seq![TreeView::Text(w)])) == w,
        literal_text(TreeView::Node(Kind::BooleanValue, seq![TreeView::Flag(b)])) == if b {
            "true"@
        } else {
            "false"@
        },
{
    reveal(literal_text);
    reveal_strlit("'");
    reveal_strlit("X'");
    lemma_quotes_doubled(w);
    assert(literal_text(TreeView::Node(Kind::StringValue, seq![TreeView::Text(w)])) =~= seq!['\''] + (doubled(
        w,
        '\'',
    ) + seq!['\'']));
    assert(literal_text(TreeView::Node(Kind::HexStringValue, seq![TreeView::Text(w)])) =~= seq!['X', '\''] + w
        + seq!['\'']);
}

/// A variable is set to the text of a string or of a name, without quotes, and to any other
/// literal as it is written.
pub proof fn law_variable_values(w: Seq<char>, v: TreeView)
    ensures
        unquoted_value(
            TreeView::Node(
                Kind::LiteralVariable,
                seq![TreeView::Node(Kind::StringValue, seq![TreeView::Text(w)])],
            ),
        ) == w,
        unquoted_value(TreeView::Node(Kind::IdentVariable, seq![TreeView::Text(w)])) == w,
        !is_node(v, Kind::StringValue) ==> unquoted_value(TreeView::Node(Kind::LiteralVariable, seq![v]))
            == literal_text(v),
{
    reveal(unquoted_value);
}

} // verus!
