//! What words in expressions and queries come to.

use vstd::prelude::*;

use crate::sql_parser::alignment::expr::{
    unfold_binary_operand, unfold_case_arms, unfold_case_expr, unfold_cast_expr, unfold_exists_expr, unfold_extract_expr,
    unfold_homogenizing_function, unfold_infix, unfold_is_construct, unfold_nullif_expr, unfold_position_expr,
    unfold_prefix, unfold_row_expr, unfold_subscripts, unfold_substring_expr, unfold_trim_expr,
};
use crate::sql_parser::alignment::names::unfold_identifier_parts;
use crate::sql_parser::alignment::query::{unfold_cte, unfold_cte_block, unfold_cte_list, unfold_fetch_clause};
use crate::sql_parser::alignment::select::unfold_distinct_clause;
use crate::sql_parser::alignment::tables::{unfold_derived_table_factor, unfold_join_constraint};
use crate::sql_parser::expr::{
    case_arms, expr, expr_list, infix, pg_cast, prefix, subexpr, typed_literal,
};
use crate::sql_parser::keywords::Keyword;
use crate::sql_parser::kind::Kind;
use crate::sql_parser::names::{
    base_type, data_type, identifier, identifier_parts, item_name, modified_type, optional_table_alias,
    parenthesized_column_list, typ_mod, value, with_time_zone,
};
use crate::sql_parser::number::number_kind;
use crate::sql_parser::outcome::Out::{Failed, Got};
use crate::sql_parser::parser::{at_keyword, at_token, token_at, Input, Precedence};
use crate::sql_parser::query::{cte, cte_block, cte_list, fetch_clause, query};
use crate::sql_parser::select::distinct_clause;
use crate::sql_parser::syntax::TreeView;
use crate::sql_parser::tables::{derived_table_factor, join_constraint};
use crate::sql_parser::terms::plain_name;
use crate::sql_parser::text::no_text;
use crate::sql_parser::token::TokenView;

verus! {

/// Whether an expression is read from `i` up to `j`.
pub open spec fn reads(p: Input, i: int, e: TreeView, j: int) -> bool {
    expr(p, i) == Got::<TreeView>(e, j) && 0 <= i < j <= p.toks.len()
}

/// Whether expressions with commas between them are read from `i` up to `j`.
pub open spec fn reads_list(p: Input, i: int, es: Seq<TreeView>, j: int) -> bool {
    expr_list(p, i, Seq::empty()) == Got::<Seq<TreeView>>(es, j) && 0 <= i < j <= p.toks.len()
}

/// Whether a word stands at `i` that is not taken for the type of a string.
pub open spec fn is_word(p: Input, i: int, k: Keyword) -> bool {
    at_keyword(p, i, k) && typed_literal(p, i) is Failed
}

/// A function that is called with arguments.
pub open spec fn called(f: Seq<char>, args: Seq<TreeView>) -> TreeView {
    TreeView::Node(
        Kind::Function,
        seq![
            plain_name(f),
            TreeView::Node(
                Kind::Args,
                seq![TreeView::List(args), TreeView::List(Seq::<TreeView>::empty())],
            ),
            TreeView::Absent,
            TreeView::Absent,
            TreeView::Flag(false),
        ],
    )
}

/// `CASE WHEN c THEN r ELSE e END` comes to `r` under the condition `c`, and to `e` otherwise; an
/// operand stands before the first `WHEN`, and each further arm behind another one.
pub proof fn law_case_read(p: Input, i: int, c: TreeView, j: int, r: TreeView, k: int, e: TreeView, l: int)
    requires
        is_word(p, i, Keyword::CASE),
        at_keyword(p, i + 1, Keyword::WHEN),
        reads(p, i + 2, c, j),
        at_keyword(p, j, Keyword::THEN),
        reads(p, j + 1, r, k),
        0 <= i,
    ensures
        at_keyword(p, k, Keyword::ELSE) && reads(p, k + 1, e, l) && at_keyword(p, l, Keyword::END) ==> prefix(
            p,
            i,
        ) == Got::<TreeView>(
            TreeView::Node(
                Kind::Case,
                seq![
                    TreeView::Absent,
                    TreeView::List(seq![TreeView::Node(Kind::CaseArm, seq![c, r])]),
                    e,
                ],
            ),
            l + 1,
        ),
        at_keyword(p, k, Keyword::END) ==> prefix(p, i) == Got::<TreeView>(
            TreeView::Node(
                Kind::Case,
                seq![
                    TreeView::Absent,
                    TreeView::List(seq![TreeView::Node(Kind::CaseArm, seq![c, r])]),
                    TreeView::Absent,
                ],
            ),
            k + 1,
        ),
{
    unfold_prefix(p, i);
    unfold_case_expr(p, i + 1);
    unfold_case_arms(p, i + 2, Seq::empty());
    let arm = TreeView::Node(Kind::CaseArm, seq![c, r]);
    assert(Seq::<TreeView>::empty().push(arm) =~= seq![arm]);
}

/// Each arm of a `CASE` comes behind those before it.
pub proof fn law_case_arms_read(p: Input, i: int, arms: Seq<TreeView>, c: TreeView, j: int, r: TreeView, k: int)
    requires
        reads(p, i, c, j),
        at_keyword(p, j, Keyword::THEN),
        reads(p, j + 1, r, k),
    ensures
        at_keyword(p, k, Keyword::WHEN) ==> case_arms(p, i, arms) == case_arms(
            p,
            k + 1,
            arms.push(TreeView::Node(Kind::CaseArm, seq![c, r])),
        ),
        !at_keyword(p, k, Keyword::WHEN) ==> case_arms(p, i, arms) == Got::<Seq<TreeView>>(
            arms.push(TreeView::Node(Kind::CaseArm, seq![c, r])),
            k,
        ),
{
    unfold_case_arms(p, i, arms);
}

/// `CAST(e AS t)` and `e::t` both come to `e` as a `t`.
pub proof fn law_cast_read(p: Input, i: int, e: TreeView, j: int, t: TreeView, k: int, precedence: Precedence)
    ensures
        is_word(p, i, Keyword::CAST) && at_token(p, i + 1, TokenView::LParen) && reads(p, i + 2, e, j)
            && at_keyword(p, j, Keyword::AS) && data_type(p, j + 1) == Got::<TreeView>(t, k) && at_token(
            p,
            k,
            TokenView::RParen,
        ) ==> prefix(p, i) == Got::<TreeView>(TreeView::Node(Kind::Cast, seq![e, t]), k + 1),
        at_token(p, i, TokenView::DoubleColon) && data_type(p, i + 1) == Got::<TreeView>(t, k) ==> infix(
            p,
            i,
            e,
            precedence,
        ) == Got::<TreeView>(TreeView::Node(Kind::Cast, seq![e, t]), k),
{
    if is_word(p, i, Keyword::CAST) {
        unfold_prefix(p, i);
        unfold_cast_expr(p, i + 1);
    }
    if at_token(p, i, TokenView::DoubleColon) {
        unfold_infix(p, i, e, precedence);
        reveal(pg_cast);
    }
}

/// `COALESCE`, `GREATEST` and `LEAST` take a list of expressions, each under its own name.
pub proof fn law_choices_read(p: Input, i: int, k: Keyword, es: Seq<TreeView>, j: int)
    requires
        k == Keyword::COALESCE || k == Keyword::GREATEST || k == Keyword::LEAST,
        is_word(p, i, k),
        at_token(p, i + 1, TokenView::LParen),
        reads_list(p, i + 2, es, j),
        at_token(p, j, TokenView::RParen),
    ensures
        prefix(p, i) == Got::<TreeView>(
            TreeView::Node(
                Kind::HomogenizingFunction,
                seq![
                    TreeView::Node(
                        match k {
                            Keyword::COALESCE => Kind::Coalesce,
                            Keyword::GREATEST => Kind::Greatest,
                            _ => Kind::Least,
                        },
                        Seq::<TreeView>::empty(),
                    ),
                    TreeView::List(es),
                ],
            ),
            j + 1,
        ),
{
    unfold_prefix(p, i);
    let kind = match k {
        Keyword::COALESCE => Kind::Coalesce,
        Keyword::GREATEST => Kind::Greatest,
        _ => Kind::Least,
    };
    unfold_homogenizing_function(p, i + 1, TreeView::Node(kind, Seq::<TreeView>::empty()));
}

/// `NULLIF(a, b)` is made of `a` and `b`, in this order.
pub proof fn law_nullif_read(p: Input, i: int, a: TreeView, j: int, b: TreeView, k: int)
    requires
        is_word(p, i, Keyword::NULLIF),
        at_token(p, i + 1, TokenView::LParen),
        reads(p, i + 2, a, j),
        at_token(p, j, TokenView::Comma),
        reads(p, j + 1, b, k),
        at_token(p, k, TokenView::RParen),
    ensures
        prefix(p, i) == Got::<TreeView>(TreeView::Node(Kind::NullIf, seq![a, b]), k + 1),
{
    unfold_prefix(p, i);
    unfold_nullif_expr(p, i + 1);
}

/// `EXISTS(q)` asks whether a query has rows.
pub proof fn law_exists_read(p: Input, i: int, q: TreeView, j: int)
    requires
        is_word(p, i, Keyword::EXISTS),
        at_token(p, i + 1, TokenView::LParen),
        query(p, i + 2) == Got::<TreeView>(q, j),
        at_token(p, j, TokenView::RParen),
    ensures
        prefix(p, i) == Got::<TreeView>(TreeView::Node(Kind::Exists, seq![q]), j + 1),
{
    unfold_prefix(p, i);
    unfold_exists_expr(p, i + 1);
}

/// `EXTRACT(f FROM e)` calls `extract` with the name of the field and the expression.
pub proof fn law_extract_read(p: Input, i: int, f: Seq<char>, e: TreeView, j: int)
    requires
        is_word(p, i, Keyword::EXTRACT),
        0 <= i,
        at_token(p, i + 1, TokenView::LParen),
        at_token(p, i + 2, TokenView::Ident(f)),
        at_keyword(p, i + 3, Keyword::FROM),
        reads(p, i + 4, e, j),
        at_token(p, j, TokenView::RParen),
    ensures
        prefix(p, i) == Got::<TreeView>(
            called("extract"@, seq![TreeView::Node(Kind::StringValue, seq![TreeView::Text(f)]), e]),
            j + 1,
        ),
{
    unfold_prefix(p, i);
    unfold_extract_expr(p, i + 1);
}

/// `ROW(..)` makes a row of expressions, in order.
pub proof fn law_row_read(p: Input, i: int, es: Seq<TreeView>, j: int)
    requires
        is_word(p, i, Keyword::ROW),
        at_token(p, i + 1, TokenView::LParen),
        !at_token(p, i + 2, TokenView::RParen),
        reads_list(p, i + 2, es, j),
        at_token(p, j, TokenView::RParen),
    ensures
        prefix(p, i) == Got::<TreeView>(TreeView::Node(Kind::Row, seq![TreeView::List(es)]), j + 1),
{
    unfold_prefix(p, i);
    unfold_row_expr(p, i + 1);
}

/// `TRIM` cuts characters off at the side that is named, or at both: `LEADING` at the left,
/// `TRAILING` at the right. The text comes first, then the characters.
pub proof fn law_trim_read(p: Input, i: int, side: Keyword, c: TreeView, j: int, s: TreeView, k: int)
    requires
        is_word(p, i, Keyword::TRIM),
        0 <= i,
        at_token(p, i + 1, TokenView::LParen),
        side == Keyword::LEADING || side == Keyword::TRAILING || side == Keyword::BOTH,
        at_keyword(p, i + 2, side),
        !at_keyword(p, i + 3, Keyword::FROM),
        reads(p, i + 3, c, j),
        at_keyword(p, j, Keyword::FROM),
        reads(p, j + 1, s, k),
        at_token(p, k, TokenView::RParen),
    ensures
        side == Keyword::LEADING ==> prefix(p, i) == Got::<TreeView>(called("ltrim"@, seq![s, c]), k + 1),
        side == Keyword::TRAILING ==> prefix(p, i) == Got::<TreeView>(called("rtrim"@, seq![s, c]), k + 1),
        side == Keyword::BOTH ==> prefix(p, i) == Got::<TreeView>(called("btrim"@, seq![s, c]), k + 1),
{
    let ks = seq![Keyword::BOTH, Keyword::LEADING, Keyword::TRAILING];
    assert(ks[0] == Keyword::BOTH && ks[1] == Keyword::LEADING && ks[2] == Keyword::TRAILING);
    assert(ks.contains(side));
    unfold_prefix(p, i);
    unfold_trim_expr(p, i + 1);
}

/// `POSITION(a IN b)` looks for `a` in `b`.
pub proof fn law_position_read(p: Input, i: int, a: TreeView, j: int, b: TreeView, k: int)
    requires
        is_word(p, i, Keyword::POSITION),
        0 <= i,
        at_token(p, i + 1, TokenView::LParen),
        subexpr(p, i + 2, Precedence::Like) == Got::<TreeView>(a, j),
        i + 2 < j <= p.toks.len(),
        at_keyword(p, j, Keyword::IN),
        reads(p, j + 1, b, k),
        at_token(p, k, TokenView::RParen),
    ensures
        prefix(p, i) == Got::<TreeView>(called("position"@, seq![a, b]), k + 1),
{
    unfold_prefix(p, i);
    unfold_position_expr(p, i + 1);
}

/// `SUBSTRING(s FROM a FOR n)` takes `n` characters of `s` from `a` on; without a `FROM`, from the
/// first on.
pub proof fn law_substring_read(p: Input, i: int, s: TreeView, j: int, a: TreeView, k: int, n: TreeView, l: int)
    requires
        is_word(p, i, Keyword::SUBSTRING),
        at_token(p, i + 1, TokenView::LParen),
        reads(p, i + 2, s, j),
    ensures
        at_keyword(p, j, Keyword::FROM) && reads(p, j + 1, a, k) && at_keyword(p, k, Keyword::FOR) && reads(
            p,
            k + 1,
            n,
            l,
        ) && at_token(p, l, TokenView::RParen) ==> prefix(p, i) == Got::<TreeView>(
            called("substring"@, seq![s, a, n]),
            l + 1,
        ),
        at_keyword(p, j, Keyword::FROM) && reads(p, j + 1, a, k) && at_token(p, k, TokenView::RParen)
            ==> prefix(p, i) == Got::<TreeView>(called("substring"@, seq![s, a]), k + 1),
        at_keyword(p, j, Keyword::FOR) && reads(p, j + 1, n, k) && at_token(p, k, TokenView::RParen)
            ==> prefix(p, i) == Got::<TreeView>(
            called(
                "substring"@,
                seq![s, TreeView::Node(Kind::NumberValue, seq![TreeView::Text("1"@)]), n],
            ),
            k + 1,
        ),
{
    unfold_prefix(p, i);
    unfold_substring_expr(p, i + 1);
}

/// A minus sign before a number is part of the number, unless the number is too small to have a
/// sign.
pub proof fn law_negative_number_read(p: Input, i: int, n: Seq<char>)
    requires
        0 <= i,
        token_at(p, i) == Some(TokenView::Op("-"@)),
        token_at(p, i + 1) == Some(TokenView::Number(n)),
        number_kind(n) == Some(true),
    ensures
        prefix(p, i) == Got::<TreeView>(
            TreeView::Node(Kind::NumberValue, seq![TreeView::Text("-"@ + n)]),
            i + 2,
        ),
{
    crate::sql_parser::reading::lemma_no_type(p, i);
    unfold_prefix(p, i);
    reveal(value);
    assert(no_text() + "-"@ + n =~= "-"@ + n);
}

/// `e AT TIME ZONE z` calls `timezone` with the zone and the expression, `e COLLATE c` names a
/// collation, and `e.f` and `e[a]` take a part.
pub proof fn law_postfix_read(p: Input, i: int, e: TreeView, precedence: Precedence, z: TreeView, j: int, f: Seq<char>)
    requires
        0 <= i,
    ensures
        at_keyword(p, i, Keyword::AT) && at_keyword(p, i + 1, Keyword::TIME) && at_keyword(
            p,
            i + 2,
            Keyword::ZONE,
        ) && subexpr(p, i + 3, precedence) == Got::<TreeView>(z, j) ==> infix(p, i, e, precedence) == Got::<
            TreeView,
        >(called("timezone"@, seq![z, e]), j),
        at_keyword(p, i, Keyword::COLLATE) && item_name(p, i + 1) == Got::<TreeView>(z, j) ==> infix(
            p,
            i,
            e,
            precedence,
        ) == Got::<TreeView>(TreeView::Node(Kind::Collate, seq![e, z]), j),
        at_token(p, i, TokenView::Dot) && at_token(p, i + 1, TokenView::Ident(f)) ==> infix(
            p,
            i,
            e,
            precedence,
        ) == Got::<TreeView>(TreeView::Node(Kind::FieldAccess, seq![e, TreeView::Text(f)]), i + 2),
        at_token(p, i, TokenView::Dot) && at_token(p, i + 1, TokenView::Star) ==> infix(p, i, e, precedence)
            == Got::<TreeView>(TreeView::Node(Kind::WildcardAccess, seq![e]), i + 2),
        at_keyword(p, i, Keyword::ISNULL) ==> infix(p, i, e, precedence) == Got::<TreeView>(
            TreeView::Node(
                Kind::IsExpr,
                seq![
                    e,
                    TreeView::Flag(false),
                    TreeView::Node(Kind::IsNull, Seq::<TreeView>::empty()),
                ],
            ),
            i + 1,
        ),
{
    unfold_infix(p, i, e, precedence);
}

/// `e[a]` takes one element, `e[a:b]` those from `a` to `b`.
pub proof fn law_subscript_read(p: Input, i: int, e: TreeView, precedence: Precedence, a: TreeView, j: int, b: TreeView, k: int)
    requires
        at_token(p, i, TokenView::LBracket),
        !at_token(p, i + 1, TokenView::Colon),
        reads(p, i + 1, a, j),
    ensures
        at_token(p, j, TokenView::RBracket) && !at_token(p, j + 1, TokenView::LBracket) ==> infix(
            p,
            i,
            e,
            precedence,
        ) == Got::<TreeView>(
            TreeView::Node(
                Kind::Subscript,
                seq![
                    e,
                    TreeView::List(
                        seq![
                            TreeView::Node(
                                Kind::SubscriptPosition,
                                seq![a, TreeView::Absent, TreeView::Flag(false)],
                            ),
                        ],
                    ),
                ],
            ),
            j + 1,
        ),
        at_token(p, j, TokenView::Colon) && !at_token(p, j + 1, TokenView::RBracket) && reads(p, j + 1, b, k)
            && at_token(p, k, TokenView::RBracket) && !at_token(p, k + 1, TokenView::LBracket) ==> infix(
            p,
            i,
            e,
            precedence,
        ) == Got::<TreeView>(
            TreeView::Node(
                Kind::Subscript,
                seq![
                    e,
                    TreeView::List(
                        seq![
                            TreeView::Node(
                                Kind::SubscriptPosition,
                                seq![a, b, TreeView::Flag(true)],
                            ),
                        ],
                    ),
                ],
            ),
            k + 1,
        ),
{
    unfold_infix(p, i, e, precedence);
    unfold_subscripts(p, i + 1, Seq::empty());
    let one = TreeView::Node(
        Kind::SubscriptPosition,
        seq![a, TreeView::Absent, TreeView::Flag(false)],
    );
    let range = TreeView::Node(Kind::SubscriptPosition, seq![a, b, TreeView::Flag(true)]);
    assert(Seq::<TreeView>::empty().push(one) =~= seq![one]);
    assert(Seq::<TreeView>::empty().push(range) =~= seq![range]);
}

/// `e IS [NOT] DISTINCT FROM f` compares `e` with `f`, and is negated exactly where `NOT` stands.
pub proof fn law_distinct_from_read(p: Input, i: int, e: TreeView, precedence: Precedence, negated: bool, f: TreeView, j: int)
    requires
        at_keyword(p, i, Keyword::IS),
        at_keyword(p, i + 1, Keyword::NOT) == negated,
        ({
            let at = if negated {
                i + 2
            } else {
                i + 1
            };
            at_keyword(p, at, Keyword::DISTINCT) && at_keyword(p, at + 1, Keyword::FROM) && reads(
                p,
                at + 2,
                f,
                j,
            )
        }),
    ensures
        infix(p, i, e, precedence) == Got::<TreeView>(
            TreeView::Node(
                Kind::IsExpr,
                seq![e, TreeView::Flag(negated), TreeView::Node(Kind::IsDistinctFrom, seq![f])],
            ),
            j,
        ),
{
    let ks = seq![Keyword::NULL, Keyword::TRUE, Keyword::FALSE, Keyword::UNKNOWN, Keyword::DISTINCT];
    assert(ks[4] == Keyword::DISTINCT);
    assert(ks.contains(Keyword::DISTINCT));
    unfold_infix(p, i, e, precedence);
    unfold_is_construct(p, i + 1, e);
}

/// `e = ALL (f)` compares with all elements; `ANY` and `SOME` compare with any of them.
pub proof fn law_quantifier_read(p: Input, i: int, e: TreeView, k: Keyword, f: TreeView, j: int, precedence: Precedence)
    requires
        at_token(p, i, TokenView::Eq),
        k == Keyword::ALL || k == Keyword::ANY || k == Keyword::SOME,
        at_keyword(p, i + 1, k),
        at_token(p, i + 2, TokenView::LParen),
        !at_keyword(p, i + 3, Keyword::SELECT),
        !at_keyword(p, i + 3, Keyword::VALUES),
        reads(p, i + 3, f, j),
        at_token(p, j, TokenView::RParen),
    ensures
        infix(p, i, e, precedence) == Got::<TreeView>(
            TreeView::Node(
                if k == Keyword::ALL {
                    Kind::AllExpr
                } else {
                    Kind::AnyExpr
                },
                seq![e, TreeView::Node(Kind::BareOp, seq![TreeView::Text("="@)]), f],
            ),
            j + 1,
        ),
{
    let ks = seq![Keyword::ANY, Keyword::SOME, Keyword::ALL];
    assert(ks[0] == Keyword::ANY && ks[1] == Keyword::SOME && ks[2] == Keyword::ALL);
    assert(ks.contains(k));
    let qs = seq![Keyword::SELECT, Keyword::VALUES];
    if let Some(TokenView::Keyword(x)) = token_at(p, i + 3) {
        if qs.contains(x) {
            let n = qs.index_of(x);
            assert(qs[n] == x);
        }
    }
    unfold_infix(p, i, e, precedence);
    unfold_binary_operand(
        p,
        i + 1,
        e,
        TreeView::Node(Kind::BareOp, seq![TreeView::Text("="@)]),
        precedence,
    );
}

/// Words with dots between them are one name, and a star behind the last dot stands for all
/// columns.
pub proof fn law_qualified_read(p: Input, i: int, parts: Seq<TreeView>, s: Seq<char>)
    requires
        at_token(p, i, TokenView::Dot),
    ensures
        at_token(p, i + 1, TokenView::Ident(s)) ==> identifier_parts(p, i, parts) == identifier_parts(
            p,
            i + 2,
            parts.push(TreeView::Text(s)),
        ),
        at_token(p, i + 1, TokenView::Star) ==> identifier_parts(p, i, parts) == Got::<TreeView>(
            TreeView::Node(Kind::QualifiedWildcard, seq![TreeView::List(parts)]),
            i + 2,
        ),
{
    unfold_identifier_parts(p, i, parts);
}

/// A type without modifiers.
pub open spec fn plain_type(s: Seq<char>) -> TreeView {
    TreeView::Node(Kind::OtherType, seq![plain_name(s), TreeView::List(Seq::<TreeView>::empty())])
}

/// Types that are keywords have the names that PostgreSQL has for them.
pub proof fn law_type_names(p: Input, i: int)
    requires
        !at_token(p, i + 1, TokenView::LParen),
        !at_keyword(p, i + 1, Keyword::VARYING),
        !at_keyword(p, i + 1, Keyword::WITH),
        !at_keyword(p, i + 1, Keyword::WITHOUT),
    ensures
        at_keyword(p, i, Keyword::INT) || at_keyword(p, i, Keyword::INTEGER) ==> base_type(p, i) == Got::<
            TreeView,
        >(plain_type("int4"@), i + 1),
        at_keyword(p, i, Keyword::SMALLINT) ==> base_type(p, i) == Got::<TreeView>(
            plain_type("int2"@),
            i + 1,
        ),
        at_keyword(p, i, Keyword::BIGINT) ==> base_type(p, i) == Got::<TreeView>(plain_type("int8"@), i + 1),
        at_keyword(p, i, Keyword::BOOLEAN) ==> base_type(p, i) == Got::<TreeView>(plain_type("bool"@), i + 1),
        at_keyword(p, i, Keyword::BYTES) ==> base_type(p, i) == Got::<TreeView>(plain_type("bytea"@), i + 1),
        at_keyword(p, i, Keyword::JSON) ==> base_type(p, i) == Got::<TreeView>(plain_type("jsonb"@), i + 1),
        at_keyword(p, i, Keyword::STRING) ==> base_type(p, i) == Got::<TreeView>(plain_type("text"@), i + 1),
        at_keyword(p, i, Keyword::REAL) ==> base_type(p, i) == Got::<TreeView>(plain_type("float4"@), i + 1),
        at_keyword(p, i, Keyword::VARCHAR) ==> base_type(p, i) == Got::<TreeView>(
            plain_type("varchar"@),
            i + 1,
        ),
        at_keyword(p, i, Keyword::CHAR) || at_keyword(p, i, Keyword::CHARACTER) || at_keyword(
            p,
            i,
            Keyword::BPCHAR,
        ) ==> base_type(p, i) == Got::<TreeView>(plain_type("bpchar"@), i + 1),
        at_keyword(p, i, Keyword::DEC) || at_keyword(p, i, Keyword::DECIMAL) ==> base_type(p, i) == Got::<
            TreeView,
        >(plain_type("numeric"@), i + 1),
        at_keyword(p, i, Keyword::TIME) ==> base_type(p, i) == Got::<TreeView>(plain_type("time"@), i + 1),
        at_keyword(p, i, Keyword::TIMESTAMP) ==> base_type(p, i) == Got::<TreeView>(
            plain_type("timestamp"@),
            i + 1,
        ),
{
    reveal(base_type);
    reveal(modified_type);
    reveal(typ_mod);
    reveal(with_time_zone);
}

/// Times and timestamps have a zone exactly where it is written that they do.
pub proof fn law_time_zones(p: Input, i: int)
    requires
        at_keyword(p, i + 2, Keyword::TIME),
        at_keyword(p, i + 3, Keyword::ZONE),
    ensures
        at_keyword(p, i, Keyword::TIMESTAMP) && at_keyword(p, i + 1, Keyword::WITH) ==> base_type(p, i)
            == Got::<TreeView>(plain_type("timestamptz"@), i + 4),
        at_keyword(p, i, Keyword::TIMESTAMP) && at_keyword(p, i + 1, Keyword::WITHOUT) ==> base_type(p, i)
            == Got::<TreeView>(plain_type("timestamp"@), i + 4),
        at_keyword(p, i, Keyword::TIME) && at_keyword(p, i + 1, Keyword::WITH) ==> base_type(p, i) == Got::<
            TreeView,
        >(plain_type("timetz"@), i + 4),
        at_keyword(p, i, Keyword::TIME) && at_keyword(p, i + 1, Keyword::WITHOUT) ==> base_type(p, i)
            == Got::<TreeView>(plain_type("time"@), i + 4),
{
    reveal(base_type);
    reveal(with_time_zone);
}

/// `WITH a AS (q)` names the query `q`; several are read in order.
pub proof fn law_cte_read(p: Input, i: int, a: Seq<char>, q: TreeView, j: int, items: Seq<TreeView>)
    requires
        0 <= i,
        a.len() > 0,
        at_token(p, i, TokenView::Ident(a)),
        at_keyword(p, i + 1, Keyword::AS),
        at_token(p, i + 2, TokenView::LParen),
        query(p, i + 3) == Got::<TreeView>(q, j),
        i + 3 < j < p.toks.len(),
        at_token(p, j, TokenView::RParen),
    ensures
        ({
            let named = TreeView::Node(
                Kind::Cte,
                seq![
                    TreeView::Node(
                        Kind::TableAlias,
                        seq![
                            TreeView::Text(a),
                            TreeView::List(Seq::<TreeView>::empty()),
                            TreeView::Flag(false),
                        ],
                    ),
                    q,
                ],
            );
            &&& cte(p, i) == Got::<TreeView>(named, j + 1)
            &&& at_token(p, j + 1, TokenView::Comma) ==> cte_list(p, i, items) == cte_list(
                p,
                j + 2,
                items.push(named),
            )
            &&& !at_token(p, j + 1, TokenView::Comma) ==> cte_list(p, i, items) == Got::<Seq<TreeView>>(
                items.push(named),
                j + 1,
            )
        }),
{
    reveal(identifier);
    reveal(parenthesized_column_list);
    unfold_cte(p, i);
    unfold_cte_list(p, i, items);
}

/// Named queries stand behind `WITH`; without it there are none.
pub proof fn law_with_read(p: Input, i: int, ctes: Seq<TreeView>, j: int)
    ensures
        at_keyword(p, i, Keyword::WITH) && !at_keyword(p, i + 1, Keyword::MUTUALLY) && cte_list(
            p,
            i + 1,
            Seq::empty(),
        ) == Got::<Seq<TreeView>>(ctes, j) ==> cte_block(p, i) == Got::<TreeView>(
            TreeView::Node(Kind::SimpleCtes, seq![TreeView::List(ctes)]),
            j,
        ),
        !at_keyword(p, i, Keyword::WITH) ==> cte_block(p, i) == Got::<TreeView>(
            TreeView::Node(Kind::SimpleCtes, seq![TreeView::List(Seq::<TreeView>::empty())]),
            i,
        ),
{
    unfold_cte_block(p, i);
}

/// `FETCH FIRST n ROWS ONLY` takes `n` rows; `WITH TIES` also takes those that come out the same.
pub proof fn law_fetch_read(p: Input, i: int, n: TreeView, j: int)
    requires
        at_keyword(p, i, Keyword::FIRST) || at_keyword(p, i, Keyword::NEXT),
        !at_keyword(p, i + 1, Keyword::ROW),
        !at_keyword(p, i + 1, Keyword::ROWS),
        reads(p, i + 1, n, j),
        at_keyword(p, j, Keyword::ROWS) || at_keyword(p, j, Keyword::ROW),
    ensures
        at_keyword(p, j + 1, Keyword::ONLY) ==> fetch_clause(p, i) == Got::<TreeView>(
            TreeView::Node(Kind::Limit, seq![TreeView::Flag(false), n]),
            j + 2,
        ),
        at_keyword(p, j + 1, Keyword::WITH) && at_keyword(p, j + 2, Keyword::TIES) ==> fetch_clause(p, i)
            == Got::<TreeView>(TreeView::Node(Kind::Limit, seq![TreeView::Flag(true), n]), j + 3),
{
    let firsts = seq![Keyword::FIRST, Keyword::NEXT];
    let rows = seq![Keyword::ROW, Keyword::ROWS];
    assert(firsts[0] == Keyword::FIRST && firsts[1] == Keyword::NEXT);
    assert(rows[0] == Keyword::ROW && rows[1] == Keyword::ROWS);
    assert(firsts.contains(Keyword::FIRST) && firsts.contains(Keyword::NEXT));
    assert(rows.contains(Keyword::ROW) && rows.contains(Keyword::ROWS));
    if let Some(TokenView::Keyword(x)) = token_at(p, i + 1) {
        if rows.contains(x) {
            let m = rows.index_of(x);
            assert(rows[m] == x);
        }
    }
    unfold_fetch_clause(p, i);
}

/// `DISTINCT ON (..)` keeps one row for each value of the expressions.
pub proof fn law_distinct_on_read(p: Input, i: int, es: Seq<TreeView>, j: int)
    requires
        at_keyword(p, i, Keyword::ON),
        at_token(p, i + 1, TokenView::LParen),
        reads_list(p, i + 2, es, j),
        at_token(p, j, TokenView::RParen),
    ensures
        distinct_clause(p, i, true) == Got::<TreeView>(
            TreeView::Node(Kind::DistinctOn, seq![TreeView::List(es)]),
            j + 1,
        ),
{
    unfold_distinct_clause(p, i, true);
}

/// A query in parentheses is a table; it may refer to the tables before it exactly where
/// `LATERAL` was written.
pub proof fn law_derived_table_read(p: Input, i: int, lateral: bool, q: TreeView, j: int, alias: TreeView, k: int)
    requires
        query(p, i) == Got::<TreeView>(q, j),
        at_token(p, j, TokenView::RParen),
        optional_table_alias(p, j + 1) == Got::<TreeView>(alias, k),
    ensures
        derived_table_factor(p, i, lateral) == Got::<TreeView>(
            TreeView::Node(Kind::Derived, seq![TreeView::Flag(lateral), q, alias]),
            k,
        ),
{
    unfold_derived_table_factor(p, i, lateral);
}

/// `USING (..)` joins rows that agree in the columns that are listed.
pub proof fn law_using_read(p: Input, i: int, columns: TreeView, j: int)
    requires
        at_keyword(p, i, Keyword::USING),
        parenthesized_column_list(p, i + 1, false) == Got::<TreeView>(columns, j),
        !at_keyword(p, j, Keyword::AS),
    ensures
        join_constraint(p, i, false) == Got::<TreeView>(
            TreeView::Node(Kind::UsingConstraint, seq![columns, TreeView::Absent]),
            j,
        ),
{
    unfold_join_constraint(p, i, false);
}

} // verus!
