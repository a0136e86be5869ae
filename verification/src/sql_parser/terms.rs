//! Expressions as they are written, and what they mean.

use vstd::prelude::*;

use crate::sql_parser::keywords::Keyword;
use crate::sql_parser::kind::Kind;
use crate::sql_parser::parser::{token_at, Input};
use crate::sql_parser::syntax::TreeView;
use crate::sql_parser::token::TokenView;

verus! {

/// An expression as it is written.
pub enum Term {
    /// A column.
    Column(Seq<char>),
    /// A number, a string, a parameter, `TRUE`, `FALSE` or `NULL`.
    Literal(TokenView),
    /// An expression in parentheses.
    Paren(Box<Term>),
    /// An operator between two expressions.
    Binary(Box<Term>, TokenView, Box<Term>),
    /// `NOT` before an expression.
    Not(Box<Term>),
    /// `+`, `-` or `~` before an expression.
    Sign(TokenView, Box<Term>),
    /// `IS` or `IS NOT` behind an expression, with what it is.
    Is(Box<Term>, bool, Keyword),
    /// `BETWEEN` or `NOT BETWEEN`, with a low and a high end.
    Between(Box<Term>, bool, Box<Term>, Box<Term>),
    /// `LIKE` or `ILIKE`, which takes upper and lower case for the same, maybe with a `NOT`.
    Like(Box<Term>, bool, bool, Box<Term>),
    /// `IN` or `NOT IN`, with a list.
    In(Box<Term>, bool, Seq<Term>),
    /// A function with its arguments.
    Call(Seq<char>, Seq<Term>),
}

/// A keyword, if it is asked for.
pub open spec fn word_if(b: bool, k: Keyword) -> Seq<TokenView> {
    if b {
        seq![TokenView::Keyword(k)]
    } else {
        Seq::empty()
    }
}

/// The first `n` of several expressions, with commas between them.
pub open spec fn written_list(es: Seq<Term>, n: int) -> Seq<TokenView>
    decreases es, n,
{
    if n <= 0 || n > es.len() {
        Seq::empty()
    } else if n == 1 {
        written(es[0])
    } else {
        written_list(es, n - 1) + seq![TokenView::Comma] + written(es[n - 1])
    }
}

/// The tokens of an expression.
pub open spec fn written(e: Term) -> Seq<TokenView>
    decreases e, 0int,
{
    match e {
        Term::Column(s) => seq![TokenView::Ident(s)],
        Term::Literal(t) => seq![t],
        Term::Paren(a) => seq![TokenView::LParen] + written(*a) + seq![TokenView::RParen],
        Term::Binary(a, o, b) => written(*a) + seq![o] + written(*b),
        Term::Not(a) => seq![TokenView::Keyword(Keyword::NOT)] + written(*a),
        Term::Sign(o, a) => seq![o] + written(*a),
        Term::Is(a, negated, k) => written(*a) + seq![TokenView::Keyword(Keyword::IS)] + word_if(
            negated,
            Keyword::NOT,
        ) + seq![TokenView::Keyword(k)],
        Term::Between(a, negated, low, high) => written(*a) + word_if(negated, Keyword::NOT) + seq![
            TokenView::Keyword(Keyword::BETWEEN),
        ] + written(*low) + seq![TokenView::Keyword(Keyword::AND)] + written(*high),
        Term::Like(a, negated, any_case, b) => written(*a) + word_if(negated, Keyword::NOT) + seq![
            TokenView::Keyword(
                if any_case {
                    Keyword::ILIKE
                } else {
                    Keyword::LIKE
                },
            ),
        ] + written(*b),
        Term::In(a, negated, es) => written(*a) + word_if(negated, Keyword::NOT) + seq![
            TokenView::Keyword(Keyword::IN),
            TokenView::LParen,
        ] + written_list(es, es.len() as int) + seq![TokenView::RParen],
        Term::Call(f, es) => seq![TokenView::Ident(f), TokenView::LParen] + written_list(
            es,
            es.len() as int,
        ) + seq![TokenView::RParen],
    }
}

/// The text of an operator.
pub open spec fn operator_text(o: TokenView) -> Seq<char> {
    match o {
        TokenView::Op(s) => s,
        TokenView::Eq => "="@,
        _ => "*"@,
    }
}

/// What an operator makes of two expressions.
pub open spec fn combined(a: TreeView, o: TokenView, b: TreeView) -> TreeView {
    if o == TokenView::Keyword(Keyword::AND) {
        TreeView::Node(Kind::And, seq![a, b])
    } else if o == TokenView::Keyword(Keyword::OR) {
        TreeView::Node(Kind::Or, seq![a, b])
    } else {
        TreeView::Node(
            Kind::Op,
            seq![TreeView::Node(Kind::BareOp, seq![TreeView::Text(operator_text(o))]), a, b],
        )
    }
}

/// What a literal means.
pub open spec fn literal_tree(t: TokenView) -> TreeView {
    match t {
        TokenView::Number(s) => TreeView::Node(Kind::NumberValue, seq![TreeView::Text(s)]),
        TokenView::String(s) => TreeView::Node(Kind::StringValue, seq![TreeView::Text(s)]),
        TokenView::HexString(s) => TreeView::Node(Kind::HexStringValue, seq![TreeView::Text(s)]),
        TokenView::Parameter(n) => TreeView::Node(Kind::Parameter, seq![TreeView::Num(n as u64)]),
        TokenView::Keyword(Keyword::TRUE) => TreeView::Node(
            Kind::BooleanValue,
            seq![TreeView::Flag(true)],
        ),
        TokenView::Keyword(Keyword::FALSE) => TreeView::Node(
            Kind::BooleanValue,
            seq![TreeView::Flag(false)],
        ),
        _ => TreeView::Node(Kind::NullValue, Seq::empty()),
    }
}

/// What may stand behind `IS`.
pub open spec fn is_tree(k: Keyword) -> TreeView {
    let kind = match k {
        Keyword::TRUE => Kind::IsTrue,
        Keyword::FALSE => Kind::IsFalse,
        Keyword::UNKNOWN => Kind::IsUnknown,
        _ => Kind::IsNull,
    };
    TreeView::Node(kind, Seq::empty())
}

/// The name of something without a qualifier.
pub open spec fn plain_name(s: Seq<char>) -> TreeView {
    TreeView::Node(Kind::ItemName, seq![TreeView::List(seq![TreeView::Text(s)])])
}

/// The first `n` of several expressions, and what they mean.
pub open spec fn meanings(es: Seq<Term>, n: int) -> Seq<TreeView>
    decreases es, n,
{
    if n <= 0 || n > es.len() {
        Seq::empty()
    } else {
        meanings(es, n - 1).push(meaning(es[n - 1]))
    }
}

/// What an expression means.
pub open spec fn meaning(e: Term) -> TreeView
    decreases e, 0int,
{
    match e {
        Term::Column(s) => TreeView::Node(
            Kind::Identifier,
            seq![TreeView::List(seq![TreeView::Text(s)])],
        ),
        Term::Literal(t) => literal_tree(t),
        Term::Paren(a) => TreeView::Node(Kind::Nested, seq![meaning(*a)]),
        Term::Binary(a, o, b) => combined(meaning(*a), o, meaning(*b)),
        Term::Not(a) => TreeView::Node(Kind::Not, seq![meaning(*a)]),
        Term::Sign(o, a) => TreeView::Node(
            Kind::Op,
            seq![
                TreeView::Node(Kind::BareOp, seq![TreeView::Text(operator_text(o))]),
                meaning(*a),
                TreeView::Absent,
            ],
        ),
        Term::Is(a, negated, k) => TreeView::Node(
            Kind::IsExpr,
            seq![meaning(*a), TreeView::Flag(negated), is_tree(k)],
        ),
        Term::Between(a, negated, low, high) => TreeView::Node(
            Kind::Between,
            seq![meaning(*a), TreeView::Flag(negated), meaning(*low), meaning(*high)],
        ),
        Term::Like(a, negated, any_case, b) => TreeView::Node(
            Kind::Like,
            seq![
                meaning(*a),
                meaning(*b),
                TreeView::Absent,
                TreeView::Flag(any_case),
                TreeView::Flag(negated),
            ],
        ),
        Term::In(a, negated, es) => TreeView::Node(
            Kind::InList,
            seq![
                meaning(*a),
                TreeView::List(meanings(es, es.len() as int)),
                TreeView::Flag(negated),
            ],
        ),
        Term::Call(f, es) => TreeView::Node(
            Kind::Function,
            seq![
                plain_name(f),
                TreeView::Node(
                    Kind::Args,
                    seq![
                        TreeView::List(meanings(es, es.len() as int)),
                        TreeView::List(Seq::<TreeView>::empty()),
                    ],
                ),
                TreeView::Absent,
                TreeView::Absent,
                TreeView::Flag(false),
            ],
        ),
    }
}

/// Whether an operator compares.
pub open spec fn is_comparison(o: TokenView) -> bool {
    o == TokenView::Eq || o == TokenView::Op("<"@) || o == TokenView::Op("<="@) || o == TokenView::Op("<>"@)
        || o == TokenView::Op("!="@) || o == TokenView::Op(">"@) || o == TokenView::Op(">="@)
}

/// Whether an operator adds or subtracts.
pub open spec fn is_additive(o: TokenView) -> bool {
    o == TokenView::Op("+"@) || o == TokenView::Op("-"@)
}

/// Whether an operator multiplies or divides.
pub open spec fn is_multiplicative(o: TokenView) -> bool {
    o == TokenView::Star || o == TokenView::Op("/"@) || o == TokenView::Op("%"@)
}

/// Whether a token is an operator between two expressions.
pub open spec fn is_binary(o: TokenView) -> bool {
    o == TokenView::Keyword(Keyword::OR) || o == TokenView::Keyword(Keyword::AND) || o == TokenView::Eq || o
        == TokenView::Star || o is Op
}

/// How tightly an operator binds: `OR` the least, then `AND`, comparisons, all others that are not
/// named here, sums, and products the most.
pub open spec fn tightness(o: TokenView) -> int {
    if o == TokenView::Keyword(Keyword::OR) {
        1
    } else if o == TokenView::Keyword(Keyword::AND) {
        2
    } else if is_comparison(o) {
        5
    } else if is_additive(o) {
        8
    } else if is_multiplicative(o) {
        9
    } else {
        7
    }
}

/// How tightly the operator of an expression binds, if it follows its first operand. `NOT` binds
/// less tightly than `IS`, `IS` less tightly than comparisons, `BETWEEN`, `IN` and `LIKE` more
/// tightly than comparisons.
pub open spec fn level(e: Term) -> int {
    match e {
        Term::Binary(_, o, _) => tightness(o),
        Term::Is(_, _, _) => 4,
        Term::Between(_, _, _, _) | Term::Like(_, _, _, _) | Term::In(_, _, _) => 6,
        _ => 13,
    }
}

/// The lesser one of two numbers.
pub open spec fn least(a: int, b: int) -> int {
    if a <= b {
        a
    } else {
        b
    }
}

/// How tightly a sign before an expression binds.
pub open spec fn sign_level(o: TokenView) -> int {
    if o == TokenView::Op("~"@) {
        7
    } else {
        11
    }
}

/// How tightly an operator may bind at most to follow an expression without taking a part of it
/// for its operand.
pub open spec fn edge(e: Term) -> int
    decreases e,
{
    match e {
        Term::Binary(_, o, b) => least(tightness(o), edge(*b)),
        Term::Not(a) => least(3, edge(*a)),
        Term::Sign(o, a) => least(sign_level(o), edge(*a)),
        Term::Between(_, _, _, high) => least(6, edge(*high)),
        Term::Like(_, _, _, b) => least(6, edge(*b)),
        _ => 13,
    }
}

/// Whether a token is a literal.
pub open spec fn is_literal(t: TokenView) -> bool {
    t is Number || t is String || t is HexString || t is Parameter || t == TokenView::Keyword(Keyword::TRUE)
        || t == TokenView::Keyword(Keyword::FALSE) || t == TokenView::Keyword(Keyword::NULL)
}

/// Whether expressions in a list can be read back.
pub open spec fn all_legible(es: Seq<Term>, n: int) -> bool
    decreases es, n,
{
    n <= 0 || n > es.len() || (all_legible(es, n - 1) && is_legible(es[n - 1]))
}

/// Whether an expression can be read back: operands bind more tightly than operators, on the left
/// as tightly, and nothing that stands there can be taken for a type before a string.
pub open spec fn is_legible(e: Term) -> bool
    decreases e, 0int,
{
    match e {
        Term::Column(s) => s.len() > 0,
        Term::Literal(t) => is_literal(t),
        Term::Paren(a) => is_legible(*a) && written(*a)[0] != TokenView::LParen,
        Term::Binary(a, o, b) => is_binary(o) && is_legible(*a) && is_legible(*b) && level(*a) >= tightness(o)
            && edge(*a) >= tightness(o) && level(*b) > tightness(o),
        Term::Not(a) => is_legible(*a) && level(*a) > 3 && !(written(*a)[0] is String) && (written(*a)[0]
            == TokenView::LParen ==> !(written(*a)[1] is Number)),
        Term::Sign(o, a) => (o == TokenView::Op("+"@) || o == TokenView::Op("-"@) || o == TokenView::Op(
            "~"@,
        )) && is_legible(*a) && level(*a) > sign_level(o) && !(written(*a)[0] is Number),
        Term::Is(a, _, k) => is_legible(*a) && level(*a) >= 4 && edge(*a) >= 4 && (k == Keyword::NULL || k
            == Keyword::TRUE || k == Keyword::FALSE || k == Keyword::UNKNOWN),
        Term::Between(a, _, low, high) => is_legible(*a) && is_legible(*low) && is_legible(*high) && level(*a)
            >= 6 && edge(*a) >= 6 && level(*low) > 6 && level(*high) > 6,
        Term::Like(a, _, _, b) => is_legible(*a) && is_legible(*b) && level(*a) >= 6 && edge(*a) >= 6
            && level(*b) > 6,
        Term::In(a, _, es) => is_legible(*a) && level(*a) >= 6 && edge(*a) >= 6 && es.len() > 0
            && all_legible(es, es.len() as int),
        Term::Call(f, es) => f.len() > 0 && all_legible(es, es.len() as int) && (es.len() > 0 ==> !(written(
            es[0],
        )[0] is Number)),
    }
}

/// How deeply expressions in a list are nested at most.
pub open spec fn list_height(es: Seq<Term>, n: int) -> int
    decreases es, n,
{
    if n <= 0 || n > es.len() {
        0
    } else {
        list_height(es, n - 1) + height(es[n - 1])
    }
}

/// How deeply an expression is nested at most.
pub open spec fn height(e: Term) -> int
    decreases e, 0int,
{
    match e {
        Term::Column(_) | Term::Literal(_) => 1,
        Term::Paren(a) => 2 + height(*a),
        Term::Binary(a, _, b) => 2 + height(*a) + height(*b),
        Term::Not(a) => 2 + height(*a),
        Term::Sign(_, a) => 2 + height(*a),
        Term::Is(a, _, _) => 2 + height(*a),
        Term::Between(a, _, low, high) => 2 + height(*a) + height(*low) + height(*high),
        Term::Like(a, _, _, b) => 2 + height(*a) + height(*b),
        Term::In(a, _, es) => 2 + height(*a) + list_height(es, es.len() as int),
        Term::Call(_, es) => 2 + list_height(es, es.len() as int),
    }
}

/// Whether tokens stand at `i`.
pub open spec fn stands(p: Input, i: int, ts: Seq<TokenView>) -> bool {
    &&& 0 <= i
    &&& i + ts.len() <= p.toks.len()
    &&& forall|k: int| 0 <= k < ts.len() ==> #[trigger] token_at(p, i + k) == Some(ts[k])
}

/// Whether a token can follow an expression without being taken for a part of its last word.
pub open spec fn is_apart(t: Option<TokenView>) -> bool {
    match t {
        Some(TokenView::String(_)) | Some(TokenView::Dot) | Some(TokenView::LParen) | Some(
            TokenView::LBracket,
        ) | Some(TokenView::Keyword(Keyword::LIST)) | Some(TokenView::Keyword(Keyword::ESCAPE))
        | Some(TokenView::Keyword(Keyword::FILTER)) | Some(TokenView::Keyword(Keyword::OVER)) => false,
        _ => true,
    }
}

/// Whether a token ends an expression: it is no operator, and cannot be taken for a part of the
/// expression's last word.
pub open spec fn is_end(t: Option<TokenView>) -> bool {
    match t {
        None => true,
        Some(TokenView::Keyword(k)) => !(k == Keyword::OR || k == Keyword::AND || k == Keyword::NOT || k
            == Keyword::IS || k == Keyword::ISNULL || k == Keyword::IN || k == Keyword::BETWEEN || k
            == Keyword::LIKE || k == Keyword::ILIKE || k == Keyword::OPERATOR || k == Keyword::COLLATE || k
            == Keyword::AT || k == Keyword::LIST || k == Keyword::ESCAPE || k == Keyword::FILTER || k
            == Keyword::OVER),
        Some(t) => t == TokenView::RParen || t == TokenView::Comma || t == TokenView::Semicolon || t
            == TokenView::RBracket || t == TokenView::Colon,
    }
}

} // verus!
