//! Expressions are read back as they are written.

use vstd::prelude::*;

use crate::sql_parser::alignment::expr::{
    unfold_between, unfold_binary_operand, unfold_expr, unfold_expr_list, unfold_function, unfold_in_predicate,
    unfold_infix, unfold_infixes, unfold_is_construct, unfold_like, unfold_parenthesized,
    unfold_parenthesized_expr, unfold_prefix, unfold_range_predicate, unfold_subexpr,
    unfold_subexpr_seeded,
};
use crate::sql_parser::alignment::names::{
    unfold_data_type, unfold_identifier_parts, unfold_identifiers, unfold_literal_int_list,
    unfold_qualified_identifier, unfold_type_suffixes,
};
use crate::sql_parser::alignment::query::unfold_optional_args;
use crate::sql_parser::checks::next_precedence;
use crate::sql_parser::expr::{distinct_choice, expr, expr_list, function, infix, infixes, prefix, range_predicate, subexpr, typed_literal, interval_value};
use crate::sql_parser::keywords::Keyword;
use crate::sql_parser::kind::Kind;
use crate::sql_parser::names::{base_type, identifier, item_name, literal_int, literal_string, raw_name, typ_mod, value};
use crate::sql_parser::outcome::Out::{Failed, Got};
use crate::sql_parser::outcome::FailureView;
use crate::sql_parser::parse::{expr_of, input_of};
use crate::sql_parser::parser::{at_keyword, at_token, binding, deeper, one_of, token_at, Input, Precedence, RECURSION_LIMIT};
use crate::sql_parser::query::optional_args;
use crate::sql_parser::syntax::TreeView;
use crate::sql_parser::terms::{all_legible, combined, edge, height, is_apart, is_binary, is_end, is_legible, is_literal, least, level, list_height, literal_tree, meaning, meanings, operator_text, plain_name, stands, tightness, word_if, written, written_list, Term};
use crate::sql_parser::token::TokenView;

verus! {

pub(crate) proof fn lemma_split(p: Input, i: int, a: Seq<TokenView>, b: Seq<TokenView>)
    requires
        stands(p, i, a + b),
    ensures
        stands(p, i, a),
        stands(p, i + a.len(), b),
{
    assert forall|k: int| 0 <= k < a.len() implies #[trigger] token_at(p, i + k) == Some(a[k]) by {
        assert((a + b)[k] == a[k]);
    }
    assert forall|k: int| 0 <= k < b.len() implies #[trigger] token_at(p, i + a.len() + k) == Some(b[k]) by {
        assert((a + b)[a.len() + k] == b[k]);
        assert(token_at(p, i + (a.len() + k)) == Some((a + b)[a.len() + k]));
    }
}

pub(crate) proof fn lemma_deeper(p: Input, i: int, ts: Seq<TokenView>)
    ensures
        stands(p, i, ts) ==> stands(deeper(p), i, ts),
        forall|k: int| #[trigger] token_at(deeper(p), k) == token_at(p, k),
        forall|k: int| #[trigger] next_precedence(deeper(p), k) == next_precedence(p, k),
{
    if stands(p, i, ts) {
        assert forall|k: int| 0 <= k < ts.len() implies #[trigger] token_at(deeper(p), i + k) == Some(
            ts[k],
        ) by {
            assert(token_at(p, i + k) == Some(ts[k]));
        }
    }
    assert forall|k: int| #[trigger] next_precedence(deeper(p), k) == next_precedence(p, k) by {
        assert(token_at(deeper(p), k) == token_at(p, k));
        assert(token_at(deeper(p), k + 1) == token_at(p, k + 1));
    }
}

/// An expression has tokens, and the first of them starts an expression.
pub(crate) proof fn lemma_starts(e: Term)
    requires
        is_legible(e),
    ensures
        written(e).len() > 0,
        ({
            let t = written(e)[0];
            t is Ident || is_literal(t) || t == TokenView::LParen || t == TokenView::Keyword(Keyword::NOT)
                || t is Op
        }),
        height(e) >= 1,
    decreases e, 0int,
{
    match e {
        Term::Binary(a, _, b) => {
            lemma_starts(*a);
            lemma_starts(*b);
        },
        Term::Is(a, _, _) => {
            lemma_starts(*a);
        },
        Term::Between(a, _, low, high) => {
            lemma_starts(*a);
            lemma_starts(*low);
            lemma_starts(*high);
        },
        Term::Like(a, _, _, b) => {
            lemma_starts(*a);
            lemma_starts(*b);
        },
        Term::In(a, _, es) => {
            lemma_starts(*a);
            lemma_list_height(es, es.len() as int);
        },
        Term::Call(_, es) => {
            lemma_list_height(es, es.len() as int);
        },
        Term::Paren(a) | Term::Not(a) | Term::Sign(_, a) => {
            lemma_starts(*a);
        },
        _ => {},
    }
}

proof fn lemma_list_height(es: Seq<Term>, n: int)
    requires
        all_legible(es, n),
        0 <= n <= es.len(),
    ensures
        list_height(es, n) >= 0,
    decreases es, n,
{
    if n > 0 {
        lemma_list_height(es, n - 1);
        lemma_starts(es[n - 1]);
    }
}

/// A word that is not followed by a string is no literal with its type before it.
proof fn lemma_no_typed_literal(p: Input, i: int)
    requires
        0 <= i < p.toks.len(),
        is_apart(token_at(p, i + 1)),
        token_at(p, i) matches Some(t) && (t is Ident || t == TokenView::Keyword(Keyword::TRUE) || t
            == TokenView::Keyword(Keyword::FALSE) || t == TokenView::Keyword(Keyword::NULL) || t
            == TokenView::Keyword(Keyword::NOT)),
    ensures
        typed_literal(p, i) is Failed,
{
    reveal(typed_literal);
    reveal(base_type);
    reveal(item_name);
    reveal(raw_name);
    reveal(identifier);
    reveal(typ_mod);
    reveal(literal_string);
    reveal(interval_value);
    unfold_data_type(p, i);
    unfold_identifiers(p, i, Seq::empty());
    if let Got(t, j) = base_type(p, i) {
        unfold_type_suffixes(p, j, t);
    }
}

/// What is no word is no name of a type.
pub(crate) proof fn lemma_no_type(p: Input, i: int)
    requires
        0 <= i < p.toks.len(),
        token_at(p, i) matches Some(t) && (t is Number || t is String || t is HexString || t is Parameter || t
            is Op || t == TokenView::LParen),
    ensures
        typed_literal(p, i) is Failed,
{
    reveal(typed_literal);
    reveal(base_type);
    unfold_data_type(p, i);
}

/// A word before a parenthesis is no literal with its type before it, where no number follows.
proof fn lemma_no_modified_type(p: Input, i: int)
    requires
        0 <= i,
        i + 1 < p.toks.len(),
        token_at(p, i + 1) == Some(TokenView::LParen),
        !(token_at(p, i + 2) matches Some(TokenView::Number(_))),
        token_at(p, i) matches Some(t) && (t is Ident || t == TokenView::Keyword(Keyword::NOT)),
    ensures
        typed_literal(p, i) is Failed,
{
    reveal(typed_literal);
    reveal(base_type);
    reveal(item_name);
    reveal(raw_name);
    reveal(identifier);
    reveal(typ_mod);
    reveal(literal_int);
    unfold_data_type(p, i);
    unfold_identifiers(p, i, Seq::empty());
    unfold_literal_int_list(p, i + 2, Seq::empty());
}

/// Columns and literals are read as what they are.
proof fn lemma_atom(p: Input, i: int, t: TokenView)
    requires
        0 <= i < p.toks.len(),
        token_at(p, i) == Some(t),
        is_apart(token_at(p, i + 1)),
        is_literal(t) || t is Ident,
    ensures
        prefix(p, i) == Got::<TreeView>(
            if t is Ident {
                TreeView::Node(
                    Kind::Identifier,
                    seq![TreeView::List(seq![TreeView::Text(t->Ident_0)])],
                )
            } else {
                literal_tree(t)
            },
            i + 1,
        ),
{
    unfold_prefix(p, i);
    reveal(value);
    if t is Ident || t is Keyword {
        lemma_no_typed_literal(p, i);
        if t is Ident {
            unfold_qualified_identifier(p, i + 1, TreeView::Text(t->Ident_0));
        }
    } else {
        lemma_no_type(p, i);
    }
}

/// How tightly an operator binds that is read behind an expression.
proof fn lemma_binary(p: Input, i: int, o: TokenView)
    requires
        token_at(p, i) == Some(o),
        is_binary(o),
    ensures
        binding(next_precedence(p, i)) == tightness(o),
        is_apart(Some(o)),
{
    reveal_strlit("<");
    reveal_strlit("<=");
    reveal_strlit("<>");
    reveal_strlit("!=");
    reveal_strlit(">");
    reveal_strlit(">=");
    reveal_strlit("+");
    reveal_strlit("-");
    reveal_strlit("/");
    reveal_strlit("%");
    if let TokenView::Op(s) = o {
        if s == "+"@ || s == "-"@ {
            assert(s.len() == 1);
            assert(s[0] == '+' || s[0] == '-');
            assert("<"@[0] == '<' && ">"@[0] == '>' && "<="@.len() == 2 && "<>"@.len() == 2 && "!="@.len() == 2
                && ">="@.len() == 2);
        }
        if s == "/"@ || s == "%"@ {
            assert(s.len() == 1);
            assert(s[0] == '/' || s[0] == '%');
            assert("<"@[0] == '<' && ">"@[0] == '>' && "+"@[0] == '+' && "-"@[0] == '-');
        }
    }
}

/// Where no operator follows that binds more tightly, an expression is complete.
proof fn lemma_complete(p: Input, i: int, precedence: Precedence, t: TreeView)
    requires
        binding(next_precedence(p, i)) <= binding(precedence),
    ensures
        infixes(p, i, precedence, t) == Got::<TreeView>(t, i),
{
    unfold_infixes(p, i, precedence, t);
}

/// What is read where an expression stands: the expression, and then what follows it.
pub open spec fn goes_on(p: Input, i: int, precedence: Precedence, e: Term) -> bool {
    subexpr(p, i, precedence) == infixes(deeper(p), i + written(e).len(), precedence, meaning(e))
}

/// Whether an expression stands at `i` and can be read there as the operand of an operator with
/// the given precedence.
pub open spec fn is_there(p: Input, i: int, precedence: Precedence, e: Term) -> bool {
    &&& is_legible(e)
    &&& stands(p, i, written(e))
    &&& level(e) > binding(precedence)
    &&& is_apart(token_at(p, i + written(e).len()))
    &&& binding(next_precedence(p, i + written(e).len())) <= edge(e)
    &&& 0 <= p.depth
    &&& p.depth + height(e) <= RECURSION_LIMIT
}

proof fn lemma_prefix_goes_on(p: Input, i: int, precedence: Precedence, e: Term)
    requires
        prefix(deeper(p), i) == Got::<TreeView>(meaning(e), i + written(e).len()),
        stands(p, i, written(e)),
        written(e).len() > 0,
        p.depth < RECURSION_LIMIT,
    ensures
        goes_on(p, i, precedence, e),
{
    unfold_subexpr(p, i, precedence);
    unfold_subexpr_seeded(p, i + written(e).len(), precedence, meaning(e));
}

proof fn lemma_operand(p: Input, i: int, precedence: Precedence, e: Term)
    requires
        is_there(p, i, precedence, e),
        binding(next_precedence(p, i + written(e).len())) <= binding(precedence),
        goes_on(p, i, precedence, e),
    ensures
        subexpr(p, i, precedence) == Got::<TreeView>(meaning(e), i + written(e).len()),
{
    lemma_deeper(p, i, written(e));
    lemma_complete(deeper(p), i + written(e).len(), precedence, meaning(e));
}

proof fn lemma_paren(p: Input, i: int, precedence: Precedence, a: Term)
    requires
        is_there(p, i, precedence, Term::Paren(Box::new(a))),
        goes_on(deeper(p), i + 1, Precedence::Zero, a),
    ensures
        goes_on(p, i, precedence, Term::Paren(Box::new(a))),
{
    let e = Term::Paren(Box::new(a));
    let q = deeper(p);
    let end = i + written(e).len();
    lemma_starts(a);
    lemma_deeper(p, i, written(e));
    lemma_paren_parts(q, i, a);
    lemma_there_zero(q, i + 1, a);
    lemma_operand(q, i + 1, Precedence::Zero, a);
    lemma_no_type(q, i);
    unfold_prefix(q, i);
    unfold_parenthesized_expr(q, i + 1);
    unfold_parenthesized(q, i + 1);
    unfold_expr_list(q, i + 1, Seq::empty());
    unfold_expr(q, i + 1);
    assert(Seq::<TreeView>::empty().push(meaning(a)) =~= seq![meaning(a)]);
    lemma_prefix_goes_on(p, i, precedence, e);
}

proof fn lemma_paren_parts(q: Input, i: int, a: Term)
    requires
        stands(q, i, written(Term::Paren(Box::new(a)))),
    ensures
        token_at(q, i) == Some(TokenView::LParen),
        stands(q, i + 1, written(a)),
        token_at(q, i + 1 + written(a).len()) == Some(TokenView::RParen),
        written(Term::Paren(Box::new(a))).len() == written(a).len() + 2,
{
    let open = seq![TokenView::LParen];
    let close = seq![TokenView::RParen];
    lemma_split(q, i, open + written(a), close);
    lemma_split(q, i, open, written(a));
    assert(token_at(q, i + 0) == Some(open[0]));
    assert(token_at(q, i + 1 + written(a).len() + 0) == Some(close[0]));
}

/// Before a closing parenthesis or a comma, an expression can be read whatever it is.
proof fn lemma_there_zero(q: Input, i: int, a: Term)
    requires
        is_legible(a),
        stands(q, i, written(a)),
        is_end(token_at(q, i + written(a).len())),
        0 <= q.depth,
        q.depth + height(a) <= RECURSION_LIMIT,
    ensures
        is_there(q, i, Precedence::Zero, a),
        next_precedence(q, i + written(a).len()) == Precedence::Zero,
{
    lemma_edge(a);
}

proof fn lemma_edge(a: Term)
    requires
        is_legible(a),
    ensures
        edge(a) >= 1,
        level(a) >= 1,
    decreases a,
{
    match a {
        Term::Binary(_, _, b) => {
            lemma_edge(*b);
        },
        Term::Not(b) => {
            lemma_edge(*b);
        },
        Term::Sign(_, b) => {
            lemma_edge(*b);
        },
        Term::Between(_, _, _, b) => {
            lemma_edge(*b);
        },
        Term::Like(_, _, _, b) => {
            lemma_edge(*b);
        },
        _ => {},
    }
}

proof fn lemma_not(p: Input, i: int, precedence: Precedence, a: Term)
    requires
        is_there(p, i, precedence, Term::Not(Box::new(a))),
        is_there(deeper(p), i + 1, Precedence::PrefixNot, a) ==> goes_on(
            deeper(p),
            i + 1,
            Precedence::PrefixNot,
            a,
        ),
    ensures
        goes_on(p, i, precedence, Term::Not(Box::new(a))),
{
    let e = Term::Not(Box::new(a));
    let q = deeper(p);
    let not = seq![TokenView::Keyword(Keyword::NOT)];
    lemma_starts(a);
    lemma_deeper(p, i, written(e));
    lemma_split(q, i, not, written(a));
    assert(token_at(q, i + 0) == Some(not[0]));
    assert(token_at(q, i + 1 + 0) == Some(written(a)[0]));
    assert(i + 1 + written(a).len() == i + written(e).len());
    lemma_operand(q, i + 1, Precedence::PrefixNot, a);
    if written(a)[0] == TokenView::LParen {
        lemma_second(a);
        assert(token_at(q, i + 1 + 1) == Some(written(a)[1]));
        lemma_no_modified_type(q, i);
    } else {
        lemma_no_typed_literal(q, i);
    }
    unfold_prefix(q, i);
    lemma_prefix_goes_on(p, i, precedence, e);
}

/// Behind an opening parenthesis an expression goes on.
proof fn lemma_second(a: Term)
    requires
        is_legible(a),
        written(a)[0] == TokenView::LParen,
    ensures
        written(a).len() > 1,
    decreases a,
{
    lemma_starts(a);
    match a {
        Term::Paren(b) => {
            lemma_starts(*b);
        },
        Term::Binary(b, _, c) => {
            lemma_starts(*b);
            lemma_second(*b);
        },
        Term::Is(b, _, _) | Term::Between(b, _, _, _) | Term::Like(b, _, _, _) | Term::In(b, _, _) => {
            lemma_starts(*b);
            lemma_second(*b);
        },
        _ => {},
    }
}

proof fn lemma_sign(p: Input, i: int, precedence: Precedence, o: TokenView, a: Term)
    requires
        is_there(p, i, precedence, Term::Sign(o, Box::new(a))),
        forall|inner: Precedence|
            is_there(deeper(p), i + 1, inner, a) ==> #[trigger] goes_on(deeper(p), i + 1, inner, a),
    ensures
        goes_on(p, i, precedence, Term::Sign(o, Box::new(a))),
{
    let e = Term::Sign(o, Box::new(a));
    let q = deeper(p);
    reveal_strlit("+");
    reveal_strlit("-");
    reveal_strlit("~");
    assert("+"@[0] != "-"@[0] && "+"@[0] != "~"@[0] && "-"@[0] != "~"@[0]);
    let inner = if o == TokenView::Op("~"@) {
        Precedence::Other
    } else {
        Precedence::PrefixPlusMinus
    };
    lemma_starts(a);
    lemma_deeper(p, i, written(e));
    lemma_split(q, i, seq![o], written(a));
    assert(token_at(q, i + 0) == Some(seq![o][0]));
    assert(token_at(q, i + 1 + 0) == Some(written(a)[0]));
    assert(i + 1 + written(a).len() == i + written(e).len());
    assert(goes_on(q, i + 1, inner, a));
    lemma_operand(q, i + 1, inner, a);
    lemma_no_type(q, i);
    unfold_prefix(q, i);
    crate::sql_parser::alignment::expr::unfold_prefix_operand(q, i + 1, operator_text(o), inner);
    lemma_prefix_goes_on(p, i, precedence, e);
}

proof fn lemma_infix(p: Input, i: int, j: int, precedence: Precedence, a: TreeView, t: TreeView)
    requires
        binding(next_precedence(p, i)) > binding(precedence),
        infix(p, i, a, next_precedence(p, i)) == Got::<TreeView>(t, j),
        i < j <= p.toks.len(),
    ensures
        infixes(p, i, precedence, a) == infixes(p, j, precedence, t),
{
    unfold_infixes(p, i, precedence, a);
}

proof fn lemma_between_operands(p: Input, i: int, precedence: Precedence, a: Term, o: TokenView, b: Term)
    requires
        is_there(p, i, precedence, Term::Binary(Box::new(a), o, Box::new(b))),
        is_there(p, i, precedence, a) ==> goes_on(p, i, precedence, a),
        forall|inner: Precedence|
            is_there(deeper(p), i + written(a).len() + 1, inner, b) ==> #[trigger] goes_on(
                deeper(p),
                i + written(a).len() + 1,
                inner,
                b,
            ),
    ensures
        goes_on(p, i, precedence, Term::Binary(Box::new(a), o, Box::new(b))),
{
    let e = Term::Binary(Box::new(a), o, Box::new(b));
    let q = deeper(p);
    let at = i + written(a).len();
    lemma_starts(a);
    lemma_starts(b);
    lemma_deeper(p, i, written(e));
    lemma_split(p, i, written(a) + seq![o], written(b));
    lemma_split(p, i, written(a), seq![o]);
    lemma_deeper(p, at + 1, written(b));
    assert(token_at(p, at + 0) == Some(seq![o][0]));
    assert(token_at(p, at + 1 + 0) == Some(written(b)[0]));
    lemma_binary(p, at, o);
    lemma_binary(q, at, o);
    assert(is_there(p, i, precedence, a));
    let inner = next_precedence(q, at);
    assert(at + 1 + written(b).len() == i + written(e).len());
    assert(is_there(q, at + 1, inner, b));
    assert(goes_on(q, at + 1, inner, b));
    lemma_operand(q, at + 1, inner, b);
    unfold_infix(q, at, meaning(a), inner);
    if o != TokenView::Keyword(Keyword::AND) && o != TokenView::Keyword(Keyword::OR) {
        let op = TreeView::Node(Kind::BareOp, seq![TreeView::Text(operator_text(o))]);
        unfold_binary_operand(q, at + 1, meaning(a), op, inner);
        lemma_no_quantifier(q, at + 1);
    }
    lemma_infix(q, at, i + written(e).len(), precedence, meaning(a), meaning(e));
}

proof fn lemma_no_quantifier(q: Input, i: int)
    requires
        token_at(q, i) matches Some(t) && (t is Ident || is_literal(t) || t == TokenView::LParen || t
            == TokenView::Keyword(Keyword::NOT) || t is Op),
    ensures
        one_of(q, i, seq![Keyword::ANY, Keyword::SOME, Keyword::ALL]) is None,
        one_of(q, i, seq![Keyword::SELECT, Keyword::VALUES, Keyword::WITH]) is None,
{
    let a = seq![Keyword::ANY, Keyword::SOME, Keyword::ALL];
    let b = seq![Keyword::SELECT, Keyword::VALUES, Keyword::WITH];
    if let Some(TokenView::Keyword(k)) = token_at(q, i) {
        if a.contains(k) {
            let j = a.index_of(k);
            assert(a[j] == k);
        }
        if b.contains(k) {
            let j = b.index_of(k);
            assert(b[j] == k);
        }
    }
}

/// A keyword that is asked for stands where it is to stand.
proof fn lemma_word_if(q: Input, i: int, b: bool, k: Keyword, rest: Seq<TokenView>)
    requires
        stands(q, i, word_if(b, k) + rest),
    ensures
        b ==> at_keyword(q, i, k) && stands(q, i + 1, rest),
        !b ==> stands(q, i, rest),
{
    lemma_split(q, i, word_if(b, k), rest);
    if b {
        assert(token_at(q, i + 0) == Some(word_if(b, k)[0]));
    }
}

proof fn lemma_is(p: Input, i: int, precedence: Precedence, a: Term, negated: bool, k: Keyword)
    requires
        is_there(p, i, precedence, Term::Is(Box::new(a), negated, k)),
        is_there(p, i, precedence, a) ==> goes_on(p, i, precedence, a),
    ensures
        goes_on(p, i, precedence, Term::Is(Box::new(a), negated, k)),
{
    let e = Term::Is(Box::new(a), negated, k);
    let q = deeper(p);
    let at = i + written(a).len();
    let is = seq![TokenView::Keyword(Keyword::IS)];
    let last = seq![TokenView::Keyword(k)];
    let end = i + written(e).len();
    lemma_starts(a);
    lemma_deeper(p, i, written(e));
    assert(written(e) =~= written(a) + (is + (word_if(negated, Keyword::NOT) + last)));
    lemma_split(p, i, written(a), is + (word_if(negated, Keyword::NOT) + last));
    lemma_split(p, at, is, word_if(negated, Keyword::NOT) + last);
    lemma_word_if(p, at + 1, negated, Keyword::NOT, last);
    assert(token_at(p, at + 0) == Some(is[0]));
    assert(token_at(p, end - 1 + 0) == Some(last[0]));
    if !negated {
        assert(token_at(p, at + 1) == Some(TokenView::Keyword(k)));
    }
    assert(is_there(p, i, precedence, a));
    let inner = next_precedence(q, at);
    unfold_infix(q, at, meaning(a), inner);
    unfold_is_construct(q, at + 1, meaning(a));
    let ks = seq![Keyword::NULL, Keyword::TRUE, Keyword::FALSE, Keyword::UNKNOWN, Keyword::DISTINCT];
    assert(ks[0] == Keyword::NULL && ks[1] == Keyword::TRUE && ks[2] == Keyword::FALSE && ks[3]
        == Keyword::UNKNOWN);
    assert(ks.contains(k));
    lemma_infix(q, at, end, precedence, meaning(a), meaning(e));
}

/// Behind an expression, `NOT` may stand before `BETWEEN`, `IN`, `LIKE` and `ILIKE`.
proof fn lemma_predicate(p: Input, i: int, precedence: Precedence, e: Term, a: Term, negated: bool, k: Keyword, rest: Seq<TokenView>)
    requires
        is_there(p, i, precedence, e),
        written(e) == written(a) + (word_if(negated, Keyword::NOT) + (seq![TokenView::Keyword(k)] + rest)),
        is_legible(a),
        level(e) == 6,
        level(a) >= 6,
        edge(a) >= 6,
        height(a) <= height(e),
        k == Keyword::BETWEEN || k == Keyword::IN || k == Keyword::LIKE || k == Keyword::ILIKE,
        is_there(p, i, precedence, a) ==> goes_on(p, i, precedence, a),
    ensures
        ({
            let q = deeper(p);
            let at = i + written(a).len();
            let next = if negated {
                at + 2
            } else {
                at + 1
            };
            &&& goes_on(p, i, precedence, a)
            &&& stands(q, next, rest)
            &&& next + rest.len() == i + written(e).len()
            &&& binding(next_precedence(q, at)) == 6
            &&& next_precedence(q, at) == Precedence::Like
            &&& infix(q, at, meaning(a), next_precedence(q, at)) == range_predicate(q, at, meaning(a))
            &&& at_keyword(q, at, Keyword::NOT) == negated
            &&& at_keyword(q, next - 1, k)
            &&& stands(p, i, written(a))
        }),
{
    let q = deeper(p);
    let at = i + written(a).len();
    let next = if negated {
        at + 2
    } else {
        at + 1
    };
    let word = seq![TokenView::Keyword(k)];
    lemma_starts(a);
    lemma_deeper(p, i, written(e));
    lemma_split(p, i, written(a), word_if(negated, Keyword::NOT) + (word + rest));
    lemma_word_if(p, at, negated, Keyword::NOT, word + rest);
    lemma_split(p, next - 1, word, rest);
    lemma_deeper(p, next, rest);
    assert(token_at(p, next - 1 + 0) == Some(word[0]));
    assert(is_there(p, i, precedence, a));
    unfold_infix(q, at, meaning(a), next_precedence(q, at));
}

/// What is read of `BETWEEN` once its ends are.
proof fn lemma_between_rule(
    q: Input,
    at: int,
    mid: int,
    end: int,
    negated: bool,
    a: TreeView,
    low: TreeView,
    high: TreeView,
)
    requires
        at_keyword(q, at, Keyword::NOT) == negated,
        at_keyword(
            q,
            if negated {
                at + 1
            } else {
                at
            },
            Keyword::BETWEEN,
        ),
        subexpr(
            q,
            if negated {
                at + 2
            } else {
                at + 1
            },
            Precedence::Like,
        ) == Got::<TreeView>(low, mid),
        (if negated {
            at + 2
        } else {
            at + 1
        }) < mid <= q.toks.len(),
        at_keyword(q, mid, Keyword::AND),
        subexpr(q, mid + 1, Precedence::Like) == Got::<TreeView>(high, end),
    ensures
        range_predicate(q, at, a) == Got::<TreeView>(
            TreeView::Node(Kind::Between, seq![a, TreeView::Flag(negated), low, high]),
            end,
        ),
{
    let next = if negated {
        at + 2
    } else {
        at + 1
    };
    unfold_range_predicate(q, at, a);
    unfold_between(q, next, a, negated);
}

proof fn lemma_between(p: Input, i: int, precedence: Precedence, a: Term, negated: bool, low: Term, high: Term)
    requires
        is_there(
            p,
            i,
            precedence,
            Term::Between(Box::new(a), negated, Box::new(low), Box::new(high)),
        ),
        is_there(p, i, precedence, a) ==> goes_on(p, i, precedence, a),
        forall|j: int|
            is_there(deeper(p), j, Precedence::Like, low) ==> #[trigger] goes_on(
                deeper(p),
                j,
                Precedence::Like,
                low,
            ),
        forall|j: int|
            is_there(deeper(p), j, Precedence::Like, high) ==> #[trigger] goes_on(
                deeper(p),
                j,
                Precedence::Like,
                high,
            ),
    ensures
        goes_on(
            p,
            i,
            precedence,
            Term::Between(Box::new(a), negated, Box::new(low), Box::new(high)),
        ),
{
    let e = Term::Between(Box::new(a), negated, Box::new(low), Box::new(high));
    let q = deeper(p);
    let at = i + written(a).len();
    let end = i + written(e).len();
    let and = seq![TokenView::Keyword(Keyword::AND)];
    let rest = written(low) + (and + written(high));
    let next = if negated {
        at + 2
    } else {
        at + 1
    };
    lemma_starts(a);
    lemma_starts(low);
    lemma_starts(high);
    lemma_edge(low);
    lemma_deeper(p, i, written(e));
    assert(written(e) =~= written(a) + (word_if(negated, Keyword::NOT) + (seq![
        TokenView::Keyword(Keyword::BETWEEN),
    ] + rest)));
    lemma_predicate(p, i, precedence, e, a, negated, Keyword::BETWEEN, rest);
    lemma_split(q, next, written(low), and + written(high));
    let mid = next + written(low).len();
    lemma_split(q, mid, and, written(high));
    assert(token_at(q, mid + 0) == Some(and[0]));
    lemma_low_edge(low);
    assert(is_there(q, next, Precedence::Like, low));
    assert(goes_on(q, next, Precedence::Like, low));
    lemma_operand(q, next, Precedence::Like, low);
    assert(mid + 1 + written(high).len() == end);
    assert(is_there(q, mid + 1, Precedence::Like, high));
    assert(goes_on(q, mid + 1, Precedence::Like, high));
    lemma_operand(q, mid + 1, Precedence::Like, high);
    lemma_between_rule(q, at, mid, end, negated, meaning(a), meaning(low), meaning(high));
    lemma_infix(q, at, end, precedence, meaning(a), meaning(e));
}

/// What binds more tightly than `BETWEEN` leaves an `AND` behind it alone.
proof fn lemma_low_edge(low: Term)
    requires
        is_legible(low),
        level(low) > 2,
    ensures
        edge(low) >= 2,
    decreases low,
{
    match low {
        Term::Binary(_, _, b) => {
            lemma_low_edge(*b);
        },
        Term::Not(b) => {
            lemma_low_edge(*b);
        },
        Term::Sign(_, b) => {
            lemma_low_edge(*b);
        },
        Term::Between(_, _, _, b) => {
            lemma_low_edge(*b);
        },
        Term::Like(_, _, _, b) => {
            lemma_low_edge(*b);
        },
        _ => {},
    }
}

proof fn lemma_like(p: Input, i: int, precedence: Precedence, a: Term, negated: bool, any_case: bool, b: Term)
    requires
        is_there(p, i, precedence, Term::Like(Box::new(a), negated, any_case, Box::new(b))),
        is_there(p, i, precedence, a) ==> goes_on(p, i, precedence, a),
        forall|j: int|
            is_there(deeper(p), j, Precedence::Like, b) ==> #[trigger] goes_on(
                deeper(p),
                j,
                Precedence::Like,
                b,
            ),
    ensures
        goes_on(p, i, precedence, Term::Like(Box::new(a), negated, any_case, Box::new(b))),
{
    let e = Term::Like(Box::new(a), negated, any_case, Box::new(b));
    let q = deeper(p);
    let at = i + written(a).len();
    let end = i + written(e).len();
    let k = if any_case {
        Keyword::ILIKE
    } else {
        Keyword::LIKE
    };
    let next = if negated {
        at + 2
    } else {
        at + 1
    };
    lemma_starts(a);
    lemma_starts(b);
    lemma_deeper(p, i, written(e));
    assert(written(e) =~= written(a) + (word_if(negated, Keyword::NOT) + (seq![TokenView::Keyword(k)]
        + written(b))));
    lemma_predicate(p, i, precedence, e, a, negated, k, written(b));
    assert(is_there(q, next, Precedence::Like, b));
    assert(goes_on(q, next, Precedence::Like, b));
    lemma_operand(q, next, Precedence::Like, b);
    unfold_range_predicate(q, at, meaning(a));
    unfold_like(q, next, meaning(a), any_case, negated);
    lemma_infix(q, at, end, precedence, meaning(a), meaning(e));
}

/// Where the `k`-th expression of a list starts.
spec fn start_of(es: Seq<Term>, k: int) -> int {
    if k <= 0 {
        0
    } else {
        written_list(es, k).len() as int + 1
    }
}

proof fn lemma_element(q: Input, i: int, es: Seq<Term>, n: int, k: int)
    requires
        stands(q, i, written_list(es, n)),
        0 <= k < n <= es.len(),
    ensures
        stands(q, i + start_of(es, k), written(es[k])),
        start_of(es, k) + written(es[k]).len() == written_list(es, k + 1).len(),
        k + 1 < n ==> token_at(q, i + written_list(es, k + 1).len()) == Some(TokenView::Comma),
    decreases n,
{
    reveal_with_fuel(written_list, 2);
    if n > 1 {
        let front = written_list(es, n - 1);
        let comma = seq![TokenView::Comma];
        lemma_split(q, i, front + comma, written(es[n - 1]));
        lemma_split(q, i, front, comma);
        assert(token_at(q, i + front.len() + 0) == Some(comma[0]));
        if k < n - 1 {
            lemma_element(q, i, es, n - 1, k);
        }
    }
}

proof fn lemma_member(es: Seq<Term>, n: int, k: int)
    requires
        all_legible(es, n),
        0 <= k < n <= es.len(),
    ensures
        is_legible(es[k]),
        height(es[k]) <= list_height(es, n),
    decreases n,
{
    lemma_list_height(es, n - 1);
    lemma_starts(es[n - 1]);
    if k < n - 1 {
        lemma_member(es, n - 1, k);
    }
}

/// Expressions with commas between them are read one by one, in order.
proof fn lemma_list(q: Input, i: int, es: Seq<Term>, k: int)
    requires
        all_legible(es, es.len() as int),
        stands(q, i, written_list(es, es.len() as int)),
        is_end(token_at(q, i + written_list(es, es.len() as int).len())),
        !at_token(q, i + written_list(es, es.len() as int).len(), TokenView::Comma),
        0 <= q.depth,
        q.depth + list_height(es, es.len() as int) <= RECURSION_LIMIT,
        0 <= k < es.len(),
    ensures
        expr_list(q, i + start_of(es, k), meanings(es, k)) == Got::<Seq<TreeView>>(
            meanings(es, es.len() as int),
            i + written_list(es, es.len() as int).len(),
        ),
    decreases es, es.len() - k,
{
    let n = es.len() as int;
    let at = i + start_of(es, k);
    lemma_element(q, i, es, n, k);
    lemma_member(es, n, k);
    lemma_starts(es[k]);
    let end = at + written(es[k]).len();
    assert(end == i + written_list(es, k + 1).len());
    lemma_there_zero(q, at, es[k]);
    lemma_reads(q, at, Precedence::Zero, es[k]);
    lemma_operand(q, at, Precedence::Zero, es[k]);
    unfold_expr(q, at);
    unfold_expr_list(q, at, meanings(es, k));
    assert(meanings(es, k + 1) == meanings(es, k).push(meaning(es[k])));
    if k + 1 < n {
        lemma_list(q, i, es, k + 1);
    }
}

/// A list of expressions in parentheses.
spec fn in_parens(es: Seq<Term>) -> Seq<TokenView> {
    seq![TokenView::LParen] + (written_list(es, es.len() as int) + seq![TokenView::RParen])
}

proof fn lemma_in_parens(q: Input, i: int, es: Seq<Term>)
    requires
        stands(q, i, in_parens(es)),
        all_legible(es, es.len() as int),
        0 <= q.depth,
        q.depth + list_height(es, es.len() as int) <= RECURSION_LIMIT,
    ensures
        ({
            let end = i + in_parens(es).len();
            &&& in_parens(es).len() == written_list(es, es.len() as int).len() + 2
            &&& at_token(q, i, TokenView::LParen)
            &&& at_token(q, end - 1, TokenView::RParen)
            &&& es.len() == 0 ==> in_parens(es).len() == 2
            &&& es.len() > 0 ==> {
                &&& i + 2 < end
                &&& expr_list(q, i + 1, Seq::empty()) == Got::<Seq<TreeView>>(
                    meanings(es, es.len() as int),
                    end - 1,
                )
                &&& token_at(q, i + 1) == Some(written(es[0])[0])
                &&& ({
                    let t = written(es[0])[0];
                    t is Ident || is_literal(t) || t == TokenView::LParen || t == TokenView::Keyword(
                        Keyword::NOT,
                    ) || t is Op
                })
            }
        }),
    decreases es, es.len() + 1,
{
    let n = es.len() as int;
    let list = written_list(es, n);
    let open = seq![TokenView::LParen];
    let close = seq![TokenView::RParen];
    lemma_split(q, i, open, list + close);
    lemma_split(q, i + 1, list, close);
    assert(token_at(q, i + 0) == Some(open[0]));
    assert(token_at(q, i + 1 + list.len() + 0) == Some(close[0]));
    if n > 0 {
        lemma_list(q, i + 1, es, 0);
        lemma_element(q, i + 1, es, n, 0);
        lemma_member(es, n, 0);
        lemma_starts(es[0]);
        assert(token_at(q, i + 1 + 0) == Some(written(es[0])[0]));
        assert(meanings(es, 0) =~= Seq::<TreeView>::empty());
    }
}

/// What is read of `IN` once its list is.
proof fn lemma_in_rule(q: Input, at: int, end: int, negated: bool, a: TreeView, members: Seq<TreeView>)
    requires
        at_keyword(q, at, Keyword::NOT) == negated,
        at_keyword(
            q,
            if negated {
                at + 1
            } else {
                at
            },
            Keyword::IN,
        ),
        ({
            let next = if negated {
                at + 2
            } else {
                at + 1
            };
            &&& at_token(q, next, TokenView::LParen)
            &&& one_of(q, next + 1, seq![Keyword::SELECT, Keyword::VALUES, Keyword::WITH]) is None
            &&& expr_list(q, next + 1, Seq::empty()) == Got::<Seq<TreeView>>(members, end - 1)
        }),
        at_token(q, end - 1, TokenView::RParen),
    ensures
        range_predicate(q, at, a) == Got::<TreeView>(
            TreeView::Node(Kind::InList, seq![a, TreeView::List(members), TreeView::Flag(negated)]),
            end,
        ),
{
    let next = if negated {
        at + 2
    } else {
        at + 1
    };
    unfold_range_predicate(q, at, a);
    unfold_in_predicate(q, next, a, negated);
}

proof fn lemma_in(p: Input, i: int, precedence: Precedence, a: Term, negated: bool, es: Seq<Term>)
    requires
        is_there(p, i, precedence, Term::In(Box::new(a), negated, es)),
        is_there(p, i, precedence, a) ==> goes_on(p, i, precedence, a),
    ensures
        goes_on(p, i, precedence, Term::In(Box::new(a), negated, es)),
    decreases es, es.len() + 2,
{
    let e = Term::In(Box::new(a), negated, es);
    let q = deeper(p);
    let at = i + written(a).len();
    let end = i + written(e).len();
    let rest = in_parens(es);
    let next = if negated {
        at + 2
    } else {
        at + 1
    };
    lemma_starts(a);
    lemma_list_height(es, es.len() as int);
    assert(written(e) =~= written(a) + (word_if(negated, Keyword::NOT) + (seq![
        TokenView::Keyword(Keyword::IN),
    ] + rest)));
    lemma_predicate(p, i, precedence, e, a, negated, Keyword::IN, rest);
    lemma_in_parens(q, next, es);
    lemma_no_quantifier(q, next + 1);
    lemma_in_rule(q, at, end, negated, meaning(a), meanings(es, es.len() as int));
    lemma_infix(q, at, end, precedence, meaning(a), meaning(e));
}

/// What is read of a function once its arguments are.
proof fn lemma_call_rule(q: Input, i: int, end: int, f: Seq<char>, args: Seq<TreeView>)
    requires
        0 <= i,
        end <= q.toks.len(),
        token_at(q, i) == Some(TokenView::Ident(f)),
        at_token(q, i + 1, TokenView::LParen),
        typed_literal(q, i) is Failed,
        is_apart(token_at(q, end)),
        at_token(q, end - 1, TokenView::RParen),
        ({
            ||| end == i + 3 && args.len() == 0
            ||| {
                &&& i + 3 < end
                &&& expr_list(q, i + 2, Seq::empty()) == Got::<Seq<TreeView>>(args, end - 1)
                &&& token_at(q, i + 2) matches Some(t) && (t is Ident || is_literal(t) || t
                    == TokenView::LParen || t == TokenView::Keyword(Keyword::NOT) || t is Op)
            }
        }),
    ensures
        prefix(q, i) == Got::<TreeView>(
            TreeView::Node(
                Kind::Function,
                seq![
                    plain_name(f),
                    TreeView::Node(
                        Kind::Args,
                        seq![TreeView::List(args), TreeView::List(Seq::<TreeView>::empty())],
                    ),
                    TreeView::Absent,
                    TreeView::Absent,
                    TreeView::Flag(false),
                ],
            ),
            end,
        ),
{
    let id = TreeView::Text(f);
    let name = TreeView::Node(Kind::ItemName, seq![TreeView::List(seq![id])]);
    if args.len() == 0 {
        assert(args =~= Seq::<TreeView>::empty());
    }
    unfold_optional_args(q, i + 2, true);
    assert(optional_args(q, i + 2, true) == Got::<TreeView>(
        TreeView::Node(
            Kind::Args,
            seq![TreeView::List(args), TreeView::List(Seq::<TreeView>::empty())],
        ),
        end,
    ));
    lemma_function_rule(q, i + 1, end, name, args);
    unfold_identifier_parts(q, i + 1, seq![id]);
    unfold_qualified_identifier(q, i + 1, id);
    unfold_prefix(q, i);
}

proof fn lemma_function_rule(q: Input, i: int, end: int, name: TreeView, args: Seq<TreeView>)
    requires
        0 <= i,
        i + 1 < end <= q.toks.len(),
        at_token(q, i, TokenView::LParen),
        !at_keyword(q, i + 1, Keyword::ALL),
        !at_keyword(q, i + 1, Keyword::DISTINCT),
        optional_args(q, i + 1, true) == Got::<TreeView>(
            TreeView::Node(
                Kind::Args,
                seq![TreeView::List(args), TreeView::List(Seq::<TreeView>::empty())],
            ),
            end,
        ),
        is_apart(token_at(q, end)),
    ensures
        function(q, i, name) == Got::<TreeView>(
            TreeView::Node(
                Kind::Function,
                seq![
                    name,
                    TreeView::Node(
                        Kind::Args,
                        seq![TreeView::List(args), TreeView::List(Seq::<TreeView>::empty())],
                    ),
                    TreeView::Absent,
                    TreeView::Absent,
                    TreeView::Flag(false),
                ],
            ),
            end,
        ),
{
    reveal(distinct_choice);
    unfold_function(q, i, name);
}

proof fn lemma_call(p: Input, i: int, precedence: Precedence, f: Seq<char>, es: Seq<Term>)
    requires
        is_there(p, i, precedence, Term::Call(f, es)),
    ensures
        goes_on(p, i, precedence, Term::Call(f, es)),
    decreases es, es.len() + 2,
{
    let e = Term::Call(f, es);
    let q = deeper(p);
    let end = i + written(e).len();
    let name = seq![TokenView::Ident(f)];
    lemma_list_height(es, es.len() as int);
    lemma_deeper(p, i, written(e));
    assert(written(e) =~= name + in_parens(es));
    lemma_split(q, i, name, in_parens(es));
    assert(token_at(q, i + 0) == Some(name[0]));
    lemma_in_parens(q, i + 1, es);
    lemma_no_modified_type(q, i);
    if es.len() == 0 {
        assert(meanings(es, 0) =~= Seq::<TreeView>::empty());
    }
    lemma_call_rule(q, i, end, f, meanings(es, es.len() as int));
    lemma_prefix_goes_on(p, i, precedence, e);
}

/// An expression is read as what it means, and then what follows it is read.
proof fn lemma_reads(p: Input, i: int, precedence: Precedence, e: Term)
    requires
        is_there(p, i, precedence, e),
    ensures
        goes_on(p, i, precedence, e),
    decreases e, 0int,
{
    let q = deeper(p);
    lemma_starts(e);
    lemma_deeper(p, i, written(e));
    match e {
        Term::Column(s) => {
            assert(token_at(q, i + 0) == Some(written(e)[0]));
            lemma_atom(q, i, TokenView::Ident(s));
            lemma_prefix_goes_on(p, i, precedence, e);
        },
        Term::Literal(t) => {
            assert(token_at(q, i + 0) == Some(written(e)[0]));
            lemma_atom(q, i, t);
            lemma_prefix_goes_on(p, i, precedence, e);
        },
        Term::Paren(a) => {
            lemma_paren_parts(q, i, *a);
            lemma_there_zero(q, i + 1, *a);
            lemma_reads(q, i + 1, Precedence::Zero, *a);
            lemma_paren(p, i, precedence, *a);
        },
        Term::Binary(a, o, b) => {
            if is_there(p, i, precedence, *a) {
                lemma_reads(p, i, precedence, *a);
            }
            let j = i + written(*a).len() + 1;
            assert forall|inner: Precedence| is_there(q, j, inner, *b) implies #[trigger] goes_on(
                q,
                j,
                inner,
                *b,
            ) by {
                lemma_reads(q, j, inner, *b);
            }
            lemma_between_operands(p, i, precedence, *a, o, *b);
        },
        Term::Not(a) => {
            if is_there(q, i + 1, Precedence::PrefixNot, *a) {
                lemma_reads(q, i + 1, Precedence::PrefixNot, *a);
            }
            lemma_not(p, i, precedence, *a);
        },
        Term::Sign(o, a) => {
            assert forall|inner: Precedence| is_there(q, i + 1, inner, *a) implies #[trigger] goes_on(
                q,
                i + 1,
                inner,
                *a,
            ) by {
                lemma_reads(q, i + 1, inner, *a);
            }
            lemma_sign(p, i, precedence, o, *a);
        },
        Term::Is(a, negated, k) => {
            if is_there(p, i, precedence, *a) {
                lemma_reads(p, i, precedence, *a);
            }
            lemma_is(p, i, precedence, *a, negated, k);
        },
        Term::Between(a, negated, low, high) => {
            if is_there(p, i, precedence, *a) {
                lemma_reads(p, i, precedence, *a);
            }
            assert forall|j: int| is_there(q, j, Precedence::Like, *low) implies #[trigger] goes_on(
                q,
                j,
                Precedence::Like,
                *low,
            ) by {
                lemma_reads(q, j, Precedence::Like, *low);
            }
            assert forall|j: int| is_there(q, j, Precedence::Like, *high) implies #[trigger] goes_on(
                q,
                j,
                Precedence::Like,
                *high,
            ) by {
                lemma_reads(q, j, Precedence::Like, *high);
            }
            lemma_between(p, i, precedence, *a, negated, *low, *high);
        },
        Term::Like(a, negated, any_case, b) => {
            if is_there(p, i, precedence, *a) {
                lemma_reads(p, i, precedence, *a);
            }
            assert forall|j: int| is_there(q, j, Precedence::Like, *b) implies #[trigger] goes_on(
                q,
                j,
                Precedence::Like,
                *b,
            ) by {
                lemma_reads(q, j, Precedence::Like, *b);
            }
            lemma_like(p, i, precedence, *a, negated, any_case, *b);
        },
        Term::In(a, negated, es) => {
            if is_there(p, i, precedence, *a) {
                lemma_reads(p, i, precedence, *a);
            }
            lemma_in(p, i, precedence, *a, negated, es);
        },
        Term::Call(f, es) => {
            lemma_call(p, i, precedence, f, es);
        },
    }
}

/// An expression is read back as it is written, up to its end: operators bind as tightly as they
/// are said to, those that bind alike from the left to the right, and each construct comes to
/// what it means.
pub proof fn law_expression_read(p: Input, i: int, e: Term)
    requires
        is_legible(e),
        stands(p, i, written(e)),
        is_end(token_at(p, i + written(e).len())),
        0 <= p.depth,
        p.depth + height(e) <= RECURSION_LIMIT,
    ensures
        expr(p, i) == Got::<TreeView>(meaning(e), i + written(e).len()),
{
    lemma_there_zero(p, i, e);
    lemma_reads(p, i, Precedence::Zero, e);
    lemma_operand(p, i, Precedence::Zero, e);
    unfold_expr(p, i);
}

/// Expressions with commas between them are read back in order.
pub proof fn law_expressions_read(p: Input, i: int, es: Seq<Term>)
    requires
        es.len() > 0,
        all_legible(es, es.len() as int),
        stands(p, i, written_list(es, es.len() as int)),
        is_end(token_at(p, i + written_list(es, es.len() as int).len())),
        !at_token(p, i + written_list(es, es.len() as int).len(), TokenView::Comma),
        0 <= p.depth,
        p.depth + list_height(es, es.len() as int) <= RECURSION_LIMIT,
    ensures
        expr_list(p, i, Seq::empty()) == Got::<Seq<TreeView>>(
            meanings(es, es.len() as int),
            i + written_list(es, es.len() as int).len(),
        ),
{
    lemma_list(p, i, es, 0);
    assert(meanings(es, 0) =~= Seq::<TreeView>::empty());
}

/// A text that is an expression is that expression.
pub proof fn law_text_read(sql: Seq<char>, toks: Seq<(TokenView, int)>, e: Term)
    requires
        crate::sql_parser::lexer::tokens_of(sql) == Ok::<
            Seq<(TokenView, int)>,
            crate::sql_parser::lexer::Blame,
        >(toks),
        toks.map_values(|t: (TokenView, int)| t.0) == written(e),
        is_legible(e),
        height(e) <= RECURSION_LIMIT,
    ensures
        expr_of(sql) == Ok::<TreeView, FailureView>(meaning(e)),
{
    let p = input_of(sql, toks);
    let ts = toks.map_values(|t: (TokenView, int)| t.0);
    assert forall|k: int| 0 <= k < ts.len() implies #[trigger] token_at(p, 0 + k) == Some(ts[k]) by {}
    law_expression_read(p, 0, e);
}

/// Products bind more tightly than sums: in `a + b * c` the product is an operand of the sum, and
/// in `a * b + c` too, whichever of these operators they are.
pub proof fn law_products_first(p: Input, i: int, a: TokenView, sum: TokenView, b: TokenView, product: TokenView, c: TokenView)
    requires
        is_literal(a) && is_literal(b) && is_literal(c),
        sum == TokenView::Op("+"@) || sum == TokenView::Op("-"@),
        product == TokenView::Star || product == TokenView::Op("/"@) || product == TokenView::Op("%"@),
        0 <= p.depth,
        p.depth + 7 <= RECURSION_LIMIT,
        is_end(token_at(p, i + 5)),
    ensures
        stands(p, i, seq![a, sum, b, product, c]) ==> expr(p, i) == Got::<TreeView>(
            combined(literal_tree(a), sum, combined(literal_tree(b), product, literal_tree(c))),
            i + 5,
        ),
        stands(p, i, seq![a, product, b, sum, c]) ==> expr(p, i) == Got::<TreeView>(
            combined(combined(literal_tree(a), product, literal_tree(b)), sum, literal_tree(c)),
            i + 5,
        ),
{
    lemma_tightness();
    let x = Term::Literal(a);
    let y = Term::Literal(b);
    let z = Term::Literal(c);
    lemma_literal_term(a);
    lemma_literal_term(b);
    lemma_literal_term(c);
    if stands(p, i, seq![a, sum, b, product, c]) {
        let inner = Term::Binary(Box::new(y), product, Box::new(z));
        let e = Term::Binary(Box::new(x), sum, Box::new(inner));
        lemma_binary_term(y, product, z);
        lemma_binary_term(x, sum, inner);
        assert(written(e) =~= seq![a, sum, b, product, c]);
        law_expression_read(p, i, e);
    }
    if stands(p, i, seq![a, product, b, sum, c]) {
        let inner = Term::Binary(Box::new(x), product, Box::new(y));
        let e = Term::Binary(Box::new(inner), sum, Box::new(z));
        lemma_binary_term(x, product, y);
        lemma_binary_term(inner, sum, z);
        assert(written(e) =~= seq![a, product, b, sum, c]);
        law_expression_read(p, i, e);
    }
}

proof fn lemma_literal_term(t: TokenView)
    requires
        is_literal(t),
    ensures
        is_legible(Term::Literal(t)),
        level(Term::Literal(t)) == 13,
        edge(Term::Literal(t)) == 13,
        height(Term::Literal(t)) == 1,
        written(Term::Literal(t)) == seq![t],
        meaning(Term::Literal(t)) == literal_tree(t),
{
}

proof fn lemma_binary_term(a: Term, o: TokenView, b: Term)
    requires
        is_binary(o),
        is_legible(a),
        is_legible(b),
        level(a) >= tightness(o),
        edge(a) >= tightness(o),
        level(b) > tightness(o),
    ensures
        ({
            let e = Term::Binary(Box::new(a), o, Box::new(b));
            &&& is_legible(e)
            &&& level(e) == tightness(o)
            &&& edge(e) == least(tightness(o), edge(b))
            &&& height(e) == 2 + height(a) + height(b)
            &&& written(e) == written(a) + seq![o] + written(b)
            &&& meaning(e) == combined(meaning(a), o, meaning(b))
        }),
{
}

proof fn lemma_tightness()
    ensures
        tightness(TokenView::Op("+"@)) == 8,
        tightness(TokenView::Op("-"@)) == 8,
        tightness(TokenView::Star) == 9,
        tightness(TokenView::Op("/"@)) == 9,
        tightness(TokenView::Op("%"@)) == 9,
{
    reveal_strlit("<");
    reveal_strlit("<=");
    reveal_strlit("<>");
    reveal_strlit("!=");
    reveal_strlit(">");
    reveal_strlit(">=");
    reveal_strlit("+");
    reveal_strlit("-");
    reveal_strlit("/");
    reveal_strlit("%");
    assert("<"@[0] == '<' && ">"@[0] == '>' && "+"@[0] == '+' && "-"@[0] == '-' && "/"@[0] == '/' && "%"@[0]
        == '%');
    assert("<="@.len() == 2 && "<>"@.len() == 2 && "!="@.len() == 2 && ">="@.len() == 2);
    assert("+"@.len() == 1 && "-"@.len() == 1 && "/"@.len() == 1 && "%"@.len() == 1);
}

} // verus!
