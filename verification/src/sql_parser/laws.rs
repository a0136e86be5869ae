//! What holds of whatever is parsed.

use vstd::prelude::*;

use crate::sql_parser::checks::next_precedence;
use crate::sql_parser::expr::{infix, infixes, prefix, subexpr, subexpr_seeded};
use crate::sql_parser::keywords::Keyword;
use crate::sql_parser::kind::Kind;
use crate::sql_parser::lexer::tokens_of;
use crate::sql_parser::outcome::Out::{Failed, Got};
use crate::sql_parser::outcome::{FailureView, Out};
use crate::sql_parser::parse::{input_of, statements_of};
use crate::sql_parser::parser::{
    at_keyword, at_token, binding, deeper, past, set_binding, token_at, Input, Precedence, SetPrecedence,
};
use crate::sql_parser::query::{query, query_body, query_body_seeded, set_operation_all};
use crate::sql_parser::select::{select, values_row_list};
use crate::sql_parser::show::show;
use crate::sql_parser::statement::{statement, statements};
use crate::sql_parser::syntax::TreeView;
use crate::sql_parser::token::TokenView;

verus! {

/// An expression ends where the precedence decreases: the operator behind it, if there is one,
/// does not bind more tightly than it was asked for.
pub proof fn law_expression_ends(p: Input, i: int, precedence: Precedence)
    ensures
        subexpr(p, i, precedence) matches Got(_, j) ==> binding(next_precedence(p, j)) <= binding(
            precedence,
        ),
{
    reveal(subexpr);
    reveal(subexpr_seeded);
    reveal(prefix);
    reveal(infixes);
    if let Got(e, j) = prefix(deeper(p), i) {
        lemma_infixes_end(deeper(p), j, precedence, e);
        if let Got(_, k) = subexpr(p, i, precedence) {
            assert(token_at(p, k) == token_at(deeper(p), k));
            assert(token_at(p, k + 1) == token_at(deeper(p), k + 1));
            assert(next_precedence(p, k) == next_precedence(deeper(p), k));
        }
    }
}

proof fn lemma_infixes_end(p: Input, i: int, precedence: Precedence, e: TreeView)
    ensures
        infixes(p, i, precedence, e) matches Got(_, j) ==> binding(next_precedence(p, j)) <= binding(
            precedence,
        ),
    decreases p.toks.len() - i,
{
    reveal(infixes);
    reveal(infix);
    if let Got(f, j) = infix(p, i, e, next_precedence(p, i)) {
        if i < j <= p.toks.len() {
            lemma_infixes_end(p, j, precedence, f);
        }
    }
}

/// How tightly the set operator at `i` binds; less than any, if there is none.
pub open spec fn next_set_binding(p: Input, i: int) -> int {
    if at_keyword(p, i, Keyword::UNION) || at_keyword(p, i, Keyword::EXCEPT) {
        set_binding(SetPrecedence::UnionExcept)
    } else if at_keyword(p, i, Keyword::INTERSECT) {
        set_binding(SetPrecedence::Intersect)
    } else {
        -1
    }
}

/// Whether the set operator behind a query body, if there is one, does not bind more tightly
/// than `precedence`.
pub open spec fn ends_in_order(p: Input, out: Out<TreeView>, precedence: SetPrecedence) -> bool {
    out matches Got(_, j) ==> next_set_binding(p, j) <= set_binding(precedence)
}

/// A query body ends where the precedence decreases: the set operator behind it, if there is
/// one, does not bind more tightly than it was asked for.
pub proof fn law_query_body_ends(p: Input, i: int, precedence: SetPrecedence)
    ensures
        ends_in_order(p, query_body(p, i, precedence), precedence),
{
    reveal(query_body);
    reveal(query_body_seeded);
    if at_keyword(p, i, Keyword::SELECT) {
        reveal(select);
        if let Got(s, j) = select(p, i + 1) {
            lemma_set_operators_end(p, j, precedence, TreeView::Node(Kind::SelectBody, seq![s]));
        }
    } else if at_token(p, i, TokenView::LParen) {
        reveal(query);
        if let Got(q, j) = query(p, i + 1) {
            lemma_set_operators_end(p, j + 1, precedence, TreeView::Node(Kind::QueryBody, seq![q]));
        }
    } else if at_keyword(p, i, Keyword::VALUES) {
        reveal(values_row_list);
        if let Got(rows, j) = values_row_list(p, i + 1, Seq::empty()) {
            let body = TreeView::Node(Kind::ValuesBody, seq![TreeView::List(rows)]);
            lemma_set_operators_end(p, j, precedence, body);
        }
    } else if at_keyword(p, i, Keyword::SHOW) {
        reveal(show);
        if let Got(s, j) = show(p, i + 1) {
            lemma_set_operators_end(p, j, precedence, TreeView::Node(Kind::ShowBody, seq![s]));
        }
    }
}

/// The query body that a set operator makes of two others.
pub open spec fn set_operation(e: TreeView, operator: Kind, all: bool, right: TreeView) -> TreeView {
    TreeView::Node(
        Kind::SetOperation,
        seq![e, TreeView::Node(operator, Seq::<TreeView>::empty()), TreeView::Flag(all), right],
    )
}

proof fn lemma_set_operators_end(p: Input, i: int, precedence: SetPrecedence, e: TreeView)
    ensures
        ends_in_order(p, query_body_seeded(p, i, precedence, e), precedence),
    decreases p.toks.len() - i,
{
    reveal(query_body_seeded);
    reveal(query_body);
    let (operator, inner) = if at_keyword(p, i, Keyword::UNION) {
        (Kind::Union, SetPrecedence::UnionExcept)
    } else if at_keyword(p, i, Keyword::EXCEPT) {
        (Kind::Except, SetPrecedence::UnionExcept)
    } else {
        (Kind::Intersect, SetPrecedence::Intersect)
    };
    if let Got(all, j) = set_operation_all(p, i + 1) {
        if let Got(right, k) = query_body(p, j, inner) {
            if i < k <= p.toks.len() {
                lemma_set_operators_end(p, k, precedence, set_operation(e, operator, all, right));
            }
        }
    }
}

/// Statements are parsed up to the end of the text, and follow those parsed before, which stay
/// as they are.
pub proof fn law_statements_reach_end(p: Input, i: int, due: bool, stmts: Seq<TreeView>)
    requires
        0 <= i <= p.toks.len(),
    ensures
        statements(p, i, due, stmts) matches Got(all, j) ==> {
            &&& j == p.toks.len()
            &&& stmts.len() <= all.len()
            &&& all.take(stmts.len() as int) == stmts
        },
    decreases p.toks.len() - i,
{
    reveal(statements);
    if at_token(p, i, TokenView::Semicolon) {
        law_statements_reach_end(p, i + 1, false, stmts);
    } else if token_at(p, i) is None {
        assert(stmts.take(stmts.len() as int) =~= stmts);
    } else if !due {
        if let Got(s, j) = statement(p, i) {
            if i < j <= p.toks.len() {
                law_statements_reach_end(p, j, true, stmts.push(s));
                if let Got(all, _) = statements(p, j, true, stmts.push(s)) {
                    assert(all.take(stmts.len() as int) =~= all.take(stmts.push(s).len() as int).take(
                        stmts.len() as int,
                    ));
                    assert(stmts.push(s).take(stmts.len() as int) =~= stmts);
                }
            }
        }
    }
}

/// An outcome with the statements that were parsed before it.
pub open spec fn behind(stmts: Seq<TreeView>, out: Out<Seq<TreeView>>) -> Out<Seq<TreeView>> {
    match out {
        Got(more, j) => Got(stmts + more, j),
        Failed(e, j) => Failed(e, j),
    }
}

/// The statements from `i` on, after those in `stmts`, if they end at the token `k`.
pub open spec fn statements_up_to(
    p: Input,
    i: int,
    due: bool,
    stmts: Seq<TreeView>,
    k: int,
) -> Option<Seq<TreeView>>
    decreases p.toks.len() - i,
{
    if i == k {
        Some(stmts)
    } else if at_token(p, i, TokenView::Semicolon) {
        statements_up_to(p, i + 1, false, stmts, k)
    } else if due || token_at(p, i) is None {
        None
    } else {
        match past(p, i, statement(p, i)) {
            Failed(_, _) => None,
            Got(s, j) => statements_up_to(p, j, true, stmts.push(s), k),
        }
    }
}

/// What is parsed from a token on does not depend on the statements before it, which it follows.
pub proof fn law_statements_accumulate(p: Input, i: int, due: bool, stmts: Seq<TreeView>)
    ensures
        statements(p, i, due, stmts) == behind(stmts, statements(p, i, due, Seq::empty())),
    decreases p.toks.len() - i,
{
    reveal(statements);
    let none = Seq::<TreeView>::empty();
    if at_token(p, i, TokenView::Semicolon) {
        law_statements_accumulate(p, i + 1, false, stmts);
    } else if token_at(p, i) is None {
        assert(stmts + none =~= stmts);
    } else if !due {
        if let Got(s, j) = past(p, i, statement(p, i)) {
            law_statements_accumulate(p, j, true, stmts.push(s));
            law_statements_accumulate(p, j, true, none.push(s));
            if let Got(more, _) = statements(p, j, true, none) {
                assert(stmts.push(s) + more =~= stmts + (none.push(s) + more));
            }
        }
    }
}

/// The statements of a text are those before a delimiter followed by those behind it, and parsing
/// fails behind the delimiter as if nothing stood before it.
pub proof fn law_delimiter_separates(p: Input, k: int, before: Seq<TreeView>)
    requires
        at_token(p, k, TokenView::Semicolon),
        statements_up_to(p, 0, false, Seq::empty(), k) == Some(before),
    ensures
        statements(p, 0, false, Seq::empty()) == behind(
            before,
            statements(p, k + 1, false, Seq::empty()),
        ),
{
    lemma_up_to(p, 0, false, Seq::empty(), k);
    reveal(statements);
    law_statements_accumulate(p, k + 1, false, before);
}

proof fn lemma_up_to(p: Input, i: int, due: bool, stmts: Seq<TreeView>, k: int)
    requires
        at_token(p, k, TokenView::Semicolon),
    ensures
        statements_up_to(p, i, due, stmts, k) matches Some(before) ==> statements(p, i, due, stmts)
            == statements(p, k + 1, false, before),
    decreases p.toks.len() - i,
{
    reveal(statements);
    if i == k {
    } else if at_token(p, i, TokenView::Semicolon) {
        lemma_up_to(p, i + 1, false, stmts, k);
    } else if !due && token_at(p, i) is Some {
        if let Got(s, j) = past(p, i, statement(p, i)) {
            lemma_up_to(p, j, true, stmts.push(s), k);
        }
    }
}

/// A text without tokens, or with nothing but delimiters, has no statements.
pub proof fn law_empty_statements(sql: Seq<char>)
    requires
        tokens_of(sql) matches Ok(toks) && forall|k: int|
            0 <= k < toks.len() ==> (#[trigger] toks[k]).0 == TokenView::Semicolon,
    ensures
        statements_of(sql) == Ok::<Seq<TreeView>, FailureView>(Seq::empty()),
{
    let p = input_of(sql, tokens_of(sql)->Ok_0);
    lemma_only_delimiters(p, 0);
}

proof fn lemma_only_delimiters(p: Input, i: int)
    requires
        0 <= i <= p.toks.len(),
        forall|k: int| 0 <= k < p.toks.len() ==> (#[trigger] p.toks[k]).0 == TokenView::Semicolon,
    ensures
        statements(p, i, false, Seq::empty()) == Got::<Seq<TreeView>>(
            Seq::empty(),
            p.toks.len() as int,
        ),
    decreases p.toks.len() - i,
{
    reveal(statements);
    if i < p.toks.len() {
        lemma_only_delimiters(p, i + 1);
    }
}

} // verus!
