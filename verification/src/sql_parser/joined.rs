//! Texts joined by a delimiter.

use vstd::prelude::*;

use crate::sql_parser::alignment::statement::aligned_statement;
use crate::sql_parser::alignment::{aligned, same_token};
use crate::sql_parser::laws::law_statements_accumulate;
use crate::sql_parser::lexer::{byte_at, scan, tokens_from, tokens_of, Blame, Scan};
use crate::sql_parser::outcome::FailureView;
use crate::sql_parser::outcome::Out::Got;
use crate::sql_parser::parse::{input_of, statements_of};
use crate::sql_parser::parser::{at_token, past, token_at, Input};
use crate::sql_parser::statement::{statement, statements};
use crate::sql_parser::syntax::TreeView;
use crate::sql_parser::token::TokenView;
use crate::sql_parser::white_space::{delimits, lemma_scan, lemma_tokens, same_tokens, stands};

verus! {

/// Two texts with a delimiter between them, on a line of its own.
pub open spec fn joined(a: Seq<char>, b: Seq<char>) -> Seq<char> {
    a + "\n;\n"@ + b
}

/// What is read from `i` on does not depend on the tokens before it, which it follows.
proof fn lemma_tokens_accumulate(t: Seq<char>, i: int, acc: Seq<(TokenView, int)>)
    ensures
        tokens_from(t, i, acc) == (match tokens_from(t, i, Seq::empty()) {
            Ok(more) => Ok::<Seq<(TokenView, int)>, Blame>(acc + more),
            Err(b) => Err(b),
        }),
    decreases t.len() - i,
{
    let none = Seq::<(TokenView, int)>::empty();
    assert(acc + none =~= acc);
    match scan(t, i) {
        Scan::Skip(j) => {
            if i < j <= t.len() {
                lemma_tokens_accumulate(t, j, acc);
            }
        },
        Scan::Tok(x, j) => {
            if i < j <= t.len() {
                let token = (x, byte_at(t, i));
                lemma_tokens_accumulate(t, j, acc.push(token));
                lemma_tokens_accumulate(t, j, none.push(token));
                if let Ok(more) = tokens_from(t, j, none) {
                    assert(acc.push(token) + more =~= acc + (none.push(token) + more));
                }
            }
        },
        _ => {},
    }
}

/// The tokens of a text come first where the text stands before a delimiter.
proof fn lemma_first_tokens(
    s: Seq<char>,
    t: Seq<char>,
    i: int,
    acc: Seq<(TokenView, int)>,
    acc2: Seq<(TokenView, int)>,
) -> (all: Seq<(TokenView, int)>)
    requires
        stands(s, t, 0),
        delimits(t, s.len() as int),
        0 <= i <= s.len(),
        same_tokens(acc, acc2),
        tokens_from(s, i, acc) is Ok,
    ensures
        same_tokens(tokens_from(s, i, acc)->Ok_0, all),
        tokens_from(t, i, acc2) == tokens_from(t, s.len() as int, all),
    decreases s.len() - i,
{
    if i == s.len() {
        reveal(scan);
        acc2
    } else {
        lemma_scan(s, t, 0, i);
        match scan(s, i) {
            Scan::Skip(j) => lemma_first_tokens(s, t, j, acc, acc2),
            Scan::Tok(x, j) => lemma_first_tokens(
                s,
                t,
                j,
                acc.push((x, byte_at(s, i))),
                acc2.push((x, byte_at(t, i))),
            ),
            _ => acc2,
        }
    }
}

/// The tokens of two texts joined by a delimiter are those of the first, the delimiter, and those
/// of the second, apart from where they stand.
pub proof fn law_joined_tokens(a: Seq<char>, b: Seq<char>)
    requires
        tokens_of(a) is Ok,
        tokens_of(b) is Ok,
    ensures
        ({
            let n = tokens_of(a)->Ok_0.len() as int;
            &&& tokens_of(joined(a, b)) matches Ok(all)
            &&& n < all.len()
            &&& same_tokens(tokens_of(a)->Ok_0, all.take(n))
            &&& all[n].0 == TokenView::Semicolon
            &&& same_tokens(tokens_of(b)->Ok_0, all.skip(n + 1))
        }),
{
    reveal_strlit("\n;\n");
    let t = joined(a, b);
    let m = a.len() as int;
    let none = Seq::<(TokenView, int)>::empty();
    assert(t[m] == '\n' && t[m + 1] == ';' && t[m + 2] == '\n');
    let first = lemma_first_tokens(a, t, 0, none, none);
    let delimiter = (TokenView::Semicolon, byte_at(t, m + 1));
    let front = first.push(delimiter);
    assert(tokens_from(t, m, first) == tokens_from(t, m + 3, front)) by {
        reveal(scan);
        assert(tokens_from(t, m, first) == tokens_from(t, m + 1, first));
        assert(tokens_from(t, m + 1, first) == tokens_from(t, m + 2, front));
    }
    assert forall|k: int| 0 <= k < b.len() implies t[m + 3 + k] == #[trigger] b[k] by {}
    lemma_tokens(b, t, m + 3, 0, none, none);
    lemma_tokens_accumulate(t, m + 3, front);
    let last = tokens_from(t, m + 3, none)->Ok_0;
    let all = tokens_of(t)->Ok_0;
    assert(all == front + last);
    let n = tokens_of(a)->Ok_0.len() as int;
    assert(all.take(n) =~= first);
    assert(all.skip(n + 1) =~= last);
}

/// The statements of the first of two texts are parsed first.
proof fn lemma_first_statements(p: Input, q: Input, i: int, due: bool, stmts: Seq<TreeView>)
    requires
        aligned(p, q, 0),
        token_at(q, p.toks.len() as int) == Some(TokenView::Semicolon),
        0 <= i <= p.toks.len(),
    ensures
        statements(p, i, due, stmts) matches Got(all, _) ==> statements(q, i, due, stmts) == statements(
            q,
            p.toks.len() as int + 1,
            false,
            all,
        ),
    decreases p.toks.len() - i,
{
    reveal(statements);
    assert(same_token(token_at(p, i), token_at(q, 0 + i)));
    if at_token(p, i, TokenView::Semicolon) {
        lemma_first_statements(p, q, i + 1, false, stmts);
    } else if token_at(p, i) is Some && !due {
        aligned_statement(p, q, 0, i);
        if let Got(s, j) = past(p, i, statement(p, i)) {
            lemma_first_statements(p, q, j, true, stmts.push(s));
        }
    }
}

/// The statements of the second of two texts are parsed last.
proof fn lemma_last_statements(p: Input, q: Input, ahead: int, i: int, due: bool, stmts: Seq<TreeView>)
    requires
        aligned(p, q, ahead),
        ahead + p.toks.len() == q.toks.len(),
        0 <= i <= p.toks.len(),
    ensures
        statements(p, i, due, stmts) matches Got(all, _) ==> (statements(q, ahead + i, due, stmts) matches Got(
            same,
            _,
        ) && same == all),
    decreases p.toks.len() - i,
{
    reveal(statements);
    assert(same_token(token_at(p, i), token_at(q, ahead + i)));
    if at_token(p, i, TokenView::Semicolon) {
        lemma_last_statements(p, q, ahead, i + 1, false, stmts);
    } else if token_at(p, i) is Some && !due {
        aligned_statement(p, q, ahead, i);
        if let Got(s, j) = past(p, i, statement(p, i)) {
            lemma_last_statements(p, q, ahead, j, true, stmts.push(s));
        }
    }
}

/// The statements of two texts joined by a delimiter are those of the first followed by those of
/// the second.
pub proof fn law_joined_statements(a: Seq<char>, b: Seq<char>)
    requires
        statements_of(a) is Ok,
        statements_of(b) is Ok,
    ensures
        statements_of(joined(a, b)) == Ok::<Seq<TreeView>, FailureView>(
            statements_of(a)->Ok_0 + statements_of(b)->Ok_0,
        ),
{
    law_joined_tokens(a, b);
    let all = tokens_of(joined(a, b))->Ok_0;
    let front = tokens_of(a)->Ok_0;
    let back = tokens_of(b)->Ok_0;
    let n = front.len() as int;
    let p = input_of(a, front);
    let r = input_of(b, back);
    let q = input_of(joined(a, b), all);
    let none = Seq::<TreeView>::empty();
    assert(aligned(p, q, 0)) by {
        assert forall|k: int| 0 <= k <= n implies same_token(#[trigger] token_at(p, k), token_at(q, 0 + k)) by {
            if k < n {
                assert(front[k].0 == all.take(n)[k].0);
            }
        }
    }
    assert(aligned(r, q, n + 1)) by {
        assert forall|k: int| 0 <= k <= back.len() implies same_token(
            #[trigger] token_at(r, k),
            token_at(q, n + 1 + k),
        ) by {
            if k < back.len() {
                assert(back[k].0 == all.skip(n + 1)[k].0);
            }
        }
    }
    lemma_first_statements(p, q, 0, false, none);
    lemma_last_statements(r, q, n + 1, 0, false, none);
    law_statements_accumulate(q, n + 1, false, statements_of(a)->Ok_0);
}

} // verus!
