//! Tokens read inside of a larger text: each rule yields there what it yields where the text
//! ends behind them, if a delimiter or the end of the larger text follows.
//!
//! There is a lemma for each rule. One for a rule that takes part in a recursion goes by what the
//! rule is in terms of the others, which `unfold_` lemmas state, so that no other rule has to be
//! unfolded with it.

use vstd::prelude::*;

use crate::sql_parser::alignment::expr::aligned_expr;
use crate::sql_parser::as_of::optional_as_of;
use crate::sql_parser::keywords::Keyword;
use crate::sql_parser::outcome::Out::{Failed, Got};
use crate::sql_parser::outcome::Out;
use crate::sql_parser::parser::{at_keyword, at_keywords2, deeper, token_at, Input};
use crate::sql_parser::token::TokenView;

pub mod alter;
pub mod create;
pub mod expr;
pub mod grant;
pub mod names;
pub mod options;
pub mod query;
pub mod select;
pub mod show;
pub mod statement;
pub mod tables;

verus! {

/// Whether a token is the same inside of a larger text: at the end of the text, a delimiter may
/// follow there.
pub open spec fn same_token(inside: Option<TokenView>, outside: Option<TokenView>) -> bool {
    inside == outside || (inside is None && outside == Some(TokenView::Semicolon))
}

/// Whether the tokens of `p` stand inside of a larger text, from the token at `ahead` on, and a
/// delimiter or the end follows them there.
pub open spec fn aligned(p: Input, larger: Input, ahead: int) -> bool {
    &&& p.depth == larger.depth
    &&& 0 <= ahead
    &&& ahead + p.toks.len() <= larger.toks.len()
    &&& forall|k: int|
        0 <= k <= p.toks.len() ==> same_token(#[trigger] token_at(p, k), token_at(larger, ahead + k))
}

/// Whether a rule yields the same inside of a larger text, apart from what an error says, and
/// leaves the parser at `least` or further on.
pub open spec fn agrees<T>(p: Input, ahead: int, least: int, inside: Out<T>, outside: Out<T>) -> bool {
    match (inside, outside) {
        (Got(v, j), Got(w, k)) => v == w && k == ahead + j && least <= j <= p.toks.len(),
        (Failed(_, _), Failed(_, _)) => true,
        _ => false,
    }
}

/// As [`agrees`], of a rule that goes on to the end of the text, and may fail at a delimiter.
pub open spec fn weakly_agrees<T>(
    p: Input,
    ahead: int,
    least: int,
    inside: Out<T>,
    outside: Out<T>,
) -> bool {
    agrees(p, ahead, least, inside, outside) || (inside matches Got(_, j) && least <= j && j
        == p.toks.len() && outside is Failed)
}

/// One nesting level deeper, tokens stand where they did.
pub(crate) proof fn lemma_deeper(p: Input, larger: Input, ahead: int)
    requires
        aligned(p, larger, ahead),
    ensures
        aligned(deeper(p), deeper(larger), ahead),
{
    assert forall|k: int| 0 <= k <= p.toks.len() implies same_token(
        #[trigger] token_at(deeper(p), k),
        token_at(deeper(larger), ahead + k),
    ) by {
        assert(same_token(token_at(p, k), token_at(larger, ahead + k)));
    }
}

pub(crate) proof fn aligned_optional_as_of(p: Input, larger: Input, ahead: int, i: int)
    requires
        aligned(p, larger, ahead),
        0 <= i <= p.toks.len(),
    ensures
        agrees(p, ahead, i, optional_as_of(p, i), optional_as_of(larger, ahead + i)),
{
    reveal(optional_as_of);
    assert(same_token(token_at(p, i), token_at(larger, ahead + i)));
    if at_keyword(p, i, Keyword::AS) {
        assert(same_token(token_at(p, i + 1), token_at(larger, ahead + (i + 1))));
        if at_keyword(p, i + 1, Keyword::OF) {
            assert(same_token(token_at(p, i + 2), token_at(larger, ahead + (i + 2))));
            if at_keywords2(p, i + 2, Keyword::AT, Keyword::LEAST) {
                aligned_expr(p, larger, ahead, i + 4);
            } else {
                if at_keyword(p, i + 2, Keyword::AT) {
                    assert(same_token(token_at(p, i + 3), token_at(larger, ahead + (i + 3))));
                }
                aligned_expr(p, larger, ahead, i + 2);
            }
        }
    }
}

} // verus!
