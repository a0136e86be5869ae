//! The parser's state and the steps that every grammar rule is made of.

use vstd::prelude::*;

use crate::sql_parser::keywords::{keyword_text, Keyword};
use crate::sql_parser::outcome::Out::{Failed, Got};
use crate::sql_parser::outcome::{error, expected, expected_found, too_deep, Failure, FailureView, Out};
use crate::sql_parser::text::no_text;
use crate::sql_parser::token::{token_text, Token, TokenView};

verus! {

/// How deeply expressions and queries may nest.
pub const RECURSION_LIMIT: usize = 128;

/// A SQL parser: tokens with their byte positions, and how far they have been
/// consumed.
pub struct Parser {
    /// The length of the SQL text in bytes.
    pub sql_len: usize,
    /// The tokens of the text, each with its byte position.
    pub tokens: Vec<(Token, usize)>,
    /// The index of the first unprocessed token in `self.tokens`.
    pub index: usize,
    /// How many nested expressions and queries are being parsed.
    pub depth: usize,
}

/// What a grammar rule reads.
pub struct Input {
    /// The tokens with their byte positions.
    pub toks: Seq<(TokenView, int)>,
    /// The length of the text in bytes.
    pub end: int,
    /// How many nested expressions and queries are being parsed.
    pub depth: int,
}

/// Precedence classes of operators, from the weakest binding to the tightest.
#[derive(Debug, Copy, Clone, PartialEq, Eq, Structural)]
pub enum Precedence {
    Zero,
    Or,
    And,
    PrefixNot,
    Is,
    Cmp,
    Like,
    Other,
    PlusMinus,
    MultiplyDivide,
    PostfixCollateAt,
    PrefixPlusMinus,
    PostfixSubscriptCast,
}

/// Precedence classes of set operators, from the weakest binding to the tightest.
#[derive(Debug, Copy, Clone, PartialEq, Eq, Structural)]
pub enum SetPrecedence {
    Zero,
    UnionExcept,
    Intersect,
}

/// How tightly operators of a class bind.
pub open spec fn binding(p: Precedence) -> int {
    match p {
        Precedence::Zero => 0,
        Precedence::Or => 1,
        Precedence::And => 2,
        Precedence::PrefixNot => 3,
        Precedence::Is => 4,
        Precedence::Cmp => 5,
        Precedence::Like => 6,
        Precedence::Other => 7,
        Precedence::PlusMinus => 8,
        Precedence::MultiplyDivide => 9,
        Precedence::PostfixCollateAt => 10,
        Precedence::PrefixPlusMinus => 11,
        Precedence::PostfixSubscriptCast => 12,
    }
}

/// How tightly set operators of a class bind.
pub open spec fn set_binding(p: SetPrecedence) -> int {
    match p {
        SetPrecedence::Zero => 0,
        SetPrecedence::UnionExcept => 1,
        SetPrecedence::Intersect => 2,
    }
}

impl View for Precedence {
    type V = Precedence;

    open spec fn view(&self) -> Precedence {
        *self
    }
}

impl Precedence {
    fn binding(self) -> (r: u8)
        ensures
            r == binding(self),
    {
        match self {
            Precedence::Zero => 0,
            Precedence::Or => 1,
            Precedence::And => 2,
            Precedence::PrefixNot => 3,
            Precedence::Is => 4,
            Precedence::Cmp => 5,
            Precedence::Like => 6,
            Precedence::Other => 7,
            Precedence::PlusMinus => 8,
            Precedence::MultiplyDivide => 9,
            Precedence::PostfixCollateAt => 10,
            Precedence::PrefixPlusMinus => 11,
            Precedence::PostfixSubscriptCast => 12,
        }
    }

    /// Whether this class binds at least as tightly as the other.
    pub fn at_least(self, other: Precedence) -> (r: bool)
        ensures
            r == (binding(self) >= binding(other)),
    {
        self.binding() >= other.binding()
    }
}

impl SetPrecedence {
    fn binding(self) -> (r: u8)
        ensures
            r == set_binding(self),
    {
        match self {
            SetPrecedence::Zero => 0,
            SetPrecedence::UnionExcept => 1,
            SetPrecedence::Intersect => 2,
        }
    }

    /// Whether this class binds at least as tightly as the other.
    pub fn at_least(self, other: SetPrecedence) -> (r: bool)
        ensures
            r == (set_binding(self) >= set_binding(other)),
    {
        self.binding() >= other.binding()
    }
}

/// What the tokens stand for.
pub closed spec fn tokens_view(tokens: Vec<(Token, usize)>) -> Seq<(TokenView, int)> {
    Seq::new(tokens@.len(), |k: int| (tokens@[k].0@, tokens@[k].1 as int))
}

/// Tokens stand for what each of them stands for, at its position.
pub proof fn lemma_tokens_view(tokens: Vec<(Token, usize)>)
    ensures
        tokens_view(tokens).len() == tokens.len(),
        forall|k: int| 0 <= k < tokens.len() ==> #[trigger] tokens_view(tokens)[k] == (
            tokens@[k].0@,
            tokens@[k].1 as int,
        ),
{
}

/// The token at `i`, if there is one.
pub open spec fn token_at(p: Input, i: int) -> Option<TokenView> {
    if 0 <= i < p.toks.len() {
        Some(p.toks[i].0)
    } else {
        None
    }
}

/// The byte position at which the token at `i` starts, or the end of the text.
pub open spec fn position(p: Input, i: int) -> int {
    if 0 <= i < p.toks.len() {
        p.toks[i].1
    } else {
        p.end
    }
}

/// Whether the token at `i` is the keyword `k`.
pub open spec fn at_keyword(p: Input, i: int, k: Keyword) -> bool {
    token_at(p, i) == Some(TokenView::Keyword(k))
}

/// Whether the tokens from `i` on are two keywords.
pub open spec fn at_keywords2(p: Input, i: int, a: Keyword, b: Keyword) -> bool {
    at_keyword(p, i, a) && at_keyword(p, i + 1, b)
}

/// Whether the tokens from `i` on are three keywords.
pub open spec fn at_keywords3(p: Input, i: int, a: Keyword, b: Keyword, c: Keyword) -> bool {
    at_keyword(p, i, a) && at_keyword(p, i + 1, b) && at_keyword(p, i + 2, c)
}

/// Whether the tokens from `i` on are four keywords.
pub open spec fn at_keywords4(p: Input, i: int, a: Keyword, b: Keyword, c: Keyword, d: Keyword) -> bool {
    at_keyword(p, i, a) && at_keyword(p, i + 1, b) && at_keyword(p, i + 2, c) && at_keyword(p, i + 3, d)
}

/// Whether the token at `i` is `t`.
pub open spec fn at_token(p: Input, i: int, t: TokenView) -> bool {
    token_at(p, i) == Some(t)
}

/// The one of the keywords `ks` that is at `i`, if one is.
pub open spec fn one_of(p: Input, i: int, ks: Seq<Keyword>) -> Option<Keyword> {
    match token_at(p, i) {
        Some(TokenView::Keyword(k)) => if ks.contains(k) {
            Some(k)
        } else {
            None
        },
        _ => None,
    }
}

/// The error that says what was expected in place of the token at `i`.
pub open spec fn expected_at(p: Input, i: int, what: Seq<char>) -> FailureView {
    expected_found(position(p, i), what, token_at(p, i))
}

/// Consumes the keyword `k`.
pub open spec fn keyword(p: Input, i: int, k: Keyword) -> Out<()> {
    if at_keyword(p, i, k) {
        Got((), i + 1)
    } else {
        Failed(expected_at(p, i, keyword_text(k)), i)
    }
}

/// Consumes the token `t`.
pub open spec fn token(p: Input, i: int, t: TokenView) -> Out<()> {
    if at_token(p, i, t) {
        Got((), i + 1)
    } else {
        Failed(expected_at(p, i, token_text(t)), i)
    }
}

/// The texts of the keywords `ks`, with `or` between them.
pub open spec fn any_of_text(ks: Seq<Keyword>) -> Seq<char>
    decreases ks.len(),
{
    if ks.len() == 0 {
        no_text()
    } else if ks.len() == 1 {
        no_text() + keyword_text(ks[0])
    } else {
        any_of_text(ks.drop_last()) + " or "@ + keyword_text(ks.last())
    }
}

/// Consumes one of the keywords `ks`.
pub open spec fn one_keyword(p: Input, i: int, ks: Seq<Keyword>) -> Out<Keyword> {
    match one_of(p, i, ks) {
        Some(k) => Got(k, i + 1),
        None => Failed(expected_at(p, i, no_text() + "one of "@ + any_of_text(ks)), i),
    }
}

/// An outcome that leaves the parser at `i` or further on; anything else is no
/// outcome of a grammar rule.
pub open spec fn onward<T>(p: Input, i: int, out: Out<T>) -> Out<T> {
    match out {
        Got(v, j) => if i <= j <= p.toks.len() {
            out
        } else {
            Failed(FailureView::Unhandled, i)
        },
        Failed(_, _) => out,
    }
}

/// An outcome that leaves the parser further on than `i`; anything else is no
/// outcome of a grammar rule that consumes a token.
pub open spec fn past<T>(p: Input, i: int, out: Out<T>) -> Out<T> {
    match out {
        Got(v, j) => if i < j <= p.toks.len() {
            out
        } else {
            Failed(FailureView::Unhandled, i)
        },
        Failed(_, _) => out,
    }
}

/// Whether an error is at a position in a text of `len` bytes, or at its end.
pub open spec fn points_into(f: FailureView, len: int) -> bool {
    f matches FailureView::Error { pos, .. } ==> 0 <= pos <= len
}

/// The same input, read one nesting level deeper.
pub open spec fn deeper(p: Input) -> Input {
    Input { depth: p.depth + 1, ..p }
}

impl Parser {
    /// What the grammar rules read.
    pub open spec fn input(self) -> Input {
        Input { toks: tokens_view(self.tokens), end: self.sql_len as int, depth: self.depth as int }
    }

    /// Whether the tokens carry positions that a text can give them.
    pub open spec fn sound(self) -> bool {
        &&& self.tokens.len() < usize::MAX
        &&& self.tokens.len() <= self.sql_len
        &&& self.input().toks.len() == self.tokens.len()
        &&& self.depth <= RECURSION_LIMIT
        &&& forall|k: int| 0 <= k < self.tokens.len() ==> k <= (#[trigger] self.tokens@[k]).1 <= self.sql_len
    }

    /// Whether a grammar rule can start here.
    pub open spec fn ready(self) -> bool {
        &&& self.sound()
        &&& self.index <= self.tokens.len()
    }

    /// Whether the result `r`, and this parser after the call, are what `out`
    /// says, the parser before the call having been `before`.
    pub open spec fn follows<T: View>(self, before: Parser, out: Out<T::V>, r: Result<T, Failure>) -> bool {
        &&& self.input() == before.input()
        &&& self.tokens.len() == before.tokens.len()
        &&& self.sound()
        &&& match out {
            Got(v, j) => {
                &&& r matches Ok(x)
                &&& x@ == v
                &&& self.index == j
                &&& before.index <= j <= self.tokens.len()
            },
            Failed(f, j) => {
                &&& r matches Err(e)
                &&& e@ == f
                &&& self.index == j
                &&& j <= self.tokens.len() + 1
                &&& points_into(f, self.sql_len as int)
            },
        }
    }

    /// As [`Parser::follows`], of a rule that may step back over one token.
    pub open spec fn retreats<T: View>(self, before: Parser, out: Out<T::V>, r: Result<T, Failure>) -> bool {
        &&& self.input() == before.input()
        &&& self.tokens.len() == before.tokens.len()
        &&& self.sound()
        &&& match out {
            Got(v, j) => {
                &&& r matches Ok(x)
                &&& x@ == v
                &&& self.index == j
                &&& before.index - 1 <= j <= self.tokens.len()
            },
            Failed(f, j) => {
                &&& r matches Err(e)
                &&& e@ == f
                &&& self.index == j
                &&& j <= self.tokens.len() + 1
                &&& points_into(f, self.sql_len as int)
            },
        }
    }

    /// Whether this parser differs from `before` in the index alone, which is `j`.
    pub open spec fn moved(self, before: Parser, j: int) -> bool {
        &&& self.tokens == before.tokens
        &&& self.sql_len == before.sql_len
        &&& self.depth == before.depth
        &&& self.index == j
    }

    /// Starts parsing the given tokens of a text of `sql_len` bytes.
    pub fn new(sql_len: usize, tokens: Vec<(Token, usize)>) -> (r: Parser)
        ensures
            r.sql_len == sql_len,
            r.tokens == tokens,
            r.index == 0,
            r.depth == 0,
            r.input().toks.len() == tokens.len(),
    {
        Parser { sql_len, tokens, index: 0, depth: 0 }
    }

    proof fn token_views(self)
        ensures
            self.input().toks.len() == self.tokens.len(),
            forall|k: int| 0 <= k < self.tokens.len() ==> {
                &&& (#[trigger] self.input().toks[k]).0 == self.tokens@[k].0@
                &&& self.input().toks[k].1 == self.tokens@[k].1
            },
    {
    }

    /// Return the nth token that has not yet been processed.
    pub fn peek_nth_token(&self, n: usize) -> (r: Option<Token>)
        ensures
            match r {
                Some(t) => token_at(self.input(), self.index + n) == Some(t@),
                None => token_at(self.input(), self.index + n) is None,
            },
    {
        proof {
            self.token_views();
        }
        if n < self.tokens.len() && self.index < self.tokens.len() - n {
            Some(self.tokens[self.index + n].0.copy())
        } else {
            None
        }
    }

    /// Return the first token that has not yet been processed, or `None` at
    /// the end of the text.
    pub fn peek_token(&self) -> (r: Option<Token>)
        ensures
            match r {
                Some(t) => token_at(self.input(), self.index as int) == Some(t@),
                None => token_at(self.input(), self.index as int) is None,
            },
    {
        self.peek_nth_token(0)
    }

    /// Whether the next token is the keyword `kw`.
    pub fn peek_keyword(&self, kw: Keyword) -> (r: bool)
        ensures
            r == at_keyword(self.input(), self.index as int, kw),
    {
        proof {
            self.token_views();
        }
        if self.index < self.tokens.len() {
            match &self.tokens[self.index].0 {
                Token::Keyword(k) => *k == kw,
                _ => false,
            }
        } else {
            false
        }
    }

    /// Whether the token that comes `n` after the next is the keyword `kw`.
    pub fn peek_keyword_at(&self, n: usize, kw: Keyword) -> (r: bool)
        ensures
            r == at_keyword(self.input(), self.index + n, kw),
    {
        proof {
            self.token_views();
        }
        if n < self.tokens.len() && self.index < self.tokens.len() - n {
            match &self.tokens[self.index + n].0 {
                Token::Keyword(k) => *k == kw,
                _ => false,
            }
        } else {
            false
        }
    }

    /// Whether the next tokens are two keywords.
    pub fn peek_keywords2(&self, a: Keyword, b: Keyword) -> (r: bool)
        ensures
            r == at_keywords2(self.input(), self.index as int, a, b),
    {
        self.peek_keyword_at(0, a) && self.peek_keyword_at(1, b)
    }

    /// Whether the next tokens are three keywords.
    pub fn peek_keywords3(&self, a: Keyword, b: Keyword, c: Keyword) -> (r: bool)
        ensures
            r == at_keywords3(self.input(), self.index as int, a, b, c),
    {
        self.peek_keyword_at(0, a) && self.peek_keyword_at(1, b) && self.peek_keyword_at(2, c)
    }

    /// Whether the next tokens are four keywords.
    pub fn peek_keywords4(&self, a: Keyword, b: Keyword, c: Keyword, d: Keyword) -> (r: bool)
        ensures
            r == at_keywords4(self.input(), self.index as int, a, b, c, d),
    {
        self.peek_keyword_at(0, a) && self.peek_keyword_at(1, b) && self.peek_keyword_at(2, c) && self.peek_keyword_at(3, d)
    }

    /// Whether the next token is `t`.
    pub fn peek_is(&self, t: &Token) -> (r: bool)
        ensures
            r == at_token(self.input(), self.index as int, t@),
    {
        proof {
            self.token_views();
        }
        if self.index < self.tokens.len() {
            self.tokens[self.index].0.same(t)
        } else {
            false
        }
    }

    /// Return the next token that has not yet been processed, or `None` at the
    /// end of the text, and mark it as processed.
    pub fn next_token(&mut self) -> (r: Option<Token>)
        requires
            old(self).ready(),
        ensures
            final(self).moved(*old(self), old(self).index + 1),
            match r {
                Some(t) => token_at(old(self).input(), old(self).index as int) == Some(t@),
                None => token_at(old(self).input(), old(self).index as int) is None,
            },
    {
        let token = self.peek_token();
        self.index = self.index + 1;
        token
    }

    /// Push back the last token. Must be called after
    /// `next_token()`. OK to call after
    /// `next_token()` indicates the end of the text.
    pub fn prev_token(&mut self)
        requires
            old(self).index > 0,
        ensures
            final(self).moved(*old(self), old(self).index - 1),
    {
        self.index = self.index - 1;
    }

    /// Return the byte position within the query string at which the
    /// next token starts.
    pub fn peek_pos(&self) -> (r: usize)
        ensures
            r == position(self.input(), self.index as int),
            self.sound() ==> r <= self.sql_len,
    {
        proof {
            self.token_views();
        }
        if self.index < self.tokens.len() {
            self.tokens[self.index].1
        } else {
            self.sql_len
        }
    }

    /// Return the byte position within the query string at which the previous
    /// token starts.
    pub fn peek_prev_pos(&self) -> (r: usize)
        ensures
            r == position(self.input(), self.index - 1),
            self.sound() && 1 < self.index <= self.tokens.len() ==> r >= 1,
            self.sound() ==> r <= self.sql_len,
    {
        proof {
            self.token_views();
        }
        if self.index > 0 && self.index - 1 < self.tokens.len() {
            self.tokens[self.index - 1].1
        } else {
            self.sql_len
        }
    }

    /// Report the next token as unexpected.
    pub fn expected_here(&self, what: &str) -> (r: Failure)
        ensures
            r@ == expected_at(self.input(), self.index as int, what@),
            self.sound() ==> points_into(r@, self.sql_len as int),
    {
        expected(self.peek_pos(), what, self.peek_token())
    }

    /// Report the token before the next as unexpected.
    pub fn expected_prev(&self, what: &str) -> (r: Failure)
        ensures
            r@ == expected_at(self.input(), self.index - 1, what@),
            self.sound() ==> points_into(r@, self.sql_len as int),
    {
        proof {
            self.token_views();
        }
        let found = if self.index > 0 && self.index - 1 < self.tokens.len() {
            Some(self.tokens[self.index - 1].0.copy())
        } else {
            None
        };
        expected(self.peek_prev_pos(), what, found)
    }

    /// Report the next token as unexpected, at the given position.
    pub fn expected_next(&self, pos: usize, what: &str) -> (r: Failure)
        ensures
            r@ == expected_found(pos as int, what@, token_at(self.input(), self.index as int)),
    {
        expected(pos, what, self.peek_token())
    }

    /// Look for an expected keyword and consume it if it exists.
    pub fn parse_keyword(&mut self, kw: Keyword) -> (r: bool)
        requires
            old(self).ready(),
        ensures
            r == at_keyword(old(self).input(), old(self).index as int, kw),
            final(self).moved(
                *old(self),
                if r {
                    old(self).index + 1
                } else {
                    old(self).index as int
                },
            ),
            final(self).index <= final(self).tokens.len(),
    {
        proof {
            self.token_views();
        }
        if self.peek_keyword(kw) {
            self.index = self.index + 1;
            true
        } else {
            false
        }
    }

    /// Look for two keywords in a row and consume them if they exist.
    pub fn parse_keywords2(&mut self, a: Keyword, b: Keyword) -> (r: bool)
        requires
            old(self).ready(),
        ensures
            r == at_keywords2(old(self).input(), old(self).index as int, a, b),
            final(self).moved(
                *old(self),
                if r {
                    old(self).index + 2
                } else {
                    old(self).index as int
                },
            ),
            final(self).index <= final(self).tokens.len(),
    {
        proof {
            self.token_views();
        }
        if self.peek_keywords2(a, b) {
            self.index = self.index + 2;
            true
        } else {
            false
        }
    }

    /// Look for three keywords in a row and consume them if they exist.
    pub fn parse_keywords3(&mut self, a: Keyword, b: Keyword, c: Keyword) -> (r: bool)
        requires
            old(self).ready(),
        ensures
            r == at_keywords3(old(self).input(), old(self).index as int, a, b, c),
            final(self).moved(
                *old(self),
                if r {
                    old(self).index + 3
                } else {
                    old(self).index as int
                },
            ),
            final(self).index <= final(self).tokens.len(),
    {
        proof {
            self.token_views();
        }
        if self.peek_keywords3(a, b, c) {
            self.index = self.index + 3;
            true
        } else {
            false
        }
    }

    /// Look for four keywords in a row and consume them if they exist.
    pub fn parse_keywords4(&mut self, a: Keyword, b: Keyword, c: Keyword, d: Keyword) -> (r: bool)
        requires
            old(self).ready(),
        ensures
            r == at_keywords4(old(self).input(), old(self).index as int, a, b, c, d),
            final(self).moved(
                *old(self),
                if r {
                    old(self).index + 4
                } else {
                    old(self).index as int
                },
            ),
            final(self).index <= final(self).tokens.len(),
    {
        proof {
            self.token_views();
        }
        if self.peek_keywords4(a, b, c, d) {
            self.index = self.index + 4;
            true
        } else {
            false
        }
    }

    /// Look for one of the given keywords and return the one that matches.
    pub fn parse_one_of_keywords(&mut self, kws: &[Keyword]) -> (r: Option<Keyword>)
        requires
            old(self).ready(),
        ensures
            r == one_of(old(self).input(), old(self).index as int, kws@),
            final(self).moved(
                *old(self),
                if r is Some {
                    old(self).index + 1
                } else {
                    old(self).index as int
                },
            ),
            final(self).index <= final(self).tokens.len(),
    {
        proof {
            self.token_views();
        }
        match self.peek_token() {
            Some(Token::Keyword(k)) => {
                let mut n: usize = 0;
                while n < kws.len()
                    invariant
                        n <= kws.len(),
                        forall|m: int| 0 <= m < n ==> kws@[m] != k,
                        *self == *old(self),
                        self.ready(),
                        self.input().toks.len() == self.tokens.len(),
                        token_at(self.input(), self.index as int) == Some(TokenView::Keyword(k)),
                    decreases kws.len() - n,
                {
                    if kws[n] == k {
                        assert(kws@.contains(k));
                        self.index = self.index + 1;
                        return Some(k);
                    }
                    n += 1;
                }
                assert(!kws@.contains(k));
                None
            },
            _ => None,
        }
    }

    /// Bail out if the current token is not one of the expected keywords, or
    /// consume it if it is.
    pub fn expect_one_of_keywords(&mut self, keywords: &[Keyword]) -> (r: Result<Keyword, Failure>)
        requires
            old(self).ready(),
        ensures
            final(self).follows(
                *old(self),
                one_keyword(old(self).input(), old(self).index as int, keywords@),
                r,
            ),
    {
        match self.parse_one_of_keywords(keywords) {
            Some(k) => Ok(k),
            None => {
                let mut names = String::new();
                let mut n: usize = 0;
                while n < keywords.len()
                    invariant
                        n <= keywords.len(),
                        names@ == any_of_text(keywords@.take(n as int)),
                    decreases keywords.len() - n,
                {
                    assert(keywords@.take(n + 1).drop_last() =~= keywords@.take(n as int));
                    if n > 0 {
                        names = names.concat(" or ");
                    }
                    names = names.concat(keywords[n].as_str());
                    n += 1;
                }
                assert(keywords@.take(n as int) =~= keywords@);
                let what = String::new().concat("one of ").concat(names.as_str());
                Err(self.expected_here(what.as_str()))
            },
        }
    }

    /// Bail out if the current token is not an expected keyword, or consume it
    /// if it is.
    pub fn expect_keyword(&mut self, kw: Keyword) -> (r: Result<(), Failure>)
        requires
            old(self).ready(),
        ensures
            final(self).follows(*old(self), keyword(old(self).input(), old(self).index as int, kw), r),
    {
        if self.parse_keyword(kw) {
            Ok(())
        } else {
            Err(self.expected_here(kw.as_str()))
        }
    }

    /// Consume the next token if it matches the expected token, otherwise
    /// return false.
    pub fn consume_token(&mut self, t: &Token) -> (r: bool)
        requires
            old(self).ready(),
        ensures
            r == at_token(old(self).input(), old(self).index as int, t@),
            final(self).moved(
                *old(self),
                if r {
                    old(self).index + 1
                } else {
                    old(self).index as int
                },
            ),
            final(self).index <= final(self).tokens.len(),
    {
        proof {
            self.token_views();
        }
        if self.peek_is(t) {
            self.index = self.index + 1;
            true
        } else {
            false
        }
    }

    /// Bail out if the current token is not an expected token, or consume it
    /// if it is.
    pub fn expect_token(&mut self, t: &Token) -> (r: Result<(), Failure>)
        requires
            old(self).ready(),
        ensures
            final(self).follows(*old(self), token(old(self).input(), old(self).index as int, t@), r),
    {
        if self.consume_token(t) {
            Ok(())
        } else {
            let what = t.text();
            Err(self.expected_here(what.as_str()))
        }
    }

    /// Goes one nesting level deeper, unless the limit is reached.
    pub fn descend(&mut self) -> (r: Result<(), Failure>)
        ensures
            old(self).depth < RECURSION_LIMIT ==> {
                &&& r is Ok
                &&& *final(self) == (Parser { depth: (old(self).depth + 1) as usize, ..*old(self) })
            },
            old(self).depth >= RECURSION_LIMIT ==> {
                &&& r matches Err(e)
                &&& e@ == too_deep()
                &&& *final(self) == *old(self)
            },
    {
        if self.depth < RECURSION_LIMIT {
            self.depth = self.depth + 1;
            Ok(())
        } else {
            Err(error(0, String::from_str("statement exceeds nested expression limit of 128")))
        }
    }

    /// Comes back from a nesting level.
    pub fn ascend(&mut self)
        requires
            old(self).depth > 0,
        ensures
            *final(self) == (Parser { depth: (old(self).depth - 1) as usize, ..*old(self) }),
    {
        self.depth = self.depth - 1;
    }
}

} // verus!
