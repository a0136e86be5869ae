//! Tokens.

use vstd::prelude::*;

use crate::sql_parser::keywords::{keyword_text, Keyword};
use crate::sql_parser::text::{decimal, decimal_text, no_text, quote, quoted, text_eq};

verus! {

/// A token of SQL text.
#[derive(Debug)]
pub enum Token {
    Keyword(Keyword),
    Ident(String),
    String(String),
    HexString(String),
    Number(String),
    Parameter(usize),
    Op(String),
    Star,
    Eq,
    LParen,
    RParen,
    LBracket,
    RBracket,
    Dot,
    Comma,
    Colon,
    DoubleColon,
    Semicolon,
}

/// What a [`Token`] stands for.
pub enum TokenView {
    Keyword(Keyword),
    Ident(Seq<char>),
    String(Seq<char>),
    HexString(Seq<char>),
    Number(Seq<char>),
    Parameter(usize),
    Op(Seq<char>),
    Star,
    Eq,
    LParen,
    RParen,
    LBracket,
    RBracket,
    Dot,
    Comma,
    Colon,
    DoubleColon,
    Semicolon,
}

impl View for Token {
    type V = TokenView;

    open spec fn view(&self) -> TokenView {
        match self {
            Token::Keyword(k) => TokenView::Keyword(*k),
            Token::Ident(s) => TokenView::Ident(s@),
            Token::String(s) => TokenView::String(s@),
            Token::HexString(s) => TokenView::HexString(s@),
            Token::Number(s) => TokenView::Number(s@),
            Token::Parameter(n) => TokenView::Parameter(*n),
            Token::Op(s) => TokenView::Op(s@),
            Token::Star => TokenView::Star,
            Token::Eq => TokenView::Eq,
            Token::LParen => TokenView::LParen,
            Token::RParen => TokenView::RParen,
            Token::LBracket => TokenView::LBracket,
            Token::RBracket => TokenView::RBracket,
            Token::Dot => TokenView::Dot,
            Token::Comma => TokenView::Comma,
            Token::Colon => TokenView::Colon,
            Token::DoubleColon => TokenView::DoubleColon,
            Token::Semicolon => TokenView::Semicolon,
        }
    }
}

/// How a token is named in a message.
#[verifier::opaque]
pub open spec fn token_text(t: TokenView) -> Seq<char> {
    match t {
        TokenView::Keyword(k) => keyword_text(k),
        TokenView::Ident(s) => no_text() + "identifier "@ + quoted(s),
        TokenView::String(s) => no_text() + "string literal "@ + quoted(s),
        TokenView::HexString(s) => no_text() + "hex string literal "@ + quoted(s),
        TokenView::Number(s) => no_text() + "number \""@ + s + "\""@,
        TokenView::Parameter(n) => no_text() + "parameter \"$"@ + decimal(n as nat) + "\""@,
        TokenView::Op(s) => no_text() + "operator "@ + quoted(s),
        TokenView::Star => "star"@,
        TokenView::Eq => "equals sign"@,
        TokenView::LParen => "left parenthesis"@,
        TokenView::RParen => "right parenthesis"@,
        TokenView::LBracket => "left square bracket"@,
        TokenView::RBracket => "right square bracket"@,
        TokenView::Dot => "dot"@,
        TokenView::Comma => "comma"@,
        TokenView::Colon => "colon"@,
        TokenView::DoubleColon => "double colon"@,
        TokenView::Semicolon => "semicolon"@,
    }
}

impl Token {
    /// How the token is named in a message.
    pub fn text(&self) -> (r: String)
        ensures
            r@ == token_text(self@),
    {
        proof {
            reveal(token_text);
        }
        match self {
            Token::Keyword(k) => String::from_str(k.as_str()),
            Token::Ident(s) => String::new().concat("identifier ").concat(quote(s.as_str()).as_str()),
            Token::String(s) => String::new().concat("string literal ").concat(
                quote(s.as_str()).as_str(),
            ),
            Token::HexString(s) => String::new().concat("hex string literal ").concat(
                quote(s.as_str()).as_str(),
            ),
            Token::Number(s) => String::new().concat("number \"").concat(s.as_str()).concat("\""),
            Token::Parameter(n) => String::new().concat("parameter \"$").concat(
                decimal_text(*n as u64).as_str(),
            ).concat("\""),
            Token::Op(s) => String::new().concat("operator ").concat(quote(s.as_str()).as_str()),
            Token::Star => String::from_str("star"),
            Token::Eq => String::from_str("equals sign"),
            Token::LParen => String::from_str("left parenthesis"),
            Token::RParen => String::from_str("right parenthesis"),
            Token::LBracket => String::from_str("left square bracket"),
            Token::RBracket => String::from_str("right square bracket"),
            Token::Dot => String::from_str("dot"),
            Token::Comma => String::from_str("comma"),
            Token::Colon => String::from_str("colon"),
            Token::DoubleColon => String::from_str("double colon"),
            Token::Semicolon => String::from_str("semicolon"),
        }
    }

    /// A token that stands for the same.
    pub fn copy(&self) -> (r: Token)
        ensures
            r@ == self@,
    {
        match self {
            Token::Keyword(k) => Token::Keyword(*k),
            Token::Ident(s) => Token::Ident(s.clone()),
            Token::String(s) => Token::String(s.clone()),
            Token::HexString(s) => Token::HexString(s.clone()),
            Token::Number(s) => Token::Number(s.clone()),
            Token::Parameter(n) => Token::Parameter(*n),
            Token::Op(s) => Token::Op(s.clone()),
            Token::Star => Token::Star,
            Token::Eq => Token::Eq,
            Token::LParen => Token::LParen,
            Token::RParen => Token::RParen,
            Token::LBracket => Token::LBracket,
            Token::RBracket => Token::RBracket,
            Token::Dot => Token::Dot,
            Token::Comma => Token::Comma,
            Token::Colon => Token::Colon,
            Token::DoubleColon => Token::DoubleColon,
            Token::Semicolon => Token::Semicolon,
        }
    }

    /// Whether two tokens stand for the same.
    pub fn same(&self, other: &Token) -> (r: bool)
        ensures
            r == (self@ == other@),
    {
        match (self, other) {
            (Token::Keyword(a), Token::Keyword(b)) => *a == *b,
            (Token::Ident(a), Token::Ident(b)) => text_eq(a.as_str(), b.as_str()),
            (Token::String(a), Token::String(b)) => text_eq(a.as_str(), b.as_str()),
            (Token::HexString(a), Token::HexString(b)) => text_eq(a.as_str(), b.as_str()),
            (Token::Number(a), Token::Number(b)) => text_eq(a.as_str(), b.as_str()),
            (Token::Parameter(a), Token::Parameter(b)) => *a == *b,
            (Token::Op(a), Token::Op(b)) => text_eq(a.as_str(), b.as_str()),
            (Token::Star, Token::Star) => true,
            (Token::Eq, Token::Eq) => true,
            (Token::LParen, Token::LParen) => true,
            (Token::RParen, Token::RParen) => true,
            (Token::LBracket, Token::LBracket) => true,
            (Token::RBracket, Token::RBracket) => true,
            (Token::Dot, Token::Dot) => true,
            (Token::Comma, Token::Comma) => true,
            (Token::Colon, Token::Colon) => true,
            (Token::DoubleColon, Token::DoubleColon) => true,
            (Token::Semicolon, Token::Semicolon) => true,
            _ => false,
        }
    }
}

} // verus!
