//! The values of options.

use vstd::prelude::*;

use crate::sql_parser::keywords::{Keyword};
use crate::sql_parser::kind::{Kind};
use crate::sql_parser::names::{data_type, identifier, item_name_list, raw_name, value};
use crate::sql_parser::outcome::Out::{Failed, Got};
use crate::sql_parser::outcome::{Out, Failure};
use crate::sql_parser::parser::{Parser, Input, at_keyword, at_token, token_at, token, onward, expected_at};
use crate::sql_parser::syntax::{group_tree_views, Tree, TreeView, Trees, node, list, trees0, trees1};
use crate::sql_parser::token::{Token, TokenView};

verus! {

/// What [`Parser::parse_object_option_value`] yields from the token at `i` on.
#[verifier::opaque]
pub open spec fn object_option_value(p: Input, i: int) -> Out<TreeView>
{
    let i = if at_token(p, i, TokenView::Eq) { i + 1 } else { i };
    match raw_name(p, i) { Failed(e, i) => Failed(e, i), Got(name, i) => {
    Got(TreeView::Node(Kind::ItemValue, seq![name]), i)
    }}
}

impl Parser {
    /// Parse the name of an object that an option refers to.
    pub fn parse_object_option_value(&mut self) -> (r: Result<Tree, Failure>)
        requires
            old(self).ready(),
        ensures
            final(self).follows(*old(self), object_option_value(old(self).input(), old(self).index as int), r),
            r is Ok ==> final(self).index > old(self).index,
            r matches Err(e) ==> !(e@ is Unhandled),
    {
        broadcast use group_tree_views;

        proof {
            reveal(object_option_value);
        }
        let _ = self.consume_token(&Token::Eq);
        let name = self.parse_raw_name()?;
        Ok(node(Kind::ItemValue, trees1(name)))
    }
}

/// What [`Parser::parse_optional_option_value`] yields from the token at `i` on.
#[verifier::opaque]
pub open spec fn optional_option_value(p: Input, i: int) -> Out<TreeView>
{
    match token_at(p, i) {
        Some(TokenView::RParen) | Some(TokenView::Comma) | Some(TokenView::Semicolon) => {
            Got(TreeView::Absent, i)
        },
        None => {
            Got(TreeView::Absent, i)
        },
        _ => {
            let i = if at_token(p, i, TokenView::Eq) { i + 1 } else { i };
            option_value(p, i)
        },
    }
}

impl Parser {
    /// Parse the value of an option, if there is one. The only valid things that
    /// indicate no value are `)` for end-of-options, `,` for another-option, or
    /// ';'/nothing for end-of-statement; anything else means that a valid value is
    /// expected.
    pub fn parse_optional_option_value(&mut self) -> (r: Result<Tree, Failure>)
        requires
            old(self).ready(),
        ensures
            final(self).follows(*old(self), optional_option_value(old(self).input(), old(self).index as int), r),
            r matches Err(e) ==> !(e@ is Unhandled),
    {
        broadcast use group_tree_views;

        proof {
            reveal(optional_option_value);
        }
        match self.peek_token() {
            Some(Token::RParen) | Some(Token::Comma) | Some(Token::Semicolon) => {
                Ok(Tree::Absent)
            },
            None => {
                Ok(Tree::Absent)
            },
            _ => {
                let _ = self.consume_token(&Token::Eq);
                self.parse_option_value()
            },
        }
    }
}

/// What [`Parser::parse_option_sequence`] yields from the token at `i` on.
#[verifier::opaque]
pub open spec fn option_sequence(p: Input, i: int) -> Out<TreeView>
    decreases p.toks.len() - i, 0int,
{
    if at_token(p, i, TokenView::LParen) {
        let i = i + 1;
        if at_token(p, i, TokenView::RParen) {
            let i = i + 1;
            Got(TreeView::Node(Kind::SequenceValue, seq![TreeView::List(Seq::<TreeView>::empty())]), i)
        } else {
            match option_value_list(p, i, Seq::<TreeView>::empty()) { Failed(e, i) => Failed(e, i), Got(vs, i) => {
            match token(p, i, TokenView::RParen) { Failed(e, i) => Failed(e, i), Got(_, i) => {
            Got(TreeView::Node(Kind::SequenceValue, seq![TreeView::List(vs)]), i)
            }}
            }}
        }
    } else {
        if at_token(p, i, TokenView::LBracket) {
            let i = i + 1;
            if at_token(p, i, TokenView::RBracket) {
                let i = i + 1;
                Got(TreeView::Node(Kind::SequenceValue, seq![TreeView::List(Seq::<TreeView>::empty())]), i)
            } else {
                match option_value_list(p, i, Seq::<TreeView>::empty()) { Failed(e, i) => Failed(e, i), Got(vs, i) => {
                match token(p, i, TokenView::RBracket) { Failed(e, i) => Failed(e, i), Got(_, i) => {
                Got(TreeView::Node(Kind::SequenceValue, seq![TreeView::List(vs)]), i)
                }}
                }}
            }
        } else {
            Got(TreeView::Absent, i)
        }
    }
}

impl Parser {
    /// Parse a sequence of option values in parentheses or square brackets, if there
    /// is one.
    pub fn parse_option_sequence(&mut self) -> (r: Result<Tree, Failure>)
        requires
            old(self).ready(),
        ensures
            final(self).follows(*old(self), option_sequence(old(self).input(), old(self).index as int), r),
            r matches Err(e) ==> !(e@ is Unhandled),
        decreases old(self).tokens.len() - old(self).index, 0int,
    {
        broadcast use group_tree_views;

        proof {
            reveal(option_sequence);
            reveal(option_value_list);
        }
        if self.consume_token(&Token::LParen) {
            if self.consume_token(&Token::RParen) {
                Ok(node(Kind::SequenceValue, trees1(list(trees0()))))
            } else {
                let vs = self.parse_option_value_list(trees0())?;
                self.expect_token(&Token::RParen)?;
                Ok(node(Kind::SequenceValue, trees1(list(vs))))
            }
        } else if self.consume_token(&Token::LBracket) {
            if self.consume_token(&Token::RBracket) {
                Ok(node(Kind::SequenceValue, trees1(list(trees0()))))
            } else {
                let vs = self.parse_option_value_list(trees0())?;
                self.expect_token(&Token::RBracket)?;
                Ok(node(Kind::SequenceValue, trees1(list(vs))))
            }
        } else {
            Ok(Tree::Absent)
        }
    }
}

/// What [`Parser::parse_name_sequence`] yields from the token at `i` on.
#[verifier::opaque]
pub open spec fn name_sequence(p: Input, i: int) -> Out<TreeView>
{
    if at_token(p, i, TokenView::LParen) {
        let i = i + 1;
        if at_token(p, i, TokenView::RParen) {
            let i = i + 1;
            Got(TreeView::Node(Kind::SequenceValue, seq![TreeView::List(Seq::<TreeView>::empty())]), i)
        } else {
            match item_name_list(p, i, Seq::<TreeView>::empty()) { Failed(e, i) => Failed(e, i), Got(vs, i) => {
            match token(p, i, TokenView::RParen) { Failed(e, i) => Failed(e, i), Got(_, i) => {
            Got(TreeView::Node(Kind::SequenceValue, seq![TreeView::List(vs)]), i)
            }}
            }}
        }
    } else {
        if at_token(p, i, TokenView::LBracket) {
            let i = i + 1;
            if at_token(p, i, TokenView::RBracket) {
                let i = i + 1;
                Got(TreeView::Node(Kind::SequenceValue, seq![TreeView::List(Seq::<TreeView>::empty())]), i)
            } else {
                match item_name_list(p, i, Seq::<TreeView>::empty()) { Failed(e, i) => Failed(e, i), Got(vs, i) => {
                match token(p, i, TokenView::RBracket) { Failed(e, i) => Failed(e, i), Got(_, i) => {
                Got(TreeView::Node(Kind::SequenceValue, seq![TreeView::List(vs)]), i)
                }}
                }}
            }
        } else {
            Got(TreeView::Absent, i)
        }
    }
}

impl Parser {
    /// Parse a sequence of item names in parentheses or square brackets, if there is
    /// one.
    pub fn parse_name_sequence(&mut self) -> (r: Result<Tree, Failure>)
        requires
            old(self).ready(),
        ensures
            final(self).follows(*old(self), name_sequence(old(self).input(), old(self).index as int), r),
            r matches Err(e) ==> !(e@ is Unhandled),
    {
        broadcast use group_tree_views;

        proof {
            reveal(name_sequence);
        }
        if self.consume_token(&Token::LParen) {
            if self.consume_token(&Token::RParen) {
                Ok(node(Kind::SequenceValue, trees1(list(trees0()))))
            } else {
                let vs = self.parse_item_name_list(trees0())?;
                self.expect_token(&Token::RParen)?;
                Ok(node(Kind::SequenceValue, trees1(list(vs))))
            }
        } else if self.consume_token(&Token::LBracket) {
            if self.consume_token(&Token::RBracket) {
                Ok(node(Kind::SequenceValue, trees1(list(trees0()))))
            } else {
                let vs = self.parse_item_name_list(trees0())?;
                self.expect_token(&Token::RBracket)?;
                Ok(node(Kind::SequenceValue, trees1(list(vs))))
            }
        } else {
            Ok(Tree::Absent)
        }
    }
}

/// What [`Parser::parse_option_value`] yields from the token at `i` on.
#[verifier::opaque]
pub open spec fn option_value(p: Input, i: int) -> Out<TreeView>
    decreases p.toks.len() - i, 1int,
{
    match option_sequence(p, i) { Failed(e, i) => Failed(e, i), Got(s, i) => {
    if !(s is Absent) {
        Got(s, i)
    } else {
        if at_keyword(p, i, Keyword::SECRET) {
            let i = i + 1;
            match raw_name(p, i) {
                Got(name, i) => {
                    Got(TreeView::Node(Kind::SecretValue, seq![name]), i)
                },
                Failed(_, _) => {
                    Got(TreeView::Node(Kind::IdentValue, seq![TreeView::Text("secret"@)]), i)
                },
            }
        } else {
            match value(p, i) {
                Got(v, i) => {
                    Got(TreeView::Node(Kind::LiteralValue, seq![v]), i)
                },
                Failed(_, _) => {
                    match identifier(p, i) {
                        Got(id, i) => {
                            Got(TreeView::Node(Kind::IdentValue, seq![id]), i)
                        },
                        Failed(_, _) => {
                            Failed(expected_at(p, i, "option value"@), i)
                        },
                    }
                },
            }
        }
    }
    }}
}

impl Parser {
    /// Parse the value of an option.
    pub fn parse_option_value(&mut self) -> (r: Result<Tree, Failure>)
        requires
            old(self).ready(),
        ensures
            final(self).follows(*old(self), option_value(old(self).input(), old(self).index as int), r),
            r matches Err(e) ==> !(e@ is Unhandled),
        decreases old(self).tokens.len() - old(self).index, 1int,
    {
        broadcast use group_tree_views;

        proof {
            reveal(option_value);
            reveal(option_sequence);
        }
        let s = self.parse_option_sequence()?;
        if !s.is_absent() {
            Ok(s)
        } else if self.parse_keyword(Keyword::SECRET) {
            let mark: usize = self.index;
            match self.parse_raw_name() {
                Ok(name) => {
                    Ok(node(Kind::SecretValue, trees1(name)))
                },
                Err(_) => {
                    self.index = mark;
                    Ok(node(Kind::IdentValue, trees1(Tree::Text(String::from_str("secret")))))
                },
            }
        } else {
            let mark: usize = self.index;
            match self.parse_value() {
                Ok(v) => {
                    Ok(node(Kind::LiteralValue, trees1(v)))
                },
                Err(_) => {
                    self.index = mark;
                    let mark: usize = self.index;
                    match self.parse_identifier() {
                        Ok(id) => {
                            Ok(node(Kind::IdentValue, trees1(id)))
                        },
                        Err(_) => {
                            self.index = mark;
                            Err(self.expected_here("option value"))
                        },
                    }
                },
            }
        }
    }
}

/// What [`Parser::parse_option_value_list`] yields from the token at `i` on.
#[verifier::opaque]
pub open spec fn option_value_list(p: Input, i: int, items: Seq<TreeView>) -> Out<Seq<TreeView>>
    decreases p.toks.len() - i, 2int,
{
    match onward(p, i, option_value(p, i)) { Failed(e, i) => Failed(e, i), Got(item, i) => {
    if at_token(p, i, TokenView::Comma) {
        let i = i + 1;
        option_value_list(p, i, items.push(item))
    } else {
        Got(items.push(item), i)
    }
    }}
}

impl Parser {
    /// Parses one or more `option_value`, separated by commas, after those in `items`.
    pub fn parse_option_value_list(&mut self, mut items: Trees) -> (r: Result<Trees, Failure>)
        requires
            old(self).ready(),
        ensures
            final(self).follows(*old(self), option_value_list(old(self).input(), old(self).index as int, items@), r),
            r matches Ok(all) ==> all@.len() > items@.len(),
            r matches Err(e) ==> !(e@ is Unhandled),
        decreases old(self).tokens.len() - old(self).index, 2int,
    {
        broadcast use group_tree_views;

        proof {
            reveal(option_value_list);
            reveal(option_value);
        }
        let ghost before = *self;
        let ghost given = items@.len();
        let ghost goal = option_value_list(self.input(), self.index as int, items@);
        #[verifier::loop_isolation(false)]
        loop
            invariant
                self.ready(),
                self.input() == before.input(),
                self.tokens.len() == before.tokens.len(),
                before.index <= self.index,
                before == *old(self),
                given <= items@.len(),
                option_value_list(self.input(), self.index as int, items@) == goal,
            decreases self.tokens.len() - self.index,
        {
            proof {
                reveal(option_value_list);
                reveal(option_value);
            }
            let item = self.parse_option_value()?;
            if self.consume_token(&Token::Comma) {
                items = items.with(item);
                continue;
            } else {
                return Ok(items.with(item));
            }
        }
    }
}

/// What [`Parser::parse_data_type_option_value`] yields from the token at `i` on.
#[verifier::opaque]
pub open spec fn data_type_option_value(p: Input, i: int) -> Out<TreeView>
{
    let i = if at_token(p, i, TokenView::Eq) { i + 1 } else { i };
    match data_type(p, i) { Failed(e, i) => Failed(e, i), Got(t, i) => {
    Got(TreeView::Node(Kind::DataTypeValue, seq![t]), i)
    }}
}

impl Parser {
    /// Parse a data type that is the value of an option.
    pub fn parse_data_type_option_value(&mut self) -> (r: Result<Tree, Failure>)
        requires
            old(self).ready(),
        ensures
            final(self).follows(*old(self), data_type_option_value(old(self).input(), old(self).index as int), r),
            r is Ok ==> final(self).index > old(self).index,
            r matches Err(e) ==> !(e@ is Unhandled),
    {
        broadcast use group_tree_views;

        proof {
            reveal(data_type_option_value);
        }
        let _ = self.consume_token(&Token::Eq);
        let t = self.parse_data_type()?;
        Ok(node(Kind::DataTypeValue, trees1(t)))
    }
}

} // verus!
