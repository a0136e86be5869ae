//! Expressions.

use vstd::prelude::*;

use crate::sql_parser::checks::{is_interval, is_interval_type, is_node, name_text, name_string, field_order, field_index, date_time_field, field_tree, next_precedence};
use crate::sql_parser::keywords::{Keyword, keyword_text, keyword_ident, is_reserved_spec};
use crate::sql_parser::kind::{Kind};
use crate::sql_parser::names::{array_expr, data_type, identifier, item_name, list_expr, literal_string, literal_uint, optional_precision, qualified_identifier, value};
use crate::sql_parser::number::{number_kind, nonzero_number};
use crate::sql_parser::outcome::Out::{Failed, Got};
use crate::sql_parser::outcome::{Out, Failure, FailureView, error_view, too_deep, error};
use crate::sql_parser::parser::{Parser, Input, Precedence, SetPrecedence, RECURSION_LIMIT, at_keyword, at_keywords2, at_token, token_at, position, keyword, token, one_of, one_keyword, onward, past, deeper, expected_at, binding};
use crate::sql_parser::query::{optional_args, order_by_expr_list, query, query_body_seeded, query_tail};
use crate::sql_parser::syntax::{group_tree_views, Tree, TreeView, Trees, node, list, trees0, trees1, trees2, trees3, trees4, trees5};
use crate::sql_parser::tables::{named_function};
use crate::sql_parser::text::{text_eq, no_text};
use crate::sql_parser::token::{Token, TokenView};

verus! {

/// What [`Parser::parse_expr`] yields from the token at `i` on.
#[verifier::opaque]
pub open spec fn expr(p: Input, i: int) -> Out<TreeView>
    decreases p.toks.len() - i, 3int,
{
    subexpr(p, i, Precedence::Zero)
}

impl Parser {
    /// Parse a new expression.
    pub fn parse_expr(&mut self) -> (r: Result<Tree, Failure>)
        requires
            old(self).ready(),
        ensures
            final(self).follows(*old(self), expr(old(self).input(), old(self).index as int), r),
            r is Ok ==> final(self).index > old(self).index,
            r matches Err(e) ==> !(e@ is Unhandled),
        decreases old(self).tokens.len() - old(self).index, 3int,
    {
        broadcast use group_tree_views;

        proof {
            reveal(expr);
            reveal(subexpr);
        }
        self.parse_subexpr(Precedence::Zero)
    }
}

/// What [`Parser::parse_expr_list`] yields from the token at `i` on.
#[verifier::opaque]
pub open spec fn expr_list(p: Input, i: int, items: Seq<TreeView>) -> Out<Seq<TreeView>>
    decreases p.toks.len() - i, 4int,
{
    match past(p, i, expr(p, i)) { Failed(e, i) => Failed(e, i), Got(item, i) => {
    if at_token(p, i, TokenView::Comma) {
        let i = i + 1;
        expr_list(p, i, items.push(item))
    } else {
        Got(items.push(item), i)
    }
    }}
}

impl Parser {
    /// Parses one or more `expr`, separated by commas, after those in `items`.
    pub fn parse_expr_list(&mut self, mut items: Trees) -> (r: Result<Trees, Failure>)
        requires
            old(self).ready(),
        ensures
            final(self).follows(*old(self), expr_list(old(self).input(), old(self).index as int, items@), r),
            r is Ok ==> final(self).index > old(self).index,
            r matches Ok(all) ==> all@.len() > items@.len(),
            r matches Err(e) ==> !(e@ is Unhandled),
        decreases old(self).tokens.len() - old(self).index, 4int,
    {
        broadcast use group_tree_views;

        proof {
            reveal(expr_list);
            reveal(expr);
        }
        let ghost before = *self;
        let ghost given = items@.len();
        let ghost goal = expr_list(self.input(), self.index as int, items@);
        #[verifier::loop_isolation(false)]
        loop
            invariant
                self.ready(),
                self.input() == before.input(),
                self.tokens.len() == before.tokens.len(),
                before.index <= self.index,
                before == *old(self),
                given <= items@.len(),
                expr_list(self.input(), self.index as int, items@) == goal,
            decreases self.tokens.len() - self.index,
        {
            proof {
                reveal(expr_list);
                reveal(expr);
            }
            let item = self.parse_expr()?;
            if self.consume_token(&Token::Comma) {
                items = items.with(item);
                continue;
            } else {
                return Ok(items.with(item));
            }
        }
    }
}

/// What [`Parser::parse_subexpr`] yields from the token at `i` on.
#[verifier::opaque]
pub open spec fn subexpr(p: Input, i: int, precedence: Precedence) -> Out<TreeView>
    decreases p.toks.len() - i, 2int,
{
    match past(p, i, (if p.depth >= RECURSION_LIMIT { Failed(too_deep(), i) } else { prefix(deeper(p), i) })) { Failed(e, i) => Failed(e, i), Got(e, i) => {
    subexpr_seeded(p, i, precedence, e)
    }}
}

impl Parser {
    /// Parse tokens until the precedence decreases.
    pub fn parse_subexpr(&mut self, precedence: Precedence) -> (r: Result<Tree, Failure>)
        requires
            old(self).ready(),
        ensures
            final(self).follows(*old(self), subexpr(old(self).input(), old(self).index as int, precedence), r),
            r is Ok ==> final(self).index > old(self).index,
            r matches Err(e) ==> !(e@ is Unhandled),
        decreases old(self).tokens.len() - old(self).index, 2int,
    {
        broadcast use group_tree_views;

        proof {
            reveal(subexpr);
            reveal(prefix);
            reveal(subexpr_seeded);
        }
        self.descend()?;
        let outcome = self.parse_prefix();
        self.ascend();
        let e = outcome?;
        self.parse_subexpr_seeded(precedence, e)
    }
}

/// What [`Parser::parse_subexpr_seeded`] yields from the token at `i` on.
#[verifier::opaque]
pub open spec fn subexpr_seeded(p: Input, i: int, precedence: Precedence, e: TreeView) -> Out<TreeView>
    decreases p.toks.len() - i, 3int,
{
    (if p.depth >= RECURSION_LIMIT { Failed(too_deep(), i) } else { infixes(deeper(p), i, precedence, e) })
}

impl Parser {
    /// Parse what follows the expression `e`, until the precedence decreases.
    pub fn parse_subexpr_seeded(&mut self, precedence: Precedence, e: Tree) -> (r: Result<Tree, Failure>)
        requires
            old(self).ready(),
        ensures
            final(self).follows(*old(self), subexpr_seeded(old(self).input(), old(self).index as int, precedence, e@), r),
            r matches Err(e) ==> !(e@ is Unhandled),
        decreases old(self).tokens.len() - old(self).index, 3int,
    {
        broadcast use group_tree_views;

        proof {
            reveal(subexpr_seeded);
            reveal(infixes);
        }
        self.descend()?;
        let outcome = self.parse_infixes(precedence, e);
        self.ascend();
        outcome
    }
}

/// What [`Parser::parse_infixes`] yields from the token at `i` on.
#[verifier::opaque]
pub open spec fn infixes(p: Input, i: int, precedence: Precedence, e: TreeView) -> Out<TreeView>
    decreases p.toks.len() - i, 2int,
{
    if binding(precedence) >= binding(next_precedence(p, i)) {
        Got(e, i)
    } else {
        match past(p, i, infix(p, i, e, next_precedence(p, i))) { Failed(e, i) => Failed(e, i), Got(longer, i) => {
        infixes(p, i, precedence, longer)
        }}
    }
}

impl Parser {
    /// Parse the operators that follow the expression `e`, one after the other,
    /// until the precedence decreases.
    pub fn parse_infixes(&mut self, mut precedence: Precedence, mut e: Tree) -> (r: Result<Tree, Failure>)
        requires
            old(self).ready(),
        ensures
            final(self).follows(*old(self), infixes(old(self).input(), old(self).index as int, precedence, e@), r),
            r matches Err(e) ==> !(e@ is Unhandled),
        decreases old(self).tokens.len() - old(self).index, 2int,
    {
        broadcast use group_tree_views;

        proof {
            reveal(infixes);
            reveal(infix);
        }
        let ghost before = *self;
        let ghost goal = infixes(self.input(), self.index as int, precedence, e@);
        #[verifier::loop_isolation(false)]
        loop
            invariant
                self.ready(),
                self.input() == before.input(),
                self.tokens.len() == before.tokens.len(),
                before.index <= self.index,
                before == *old(self),
                infixes(self.input(), self.index as int, precedence, e@) == goal,
            decreases self.tokens.len() - self.index,
        {
            proof {
                reveal(infixes);
                reveal(infix);
            }
            if precedence.at_least(self.get_next_precedence()) {
                return Ok(e);
            } else {
                let longer = self.parse_infix(e, self.get_next_precedence())?;
                e = longer;
                continue;
            }
        }
    }
}

/// What [`Parser::parse_typed_literal`] yields from the token at `i` on.
#[verifier::opaque]
pub open spec fn typed_literal(p: Input, i: int) -> Out<TreeView>
{
    match data_type(p, i) { Failed(e, i) => Failed(e, i), Got(data_type, i) => {
    if is_interval(data_type) {
        interval_value(p, i)
    } else {
        match literal_string(p, i) { Failed(e, i) => Failed(e, i), Got(s, i) => {
        Got(TreeView::Node(Kind::Cast, seq![TreeView::Node(Kind::StringValue, seq![TreeView::Text(s)]), data_type]), i)
        }}
    }
    }}
}

impl Parser {
    /// Parse a literal that is preceded by the name of its type. PostgreSQL allows
    /// that of any string literal, as in `DATE '2020-05-20'` or `BOOL 'true'`;
    /// an `INTERVAL` literal may be followed by the fields that it counts.
    pub fn parse_typed_literal(&mut self) -> (r: Result<Tree, Failure>)
        requires
            old(self).ready(),
        ensures
            final(self).follows(*old(self), typed_literal(old(self).input(), old(self).index as int), r),
            r is Ok ==> final(self).index > old(self).index,
            r matches Err(e) ==> !(e@ is Unhandled),
    {
        broadcast use group_tree_views;

        proof {
            reveal(typed_literal);
        }
        let data_type = self.parse_data_type()?;
        if is_interval_type(&data_type) {
            self.parse_interval_value()
        } else {
            let s = self.parse_literal_string()?;
            Ok(node(Kind::Cast, trees2(node(Kind::StringValue, trees1(Tree::Text(s))), data_type)))
        }
    }
}

/// What [`Parser::parse_prefix_operand`] yields from the token at `i` on.
#[verifier::opaque]
pub open spec fn prefix_operand(p: Input, i: int, op: Seq<char>, precedence: Precedence) -> Out<TreeView>
    decreases p.toks.len() - i, 3int,
{
    match subexpr(p, i, precedence) { Failed(e, i) => Failed(e, i), Got(e, i) => {
    Got(TreeView::Node(Kind::Op, seq![TreeView::Node(Kind::BareOp, seq![TreeView::Text(op)]), e, TreeView::Absent]), i)
    }}
}

impl Parser {
    /// Parse an operator before an expression that binds it with the given
    /// precedence.
    pub fn parse_prefix_operand(&mut self, op: String, precedence: Precedence) -> (r: Result<Tree, Failure>)
        requires
            old(self).ready(),
        ensures
            final(self).follows(*old(self), prefix_operand(old(self).input(), old(self).index as int, op@, precedence), r),
            r is Ok ==> final(self).index > old(self).index,
            r matches Err(e) ==> !(e@ is Unhandled),
        decreases old(self).tokens.len() - old(self).index, 3int,
    {
        broadcast use group_tree_views;

        proof {
            reveal(prefix_operand);
            reveal(subexpr);
        }
        let e = self.parse_subexpr(precedence)?;
        Ok(node(Kind::Op, trees3(node(Kind::BareOp, trees1(Tree::Text(op))), e, Tree::Absent)))
    }
}

/// What [`Parser::parse_prefix`] yields from the token at `i` on.
#[verifier::opaque]
pub open spec fn prefix(p: Input, i: int) -> Out<TreeView>
    decreases p.toks.len() - i, 1int,
{
    match typed_literal(p, i) {
        Got(e, i) => {
            Got(e, i)
        },
        Failed(_, _) => {
            let found = token_at(p, i);
            let i = i + 1;
            match found {
                Some(TokenView::LBracket) => {
                    let i = i - 1;
                    named_function(p, i)
                },
                Some(TokenView::Keyword(Keyword::TRUE)) | Some(TokenView::Keyword(Keyword::FALSE)) | Some(TokenView::Keyword(Keyword::NULL)) => {
                    let i = i - 1;
                    value(p, i)
                },
                Some(TokenView::Keyword(Keyword::ARRAY)) => {
                    array_expr(p, i)
                },
                Some(TokenView::Keyword(Keyword::LIST)) => {
                    list_expr(p, i)
                },
                Some(TokenView::Keyword(Keyword::CASE)) => {
                    case_expr(p, i)
                },
                Some(TokenView::Keyword(Keyword::CAST)) => {
                    cast_expr(p, i)
                },
                Some(TokenView::Keyword(Keyword::COALESCE)) => {
                    homogenizing_function(p, i, TreeView::Node(Kind::Coalesce, Seq::<TreeView>::empty()))
                },
                Some(TokenView::Keyword(Keyword::GREATEST)) => {
                    homogenizing_function(p, i, TreeView::Node(Kind::Greatest, Seq::<TreeView>::empty()))
                },
                Some(TokenView::Keyword(Keyword::LEAST)) => {
                    homogenizing_function(p, i, TreeView::Node(Kind::Least, Seq::<TreeView>::empty()))
                },
                Some(TokenView::Keyword(Keyword::NULLIF)) => {
                    nullif_expr(p, i)
                },
                Some(TokenView::Keyword(Keyword::EXISTS)) => {
                    exists_expr(p, i)
                },
                Some(TokenView::Keyword(Keyword::EXTRACT)) => {
                    extract_expr(p, i)
                },
                Some(TokenView::Keyword(Keyword::INTERVAL)) => {
                    interval_value(p, i)
                },
                Some(TokenView::Keyword(Keyword::NOT)) => {
                    match subexpr(p, i, Precedence::PrefixNot) { Failed(e, i) => Failed(e, i), Got(e, i) => {
                    Got(TreeView::Node(Kind::Not, seq![e]), i)
                    }}
                },
                Some(TokenView::Keyword(Keyword::ROW)) => {
                    row_expr(p, i)
                },
                Some(TokenView::Keyword(Keyword::TRIM)) => {
                    trim_expr(p, i)
                },
                Some(TokenView::Keyword(Keyword::POSITION)) => {
                    if at_token(p, i, TokenView::LParen) {
                        position_expr(p, i)
                    } else {
                        qualified_identifier(p, i, TreeView::Text(keyword_ident(Keyword::POSITION)))
                    }
                },
                Some(TokenView::Keyword(Keyword::SUBSTRING)) => {
                    substring_expr(p, i)
                },
                Some(TokenView::Keyword(k)) => {
                    if is_reserved_spec(k) {
                        Failed(error_view(position(p, i - 1), no_text() + "expected expression, but found reserved keyword"@), i)
                    } else {
                        qualified_identifier(p, i, TreeView::Text(keyword_ident(k)))
                    }
                },
                Some(TokenView::Ident(s)) => {
                    qualified_identifier(p, i, TreeView::Text(s))
                },
                Some(TokenView::Op(s)) => {
                    if s == "-"@ {
                        match token_at(p, i) {
                            Some(TokenView::Number(n)) => {
                                match number_kind(n) {
                                    Some(true) => {
                                        let i = i - 1;
                                        value(p, i)
                                    },
                                    Some(false) => {
                                        prefix_operand(p, i, s, Precedence::PrefixPlusMinus)
                                    },
                                    None => {
                                        Failed(error_view(position(p, i - 1), no_text() + "invalid number "@ + n), i)
                                    },
                                }
                            },
                            _ => {
                                prefix_operand(p, i, s, Precedence::PrefixPlusMinus)
                            },
                        }
                    } else {
                        if s == "+"@ {
                            prefix_operand(p, i, s, Precedence::PrefixPlusMinus)
                        } else {
                            if s == "~"@ {
                                prefix_operand(p, i, s, Precedence::Other)
                            } else {
                                Failed(expected_at(p, i - 1, "an expression"@), i)
                            }
                        }
                    }
                },
                Some(TokenView::Number(s)) | Some(TokenView::String(s)) | Some(TokenView::HexString(s)) => {
                    let i = i - 1;
                    value(p, i)
                },
                Some(TokenView::Parameter(n)) => {
                    Got(TreeView::Node(Kind::Parameter, seq![TreeView::Num(n as u64)]), i)
                },
                Some(TokenView::LParen) => {
                    match parenthesized_expr(p, i) { Failed(e, i) => Failed(e, i), Got(e, i) => {
                    match token(p, i, TokenView::RParen) { Failed(e, i) => Failed(e, i), Got(_, i) => {
                    Got(e, i)
                    }}
                    }}
                },
                None => {
                    Failed(error_view(position(p, i - 1), no_text() + "Unexpected EOF"@), i)
                },
                _ => {
                    Failed(expected_at(p, i - 1, "an expression"@), i)
                },
            }
        },
    }
}

impl Parser {
    /// Parse an expression prefix.
    #[verifier::rlimit(60)]
    pub fn parse_prefix(&mut self) -> (r: Result<Tree, Failure>)
        requires
            old(self).ready(),
        ensures
            final(self).follows(*old(self), prefix(old(self).input(), old(self).index as int), r),
            r is Ok ==> final(self).index > old(self).index,
            r matches Err(e) ==> !(e@ is Unhandled),
        decreases old(self).tokens.len() - old(self).index, 1int,
    {
        broadcast use group_tree_views;

        proof {
            reveal(prefix);
            reveal(array_expr);
            reveal(case_expr);
            reveal(cast_expr);
            reveal(exists_expr);
            reveal(extract_expr);
            reveal(homogenizing_function);
            reveal(list_expr);
            reveal(named_function);
            reveal(nullif_expr);
            reveal(parenthesized_expr);
            reveal(position_expr);
            reveal(prefix_operand);
            reveal(qualified_identifier);
            reveal(row_expr);
            reveal(subexpr);
            reveal(substring_expr);
            reveal(trim_expr);
        }
        let mark: usize = self.index;
        match self.parse_typed_literal() {
            Ok(e) => {
                Ok(e)
            },
            Err(_) => {
                self.index = mark;
                match self.next_token() {
                    Some(Token::LBracket) => {
                        self.prev_token();
                        self.parse_named_function()
                    },
                    Some(Token::Keyword(Keyword::TRUE)) | Some(Token::Keyword(Keyword::FALSE)) | Some(Token::Keyword(Keyword::NULL)) => {
                        self.prev_token();
                        self.parse_value()
                    },
                    Some(Token::Keyword(Keyword::ARRAY)) => {
                        self.parse_array()
                    },
                    Some(Token::Keyword(Keyword::LIST)) => {
                        self.parse_list()
                    },
                    Some(Token::Keyword(Keyword::CASE)) => {
                        self.parse_case_expr()
                    },
                    Some(Token::Keyword(Keyword::CAST)) => {
                        self.parse_cast_expr()
                    },
                    Some(Token::Keyword(Keyword::COALESCE)) => {
                        self.parse_homogenizing_function(node(Kind::Coalesce, trees0()))
                    },
                    Some(Token::Keyword(Keyword::GREATEST)) => {
                        self.parse_homogenizing_function(node(Kind::Greatest, trees0()))
                    },
                    Some(Token::Keyword(Keyword::LEAST)) => {
                        self.parse_homogenizing_function(node(Kind::Least, trees0()))
                    },
                    Some(Token::Keyword(Keyword::NULLIF)) => {
                        self.parse_nullif_expr()
                    },
                    Some(Token::Keyword(Keyword::EXISTS)) => {
                        self.parse_exists_expr()
                    },
                    Some(Token::Keyword(Keyword::EXTRACT)) => {
                        self.parse_extract_expr()
                    },
                    Some(Token::Keyword(Keyword::INTERVAL)) => {
                        self.parse_interval_value()
                    },
                    Some(Token::Keyword(Keyword::NOT)) => {
                        let e = self.parse_subexpr(Precedence::PrefixNot)?;
                        Ok(node(Kind::Not, trees1(e)))
                    },
                    Some(Token::Keyword(Keyword::ROW)) => {
                        self.parse_row_expr()
                    },
                    Some(Token::Keyword(Keyword::TRIM)) => {
                        self.parse_trim_expr()
                    },
                    Some(Token::Keyword(Keyword::POSITION)) => {
                        if self.peek_is(&Token::LParen) {
                            self.parse_position_expr()
                        } else {
                            self.parse_qualified_identifier(Tree::Text(Keyword::POSITION.into_ident()))
                        }
                    },
                    Some(Token::Keyword(Keyword::SUBSTRING)) => {
                        self.parse_substring_expr()
                    },
                    Some(Token::Keyword(k)) => {
                        if k.is_reserved() {
                            let pos: usize = self.peek_prev_pos();
                            Err(error(pos, String::new().concat("expected expression, but found reserved keyword")))
                        } else {
                            self.parse_qualified_identifier(Tree::Text(k.into_ident()))
                        }
                    },
                    Some(Token::Ident(s)) => {
                        self.parse_qualified_identifier(Tree::Text(s))
                    },
                    Some(Token::Op(s)) => {
                        if text_eq(s.as_str(), "-") {
                            match self.peek_token() {
                                Some(Token::Number(n)) => {
                                    match nonzero_number(n.as_str()) {
                                        Some(true) => {
                                            self.prev_token();
                                            self.parse_value()
                                        },
                                        Some(false) => {
                                            self.parse_prefix_operand(s, Precedence::PrefixPlusMinus)
                                        },
                                        None => {
                                            let pos: usize = self.peek_prev_pos();
                                            Err(error(pos, String::new().concat("invalid number ").concat(n.as_str())))
                                        },
                                    }
                                },
                                _ => {
                                    self.parse_prefix_operand(s, Precedence::PrefixPlusMinus)
                                },
                            }
                        } else if text_eq(s.as_str(), "+") {
                            self.parse_prefix_operand(s, Precedence::PrefixPlusMinus)
                        } else if text_eq(s.as_str(), "~") {
                            self.parse_prefix_operand(s, Precedence::Other)
                        } else {
                            Err(self.expected_prev("an expression"))
                        }
                    },
                    Some(Token::Number(s)) | Some(Token::String(s)) | Some(Token::HexString(s)) => {
                        self.prev_token();
                        self.parse_value()
                    },
                    Some(Token::Parameter(n)) => {
                        Ok(node(Kind::Parameter, trees1(Tree::Num(n as u64))))
                    },
                    Some(Token::LParen) => {
                        let e = self.parse_parenthesized_expr()?;
                        self.expect_token(&Token::RParen)?;
                        Ok(e)
                    },
                    None => {
                        let pos: usize = self.peek_prev_pos();
                        Err(error(pos, String::new().concat("Unexpected EOF")))
                    },
                    _ => {
                        Err(self.expected_prev("an expression"))
                    },
                }
            },
        }
    }
}

/// What [`Parser::parse_parenthesized_expr`] yields from the token at `i` on.
#[verifier::opaque]
pub open spec fn parenthesized_expr(p: Input, i: int) -> Out<TreeView>
    decreases p.toks.len() - i, 6int,
{
    match parenthesized(p, i) { Failed(e, i) => Failed(e, i), Got(e, i) => {
    if is_node(e, Kind::Query) {
        Got(TreeView::Node(Kind::Subquery, seq![e]), i)
    } else {
        Got(e, i)
    }
    }}
}

impl Parser {
    /// Parses an expression that appears in parentheses, like `(1 + 1)` or
    /// `(SELECT 1)`. Assumes that the opening parenthesis has already been
    /// parsed. Parses up to the closing parenthesis without consuming it.
    pub fn parse_parenthesized_expr(&mut self) -> (r: Result<Tree, Failure>)
        requires
            old(self).ready(),
        ensures
            final(self).follows(*old(self), parenthesized_expr(old(self).input(), old(self).index as int), r),
            r is Ok ==> final(self).index > old(self).index,
            r matches Err(e) ==> !(e@ is Unhandled),
        decreases old(self).tokens.len() - old(self).index, 6int,
    {
        broadcast use group_tree_views;

        proof {
            reveal(parenthesized_expr);
            reveal(parenthesized);
        }
        let e = self.parse_parenthesized()?;
        if e.is_node(Kind::Query) {
            Ok(node(Kind::Subquery, trees1(e)))
        } else {
            Ok(e)
        }
    }
}

/// What [`Parser::parse_parenthesized`] yields from the token at `i` on.
#[verifier::opaque]
pub open spec fn parenthesized(p: Input, i: int) -> Out<TreeView>
    decreases p.toks.len() - i, 5int,
{
    if at_keyword(p, i, Keyword::SELECT) || at_keyword(p, i, Keyword::WITH) {
        query(p, i)
    } else {
        if at_token(p, i, TokenView::LParen) {
            let i = i + 1;
            match past(p, i, (if p.depth >= RECURSION_LIMIT { Failed(too_deep(), i) } else { parenthesized(deeper(p), i) })) { Failed(e, i) => Failed(e, i), Got(e, i) => {
            match token(p, i, TokenView::RParen) { Failed(e, i) => Failed(e, i), Got(_, i) => {
            match token_at(p, i) {
                Some(TokenView::RParen) => {
                    if is_node(e, Kind::Query) {
                        Got(e, i)
                    } else {
                        Got(TreeView::Node(Kind::Nested, seq![e]), i)
                    }
                },
                Some(TokenView::Comma) => {
                    match onward(p, i, {
                        if is_node(e, Kind::Query) {
                            Got(TreeView::Node(Kind::Subquery, seq![e]), i)
                        } else {
                            Got(e, i)
                        }
                    }) { Failed(e, i) => Failed(e, i), Got(first, i) => {
                    match more_exprs(p, i, seq![first]) { Failed(e, i) => Failed(e, i), Got(es, i) => {
                    Got(TreeView::Node(Kind::Row, seq![TreeView::List(es)]), i)
                    }}
                    }}
                },
                Some(TokenView::Keyword(Keyword::UNION)) | Some(TokenView::Keyword(Keyword::INTERSECT)) | Some(TokenView::Keyword(Keyword::EXCEPT)) => {
                    if is_node(e, Kind::Query) {
                        match onward(p, i, query_body_seeded(p, i, SetPrecedence::Zero, TreeView::Node(Kind::QueryBody, seq![e]))) { Failed(e, i) => Failed(e, i), Got(body, i) => {
                        query_tail(p, i, TreeView::Node(Kind::SimpleCtes, seq![TreeView::List(Seq::<TreeView>::empty())]), body)
                        }}
                    } else {
                        nested_rest(p, i, e)
                    }
                },
                _ => {
                    nested_rest(p, i, e)
                },
            }
            }}
            }}
        } else {
            match expr_list(p, i, Seq::<TreeView>::empty()) { Failed(e, i) => Failed(e, i), Got(es, i) => {
            if es.len() == 1 {
                Got(TreeView::Node(Kind::Nested, seq![es[0]]), i)
            } else {
                Got(TreeView::Node(Kind::Row, seq![TreeView::List(es)]), i)
            }
            }}
        }
    }
}

impl Parser {
    /// Parses one layer of parentheses, which holds a query or an expression; which
    /// of the two is decided only by what comes after the closing parenthesis of the
    /// next layer. The parser must be positioned after an opening parenthesis, and is
    /// left before the corresponding closing parenthesis. The resulting expression
    /// includes the parentheses.
    #[verifier::rlimit(30)]
    pub fn parse_parenthesized(&mut self) -> (r: Result<Tree, Failure>)
        requires
            old(self).ready(),
        ensures
            final(self).follows(*old(self), parenthesized(old(self).input(), old(self).index as int), r),
            r is Ok ==> final(self).index > old(self).index,
            r matches Err(e) ==> !(e@ is Unhandled),
        decreases old(self).tokens.len() - old(self).index, 5int,
    {
        broadcast use group_tree_views;

        proof {
            reveal(parenthesized);
            reveal(expr_list);
            reveal(more_exprs);
            reveal(nested_rest);
            reveal(query);
            reveal(query_body_seeded);
            reveal(query_tail);
        }
        if self.peek_keyword(Keyword::SELECT) || self.peek_keyword(Keyword::WITH) {
            self.parse_query()
        } else if !self.consume_token(&Token::LParen) {
            let es = self.parse_expr_list(trees0())?;
            if es.len() == 1 {
                Ok(node(Kind::Nested, trees1(es.into_first())))
            } else {
                Ok(node(Kind::Row, trees1(list(es))))
            }
        } else {
            self.descend()?;
            let outcome = self.parse_parenthesized();
            self.ascend();
            let e = outcome?;
            self.expect_token(&Token::RParen)?;
            match self.peek_token() {
                Some(Token::RParen) => {
                    if e.is_node(Kind::Query) {
                        Ok(e)
                    } else {
                        Ok(node(Kind::Nested, trees1(e)))
                    }
                },
                Some(Token::Comma) => {
                    let first = if e.is_node(Kind::Query) {
                        node(Kind::Subquery, trees1(e))
                    } else {
                        e
                    };
                    let es = self.parse_more_exprs(trees1(first))?;
                    Ok(node(Kind::Row, trees1(list(es))))
                },
                Some(Token::Keyword(Keyword::UNION)) | Some(Token::Keyword(Keyword::INTERSECT)) | Some(Token::Keyword(Keyword::EXCEPT)) => {
                    if e.is_node(Kind::Query) {
                        let body = self.parse_query_body_seeded(SetPrecedence::Zero, node(Kind::QueryBody, trees1(e)))?;
                        self.parse_query_tail(node(Kind::SimpleCtes, trees1(list(trees0()))), body)
                    } else {
                        self.parse_nested_rest(e)
                    }
                },
                _ => {
                    self.parse_nested_rest(e)
                },
            }
        }
    }
}

/// What [`Parser::parse_nested_rest`] yields from the token at `i` on.
#[verifier::opaque]
pub open spec fn nested_rest(p: Input, i: int, e: TreeView) -> Out<TreeView>
    decreases p.toks.len() - i, 4int,
{
    match onward(p, i, {
        if is_node(e, Kind::Query) {
            Got(TreeView::Node(Kind::Subquery, seq![e]), i)
        } else {
            Got(e, i)
        }
    }) { Failed(e, i) => Failed(e, i), Got(first, i) => {
    match subexpr_seeded(p, i, Precedence::Zero, first) { Failed(e, i) => Failed(e, i), Got(whole, i) => {
    Got(TreeView::Node(Kind::Nested, seq![whole]), i)
    }}
    }}
}

impl Parser {
    /// Parse what follows `e`, the first operand of an expression in parentheses.
    pub fn parse_nested_rest(&mut self, e: Tree) -> (r: Result<Tree, Failure>)
        requires
            old(self).ready(),
        ensures
            final(self).follows(*old(self), nested_rest(old(self).input(), old(self).index as int, e@), r),
            r matches Err(e) ==> !(e@ is Unhandled),
        decreases old(self).tokens.len() - old(self).index, 4int,
    {
        broadcast use group_tree_views;

        proof {
            reveal(nested_rest);
            reveal(subexpr_seeded);
        }
        let first = if e.is_node(Kind::Query) {
            node(Kind::Subquery, trees1(e))
        } else {
            e
        };
        let whole = self.parse_subexpr_seeded(Precedence::Zero, first)?;
        Ok(node(Kind::Nested, trees1(whole)))
    }
}

/// What [`Parser::parse_more_exprs`] yields from the token at `i` on.
#[verifier::opaque]
pub open spec fn more_exprs(p: Input, i: int, es: Seq<TreeView>) -> Out<Seq<TreeView>>
    decreases p.toks.len() - i, 0int,
{
    if at_token(p, i, TokenView::Comma) {
        let i = i + 1;
        match past(p, i, expr(p, i)) { Failed(e, i) => Failed(e, i), Got(e, i) => {
        more_exprs(p, i, es.push(e))
        }}
    } else {
        Got(es, i)
    }
}

impl Parser {
    /// Parse the expressions that follow `es`, each after a comma.
    pub fn parse_more_exprs(&mut self, mut es: Trees) -> (r: Result<Trees, Failure>)
        requires
            old(self).ready(),
        ensures
            final(self).follows(*old(self), more_exprs(old(self).input(), old(self).index as int, es@), r),
            r matches Err(e) ==> !(e@ is Unhandled),
        decreases old(self).tokens.len() - old(self).index, 0int,
    {
        broadcast use group_tree_views;

        proof {
            reveal(more_exprs);
            reveal(expr);
        }
        let ghost before = *self;
        let ghost goal = more_exprs(self.input(), self.index as int, es@);
        #[verifier::loop_isolation(false)]
        loop
            invariant
                self.ready(),
                self.input() == before.input(),
                self.tokens.len() == before.tokens.len(),
                before.index <= self.index,
                before == *old(self),
                more_exprs(self.input(), self.index as int, es@) == goal,
            decreases self.tokens.len() - self.index,
        {
            proof {
                reveal(more_exprs);
                reveal(expr);
            }
            if self.consume_token(&Token::Comma) {
                let e = self.parse_expr()?;
                es = es.with(e);
                continue;
            } else {
                return Ok(es);
            }
        }
    }
}

/// What [`Parser::parse_distinct_choice`] yields from the token at `i` on.
#[verifier::opaque]
pub open spec fn distinct_choice(p: Input, i: int, place: Seq<char>) -> Out<bool>
{
    if at_keyword(p, i, Keyword::ALL) {
        let i = i + 1;
        if at_keyword(p, i, Keyword::DISTINCT) {
            let i = i + 1;
            Failed(error_view(position(p, i - 1), no_text() + "Cannot specify both ALL and DISTINCT in "@ + place), i)
        } else {
            Got(false, i)
        }
    } else {
        if at_keyword(p, i, Keyword::DISTINCT) {
            let i = i + 1;
            if at_keyword(p, i, Keyword::ALL) {
                let i = i + 1;
                Failed(error_view(position(p, i - 1), no_text() + "Cannot specify both DISTINCT and ALL in "@ + place), i)
            } else {
                Got(true, i)
            }
        } else {
            Got(false, i)
        }
    }
}

impl Parser {
    /// Parse `ALL`, `DISTINCT` or neither, and tell whether it is `DISTINCT`.
    pub fn parse_distinct_choice(&mut self, place: String) -> (r: Result<bool, Failure>)
        requires
            old(self).ready(),
        ensures
            final(self).follows(*old(self), distinct_choice(old(self).input(), old(self).index as int, place@), r),
            r matches Err(e) ==> !(e@ is Unhandled),
    {
        broadcast use group_tree_views;

        proof {
            reveal(distinct_choice);
        }
        if self.parse_keyword(Keyword::ALL) {
            if self.parse_keyword(Keyword::DISTINCT) {
                let pos: usize = self.peek_prev_pos();
                Err(error(pos, String::new().concat("Cannot specify both ALL and DISTINCT in ").concat(place.as_str())))
            } else {
                Ok(false)
            }
        } else if self.parse_keyword(Keyword::DISTINCT) {
            if self.parse_keyword(Keyword::ALL) {
                let pos: usize = self.peek_prev_pos();
                Err(error(pos, String::new().concat("Cannot specify both DISTINCT and ALL in ").concat(place.as_str())))
            } else {
                Ok(true)
            }
        } else {
            Ok(false)
        }
    }
}

/// What [`Parser::parse_function`] yields from the token at `i` on.
#[verifier::opaque]
pub open spec fn function(p: Input, i: int, name: TreeView) -> Out<TreeView>
    decreases p.toks.len() - i, 0int,
{
    match token(p, i, TokenView::LParen) { Failed(e, i) => Failed(e, i), Got(_, i) => {
    match onward(p, i, distinct_choice(p, i, no_text() + "function: "@ + name_text(name))) { Failed(e, i) => Failed(e, i), Got(distinct, i) => {
    match past(p, i, optional_args(p, i, true)) { Failed(e, i) => Failed(e, i), Got(args, i) => {
    if distinct && is_node(args, Kind::StarArgs) {
        Failed(error_view(position(p, i - 1) - 1, no_text() + "DISTINCT * not supported as function args"@), i)
    } else {
        match onward(p, i, {
            if at_keyword(p, i, Keyword::FILTER) {
                let i = i + 1;
                match token(p, i, TokenView::LParen) { Failed(e, i) => Failed(e, i), Got(_, i) => {
                match keyword(p, i, Keyword::WHERE) { Failed(e, i) => Failed(e, i), Got(_, i) => {
                match past(p, i, expr(p, i)) { Failed(e, i) => Failed(e, i), Got(e, i) => {
                match token(p, i, TokenView::RParen) { Failed(e, i) => Failed(e, i), Got(_, i) => {
                Got(e, i)
                }}
                }}
                }}
                }}
            } else {
                Got(TreeView::Absent, i)
            }
        }) { Failed(e, i) => Failed(e, i), Got(filter, i) => {
        match {
            if at_keyword(p, i, Keyword::OVER) {
                let i = i + 1;
                match token(p, i, TokenView::LParen) { Failed(e, i) => Failed(e, i), Got(_, i) => {
                match onward(p, i, {
                    if at_keywords2(p, i, Keyword::PARTITION, Keyword::BY) {
                        let i = i + 2;
                        match past(p, i, expr_list(p, i, Seq::<TreeView>::empty())) { Failed(e, i) => Failed(e, i), Got(es, i) => {
                        Got(TreeView::List(es), i)
                        }}
                    } else {
                        Got(TreeView::List(Seq::<TreeView>::empty()), i)
                    }
                }) { Failed(e, i) => Failed(e, i), Got(partition_by, i) => {
                match {
                    if at_keywords2(p, i, Keyword::ORDER, Keyword::BY) {
                        let i = i + 2;
                        match order_by_expr_list(p, i, Seq::<TreeView>::empty()) { Failed(e, i) => Failed(e, i), Got(es, i) => {
                        Got(TreeView::List(es), i)
                        }}
                    } else {
                        Got(TreeView::List(Seq::<TreeView>::empty()), i)
                    }
                } { Failed(e, i) => Failed(e, i), Got(order_by, i) => {
                match {
                    if at_token(p, i, TokenView::RParen) {
                        let i = i + 1;
                        Got(TreeView::Absent, i)
                    } else {
                        match window_frame(p, i) { Failed(e, i) => Failed(e, i), Got(frame, i) => {
                        match token(p, i, TokenView::RParen) { Failed(e, i) => Failed(e, i), Got(_, i) => {
                        Got(frame, i)
                        }}
                        }}
                    }
                } { Failed(e, i) => Failed(e, i), Got(window_frame, i) => {
                Got(TreeView::Node(Kind::WindowSpec, seq![partition_by, order_by, window_frame]), i)
                }}
                }}
                }}
                }}
            } else {
                Got(TreeView::Absent, i)
            }
        } { Failed(e, i) => Failed(e, i), Got(over, i) => {
        Got(TreeView::Node(Kind::Function, seq![name, args, filter, over, TreeView::Flag(distinct)]), i)
        }}
        }}
    }
    }}
    }}
    }}
}

impl Parser {
    /// Parse the arguments of the function `name`, and what else may follow them.
    #[verifier::rlimit(60)]
    pub fn parse_function(&mut self, name: Tree) -> (r: Result<Tree, Failure>)
        requires
            old(self).ready(),
        ensures
            final(self).follows(*old(self), function(old(self).input(), old(self).index as int, name@), r),
            r is Ok ==> final(self).index > old(self).index,
            r matches Err(e) ==> !(e@ is Unhandled),
        decreases old(self).tokens.len() - old(self).index, 0int,
    {
        broadcast use group_tree_views;

        proof {
            reveal(function);
            reveal(expr);
            reveal(expr_list);
            reveal(optional_args);
            reveal(order_by_expr_list);
        }
        self.expect_token(&Token::LParen)?;
        let distinct = self.parse_distinct_choice(String::new().concat("function: ").concat(name_string(&name).as_str()))?;
        let args = self.parse_optional_args(true)?;
        if distinct && args.is_node(Kind::StarArgs) {
            let pos: usize = self.peek_prev_pos() - 1;
            Err(error(pos, String::new().concat("DISTINCT * not supported as function args")))
        } else {
            let filter = if self.parse_keyword(Keyword::FILTER) {
                self.expect_token(&Token::LParen)?;
                self.expect_keyword(Keyword::WHERE)?;
                let e = self.parse_expr()?;
                self.expect_token(&Token::RParen)?;
                e
            } else {
                Tree::Absent
            };
            let over = if self.parse_keyword(Keyword::OVER) {
                self.expect_token(&Token::LParen)?;
                let partition_by = if self.parse_keywords2(Keyword::PARTITION, Keyword::BY) {
                    let es = self.parse_expr_list(trees0())?;
                    list(es)
                } else {
                    list(trees0())
                };
                let order_by = if self.parse_keywords2(Keyword::ORDER, Keyword::BY) {
                    let es = self.parse_order_by_expr_list(trees0())?;
                    list(es)
                } else {
                    list(trees0())
                };
                let window_frame = if !self.consume_token(&Token::RParen) {
                    let frame = self.parse_window_frame()?;
                    self.expect_token(&Token::RParen)?;
                    frame
                } else {
                    Tree::Absent
                };
                node(Kind::WindowSpec, trees3(partition_by, order_by, window_frame))
            } else {
                Tree::Absent
            };
            Ok(node(Kind::Function, trees5(name, args, filter, over, Tree::Flag(distinct))))
        }
    }
}

/// What [`Parser::parse_window_frame`] yields from the token at `i` on.
#[verifier::opaque]
pub open spec fn window_frame(p: Input, i: int) -> Out<TreeView>
{
    match one_keyword(p, i, seq![Keyword::ROWS, Keyword::RANGE, Keyword::GROUPS]) { Failed(e, i) => Failed(e, i), Got(k, i) => {
    match {
        match k {
            Keyword::ROWS => {
                Got(TreeView::Node(Kind::Rows, Seq::<TreeView>::empty()), i)
            },
            Keyword::RANGE => {
                Got(TreeView::Node(Kind::Range, Seq::<TreeView>::empty()), i)
            },
            _ => {
                Got(TreeView::Node(Kind::Groups, Seq::<TreeView>::empty()), i)
            },
        }
    } { Failed(e, i) => Failed(e, i), Got(units, i) => {
    if at_keyword(p, i, Keyword::BETWEEN) {
        let i = i + 1;
        match window_frame_bound(p, i) { Failed(e, i) => Failed(e, i), Got(start_bound, i) => {
        match keyword(p, i, Keyword::AND) { Failed(e, i) => Failed(e, i), Got(_, i) => {
        match window_frame_bound(p, i) { Failed(e, i) => Failed(e, i), Got(end_bound, i) => {
        Got(TreeView::Node(Kind::WindowFrame, seq![units, start_bound, end_bound]), i)
        }}
        }}
        }}
    } else {
        match window_frame_bound(p, i) { Failed(e, i) => Failed(e, i), Got(start_bound, i) => {
        Got(TreeView::Node(Kind::WindowFrame, seq![units, start_bound, TreeView::Absent]), i)
        }}
    }
    }}
    }}
}

impl Parser {
    /// Parse a window frame.
    pub fn parse_window_frame(&mut self) -> (r: Result<Tree, Failure>)
        requires
            old(self).ready(),
        ensures
            final(self).follows(*old(self), window_frame(old(self).input(), old(self).index as int), r),
            r is Ok ==> final(self).index > old(self).index,
            r matches Err(e) ==> !(e@ is Unhandled),
    {
        broadcast use group_tree_views;

        proof {
            reveal(window_frame);
        }
        let choices: [Keyword; 3] = [Keyword::ROWS, Keyword::RANGE, Keyword::GROUPS];
        assert(choices@ =~= seq![Keyword::ROWS, Keyword::RANGE, Keyword::GROUPS]);
        let k = self.expect_one_of_keywords(&choices)?;
        let units = match k {
            Keyword::ROWS => {
                node(Kind::Rows, trees0())
            },
            Keyword::RANGE => {
                node(Kind::Range, trees0())
            },
            _ => {
                node(Kind::Groups, trees0())
            },
        };
        if self.parse_keyword(Keyword::BETWEEN) {
            let start_bound = self.parse_window_frame_bound()?;
            self.expect_keyword(Keyword::AND)?;
            let end_bound = self.parse_window_frame_bound()?;
            Ok(node(Kind::WindowFrame, trees3(units, start_bound, end_bound)))
        } else {
            let start_bound = self.parse_window_frame_bound()?;
            Ok(node(Kind::WindowFrame, trees3(units, start_bound, Tree::Absent)))
        }
    }
}

/// What [`Parser::parse_window_frame_bound`] yields from the token at `i` on.
#[verifier::opaque]
pub open spec fn window_frame_bound(p: Input, i: int) -> Out<TreeView>
{
    if at_keywords2(p, i, Keyword::CURRENT, Keyword::ROW) {
        let i = i + 2;
        Got(TreeView::Node(Kind::CurrentRow, Seq::<TreeView>::empty()), i)
    } else {
        match {
            if at_keyword(p, i, Keyword::UNBOUNDED) {
                let i = i + 1;
                Got(TreeView::Absent, i)
            } else {
                match literal_uint(p, i) { Failed(e, i) => Failed(e, i), Got(n, i) => {
                Got(TreeView::Num(n), i)
                }}
            }
        } { Failed(e, i) => Failed(e, i), Got(rows, i) => {
        if at_keyword(p, i, Keyword::PRECEDING) {
            let i = i + 1;
            Got(TreeView::Node(Kind::Preceding, seq![rows]), i)
        } else {
            if at_keyword(p, i, Keyword::FOLLOWING) {
                let i = i + 1;
                Got(TreeView::Node(Kind::Following, seq![rows]), i)
            } else {
                Failed(expected_at(p, i, "PRECEDING or FOLLOWING"@), i)
            }
        }
        }}
    }
}

impl Parser {
    /// Parse `CURRENT ROW` or `{ <positive number> | UNBOUNDED } { PRECEDING | FOLLOWING }`.
    pub fn parse_window_frame_bound(&mut self) -> (r: Result<Tree, Failure>)
        requires
            old(self).ready(),
        ensures
            final(self).follows(*old(self), window_frame_bound(old(self).input(), old(self).index as int), r),
            r is Ok ==> final(self).index > old(self).index,
            r matches Err(e) ==> !(e@ is Unhandled),
    {
        broadcast use group_tree_views;

        proof {
            reveal(window_frame_bound);
        }
        if self.parse_keywords2(Keyword::CURRENT, Keyword::ROW) {
            Ok(node(Kind::CurrentRow, trees0()))
        } else {
            let rows = if self.parse_keyword(Keyword::UNBOUNDED) {
                Tree::Absent
            } else {
                let n = self.parse_literal_uint()?;
                Tree::Num(n)
            };
            if self.parse_keyword(Keyword::PRECEDING) {
                Ok(node(Kind::Preceding, trees1(rows)))
            } else if self.parse_keyword(Keyword::FOLLOWING) {
                Ok(node(Kind::Following, trees1(rows)))
            } else {
                Err(self.expected_here("PRECEDING or FOLLOWING"))
            }
        }
    }
}

/// What [`Parser::parse_case_expr`] yields from the token at `i` on.
#[verifier::opaque]
pub open spec fn case_expr(p: Input, i: int) -> Out<TreeView>
    decreases p.toks.len() - i, 4int,
{
    match onward(p, i, {
        if at_keyword(p, i, Keyword::WHEN) {
            let i = i + 1;
            Got(TreeView::Absent, i)
        } else {
            match past(p, i, expr(p, i)) { Failed(e, i) => Failed(e, i), Got(e, i) => {
            match keyword(p, i, Keyword::WHEN) { Failed(e, i) => Failed(e, i), Got(_, i) => {
            Got(e, i)
            }}
            }}
        }
    }) { Failed(e, i) => Failed(e, i), Got(operand, i) => {
    match past(p, i, case_arms(p, i, Seq::<TreeView>::empty())) { Failed(e, i) => Failed(e, i), Got(arms, i) => {
    match {
        if at_keyword(p, i, Keyword::ELSE) {
            let i = i + 1;
            expr(p, i)
        } else {
            Got(TreeView::Absent, i)
        }
    } { Failed(e, i) => Failed(e, i), Got(else_result, i) => {
    match keyword(p, i, Keyword::END) { Failed(e, i) => Failed(e, i), Got(_, i) => {
    Got(TreeView::Node(Kind::Case, seq![operand, TreeView::List(arms), else_result]), i)
    }}
    }}
    }}
    }}
}

impl Parser {
    /// Parse a `CASE` expression, the `CASE` keyword being consumed.
    pub fn parse_case_expr(&mut self) -> (r: Result<Tree, Failure>)
        requires
            old(self).ready(),
        ensures
            final(self).follows(*old(self), case_expr(old(self).input(), old(self).index as int), r),
            r is Ok ==> final(self).index > old(self).index,
            r matches Err(e) ==> !(e@ is Unhandled),
        decreases old(self).tokens.len() - old(self).index, 4int,
    {
        broadcast use group_tree_views;

        proof {
            reveal(case_expr);
            reveal(case_arms);
            reveal(expr);
        }
        let operand = if self.parse_keyword(Keyword::WHEN) {
            Tree::Absent
        } else {
            let e = self.parse_expr()?;
            self.expect_keyword(Keyword::WHEN)?;
            e
        };
        let arms = self.parse_case_arms(trees0())?;
        let else_result = if self.parse_keyword(Keyword::ELSE) {
            self.parse_expr()?
        } else {
            Tree::Absent
        };
        self.expect_keyword(Keyword::END)?;
        Ok(node(Kind::Case, trees3(operand, list(arms), else_result)))
    }
}

/// What [`Parser::parse_case_arms`] yields from the token at `i` on.
#[verifier::opaque]
pub open spec fn case_arms(p: Input, i: int, arms: Seq<TreeView>) -> Out<Seq<TreeView>>
    decreases p.toks.len() - i, 4int,
{
    match past(p, i, expr(p, i)) { Failed(e, i) => Failed(e, i), Got(condition, i) => {
    match keyword(p, i, Keyword::THEN) { Failed(e, i) => Failed(e, i), Got(_, i) => {
    match past(p, i, expr(p, i)) { Failed(e, i) => Failed(e, i), Got(result, i) => {
    if at_keyword(p, i, Keyword::WHEN) {
        let i = i + 1;
        case_arms(p, i, arms.push(TreeView::Node(Kind::CaseArm, seq![condition, result])))
    } else {
        Got(arms.push(TreeView::Node(Kind::CaseArm, seq![condition, result])), i)
    }
    }}
    }}
    }}
}

impl Parser {
    /// Parse the conditions and results of a `CASE` expression, each but the first
    /// after a `WHEN`.
    pub fn parse_case_arms(&mut self, mut arms: Trees) -> (r: Result<Trees, Failure>)
        requires
            old(self).ready(),
        ensures
            final(self).follows(*old(self), case_arms(old(self).input(), old(self).index as int, arms@), r),
            r is Ok ==> final(self).index > old(self).index,
            r matches Err(e) ==> !(e@ is Unhandled),
        decreases old(self).tokens.len() - old(self).index, 4int,
    {
        broadcast use group_tree_views;

        proof {
            reveal(case_arms);
            reveal(expr);
        }
        let ghost before = *self;
        let ghost goal = case_arms(self.input(), self.index as int, arms@);
        #[verifier::loop_isolation(false)]
        loop
            invariant
                self.ready(),
                self.input() == before.input(),
                self.tokens.len() == before.tokens.len(),
                before.index <= self.index,
                before == *old(self),
                case_arms(self.input(), self.index as int, arms@) == goal,
            decreases self.tokens.len() - self.index,
        {
            proof {
                reveal(case_arms);
                reveal(expr);
            }
            let condition = self.parse_expr()?;
            self.expect_keyword(Keyword::THEN)?;
            let result = self.parse_expr()?;
            if self.parse_keyword(Keyword::WHEN) {
                arms = arms.with(node(Kind::CaseArm, trees2(condition, result)));
                continue;
            } else {
                return Ok(arms.with(node(Kind::CaseArm, trees2(condition, result))));
            }
        }
    }
}

/// What [`Parser::parse_cast_expr`] yields from the token at `i` on.
#[verifier::opaque]
pub open spec fn cast_expr(p: Input, i: int) -> Out<TreeView>
    decreases p.toks.len() - i, 0int,
{
    match token(p, i, TokenView::LParen) { Failed(e, i) => Failed(e, i), Got(_, i) => {
    match expr(p, i) { Failed(e, i) => Failed(e, i), Got(e, i) => {
    match keyword(p, i, Keyword::AS) { Failed(e, i) => Failed(e, i), Got(_, i) => {
    match data_type(p, i) { Failed(e, i) => Failed(e, i), Got(data_type, i) => {
    match token(p, i, TokenView::RParen) { Failed(e, i) => Failed(e, i), Got(_, i) => {
    Got(TreeView::Node(Kind::Cast, seq![e, data_type]), i)
    }}
    }}
    }}
    }}
    }}
}

impl Parser {
    /// Parse a SQL CAST function e.g. `CAST(expr AS FLOAT)`.
    pub fn parse_cast_expr(&mut self) -> (r: Result<Tree, Failure>)
        requires
            old(self).ready(),
        ensures
            final(self).follows(*old(self), cast_expr(old(self).input(), old(self).index as int), r),
            r is Ok ==> final(self).index > old(self).index,
            r matches Err(e) ==> !(e@ is Unhandled),
        decreases old(self).tokens.len() - old(self).index, 0int,
    {
        broadcast use group_tree_views;

        proof {
            reveal(cast_expr);
            reveal(expr);
        }
        self.expect_token(&Token::LParen)?;
        let e = self.parse_expr()?;
        self.expect_keyword(Keyword::AS)?;
        let data_type = self.parse_data_type()?;
        self.expect_token(&Token::RParen)?;
        Ok(node(Kind::Cast, trees2(e, data_type)))
    }
}

/// What [`Parser::parse_exists_expr`] yields from the token at `i` on.
#[verifier::opaque]
pub open spec fn exists_expr(p: Input, i: int) -> Out<TreeView>
    decreases p.toks.len() - i, 0int,
{
    match token(p, i, TokenView::LParen) { Failed(e, i) => Failed(e, i), Got(_, i) => {
    match query(p, i) { Failed(e, i) => Failed(e, i), Got(q, i) => {
    match token(p, i, TokenView::RParen) { Failed(e, i) => Failed(e, i), Got(_, i) => {
    Got(TreeView::Node(Kind::Exists, seq![q]), i)
    }}
    }}
    }}
}

impl Parser {
    /// Parse a SQL EXISTS expression e.g. `WHERE EXISTS(SELECT ...)`.
    pub fn parse_exists_expr(&mut self) -> (r: Result<Tree, Failure>)
        requires
            old(self).ready(),
        ensures
            final(self).follows(*old(self), exists_expr(old(self).input(), old(self).index as int), r),
            r is Ok ==> final(self).index > old(self).index,
            r matches Err(e) ==> !(e@ is Unhandled),
        decreases old(self).tokens.len() - old(self).index, 0int,
    {
        broadcast use group_tree_views;

        proof {
            reveal(exists_expr);
            reveal(query);
        }
        self.expect_token(&Token::LParen)?;
        let q = self.parse_query()?;
        self.expect_token(&Token::RParen)?;
        Ok(node(Kind::Exists, trees1(q)))
    }
}

/// What [`Parser::parse_homogenizing_function`] yields from the token at `i` on.
#[verifier::opaque]
pub open spec fn homogenizing_function(p: Input, i: int, function: TreeView) -> Out<TreeView>
    decreases p.toks.len() - i, 0int,
{
    match token(p, i, TokenView::LParen) { Failed(e, i) => Failed(e, i), Got(_, i) => {
    match expr_list(p, i, Seq::<TreeView>::empty()) { Failed(e, i) => Failed(e, i), Got(es, i) => {
    match token(p, i, TokenView::RParen) { Failed(e, i) => Failed(e, i), Got(_, i) => {
    Got(TreeView::Node(Kind::HomogenizingFunction, seq![function, TreeView::List(es)]), i)
    }}
    }}
    }}
}

impl Parser {
    /// Parse the arguments of a function that brings them to one type.
    pub fn parse_homogenizing_function(&mut self, function: Tree) -> (r: Result<Tree, Failure>)
        requires
            old(self).ready(),
        ensures
            final(self).follows(*old(self), homogenizing_function(old(self).input(), old(self).index as int, function@), r),
            r is Ok ==> final(self).index > old(self).index,
            r matches Err(e) ==> !(e@ is Unhandled),
        decreases old(self).tokens.len() - old(self).index, 0int,
    {
        broadcast use group_tree_views;

        proof {
            reveal(homogenizing_function);
            reveal(expr_list);
        }
        self.expect_token(&Token::LParen)?;
        let es = self.parse_expr_list(trees0())?;
        self.expect_token(&Token::RParen)?;
        Ok(node(Kind::HomogenizingFunction, trees2(function, list(es))))
    }
}

/// What [`Parser::parse_nullif_expr`] yields from the token at `i` on.
#[verifier::opaque]
pub open spec fn nullif_expr(p: Input, i: int) -> Out<TreeView>
    decreases p.toks.len() - i, 0int,
{
    match token(p, i, TokenView::LParen) { Failed(e, i) => Failed(e, i), Got(_, i) => {
    match past(p, i, expr(p, i)) { Failed(e, i) => Failed(e, i), Got(l_expr, i) => {
    match token(p, i, TokenView::Comma) { Failed(e, i) => Failed(e, i), Got(_, i) => {
    match expr(p, i) { Failed(e, i) => Failed(e, i), Got(r_expr, i) => {
    match token(p, i, TokenView::RParen) { Failed(e, i) => Failed(e, i), Got(_, i) => {
    Got(TreeView::Node(Kind::NullIf, seq![l_expr, r_expr]), i)
    }}
    }}
    }}
    }}
    }}
}

impl Parser {
    /// Parse the arguments of `NULLIF`.
    pub fn parse_nullif_expr(&mut self) -> (r: Result<Tree, Failure>)
        requires
            old(self).ready(),
        ensures
            final(self).follows(*old(self), nullif_expr(old(self).input(), old(self).index as int), r),
            r is Ok ==> final(self).index > old(self).index,
            r matches Err(e) ==> !(e@ is Unhandled),
        decreases old(self).tokens.len() - old(self).index, 0int,
    {
        broadcast use group_tree_views;

        proof {
            reveal(nullif_expr);
            reveal(expr);
        }
        self.expect_token(&Token::LParen)?;
        let l_expr = self.parse_expr()?;
        self.expect_token(&Token::Comma)?;
        let r_expr = self.parse_expr()?;
        self.expect_token(&Token::RParen)?;
        Ok(node(Kind::NullIf, trees2(l_expr, r_expr)))
    }
}

/// What [`Parser::parse_extract_expr`] yields from the token at `i` on.
#[verifier::opaque]
pub open spec fn extract_expr(p: Input, i: int) -> Out<TreeView>
    decreases p.toks.len() - i, 0int,
{
    match token(p, i, TokenView::LParen) { Failed(e, i) => Failed(e, i), Got(_, i) => {
    match onward(p, i, {
        let found = token_at(p, i);
        let i = i + 1;
        match found {
            Some(TokenView::Keyword(k)) => {
                Got(keyword_ident(k), i)
            },
            Some(TokenView::Ident(s)) => {
                Got(s, i)
            },
            Some(TokenView::String(s)) => {
                Got(s, i)
            },
            _ => {
                Failed(expected_at(p, i - 1, "extract field token"@), i)
            },
        }
    }) { Failed(e, i) => Failed(e, i), Got(field, i) => {
    match keyword(p, i, Keyword::FROM) { Failed(e, i) => Failed(e, i), Got(_, i) => {
    match expr(p, i) { Failed(e, i) => Failed(e, i), Got(e, i) => {
    match token(p, i, TokenView::RParen) { Failed(e, i) => Failed(e, i), Got(_, i) => {
    Got(TreeView::Node(Kind::Function, seq![TreeView::Node(Kind::ItemName, seq![TreeView::List(seq![TreeView::Text("extract"@)])]), TreeView::Node(Kind::Args, seq![TreeView::List(seq![TreeView::Node(Kind::StringValue, seq![TreeView::Text(field)]), e]), TreeView::List(Seq::<TreeView>::empty())]), TreeView::Absent, TreeView::Absent, TreeView::Flag(false)]), i)
    }}
    }}
    }}
    }}
    }}
}

impl Parser {
    /// Parse the arguments of `EXTRACT`, as in `EXTRACT(YEAR FROM d)`.
    pub fn parse_extract_expr(&mut self) -> (r: Result<Tree, Failure>)
        requires
            old(self).ready(),
        ensures
            final(self).follows(*old(self), extract_expr(old(self).input(), old(self).index as int), r),
            r is Ok ==> final(self).index > old(self).index,
            r matches Err(e) ==> !(e@ is Unhandled),
        decreases old(self).tokens.len() - old(self).index, 0int,
    {
        broadcast use group_tree_views;

        proof {
            reveal(extract_expr);
            reveal(expr);
        }
        self.expect_token(&Token::LParen)?;
        let field = match self.next_token() {
            Some(Token::Keyword(k)) => {
                k.into_ident()
            },
            Some(Token::Ident(s)) => {
                s
            },
            Some(Token::String(s)) => {
                s
            },
            _ => {
                return Err(self.expected_prev("extract field token"));
            },
        };
        self.expect_keyword(Keyword::FROM)?;
        let e = self.parse_expr()?;
        self.expect_token(&Token::RParen)?;
        Ok(node(Kind::Function, trees5(node(Kind::ItemName, trees1(list(trees1(Tree::Text(String::from_str("extract")))))), node(Kind::Args, trees2(list(trees2(node(Kind::StringValue, trees1(Tree::Text(field))), e)), list(trees0()))), Tree::Absent, Tree::Absent, Tree::Flag(false))))
    }
}

/// What [`Parser::parse_row_expr`] yields from the token at `i` on.
#[verifier::opaque]
pub open spec fn row_expr(p: Input, i: int) -> Out<TreeView>
    decreases p.toks.len() - i, 0int,
{
    match token(p, i, TokenView::LParen) { Failed(e, i) => Failed(e, i), Got(_, i) => {
    if at_token(p, i, TokenView::RParen) {
        let i = i + 1;
        Got(TreeView::Node(Kind::Row, seq![TreeView::List(Seq::<TreeView>::empty())]), i)
    } else {
        match expr_list(p, i, Seq::<TreeView>::empty()) { Failed(e, i) => Failed(e, i), Got(es, i) => {
        match token(p, i, TokenView::RParen) { Failed(e, i) => Failed(e, i), Got(_, i) => {
        Got(TreeView::Node(Kind::Row, seq![TreeView::List(es)]), i)
        }}
        }}
    }
    }}
}

impl Parser {
    /// Parse the arguments of `ROW`.
    pub fn parse_row_expr(&mut self) -> (r: Result<Tree, Failure>)
        requires
            old(self).ready(),
        ensures
            final(self).follows(*old(self), row_expr(old(self).input(), old(self).index as int), r),
            r is Ok ==> final(self).index > old(self).index,
            r matches Err(e) ==> !(e@ is Unhandled),
        decreases old(self).tokens.len() - old(self).index, 0int,
    {
        broadcast use group_tree_views;

        proof {
            reveal(row_expr);
            reveal(expr_list);
        }
        self.expect_token(&Token::LParen)?;
        if self.consume_token(&Token::RParen) {
            Ok(node(Kind::Row, trees1(list(trees0()))))
        } else {
            let es = self.parse_expr_list(trees0())?;
            self.expect_token(&Token::RParen)?;
            Ok(node(Kind::Row, trees1(list(es))))
        }
    }
}

/// What [`Parser::parse_composite_field`] yields from the token at `i` on.
#[verifier::opaque]
pub open spec fn composite_field(p: Input, i: int) -> Out<TreeView>
{
    match identifier(p, i) { Failed(e, i) => Failed(e, i), Got(name, i) => {
    match data_type(p, i) { Failed(e, i) => Failed(e, i), Got(data_type, i) => {
    Got(TreeView::Node(Kind::ColumnDef, seq![name, data_type, TreeView::Absent, TreeView::List(Seq::<TreeView>::empty())]), i)
    }}
    }}
}

impl Parser {
    /// Parse a field of a composite type.
    pub fn parse_composite_field(&mut self) -> (r: Result<Tree, Failure>)
        requires
            old(self).ready(),
        ensures
            final(self).follows(*old(self), composite_field(old(self).input(), old(self).index as int), r),
            r is Ok ==> final(self).index > old(self).index,
            r matches Err(e) ==> !(e@ is Unhandled),
    {
        broadcast use group_tree_views;

        proof {
            reveal(composite_field);
        }
        let name = self.parse_identifier()?;
        let data_type = self.parse_data_type()?;
        Ok(node(Kind::ColumnDef, trees4(name, data_type, Tree::Absent, list(trees0()))))
    }
}

/// What [`Parser::parse_composite_field_list`] yields from the token at `i` on.
#[verifier::opaque]
pub open spec fn composite_field_list(p: Input, i: int, items: Seq<TreeView>) -> Out<Seq<TreeView>>
    decreases p.toks.len() - i, 0int,
{
    match past(p, i, composite_field(p, i)) { Failed(e, i) => Failed(e, i), Got(item, i) => {
    if at_token(p, i, TokenView::Comma) {
        let i = i + 1;
        composite_field_list(p, i, items.push(item))
    } else {
        Got(items.push(item), i)
    }
    }}
}

impl Parser {
    /// Parses one or more `composite_field`, separated by commas, after those in `items`.
    pub fn parse_composite_field_list(&mut self, mut items: Trees) -> (r: Result<Trees, Failure>)
        requires
            old(self).ready(),
        ensures
            final(self).follows(*old(self), composite_field_list(old(self).input(), old(self).index as int, items@), r),
            r is Ok ==> final(self).index > old(self).index,
            r matches Ok(all) ==> all@.len() > items@.len(),
            r matches Err(e) ==> !(e@ is Unhandled),
        decreases old(self).tokens.len() - old(self).index, 0int,
    {
        broadcast use group_tree_views;

        proof {
            reveal(composite_field_list);
        }
        let ghost before = *self;
        let ghost given = items@.len();
        let ghost goal = composite_field_list(self.input(), self.index as int, items@);
        #[verifier::loop_isolation(false)]
        loop
            invariant
                self.ready(),
                self.input() == before.input(),
                self.tokens.len() == before.tokens.len(),
                before.index <= self.index,
                before == *old(self),
                given <= items@.len(),
                composite_field_list(self.input(), self.index as int, items@) == goal,
            decreases self.tokens.len() - self.index,
        {
            proof {
                reveal(composite_field_list);
            }
            let item = self.parse_composite_field()?;
            if self.consume_token(&Token::Comma) {
                items = items.with(item);
                continue;
            } else {
                return Ok(items.with(item));
            }
        }
    }
}

/// What [`Parser::parse_composite_type_definition`] yields from the token at `i` on.
#[verifier::opaque]
pub open spec fn composite_type_definition(p: Input, i: int) -> Out<Seq<TreeView>>
{
    match token(p, i, TokenView::LParen) { Failed(e, i) => Failed(e, i), Got(_, i) => {
    match composite_field_list(p, i, Seq::<TreeView>::empty()) { Failed(e, i) => Failed(e, i), Got(fields, i) => {
    match token(p, i, TokenView::RParen) { Failed(e, i) => Failed(e, i), Got(_, i) => {
    Got(fields, i)
    }}
    }}
    }}
}

impl Parser {
    /// Parse the fields of a composite type.
    pub fn parse_composite_type_definition(&mut self) -> (r: Result<Trees, Failure>)
        requires
            old(self).ready(),
        ensures
            final(self).follows(*old(self), composite_type_definition(old(self).input(), old(self).index as int), r),
            r is Ok ==> final(self).index > old(self).index,
            r matches Err(e) ==> !(e@ is Unhandled),
    {
        broadcast use group_tree_views;

        proof {
            reveal(composite_type_definition);
        }
        self.expect_token(&Token::LParen)?;
        let fields = self.parse_composite_field_list(trees0())?;
        self.expect_token(&Token::RParen)?;
        Ok(fields)
    }
}

/// What [`Parser::parse_trim_expr`] yields from the token at `i` on.
#[verifier::opaque]
pub open spec fn trim_expr(p: Input, i: int) -> Out<TreeView>
    decreases p.toks.len() - i, 0int,
{
    match token(p, i, TokenView::LParen) { Failed(e, i) => Failed(e, i), Got(_, i) => {
    match onward(p, i, {
        match one_of(p, i, seq![Keyword::BOTH, Keyword::LEADING, Keyword::TRAILING]) {
            Some(side) => {
                let i = i + 1;
                match side {
                    Keyword::LEADING => {
                        Got(TreeView::Text("ltrim"@), i)
                    },
                    Keyword::TRAILING => {
                        Got(TreeView::Text("rtrim"@), i)
                    },
                    _ => {
                        Got(TreeView::Text("btrim"@), i)
                    },
                }
            },
            None => {
                Got(TreeView::Text("btrim"@), i)
            },
        }
    }) { Failed(e, i) => Failed(e, i), Got(name, i) => {
    match {
        if at_keyword(p, i, Keyword::FROM) {
            let i = i + 1;
            match expr(p, i) { Failed(e, i) => Failed(e, i), Got(e, i) => {
            Got(seq![e], i)
            }}
        } else {
            match past(p, i, expr(p, i)) { Failed(e, i) => Failed(e, i), Got(e, i) => {
            if at_keyword(p, i, Keyword::FROM) {
                let i = i + 1;
                match expr(p, i) { Failed(e, i) => Failed(e, i), Got(s, i) => {
                Got(seq![s, e], i)
                }}
            } else {
                Got(seq![e], i)
            }
            }}
        }
    } { Failed(e, i) => Failed(e, i), Got(es, i) => {
    match token(p, i, TokenView::RParen) { Failed(e, i) => Failed(e, i), Got(_, i) => {
    Got(TreeView::Node(Kind::Function, seq![TreeView::Node(Kind::ItemName, seq![TreeView::List(seq![name])]), TreeView::Node(Kind::Args, seq![TreeView::List(es), TreeView::List(Seq::<TreeView>::empty())]), TreeView::Absent, TreeView::Absent, TreeView::Flag(false)]), i)
    }}
    }}
    }}
    }}
}

impl Parser {
    /// Parse calls to trim(), which can take the form:
    /// - trim(side 'chars' from 'string')
    /// - trim('chars' from 'string')
    /// - trim(side from 'string')
    /// - trim(from 'string')
    /// - trim('string')
    /// - trim(side 'string')
    #[verifier::rlimit(30)]
    pub fn parse_trim_expr(&mut self) -> (r: Result<Tree, Failure>)
        requires
            old(self).ready(),
        ensures
            final(self).follows(*old(self), trim_expr(old(self).input(), old(self).index as int), r),
            r is Ok ==> final(self).index > old(self).index,
            r matches Err(e) ==> !(e@ is Unhandled),
        decreases old(self).tokens.len() - old(self).index, 0int,
    {
        broadcast use group_tree_views;

        proof {
            reveal(trim_expr);
            reveal(expr);
        }
        self.expect_token(&Token::LParen)?;
        let choices: [Keyword; 3] = [Keyword::BOTH, Keyword::LEADING, Keyword::TRAILING];
        assert(choices@ =~= seq![Keyword::BOTH, Keyword::LEADING, Keyword::TRAILING]);
        let name = match self.parse_one_of_keywords(&choices) {
            Some(side) => {
                match side {
                    Keyword::LEADING => {
                        Tree::Text(String::from_str("ltrim"))
                    },
                    Keyword::TRAILING => {
                        Tree::Text(String::from_str("rtrim"))
                    },
                    _ => {
                        Tree::Text(String::from_str("btrim"))
                    },
                }
            },
            None => {
                Tree::Text(String::from_str("btrim"))
            },
        };
        let es = if self.parse_keyword(Keyword::FROM) {
            let e = self.parse_expr()?;
            trees1(e)
        } else {
            let e = self.parse_expr()?;
            if self.parse_keyword(Keyword::FROM) {
                let s = self.parse_expr()?;
                trees2(s, e)
            } else {
                trees1(e)
            }
        };
        self.expect_token(&Token::RParen)?;
        Ok(node(Kind::Function, trees5(node(Kind::ItemName, trees1(list(trees1(name)))), node(Kind::Args, trees2(list(es), list(trees0()))), Tree::Absent, Tree::Absent, Tree::Flag(false))))
    }
}

/// What [`Parser::parse_position_expr`] yields from the token at `i` on.
#[verifier::opaque]
pub open spec fn position_expr(p: Input, i: int) -> Out<TreeView>
    decreases p.toks.len() - i, 0int,
{
    match token(p, i, TokenView::LParen) { Failed(e, i) => Failed(e, i), Got(_, i) => {
    match past(p, i, subexpr(p, i, Precedence::Like)) { Failed(e, i) => Failed(e, i), Got(needle, i) => {
    match token(p, i, TokenView::Keyword(Keyword::IN)) { Failed(e, i) => Failed(e, i), Got(_, i) => {
    match expr(p, i) { Failed(e, i) => Failed(e, i), Got(haystack, i) => {
    match token(p, i, TokenView::RParen) { Failed(e, i) => Failed(e, i), Got(_, i) => {
    Got(TreeView::Node(Kind::Function, seq![TreeView::Node(Kind::ItemName, seq![TreeView::List(seq![TreeView::Text("position"@)])]), TreeView::Node(Kind::Args, seq![TreeView::List(seq![needle, haystack]), TreeView::List(Seq::<TreeView>::empty())]), TreeView::Absent, TreeView::Absent, TreeView::Flag(false)]), i)
    }}
    }}
    }}
    }}
    }}
}

impl Parser {
    /// Parse calls to position(), which has the special form position('string' in 'string').
    pub fn parse_position_expr(&mut self) -> (r: Result<Tree, Failure>)
        requires
            old(self).ready(),
        ensures
            final(self).follows(*old(self), position_expr(old(self).input(), old(self).index as int), r),
            r is Ok ==> final(self).index > old(self).index,
            r matches Err(e) ==> !(e@ is Unhandled),
        decreases old(self).tokens.len() - old(self).index, 0int,
    {
        broadcast use group_tree_views;

        proof {
            reveal(position_expr);
            reveal(expr);
            reveal(subexpr);
        }
        self.expect_token(&Token::LParen)?;
        let needle = self.parse_subexpr(Precedence::Like)?;
        self.expect_token(&Token::Keyword(Keyword::IN))?;
        let haystack = self.parse_expr()?;
        self.expect_token(&Token::RParen)?;
        Ok(node(Kind::Function, trees5(node(Kind::ItemName, trees1(list(trees1(Tree::Text(String::from_str("position")))))), node(Kind::Args, trees2(list(trees2(needle, haystack)), list(trees0()))), Tree::Absent, Tree::Absent, Tree::Flag(false))))
    }
}

/// What [`Parser::parse_interval_precision`] yields from the token at `i` on.
#[verifier::opaque]
pub open spec fn interval_precision(p: Input, i: int, low: TreeView) -> Out<TreeView>
{
    if is_node(low, Kind::Second) {
        optional_precision(p, i)
    } else {
        Got(TreeView::Absent, i)
    }
}

impl Parser {
    /// Parse the field that an interval literal counts up to, with the precision of
    /// its seconds.
    pub fn parse_interval_precision(&mut self, low: Tree) -> (r: Result<Tree, Failure>)
        requires
            old(self).ready(),
        ensures
            final(self).follows(*old(self), interval_precision(old(self).input(), old(self).index as int, low@), r),
            r matches Err(e) ==> !(e@ is Unhandled),
    {
        broadcast use group_tree_views;

        proof {
            reveal(interval_precision);
        }
        if low.is_node(Kind::Second) {
            self.parse_optional_precision()
        } else {
            Ok(Tree::Absent)
        }
    }
}

/// What [`Parser::parse_interval_value`] yields from the token at `i` on.
#[verifier::opaque]
pub open spec fn interval_value(p: Input, i: int) -> Out<TreeView>
{
    match literal_string(p, i) { Failed(e, i) => Failed(e, i), Got(value, i) => {
    match one_of(p, i, seq![Keyword::YEAR, Keyword::MONTH, Keyword::DAY, Keyword::HOUR, Keyword::MINUTE, Keyword::SECOND, Keyword::YEARS, Keyword::MONTHS, Keyword::DAYS, Keyword::HOURS, Keyword::MINUTES, Keyword::SECONDS]) {
        Some(d) => {
            let i = i + 1;
            let d_pos = position(p, i - 1);
            if at_keyword(p, i, Keyword::TO) {
                let i = i + 1;
                match one_keyword(p, i, seq![Keyword::YEAR, Keyword::MONTH, Keyword::DAY, Keyword::HOUR, Keyword::MINUTE, Keyword::SECOND, Keyword::YEARS, Keyword::MONTHS, Keyword::DAYS, Keyword::HOURS, Keyword::MINUTES, Keyword::SECONDS]) { Failed(e, i) => Failed(e, i), Got(e, i) => {
                if field_order(d) >= field_order(e) {
                    Failed(error_view(d_pos as int, no_text() + "Invalid field range in INTERVAL '"@ + value + "' "@ + keyword_text(d) + " TO "@ + keyword_text(e) + "; the value in the position of "@ + keyword_text(d) + " should be more significant than "@ + keyword_text(e) + "."@), i)
                } else {
                    let low = date_time_field(e);
                    match interval_precision(p, i, low) { Failed(e, i) => Failed(e, i), Got(precision, i) => {
                    Got(TreeView::Node(Kind::Interval, seq![TreeView::Text(value), date_time_field(d), low, precision]), i)
                    }}
                }
                }}
            } else {
                let low = date_time_field(d);
                match interval_precision(p, i, low) { Failed(e, i) => Failed(e, i), Got(precision, i) => {
                Got(TreeView::Node(Kind::Interval, seq![TreeView::Text(value), TreeView::Node(Kind::Year, Seq::<TreeView>::empty()), low, precision]), i)
                }}
            }
        },
        None => {
            Got(TreeView::Node(Kind::Interval, seq![TreeView::Text(value), TreeView::Node(Kind::Year, Seq::<TreeView>::empty()), TreeView::Node(Kind::Second, Seq::<TreeView>::empty()), TreeView::Absent]), i)
        },
    }
    }}
}

impl Parser {
    /// Parse an INTERVAL literal.
    ///
    /// Some syntactically valid intervals:
    ///
    ///   - `INTERVAL '1' DAY`
    ///   - `INTERVAL '1-1' YEAR TO MONTH`
    ///   - `INTERVAL '1' SECOND`
    ///   - `INTERVAL '1:1' MINUTE TO SECOND`
    ///   - `INTERVAL '1:1:1.1' HOUR TO SECOND (5)`
    ///   - `INTERVAL '1.111' SECOND (2)`
    pub fn parse_interval_value(&mut self) -> (r: Result<Tree, Failure>)
        requires
            old(self).ready(),
        ensures
            final(self).follows(*old(self), interval_value(old(self).input(), old(self).index as int), r),
            r is Ok ==> final(self).index > old(self).index,
            r matches Err(e) ==> !(e@ is Unhandled),
    {
        broadcast use group_tree_views;

        proof {
            reveal(interval_value);
        }
        let value = self.parse_literal_string()?;
        let choices: [Keyword; 12] = [Keyword::YEAR, Keyword::MONTH, Keyword::DAY, Keyword::HOUR, Keyword::MINUTE, Keyword::SECOND, Keyword::YEARS, Keyword::MONTHS, Keyword::DAYS, Keyword::HOURS, Keyword::MINUTES, Keyword::SECONDS];
        assert(choices@ =~= seq![Keyword::YEAR, Keyword::MONTH, Keyword::DAY, Keyword::HOUR, Keyword::MINUTE, Keyword::SECOND, Keyword::YEARS, Keyword::MONTHS, Keyword::DAYS, Keyword::HOURS, Keyword::MINUTES, Keyword::SECONDS]);
        match self.parse_one_of_keywords(&choices) {
            Some(d) => {
                let d_pos: usize = self.peek_prev_pos();
                if self.parse_keyword(Keyword::TO) {
                    let choices: [Keyword; 12] = [Keyword::YEAR, Keyword::MONTH, Keyword::DAY, Keyword::HOUR, Keyword::MINUTE, Keyword::SECOND, Keyword::YEARS, Keyword::MONTHS, Keyword::DAYS, Keyword::HOURS, Keyword::MINUTES, Keyword::SECONDS];
                    assert(choices@ =~= seq![Keyword::YEAR, Keyword::MONTH, Keyword::DAY, Keyword::HOUR, Keyword::MINUTE, Keyword::SECOND, Keyword::YEARS, Keyword::MONTHS, Keyword::DAYS, Keyword::HOURS, Keyword::MINUTES, Keyword::SECONDS]);
                    let e = self.expect_one_of_keywords(&choices)?;
                    if field_index(d) >= field_index(e) {
                        let pos: usize = d_pos;
                        Err(error(pos, String::new().concat("Invalid field range in INTERVAL '").concat(value.as_str()).concat("' ").concat(d.as_str()).concat(" TO ").concat(e.as_str()).concat("; the value in the position of ").concat(d.as_str()).concat(" should be more significant than ").concat(e.as_str()).concat(".")))
                    } else {
                        let low = field_tree(e);
                        let precision = self.parse_interval_precision(low.copy())?;
                        Ok(node(Kind::Interval, trees4(Tree::Text(value), field_tree(d), low, precision)))
                    }
                } else {
                    let low = field_tree(d);
                    let precision = self.parse_interval_precision(low.copy())?;
                    Ok(node(Kind::Interval, trees4(Tree::Text(value), node(Kind::Year, trees0()), low, precision)))
                }
            },
            None => {
                Ok(node(Kind::Interval, trees4(Tree::Text(value), node(Kind::Year, trees0()), node(Kind::Second, trees0()), Tree::Absent)))
            },
        }
    }
}

/// What [`Parser::parse_binary_operand`] yields from the token at `i` on.
#[verifier::opaque]
pub open spec fn binary_operand(p: Input, i: int, left: TreeView, op: TreeView, precedence: Precedence) -> Out<TreeView>
    decreases p.toks.len() - i, 3int,
{
    match one_of(p, i, seq![Keyword::ANY, Keyword::SOME, Keyword::ALL]) {
        Some(quantifier) => {
            let i = i + 1;
            match token(p, i, TokenView::LParen) { Failed(e, i) => Failed(e, i), Got(_, i) => {
            match one_of(p, i, seq![Keyword::SELECT, Keyword::VALUES]) {
                Some(_) => {
                    let i = i + 1;
                    let i = i - 1;
                    match query(p, i) { Failed(e, i) => Failed(e, i), Got(subquery, i) => {
                    match token(p, i, TokenView::RParen) { Failed(e, i) => Failed(e, i), Got(_, i) => {
                    if quantifier == Keyword::ALL {
                        Got(TreeView::Node(Kind::AllSubquery, seq![left, op, subquery]), i)
                    } else {
                        Got(TreeView::Node(Kind::AnySubquery, seq![left, op, subquery]), i)
                    }
                    }}
                    }}
                },
                None => {
                    match expr(p, i) { Failed(e, i) => Failed(e, i), Got(right, i) => {
                    match token(p, i, TokenView::RParen) { Failed(e, i) => Failed(e, i), Got(_, i) => {
                    if quantifier == Keyword::ALL {
                        Got(TreeView::Node(Kind::AllExpr, seq![left, op, right]), i)
                    } else {
                        Got(TreeView::Node(Kind::AnyExpr, seq![left, op, right]), i)
                    }
                    }}
                    }}
                },
            }
            }}
        },
        None => {
            match subexpr(p, i, precedence) { Failed(e, i) => Failed(e, i), Got(right, i) => {
            Got(TreeView::Node(Kind::Op, seq![op, left, right]), i)
            }}
        },
    }
}

impl Parser {
    /// Parse what follows the regular binary operator `op`, whose left operand is
    /// `left`.
    pub fn parse_binary_operand(&mut self, left: Tree, op: Tree, precedence: Precedence) -> (r: Result<Tree, Failure>)
        requires
            old(self).ready(),
        ensures
            final(self).follows(*old(self), binary_operand(old(self).input(), old(self).index as int, left@, op@, precedence), r),
            r is Ok ==> final(self).index > old(self).index,
            r matches Err(e) ==> !(e@ is Unhandled),
        decreases old(self).tokens.len() - old(self).index, 3int,
    {
        broadcast use group_tree_views;

        proof {
            reveal(binary_operand);
            reveal(expr);
            reveal(query);
            reveal(subexpr);
        }
        let choices: [Keyword; 3] = [Keyword::ANY, Keyword::SOME, Keyword::ALL];
        assert(choices@ =~= seq![Keyword::ANY, Keyword::SOME, Keyword::ALL]);
        match self.parse_one_of_keywords(&choices) {
            Some(quantifier) => {
                self.expect_token(&Token::LParen)?;
                let choices: [Keyword; 2] = [Keyword::SELECT, Keyword::VALUES];
                assert(choices@ =~= seq![Keyword::SELECT, Keyword::VALUES]);
                match self.parse_one_of_keywords(&choices) {
                    Some(_) => {
                        self.prev_token();
                        let subquery = self.parse_query()?;
                        self.expect_token(&Token::RParen)?;
                        if quantifier == Keyword::ALL {
                            Ok(node(Kind::AllSubquery, trees3(left, op, subquery)))
                        } else {
                            Ok(node(Kind::AnySubquery, trees3(left, op, subquery)))
                        }
                    },
                    None => {
                        let right = self.parse_expr()?;
                        self.expect_token(&Token::RParen)?;
                        if quantifier == Keyword::ALL {
                            Ok(node(Kind::AllExpr, trees3(left, op, right)))
                        } else {
                            Ok(node(Kind::AnyExpr, trees3(left, op, right)))
                        }
                    },
                }
            },
            None => {
                let right = self.parse_subexpr(precedence)?;
                Ok(node(Kind::Op, trees3(op, left, right)))
            },
        }
    }
}

/// What [`Parser::parse_is_construct`] yields from the token at `i` on.
#[verifier::opaque]
pub open spec fn is_construct(p: Input, i: int, e: TreeView) -> Out<TreeView>
    decreases p.toks.len() - i, 0int,
{
    let negated = at_keyword(p, i, Keyword::NOT);
    let i = if negated { i + 1 } else { i };
    match one_of(p, i, seq![Keyword::NULL, Keyword::TRUE, Keyword::FALSE, Keyword::UNKNOWN, Keyword::DISTINCT]) {
        Some(construct) => {
            let i = i + 1;
            match construct {
                Keyword::NULL => {
                    Got(TreeView::Node(Kind::IsExpr, seq![e, TreeView::Flag(negated), TreeView::Node(Kind::IsNull, Seq::<TreeView>::empty())]), i)
                },
                Keyword::TRUE => {
                    Got(TreeView::Node(Kind::IsExpr, seq![e, TreeView::Flag(negated), TreeView::Node(Kind::IsTrue, Seq::<TreeView>::empty())]), i)
                },
                Keyword::FALSE => {
                    Got(TreeView::Node(Kind::IsExpr, seq![e, TreeView::Flag(negated), TreeView::Node(Kind::IsFalse, Seq::<TreeView>::empty())]), i)
                },
                Keyword::UNKNOWN => {
                    Got(TreeView::Node(Kind::IsExpr, seq![e, TreeView::Flag(negated), TreeView::Node(Kind::IsUnknown, Seq::<TreeView>::empty())]), i)
                },
                _ => {
                    match keyword(p, i, Keyword::FROM) { Failed(e, i) => Failed(e, i), Got(_, i) => {
                    match expr(p, i) { Failed(e, i) => Failed(e, i), Got(other, i) => {
                    Got(TreeView::Node(Kind::IsExpr, seq![e, TreeView::Flag(negated), TreeView::Node(Kind::IsDistinctFrom, seq![other])]), i)
                    }}
                    }}
                },
            }
        },
        None => {
            Failed(expected_at(p, i, "NULL, NOT NULL, TRUE, NOT TRUE, FALSE, NOT FALSE, UNKNOWN, NOT UNKNOWN after IS"@), i)
        },
    }
}

impl Parser {
    /// Parse what follows `IS`.
    pub fn parse_is_construct(&mut self, e: Tree) -> (r: Result<Tree, Failure>)
        requires
            old(self).ready(),
        ensures
            final(self).follows(*old(self), is_construct(old(self).input(), old(self).index as int, e@), r),
            r is Ok ==> final(self).index > old(self).index,
            r matches Err(e) ==> !(e@ is Unhandled),
        decreases old(self).tokens.len() - old(self).index, 0int,
    {
        broadcast use group_tree_views;

        proof {
            reveal(is_construct);
            reveal(expr);
        }
        let negated = self.parse_keyword(Keyword::NOT);
        let choices: [Keyword; 5] = [Keyword::NULL, Keyword::TRUE, Keyword::FALSE, Keyword::UNKNOWN, Keyword::DISTINCT];
        assert(choices@ =~= seq![Keyword::NULL, Keyword::TRUE, Keyword::FALSE, Keyword::UNKNOWN, Keyword::DISTINCT]);
        match self.parse_one_of_keywords(&choices) {
            Some(construct) => {
                match construct {
                    Keyword::NULL => {
                        Ok(node(Kind::IsExpr, trees3(e, Tree::Flag(negated), node(Kind::IsNull, trees0()))))
                    },
                    Keyword::TRUE => {
                        Ok(node(Kind::IsExpr, trees3(e, Tree::Flag(negated), node(Kind::IsTrue, trees0()))))
                    },
                    Keyword::FALSE => {
                        Ok(node(Kind::IsExpr, trees3(e, Tree::Flag(negated), node(Kind::IsFalse, trees0()))))
                    },
                    Keyword::UNKNOWN => {
                        Ok(node(Kind::IsExpr, trees3(e, Tree::Flag(negated), node(Kind::IsUnknown, trees0()))))
                    },
                    _ => {
                        self.expect_keyword(Keyword::FROM)?;
                        let other = self.parse_expr()?;
                        Ok(node(Kind::IsExpr, trees3(e, Tree::Flag(negated), node(Kind::IsDistinctFrom, trees1(other)))))
                    },
                }
            },
            None => {
                Err(self.expected_here("NULL, NOT NULL, TRUE, NOT TRUE, FALSE, NOT FALSE, UNKNOWN, NOT UNKNOWN after IS"))
            },
        }
    }
}

/// What [`Parser::parse_range_predicate`] yields from the token at `i` on.
#[verifier::opaque]
pub open spec fn range_predicate(p: Input, i: int, e: TreeView) -> Out<TreeView>
    decreases p.toks.len() - i, 0int,
{
    let negated = at_keyword(p, i, Keyword::NOT);
    let i = if negated { i + 1 } else { i };
    if at_keyword(p, i, Keyword::IN) {
        let i = i + 1;
        in_predicate(p, i, e, negated)
    } else {
        if at_keyword(p, i, Keyword::BETWEEN) {
            let i = i + 1;
            between(p, i, e, negated)
        } else {
            if at_keyword(p, i, Keyword::LIKE) {
                let i = i + 1;
                like(p, i, e, false, negated)
            } else {
                if at_keyword(p, i, Keyword::ILIKE) {
                    let i = i + 1;
                    like(p, i, e, true, negated)
                } else {
                    Failed(expected_at(p, i, "IN, BETWEEN, LIKE, or ILIKE after NOT"@), i)
                }
            }
        }
    }
}

impl Parser {
    /// Parse `IN`, `BETWEEN`, `LIKE` or `ILIKE` with what follows it, with or
    /// without a `NOT` before it.
    pub fn parse_range_predicate(&mut self, e: Tree) -> (r: Result<Tree, Failure>)
        requires
            old(self).ready(),
        ensures
            final(self).follows(*old(self), range_predicate(old(self).input(), old(self).index as int, e@), r),
            r is Ok ==> final(self).index > old(self).index,
            r matches Err(e) ==> !(e@ is Unhandled),
        decreases old(self).tokens.len() - old(self).index, 0int,
    {
        broadcast use group_tree_views;

        proof {
            reveal(range_predicate);
            reveal(between);
            reveal(in_predicate);
            reveal(like);
        }
        let negated = self.parse_keyword(Keyword::NOT);
        if self.parse_keyword(Keyword::IN) {
            self.parse_in(e, negated)
        } else if self.parse_keyword(Keyword::BETWEEN) {
            self.parse_between(e, negated)
        } else if self.parse_keyword(Keyword::LIKE) {
            self.parse_like(e, false, negated)
        } else if self.parse_keyword(Keyword::ILIKE) {
            self.parse_like(e, true, negated)
        } else {
            Err(self.expected_here("IN, BETWEEN, LIKE, or ILIKE after NOT"))
        }
    }
}

/// What [`Parser::parse_infix`] yields from the token at `i` on.
#[verifier::opaque]
pub open spec fn infix(p: Input, i: int, e: TreeView, precedence: Precedence) -> Out<TreeView>
    decreases p.toks.len() - i, 1int,
{
    let found = token_at(p, i);
    let i = i + 1;
    match found {
        Some(TokenView::Op(s)) => {
            binary_operand(p, i, e, TreeView::Node(Kind::BareOp, seq![TreeView::Text(s)]), precedence)
        },
        Some(TokenView::Eq) => {
            binary_operand(p, i, e, TreeView::Node(Kind::BareOp, seq![TreeView::Text("="@)]), precedence)
        },
        Some(TokenView::Star) => {
            binary_operand(p, i, e, TreeView::Node(Kind::BareOp, seq![TreeView::Text("*"@)]), precedence)
        },
        Some(TokenView::Keyword(Keyword::OPERATOR)) => {
            match token(p, i, TokenView::LParen) { Failed(e, i) => Failed(e, i), Got(_, i) => {
            match past(p, i, operator(p, i, Seq::<TreeView>::empty())) { Failed(e, i) => Failed(e, i), Got(op, i) => {
            match token(p, i, TokenView::RParen) { Failed(e, i) => Failed(e, i), Got(_, i) => {
            binary_operand(p, i, e, op, precedence)
            }}
            }}
            }}
        },
        Some(TokenView::Keyword(Keyword::IS)) => {
            is_construct(p, i, e)
        },
        Some(TokenView::Keyword(Keyword::ISNULL)) => {
            Got(TreeView::Node(Kind::IsExpr, seq![e, TreeView::Flag(false), TreeView::Node(Kind::IsNull, Seq::<TreeView>::empty())]), i)
        },
        Some(TokenView::Keyword(Keyword::NOT)) | Some(TokenView::Keyword(Keyword::IN)) | Some(TokenView::Keyword(Keyword::LIKE)) | Some(TokenView::Keyword(Keyword::ILIKE)) | Some(TokenView::Keyword(Keyword::BETWEEN)) => {
            let i = i - 1;
            range_predicate(p, i, e)
        },
        Some(TokenView::Keyword(Keyword::AND)) => {
            match subexpr(p, i, precedence) { Failed(e, i) => Failed(e, i), Got(right, i) => {
            Got(TreeView::Node(Kind::And, seq![e, right]), i)
            }}
        },
        Some(TokenView::Keyword(Keyword::OR)) => {
            match subexpr(p, i, precedence) { Failed(e, i) => Failed(e, i), Got(right, i) => {
            Got(TreeView::Node(Kind::Or, seq![e, right]), i)
            }}
        },
        Some(TokenView::Keyword(Keyword::AT)) => {
            match keyword(p, i, Keyword::TIME) { Failed(e, i) => Failed(e, i), Got(_, i) => {
            match keyword(p, i, Keyword::ZONE) { Failed(e, i) => Failed(e, i), Got(_, i) => {
            match subexpr(p, i, precedence) { Failed(e, i) => Failed(e, i), Got(zone, i) => {
            Got(TreeView::Node(Kind::Function, seq![TreeView::Node(Kind::ItemName, seq![TreeView::List(seq![TreeView::Text("timezone"@)])]), TreeView::Node(Kind::Args, seq![TreeView::List(seq![zone, e]), TreeView::List(Seq::<TreeView>::empty())]), TreeView::Absent, TreeView::Absent, TreeView::Flag(false)]), i)
            }}
            }}}}
        },
        Some(TokenView::Keyword(Keyword::COLLATE)) => {
            match item_name(p, i) { Failed(e, i) => Failed(e, i), Got(collation, i) => {
            Got(TreeView::Node(Kind::Collate, seq![e, collation]), i)
            }}
        },
        Some(TokenView::DoubleColon) => {
            pg_cast(p, i, e)
        },
        Some(TokenView::LBracket) => {
            match subscripts(p, i, Seq::<TreeView>::empty()) { Failed(e, i) => Failed(e, i), Got(positions, i) => {
            Got(TreeView::Node(Kind::Subscript, seq![e, TreeView::List(positions)]), i)
            }}
        },
        Some(TokenView::Dot) => {
            let found = token_at(p, i);
            let i = i + 1;
            match found {
                Some(TokenView::Ident(s)) => {
                    Got(TreeView::Node(Kind::FieldAccess, seq![e, TreeView::Text(s)]), i)
                },
                Some(TokenView::Keyword(k)) => {
                    Got(TreeView::Node(Kind::FieldAccess, seq![e, TreeView::Text(keyword_ident(k))]), i)
                },
                Some(TokenView::Star) => {
                    Got(TreeView::Node(Kind::WildcardAccess, seq![e]), i)
                },
                _ => {
                    Failed(expected_at(p, i - 1, "an identifier or a '*' after '.'"@), i)
                },
            }
        },
        _ => {
            Failed(FailureView::Unhandled, i)
        },
    }
}

impl Parser {
    /// Parse an operator following an expression.
    #[verifier::rlimit(60)]
    pub fn parse_infix(&mut self, e: Tree, precedence: Precedence) -> (r: Result<Tree, Failure>)
        requires
            old(self).ready(),
            next_precedence(old(self).input(), old(self).index as int) != Precedence::Zero,
        ensures
            final(self).follows(*old(self), infix(old(self).input(), old(self).index as int, e@, precedence), r),
            r is Ok ==> final(self).index > old(self).index,
            r matches Err(e) ==> !(e@ is Unhandled),
        decreases old(self).tokens.len() - old(self).index, 1int,
    {
        broadcast use group_tree_views;

        proof {
            reveal(infix);
            reveal(binary_operand);
            reveal(is_construct);
            reveal(range_predicate);
            reveal(subexpr);
            reveal(subscripts);
        }
        match self.next_token() {
            Some(Token::Op(s)) => {
                self.parse_binary_operand(e, node(Kind::BareOp, trees1(Tree::Text(s))), precedence)
            },
            Some(Token::Eq) => {
                self.parse_binary_operand(e, node(Kind::BareOp, trees1(Tree::Text(String::from_str("=")))), precedence)
            },
            Some(Token::Star) => {
                self.parse_binary_operand(e, node(Kind::BareOp, trees1(Tree::Text(String::from_str("*")))), precedence)
            },
            Some(Token::Keyword(Keyword::OPERATOR)) => {
                self.expect_token(&Token::LParen)?;
                let op = self.parse_operator(trees0())?;
                self.expect_token(&Token::RParen)?;
                self.parse_binary_operand(e, op, precedence)
            },
            Some(Token::Keyword(Keyword::IS)) => {
                self.parse_is_construct(e)
            },
            Some(Token::Keyword(Keyword::ISNULL)) => {
                Ok(node(Kind::IsExpr, trees3(e, Tree::Flag(false), node(Kind::IsNull, trees0()))))
            },
            Some(Token::Keyword(Keyword::NOT)) | Some(Token::Keyword(Keyword::IN)) | Some(Token::Keyword(Keyword::LIKE)) | Some(Token::Keyword(Keyword::ILIKE)) | Some(Token::Keyword(Keyword::BETWEEN)) => {
                self.prev_token();
                self.parse_range_predicate(e)
            },
            Some(Token::Keyword(Keyword::AND)) => {
                let right = self.parse_subexpr(precedence)?;
                Ok(node(Kind::And, trees2(e, right)))
            },
            Some(Token::Keyword(Keyword::OR)) => {
                let right = self.parse_subexpr(precedence)?;
                Ok(node(Kind::Or, trees2(e, right)))
            },
            Some(Token::Keyword(Keyword::AT)) => {
                self.expect_keyword(Keyword::TIME)?;
                self.expect_keyword(Keyword::ZONE)?;
                let zone = self.parse_subexpr(precedence)?;
                Ok(node(Kind::Function, trees5(node(Kind::ItemName, trees1(list(trees1(Tree::Text(String::from_str("timezone")))))), node(Kind::Args, trees2(list(trees2(zone, e)), list(trees0()))), Tree::Absent, Tree::Absent, Tree::Flag(false))))
            },
            Some(Token::Keyword(Keyword::COLLATE)) => {
                let collation = self.parse_item_name()?;
                Ok(node(Kind::Collate, trees2(e, collation)))
            },
            Some(Token::DoubleColon) => {
                self.parse_pg_cast(e)
            },
            Some(Token::LBracket) => {
                let positions = self.parse_subscript(trees0())?;
                Ok(node(Kind::Subscript, trees2(e, list(positions))))
            },
            Some(Token::Dot) => {
                match self.next_token() {
                    Some(Token::Ident(s)) => {
                        Ok(node(Kind::FieldAccess, trees2(e, Tree::Text(s))))
                    },
                    Some(Token::Keyword(k)) => {
                        Ok(node(Kind::FieldAccess, trees2(e, Tree::Text(k.into_ident()))))
                    },
                    Some(Token::Star) => {
                        Ok(node(Kind::WildcardAccess, trees1(e)))
                    },
                    _ => {
                        Err(self.expected_prev("an identifier or a '*' after '.'"))
                    },
                }
            },
            _ => {
                Err(Failure::Unhandled)
            },
        }
    }
}

/// What [`Parser::parse_subscript`] yields from the token at `i` on.
#[verifier::opaque]
pub open spec fn subscripts(p: Input, i: int, positions: Seq<TreeView>) -> Out<Seq<TreeView>>
    decreases p.toks.len() - i, 4int,
{
    match onward(p, i, {
        if at_token(p, i, TokenView::Colon) {
            Got(TreeView::Absent, i)
        } else {
            expr(p, i)
        }
    }) { Failed(e, i) => Failed(e, i), Got(start, i) => {
    match onward(p, i, {
        if at_token(p, i, TokenView::Colon) {
            let i = i + 1;
            match onward(p, i, {
                if at_token(p, i, TokenView::RBracket) {
                    Got(TreeView::Absent, i)
                } else {
                    expr(p, i)
                }
            }) { Failed(e, i) => Failed(e, i), Got(end, i) => {
            Got(TreeView::Node(Kind::SubscriptPosition, seq![start, end, TreeView::Flag(true)]), i)
            }}
        } else {
            Got(TreeView::Node(Kind::SubscriptPosition, seq![start, TreeView::Absent, TreeView::Flag(false)]), i)
        }
    }) { Failed(e, i) => Failed(e, i), Got(position, i) => {
    match token(p, i, TokenView::RBracket) { Failed(e, i) => Failed(e, i), Got(_, i) => {
    if at_token(p, i, TokenView::LBracket) {
        let i = i + 1;
        subscripts(p, i, positions.push(position))
    } else {
        Got(positions.push(position), i)
    }
    }}
    }}
    }}
}

impl Parser {
    /// Parse subscripts, each of which is an index value or a slice range. The opening
    /// bracket of the first is consumed.
    pub fn parse_subscript(&mut self, mut positions: Trees) -> (r: Result<Trees, Failure>)
        requires
            old(self).ready(),
        ensures
            final(self).follows(*old(self), subscripts(old(self).input(), old(self).index as int, positions@), r),
            r is Ok ==> final(self).index > old(self).index,
            r matches Err(e) ==> !(e@ is Unhandled),
        decreases old(self).tokens.len() - old(self).index, 4int,
    {
        broadcast use group_tree_views;

        proof {
            reveal(subscripts);
            reveal(expr);
        }
        let ghost before = *self;
        let ghost goal = subscripts(self.input(), self.index as int, positions@);
        #[verifier::loop_isolation(false)]
        loop
            invariant
                self.ready(),
                self.input() == before.input(),
                self.tokens.len() == before.tokens.len(),
                before.index <= self.index,
                before == *old(self),
                subscripts(self.input(), self.index as int, positions@) == goal,
            decreases self.tokens.len() - self.index,
        {
            proof {
                reveal(subscripts);
                reveal(expr);
            }
            let start = if self.peek_is(&Token::Colon) {
                Tree::Absent
            } else {
                self.parse_expr()?
            };
            let position = if self.consume_token(&Token::Colon) {
                let end = if self.peek_is(&Token::RBracket) {
                    Tree::Absent
                } else {
                    self.parse_expr()?
                };
                node(Kind::SubscriptPosition, trees3(start, end, Tree::Flag(true)))
            } else {
                node(Kind::SubscriptPosition, trees3(start, Tree::Absent, Tree::Flag(false)))
            };
            self.expect_token(&Token::RBracket)?;
            if self.consume_token(&Token::LBracket) {
                positions = positions.with(position);
                continue;
            } else {
                return Ok(positions.with(position));
            }
        }
    }
}

/// What [`Parser::parse_substring_expr`] yields from the token at `i` on.
#[verifier::opaque]
pub open spec fn substring_expr(p: Input, i: int) -> Out<TreeView>
    decreases p.toks.len() - i, 0int,
{
    match token(p, i, TokenView::LParen) { Failed(e, i) => Failed(e, i), Got(_, i) => {
    match past(p, i, expr(p, i)) { Failed(e, i) => Failed(e, i), Got(s, i) => {
    match {
        if at_keyword(p, i, Keyword::FROM) {
            let i = i + 1;
            match past(p, i, expr(p, i)) { Failed(e, i) => Failed(e, i), Got(start, i) => {
            if at_keyword(p, i, Keyword::FOR) {
                let i = i + 1;
                match expr(p, i) { Failed(e, i) => Failed(e, i), Got(count, i) => {
                Got(seq![s, start, count], i)
                }}
            } else {
                Got(seq![s, start], i)
            }
            }}
        } else {
            if at_keyword(p, i, Keyword::FOR) {
                let i = i + 1;
                match expr(p, i) { Failed(e, i) => Failed(e, i), Got(count, i) => {
                Got(seq![s, TreeView::Node(Kind::NumberValue, seq![TreeView::Text("1"@)]), count], i)
                }}
            } else {
                match token(p, i, TokenView::Comma) { Failed(e, i) => Failed(e, i), Got(_, i) => {
                match expr_list(p, i, Seq::<TreeView>::empty()) { Failed(e, i) => Failed(e, i), Got(more, i) => {
                Got(seq![s] + more, i)
                }}
                }}
            }
        }
    } { Failed(e, i) => Failed(e, i), Got(es, i) => {
    match token(p, i, TokenView::RParen) { Failed(e, i) => Failed(e, i), Got(_, i) => {
    Got(TreeView::Node(Kind::Function, seq![TreeView::Node(Kind::ItemName, seq![TreeView::List(seq![TreeView::Text("substring"@)])]), TreeView::Node(Kind::Args, seq![TreeView::List(es), TreeView::List(Seq::<TreeView>::empty())]), TreeView::Absent, TreeView::Absent, TreeView::Flag(false)]), i)
    }}
    }}
    }}
    }}
}

impl Parser {
    /// Parse calls to substring(), which can take the form:
    /// - substring('string', 'int')
    /// - substring('string', 'int', 'int')
    /// - substring('string' FROM 'int')
    /// - substring('string' FROM 'int' FOR 'int')
    /// - substring('string' FOR 'int')
    pub fn parse_substring_expr(&mut self) -> (r: Result<Tree, Failure>)
        requires
            old(self).ready(),
        ensures
            final(self).follows(*old(self), substring_expr(old(self).input(), old(self).index as int), r),
            r is Ok ==> final(self).index > old(self).index,
            r matches Err(e) ==> !(e@ is Unhandled),
        decreases old(self).tokens.len() - old(self).index, 0int,
    {
        broadcast use group_tree_views;

        proof {
            reveal(substring_expr);
            reveal(expr);
            reveal(expr_list);
        }
        self.expect_token(&Token::LParen)?;
        let s = self.parse_expr()?;
        let es = if self.parse_keyword(Keyword::FROM) {
            let start = self.parse_expr()?;
            if self.parse_keyword(Keyword::FOR) {
                let count = self.parse_expr()?;
                trees3(s, start, count)
            } else {
                trees2(s, start)
            }
        } else if self.parse_keyword(Keyword::FOR) {
            let count = self.parse_expr()?;
            trees3(s, node(Kind::NumberValue, trees1(Tree::Text(String::from_str("1")))), count)
        } else {
            self.expect_token(&Token::Comma)?;
            let more = self.parse_expr_list(trees0())?;
            trees1(s).joined(more)
        };
        self.expect_token(&Token::RParen)?;
        Ok(node(Kind::Function, trees5(node(Kind::ItemName, trees1(list(trees1(Tree::Text(String::from_str("substring")))))), node(Kind::Args, trees2(list(es), list(trees0()))), Tree::Absent, Tree::Absent, Tree::Flag(false))))
    }
}

/// What [`Parser::parse_operator`] yields from the token at `i` on.
#[verifier::opaque]
pub open spec fn operator(p: Input, i: int, namespace: Seq<TreeView>) -> Out<TreeView>
    decreases p.toks.len() - i, 0int,
{
    let found = token_at(p, i);
    let i = i + 1;
    match found {
        Some(TokenView::Keyword(k)) => {
            match token(p, i, TokenView::Dot) { Failed(e, i) => Failed(e, i), Got(_, i) => {
            operator(p, i, namespace.push(TreeView::Text(keyword_ident(k))))
            }}
        },
        Some(TokenView::Ident(s)) => {
            match token(p, i, TokenView::Dot) { Failed(e, i) => Failed(e, i), Got(_, i) => {
            operator(p, i, namespace.push(TreeView::Text(s)))
            }}
        },
        Some(TokenView::Op(s)) => {
            Got(TreeView::Node(Kind::QualifiedOp, seq![TreeView::List(namespace), TreeView::Text(s)]), i)
        },
        Some(TokenView::Star) => {
            Got(TreeView::Node(Kind::QualifiedOp, seq![TreeView::List(namespace), TreeView::Text("*"@)]), i)
        },
        _ => {
            Failed(expected_at(p, i - 1, "operator"@), i)
        },
    }
}

impl Parser {
    /// Parse an operator reference, after the names in `namespace`.
    ///
    /// Examples:
    ///   * `+`
    ///   * `OPERATOR(schema.+)`
    ///   * `OPERATOR("foo"."bar"."baz".@>)`
    pub fn parse_operator(&mut self, mut namespace: Trees) -> (r: Result<Tree, Failure>)
        requires
            old(self).ready(),
        ensures
            final(self).follows(*old(self), operator(old(self).input(), old(self).index as int, namespace@), r),
            r is Ok ==> final(self).index > old(self).index,
            r matches Err(e) ==> !(e@ is Unhandled),
        decreases old(self).tokens.len() - old(self).index, 0int,
    {
        broadcast use group_tree_views;

        proof {
            reveal(operator);
        }
        let ghost before = *self;
        let ghost goal = operator(self.input(), self.index as int, namespace@);
        #[verifier::loop_isolation(false)]
        loop
            invariant
                self.ready(),
                self.input() == before.input(),
                self.tokens.len() == before.tokens.len(),
                before.index <= self.index,
                before == *old(self),
                operator(self.input(), self.index as int, namespace@) == goal,
            decreases self.tokens.len() - self.index,
        {
            proof {
                reveal(operator);
            }
            match self.next_token() {
                Some(Token::Keyword(k)) => {
                    self.expect_token(&Token::Dot)?;
                    namespace = namespace.with(Tree::Text(k.into_ident()));
                    continue;
                },
                Some(Token::Ident(s)) => {
                    self.expect_token(&Token::Dot)?;
                    namespace = namespace.with(Tree::Text(s));
                    continue;
                },
                Some(Token::Op(s)) => {
                    return Ok(node(Kind::QualifiedOp, trees2(list(namespace), Tree::Text(s))));
                },
                Some(Token::Star) => {
                    return Ok(node(Kind::QualifiedOp, trees2(list(namespace), Tree::Text(String::from_str("*")))));
                },
                _ => {
                    return Err(self.expected_prev("operator"));
                },
            }
        }
    }
}

/// What [`Parser::parse_in`] yields from the token at `i` on.
#[verifier::opaque]
pub open spec fn in_predicate(p: Input, i: int, e: TreeView, negated: bool) -> Out<TreeView>
    decreases p.toks.len() - i, 3int,
{
    match token(p, i, TokenView::LParen) { Failed(e, i) => Failed(e, i), Got(_, i) => {
    match {
        match one_of(p, i, seq![Keyword::SELECT, Keyword::VALUES, Keyword::WITH]) {
            Some(_) => {
                let i = i + 1;
                let i = i - 1;
                match query(p, i) { Failed(e, i) => Failed(e, i), Got(subquery, i) => {
                Got(TreeView::Node(Kind::InSubquery, seq![e, subquery, TreeView::Flag(negated)]), i)
                }}
            },
            None => {
                match expr_list(p, i, Seq::<TreeView>::empty()) { Failed(e, i) => Failed(e, i), Got(members, i) => {
                Got(TreeView::Node(Kind::InList, seq![e, TreeView::List(members), TreeView::Flag(negated)]), i)
                }}
            },
        }
    } { Failed(e, i) => Failed(e, i), Got(in_op, i) => {
    match token(p, i, TokenView::RParen) { Failed(e, i) => Failed(e, i), Got(_, i) => {
    Got(in_op, i)
    }}
    }}
    }}
}

impl Parser {
    /// Parses the parens following the `[ NOT ] IN` operator.
    pub fn parse_in(&mut self, e: Tree, negated: bool) -> (r: Result<Tree, Failure>)
        requires
            old(self).ready(),
        ensures
            final(self).follows(*old(self), in_predicate(old(self).input(), old(self).index as int, e@, negated), r),
            r is Ok ==> final(self).index > old(self).index,
            r matches Err(e) ==> !(e@ is Unhandled),
        decreases old(self).tokens.len() - old(self).index, 3int,
    {
        broadcast use group_tree_views;

        proof {
            reveal(in_predicate);
            reveal(expr_list);
            reveal(query);
        }
        self.expect_token(&Token::LParen)?;
        let choices: [Keyword; 3] = [Keyword::SELECT, Keyword::VALUES, Keyword::WITH];
        assert(choices@ =~= seq![Keyword::SELECT, Keyword::VALUES, Keyword::WITH]);
        let in_op = match self.parse_one_of_keywords(&choices) {
            Some(_) => {
                self.prev_token();
                let subquery = self.parse_query()?;
                node(Kind::InSubquery, trees3(e, subquery, Tree::Flag(negated)))
            },
            None => {
                let members = self.parse_expr_list(trees0())?;
                node(Kind::InList, trees3(e, list(members), Tree::Flag(negated)))
            },
        };
        self.expect_token(&Token::RParen)?;
        Ok(in_op)
    }
}

/// What [`Parser::parse_between`] yields from the token at `i` on.
#[verifier::opaque]
pub open spec fn between(p: Input, i: int, e: TreeView, negated: bool) -> Out<TreeView>
    decreases p.toks.len() - i, 3int,
{
    match past(p, i, subexpr(p, i, Precedence::Like)) { Failed(e, i) => Failed(e, i), Got(low, i) => {
    match keyword(p, i, Keyword::AND) { Failed(e, i) => Failed(e, i), Got(_, i) => {
    match subexpr(p, i, Precedence::Like) { Failed(e, i) => Failed(e, i), Got(high, i) => {
    Got(TreeView::Node(Kind::Between, seq![e, TreeView::Flag(negated), low, high]), i)
    }}
    }}
    }}
}

impl Parser {
    /// Parses `BETWEEN <low> AND <high>`, assuming the `BETWEEN` keyword was already consumed.
    pub fn parse_between(&mut self, e: Tree, negated: bool) -> (r: Result<Tree, Failure>)
        requires
            old(self).ready(),
        ensures
            final(self).follows(*old(self), between(old(self).input(), old(self).index as int, e@, negated), r),
            r is Ok ==> final(self).index > old(self).index,
            r matches Err(e) ==> !(e@ is Unhandled),
        decreases old(self).tokens.len() - old(self).index, 3int,
    {
        broadcast use group_tree_views;

        proof {
            reveal(between);
            reveal(subexpr);
        }
        let low = self.parse_subexpr(Precedence::Like)?;
        self.expect_keyword(Keyword::AND)?;
        let high = self.parse_subexpr(Precedence::Like)?;
        Ok(node(Kind::Between, trees4(e, Tree::Flag(negated), low, high)))
    }
}

/// What [`Parser::parse_like`] yields from the token at `i` on.
#[verifier::opaque]
pub open spec fn like(p: Input, i: int, e: TreeView, case_insensitive: bool, negated: bool) -> Out<TreeView>
    decreases p.toks.len() - i, 3int,
{
    match past(p, i, subexpr(p, i, Precedence::Like)) { Failed(e, i) => Failed(e, i), Got(pattern, i) => {
    match {
        if at_keyword(p, i, Keyword::ESCAPE) {
            let i = i + 1;
            subexpr(p, i, Precedence::Like)
        } else {
            Got(TreeView::Absent, i)
        }
    } { Failed(e, i) => Failed(e, i), Got(escape, i) => {
    Got(TreeView::Node(Kind::Like, seq![e, pattern, escape, TreeView::Flag(case_insensitive), TreeView::Flag(negated)]), i)
    }}
    }}
}

impl Parser {
    /// Parses `LIKE <pattern> [ ESCAPE <char> ]`, assuming the `LIKE` keyword was already consumed.
    pub fn parse_like(&mut self, e: Tree, case_insensitive: bool, negated: bool) -> (r: Result<Tree, Failure>)
        requires
            old(self).ready(),
        ensures
            final(self).follows(*old(self), like(old(self).input(), old(self).index as int, e@, case_insensitive, negated), r),
            r is Ok ==> final(self).index > old(self).index,
            r matches Err(e) ==> !(e@ is Unhandled),
        decreases old(self).tokens.len() - old(self).index, 3int,
    {
        broadcast use group_tree_views;

        proof {
            reveal(like);
            reveal(subexpr);
        }
        let pattern = self.parse_subexpr(Precedence::Like)?;
        let escape = if self.parse_keyword(Keyword::ESCAPE) {
            self.parse_subexpr(Precedence::Like)?
        } else {
            Tree::Absent
        };
        Ok(node(Kind::Like, trees5(e, pattern, escape, Tree::Flag(case_insensitive), Tree::Flag(negated))))
    }
}

/// What [`Parser::parse_pg_cast`] yields from the token at `i` on.
#[verifier::opaque]
pub open spec fn pg_cast(p: Input, i: int, e: TreeView) -> Out<TreeView>
{
    match data_type(p, i) { Failed(e, i) => Failed(e, i), Got(data_type, i) => {
    Got(TreeView::Node(Kind::Cast, seq![e, data_type]), i)
    }}
}

impl Parser {
    /// Parse a postgresql casting style which is in the form of `expr::datatype`.
    pub fn parse_pg_cast(&mut self, e: Tree) -> (r: Result<Tree, Failure>)
        requires
            old(self).ready(),
        ensures
            final(self).follows(*old(self), pg_cast(old(self).input(), old(self).index as int, e@), r),
            r is Ok ==> final(self).index > old(self).index,
            r matches Err(e) ==> !(e@ is Unhandled),
    {
        broadcast use group_tree_views;

        proof {
            reveal(pg_cast);
        }
        let data_type = self.parse_data_type()?;
        Ok(node(Kind::Cast, trees2(e, data_type)))
    }
}

} // verus!
