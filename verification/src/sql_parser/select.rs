//! `SELECT`.

use vstd::prelude::*;

use crate::sql_parser::expr::{expr, expr_list};
use crate::sql_parser::keywords::{Keyword, is_reserved_spec};
use crate::sql_parser::kind::{Kind};
use crate::sql_parser::names::{optional_alias};
use crate::sql_parser::options::{optional_option_value};
use crate::sql_parser::outcome::Out::{Failed, Got};
use crate::sql_parser::outcome::{Out, Failure, error_view, error};
use crate::sql_parser::parser::{Parser, Input, at_keyword, at_keywords2, at_token, token_at, position, keyword, token, onward, past};
use crate::sql_parser::syntax::{group_tree_views, Tree, TreeView, Trees, node, list, trees0, trees1, trees2, trees7};
use crate::sql_parser::tables::{table_and_joins_list};
use crate::sql_parser::text::{no_text};
use crate::sql_parser::token::{Token, TokenView};

verus! {

/// What [`Parser::parse_select`] yields from the token at `i` on.
#[verifier::opaque]
pub open spec fn select(p: Input, i: int) -> Out<TreeView>
    decreases p.toks.len() - i, 7int,
{
    match onward(p, i, select_distinct(p, i)) { Failed(e, i) => Failed(e, i), Got(distinct, i) => {
    match onward(p, i, projection(p, i)) { Failed(e, i) => Failed(e, i), Got(projection, i) => {
    match onward(p, i, from_clause(p, i)) { Failed(e, i) => Failed(e, i), Got(from, i) => {
    match onward(p, i, where_clause(p, i)) { Failed(e, i) => Failed(e, i), Got(selection, i) => {
    match onward(p, i, group_by_clause(p, i)) { Failed(e, i) => Failed(e, i), Got(group_by, i) => {
    match having_clause(p, i) { Failed(e, i) => Failed(e, i), Got(having, i) => {
    match select_options(p, i) { Failed(e, i) => Failed(e, i), Got(options, i) => {
    Got(TreeView::Node(Kind::Select, seq![distinct, projection, from, selection, group_by, having, options]), i)
    }}
    }}
    }}
    }}
    }}
    }}
    }}
}

impl Parser {
    /// Parse a restricted `SELECT` statement (no CTEs / `UNION` / `ORDER BY`),
    /// assuming the initial `SELECT` was already consumed.
    pub fn parse_select(&mut self) -> (r: Result<Tree, Failure>)
        requires
            old(self).ready(),
        ensures
            final(self).follows(*old(self), select(old(self).input(), old(self).index as int), r),
            r matches Err(e) ==> !(e@ is Unhandled),
        decreases old(self).tokens.len() - old(self).index, 7int,
    {
        broadcast use group_tree_views;

        proof {
            reveal(select);
            reveal(from_clause);
            reveal(group_by_clause);
            reveal(having_clause);
            reveal(projection);
            reveal(select_distinct);
            reveal(where_clause);
        }
        let distinct = self.parse_select_distinct()?;
        let projection = self.parse_projection()?;
        let from = self.parse_from_clause()?;
        let selection = self.parse_where_clause()?;
        let group_by = self.parse_group_by_clause()?;
        let having = self.parse_having_clause()?;
        let options = self.parse_select_options()?;
        Ok(node(Kind::Select, trees7(distinct, projection, from, selection, group_by, having, options)))
    }
}

/// What [`Parser::parse_select_distinct`] yields from the token at `i` on.
#[verifier::opaque]
pub open spec fn select_distinct(p: Input, i: int) -> Out<TreeView>
    decreases p.toks.len() - i, 1int,
{
    let all = at_keyword(p, i, Keyword::ALL);
    let i = if all { i + 1 } else { i };
    let distinct = at_keyword(p, i, Keyword::DISTINCT);
    let i = if distinct { i + 1 } else { i };
    if all && distinct {
        Failed(error_view(position(p, i - 1), no_text() + "Cannot specify both ALL and DISTINCT in SELECT"@), i)
    } else {
        distinct_clause(p, i, distinct)
    }
}

impl Parser {
    /// Parse `ALL`, `DISTINCT` or neither, with what follows it.
    pub fn parse_select_distinct(&mut self) -> (r: Result<Tree, Failure>)
        requires
            old(self).ready(),
        ensures
            final(self).follows(*old(self), select_distinct(old(self).input(), old(self).index as int), r),
            r matches Err(e) ==> !(e@ is Unhandled),
        decreases old(self).tokens.len() - old(self).index, 1int,
    {
        broadcast use group_tree_views;

        proof {
            reveal(select_distinct);
            reveal(distinct_clause);
        }
        let all = self.parse_keyword(Keyword::ALL);
        let distinct = self.parse_keyword(Keyword::DISTINCT);
        if all && distinct {
            let pos: usize = self.peek_prev_pos();
            Err(error(pos, String::new().concat("Cannot specify both ALL and DISTINCT in SELECT")))
        } else {
            self.parse_distinct_clause(distinct)
        }
    }
}

/// What [`Parser::parse_group_by_clause`] yields from the token at `i` on.
#[verifier::opaque]
pub open spec fn group_by_clause(p: Input, i: int) -> Out<TreeView>
    decreases p.toks.len() - i, 0int,
{
    if at_keywords2(p, i, Keyword::GROUP, Keyword::BY) {
        let i = i + 2;
        match expr_list(p, i, Seq::<TreeView>::empty()) { Failed(e, i) => Failed(e, i), Got(es, i) => {
        Got(TreeView::List(es), i)
        }}
    } else {
        Got(TreeView::List(Seq::<TreeView>::empty()), i)
    }
}

impl Parser {
    /// Parse a `GROUP BY` clause, if there is one.
    pub fn parse_group_by_clause(&mut self) -> (r: Result<Tree, Failure>)
        requires
            old(self).ready(),
        ensures
            final(self).follows(*old(self), group_by_clause(old(self).input(), old(self).index as int), r),
            r matches Err(e) ==> !(e@ is Unhandled),
        decreases old(self).tokens.len() - old(self).index, 0int,
    {
        broadcast use group_tree_views;

        proof {
            reveal(group_by_clause);
            reveal(expr_list);
        }
        if self.parse_keywords2(Keyword::GROUP, Keyword::BY) {
            let es = self.parse_expr_list(trees0())?;
            Ok(list(es))
        } else {
            Ok(list(trees0()))
        }
    }
}

/// What [`Parser::parse_having_clause`] yields from the token at `i` on.
#[verifier::opaque]
pub open spec fn having_clause(p: Input, i: int) -> Out<TreeView>
    decreases p.toks.len() - i, 0int,
{
    if at_keyword(p, i, Keyword::HAVING) {
        let i = i + 1;
        expr(p, i)
    } else {
        Got(TreeView::Absent, i)
    }
}

impl Parser {
    /// Parse a `HAVING` clause, if there is one.
    pub fn parse_having_clause(&mut self) -> (r: Result<Tree, Failure>)
        requires
            old(self).ready(),
        ensures
            final(self).follows(*old(self), having_clause(old(self).input(), old(self).index as int), r),
            r matches Err(e) ==> !(e@ is Unhandled),
        decreases old(self).tokens.len() - old(self).index, 0int,
    {
        broadcast use group_tree_views;

        proof {
            reveal(having_clause);
            reveal(expr);
        }
        if self.parse_keyword(Keyword::HAVING) {
            self.parse_expr()
        } else {
            Ok(Tree::Absent)
        }
    }
}

/// What [`Parser::parse_select_options`] yields from the token at `i` on.
#[verifier::opaque]
pub open spec fn select_options(p: Input, i: int) -> Out<TreeView>
{
    if at_keyword(p, i, Keyword::OPTIONS) {
        let i = i + 1;
        match token(p, i, TokenView::LParen) { Failed(e, i) => Failed(e, i), Got(_, i) => {
        match select_option_list(p, i, Seq::<TreeView>::empty()) { Failed(e, i) => Failed(e, i), Got(os, i) => {
        match token(p, i, TokenView::RParen) { Failed(e, i) => Failed(e, i), Got(_, i) => {
        Got(TreeView::List(os), i)
        }}
        }}
        }}
    } else {
        Got(TreeView::List(Seq::<TreeView>::empty()), i)
    }
}

impl Parser {
    /// Parse an `OPTIONS` clause, if there is one.
    pub fn parse_select_options(&mut self) -> (r: Result<Tree, Failure>)
        requires
            old(self).ready(),
        ensures
            final(self).follows(*old(self), select_options(old(self).input(), old(self).index as int), r),
            r matches Err(e) ==> !(e@ is Unhandled),
    {
        broadcast use group_tree_views;

        proof {
            reveal(select_options);
        }
        if self.parse_keyword(Keyword::OPTIONS) {
            self.expect_token(&Token::LParen)?;
            let os = self.parse_select_option_list(trees0())?;
            self.expect_token(&Token::RParen)?;
            Ok(list(os))
        } else {
            Ok(list(trees0()))
        }
    }
}

/// What [`Parser::parse_distinct_clause`] yields from the token at `i` on.
#[verifier::opaque]
pub open spec fn distinct_clause(p: Input, i: int, distinct: bool) -> Out<TreeView>
    decreases p.toks.len() - i, 0int,
{
    if !(distinct) {
        Got(TreeView::Absent, i)
    } else {
        if at_keyword(p, i, Keyword::ON) {
            let i = i + 1;
            match token(p, i, TokenView::LParen) { Failed(e, i) => Failed(e, i), Got(_, i) => {
            match expr_list(p, i, Seq::<TreeView>::empty()) { Failed(e, i) => Failed(e, i), Got(es, i) => {
            match token(p, i, TokenView::RParen) { Failed(e, i) => Failed(e, i), Got(_, i) => {
            Got(TreeView::Node(Kind::DistinctOn, seq![TreeView::List(es)]), i)
            }}
            }}
            }}
        } else {
            Got(TreeView::Node(Kind::DistinctRow, Seq::<TreeView>::empty()), i)
        }
    }
}

impl Parser {
    /// Parse what follows `DISTINCT`, if it was there.
    pub fn parse_distinct_clause(&mut self, distinct: bool) -> (r: Result<Tree, Failure>)
        requires
            old(self).ready(),
        ensures
            final(self).follows(*old(self), distinct_clause(old(self).input(), old(self).index as int, distinct), r),
            r matches Err(e) ==> !(e@ is Unhandled),
        decreases old(self).tokens.len() - old(self).index, 0int,
    {
        broadcast use group_tree_views;

        proof {
            reveal(distinct_clause);
            reveal(expr_list);
        }
        if !distinct {
            Ok(Tree::Absent)
        } else if self.parse_keyword(Keyword::ON) {
            self.expect_token(&Token::LParen)?;
            let es = self.parse_expr_list(trees0())?;
            self.expect_token(&Token::RParen)?;
            Ok(node(Kind::DistinctOn, trees1(list(es))))
        } else {
            Ok(node(Kind::DistinctRow, trees0()))
        }
    }
}

/// What [`Parser::parse_projection`] yields from the token at `i` on.
#[verifier::opaque]
pub open spec fn projection(p: Input, i: int) -> Out<TreeView>
    decreases p.toks.len() - i, 6int,
{
    match token_at(p, i) {
        Some(TokenView::Keyword(k)) => {
            if is_reserved_spec(k) {
                Got(TreeView::List(Seq::<TreeView>::empty()), i)
            } else {
                match select_item_list(p, i, Seq::<TreeView>::empty()) { Failed(e, i) => Failed(e, i), Got(items, i) => {
                Got(TreeView::List(items), i)
                }}
            }
        },
        Some(TokenView::Semicolon) | Some(TokenView::RParen) => {
            Got(TreeView::List(Seq::<TreeView>::empty()), i)
        },
        None => {
            Got(TreeView::List(Seq::<TreeView>::empty()), i)
        },
        _ => {
            match select_item_list(p, i, Seq::<TreeView>::empty()) { Failed(e, i) => Failed(e, i), Got(items, i) => {
            Got(TreeView::List(items), i)
            }}
        },
    }
}

impl Parser {
    /// Parse what is selected. An empty target list is permissible to match
    /// PostgreSQL, which permits these for symmetry with zero column tables.
    pub fn parse_projection(&mut self) -> (r: Result<Tree, Failure>)
        requires
            old(self).ready(),
        ensures
            final(self).follows(*old(self), projection(old(self).input(), old(self).index as int), r),
            r matches Err(e) ==> !(e@ is Unhandled),
        decreases old(self).tokens.len() - old(self).index, 6int,
    {
        broadcast use group_tree_views;

        proof {
            reveal(projection);
            reveal(select_item_list);
        }
        match self.peek_token() {
            Some(Token::Keyword(k)) => {
                if k.is_reserved() {
                    Ok(list(trees0()))
                } else {
                    let items = self.parse_select_item_list(trees0())?;
                    Ok(list(items))
                }
            },
            Some(Token::Semicolon) | Some(Token::RParen) => {
                Ok(list(trees0()))
            },
            None => {
                Ok(list(trees0()))
            },
            _ => {
                let items = self.parse_select_item_list(trees0())?;
                Ok(list(items))
            },
        }
    }
}

/// What [`Parser::parse_from_clause`] yields from the token at `i` on.
#[verifier::opaque]
pub open spec fn from_clause(p: Input, i: int) -> Out<TreeView>
    decreases p.toks.len() - i, 0int,
{
    if at_keyword(p, i, Keyword::FROM) {
        let i = i + 1;
        match table_and_joins_list(p, i, Seq::<TreeView>::empty()) { Failed(e, i) => Failed(e, i), Got(tables, i) => {
        Got(TreeView::List(tables), i)
        }}
    } else {
        Got(TreeView::List(Seq::<TreeView>::empty()), i)
    }
}

impl Parser {
    /// Parse a `FROM` clause, if there is one.
    pub fn parse_from_clause(&mut self) -> (r: Result<Tree, Failure>)
        requires
            old(self).ready(),
        ensures
            final(self).follows(*old(self), from_clause(old(self).input(), old(self).index as int), r),
            r matches Err(e) ==> !(e@ is Unhandled),
        decreases old(self).tokens.len() - old(self).index, 0int,
    {
        broadcast use group_tree_views;

        proof {
            reveal(from_clause);
            reveal(table_and_joins_list);
        }
        if self.parse_keyword(Keyword::FROM) {
            let tables = self.parse_table_and_joins_list(trees0())?;
            Ok(list(tables))
        } else {
            Ok(list(trees0()))
        }
    }
}

/// What [`Parser::parse_where_clause`] yields from the token at `i` on.
#[verifier::opaque]
pub open spec fn where_clause(p: Input, i: int) -> Out<TreeView>
    decreases p.toks.len() - i, 0int,
{
    if at_keyword(p, i, Keyword::WHERE) {
        let i = i + 1;
        expr(p, i)
    } else {
        Got(TreeView::Absent, i)
    }
}

impl Parser {
    /// Parse a `WHERE` clause, if there is one.
    pub fn parse_where_clause(&mut self) -> (r: Result<Tree, Failure>)
        requires
            old(self).ready(),
        ensures
            final(self).follows(*old(self), where_clause(old(self).input(), old(self).index as int), r),
            r matches Err(e) ==> !(e@ is Unhandled),
        decreases old(self).tokens.len() - old(self).index, 0int,
    {
        broadcast use group_tree_views;

        proof {
            reveal(where_clause);
            reveal(expr);
        }
        if self.parse_keyword(Keyword::WHERE) {
            self.parse_expr()
        } else {
            Ok(Tree::Absent)
        }
    }
}

/// What [`Parser::parse_select_option`] yields from the token at `i` on.
#[verifier::opaque]
pub open spec fn select_option(p: Input, i: int) -> Out<TreeView>
{
    match keyword(p, i, Keyword::EXPECTED) { Failed(e, i) => Failed(e, i), Got(_, i) => {
    match keyword(p, i, Keyword::GROUP) { Failed(e, i) => Failed(e, i), Got(_, i) => {
    match keyword(p, i, Keyword::SIZE) { Failed(e, i) => Failed(e, i), Got(_, i) => {
    match optional_option_value(p, i) { Failed(e, i) => Failed(e, i), Got(v, i) => {
    Got(TreeView::Node(Kind::SelectOption, seq![TreeView::Node(Kind::ExpectedGroupSize, Seq::<TreeView>::empty()), v]), i)
    }}
    }}}}}}
}

impl Parser {
    /// Parse an option of a `SELECT`.
    pub fn parse_select_option(&mut self) -> (r: Result<Tree, Failure>)
        requires
            old(self).ready(),
        ensures
            final(self).follows(*old(self), select_option(old(self).input(), old(self).index as int), r),
            r is Ok ==> final(self).index > old(self).index,
            r matches Err(e) ==> !(e@ is Unhandled),
    {
        broadcast use group_tree_views;

        proof {
            reveal(select_option);
        }
        self.expect_keyword(Keyword::EXPECTED)?;
        self.expect_keyword(Keyword::GROUP)?;
        self.expect_keyword(Keyword::SIZE)?;
        let v = self.parse_optional_option_value()?;
        Ok(node(Kind::SelectOption, trees2(node(Kind::ExpectedGroupSize, trees0()), v)))
    }
}

/// What [`Parser::parse_select_option_list`] yields from the token at `i` on.
#[verifier::opaque]
pub open spec fn select_option_list(p: Input, i: int, items: Seq<TreeView>) -> Out<Seq<TreeView>>
    decreases p.toks.len() - i, 0int,
{
    match past(p, i, select_option(p, i)) { Failed(e, i) => Failed(e, i), Got(item, i) => {
    if at_token(p, i, TokenView::Comma) {
        let i = i + 1;
        select_option_list(p, i, items.push(item))
    } else {
        Got(items.push(item), i)
    }
    }}
}

impl Parser {
    /// Parses one or more `select_option`, separated by commas, after those in `items`.
    pub fn parse_select_option_list(&mut self, mut items: Trees) -> (r: Result<Trees, Failure>)
        requires
            old(self).ready(),
        ensures
            final(self).follows(*old(self), select_option_list(old(self).input(), old(self).index as int, items@), r),
            r is Ok ==> final(self).index > old(self).index,
            r matches Ok(all) ==> all@.len() > items@.len(),
            r matches Err(e) ==> !(e@ is Unhandled),
        decreases old(self).tokens.len() - old(self).index, 0int,
    {
        broadcast use group_tree_views;

        proof {
            reveal(select_option_list);
        }
        let ghost before = *self;
        let ghost given = items@.len();
        let ghost goal = select_option_list(self.input(), self.index as int, items@);
        #[verifier::loop_isolation(false)]
        loop
            invariant
                self.ready(),
                self.input() == before.input(),
                self.tokens.len() == before.tokens.len(),
                before.index <= self.index,
                before == *old(self),
                given <= items@.len(),
                select_option_list(self.input(), self.index as int, items@) == goal,
            decreases self.tokens.len() - self.index,
        {
            proof {
                reveal(select_option_list);
            }
            let item = self.parse_select_option()?;
            if self.consume_token(&Token::Comma) {
                items = items.with(item);
                continue;
            } else {
                return Ok(items.with(item));
            }
        }
    }
}

/// What [`Parser::parse_values_row`] yields from the token at `i` on.
#[verifier::opaque]
pub open spec fn values_row(p: Input, i: int) -> Out<TreeView>
    decreases p.toks.len() - i, 0int,
{
    match token(p, i, TokenView::LParen) { Failed(e, i) => Failed(e, i), Got(_, i) => {
    match expr_list(p, i, Seq::<TreeView>::empty()) { Failed(e, i) => Failed(e, i), Got(es, i) => {
    match token(p, i, TokenView::RParen) { Failed(e, i) => Failed(e, i), Got(_, i) => {
    Got(TreeView::List(es), i)
    }}
    }}
    }}
}

impl Parser {
    /// Parse a row of `VALUES`.
    pub fn parse_values_row(&mut self) -> (r: Result<Tree, Failure>)
        requires
            old(self).ready(),
        ensures
            final(self).follows(*old(self), values_row(old(self).input(), old(self).index as int), r),
            r is Ok ==> final(self).index > old(self).index,
            r matches Err(e) ==> !(e@ is Unhandled),
        decreases old(self).tokens.len() - old(self).index, 0int,
    {
        broadcast use group_tree_views;

        proof {
            reveal(values_row);
            reveal(expr_list);
        }
        self.expect_token(&Token::LParen)?;
        let es = self.parse_expr_list(trees0())?;
        self.expect_token(&Token::RParen)?;
        Ok(list(es))
    }
}

/// What [`Parser::parse_values_row_list`] yields from the token at `i` on.
#[verifier::opaque]
pub open spec fn values_row_list(p: Input, i: int, items: Seq<TreeView>) -> Out<Seq<TreeView>>
    decreases p.toks.len() - i, 1int,
{
    match past(p, i, values_row(p, i)) { Failed(e, i) => Failed(e, i), Got(item, i) => {
    if at_token(p, i, TokenView::Comma) {
        let i = i + 1;
        values_row_list(p, i, items.push(item))
    } else {
        Got(items.push(item), i)
    }
    }}
}

impl Parser {
    /// Parses one or more `values_row`, separated by commas, after those in `items`.
    pub fn parse_values_row_list(&mut self, mut items: Trees) -> (r: Result<Trees, Failure>)
        requires
            old(self).ready(),
        ensures
            final(self).follows(*old(self), values_row_list(old(self).input(), old(self).index as int, items@), r),
            r is Ok ==> final(self).index > old(self).index,
            r matches Ok(all) ==> all@.len() > items@.len(),
            r matches Err(e) ==> !(e@ is Unhandled),
        decreases old(self).tokens.len() - old(self).index, 1int,
    {
        broadcast use group_tree_views;

        proof {
            reveal(values_row_list);
            reveal(values_row);
        }
        let ghost before = *self;
        let ghost given = items@.len();
        let ghost goal = values_row_list(self.input(), self.index as int, items@);
        #[verifier::loop_isolation(false)]
        loop
            invariant
                self.ready(),
                self.input() == before.input(),
                self.tokens.len() == before.tokens.len(),
                before.index <= self.index,
                before == *old(self),
                given <= items@.len(),
                values_row_list(self.input(), self.index as int, items@) == goal,
            decreases self.tokens.len() - self.index,
        {
            proof {
                reveal(values_row_list);
                reveal(values_row);
            }
            let item = self.parse_values_row()?;
            if self.consume_token(&Token::Comma) {
                items = items.with(item);
                continue;
            } else {
                return Ok(items.with(item));
            }
        }
    }
}

/// What [`Parser::parse_select_item`] yields from the token at `i` on.
#[verifier::opaque]
pub open spec fn select_item(p: Input, i: int) -> Out<TreeView>
    decreases p.toks.len() - i, 4int,
{
    if at_token(p, i, TokenView::Star) {
        let i = i + 1;
        Got(TreeView::Node(Kind::Wildcard, Seq::<TreeView>::empty()), i)
    } else {
        match expr(p, i) { Failed(e, i) => Failed(e, i), Got(e, i) => {
        match optional_alias(p, i, false) { Failed(e, i) => Failed(e, i), Got(alias, i) => {
        Got(TreeView::Node(Kind::SelectExpr, seq![e, alias]), i)
        }}
        }}
    }
}

impl Parser {
    /// Parse a comma-delimited list of projections after SELECT.
    #[verifier::rlimit(30)]
    pub fn parse_select_item(&mut self) -> (r: Result<Tree, Failure>)
        requires
            old(self).ready(),
        ensures
            final(self).follows(*old(self), select_item(old(self).input(), old(self).index as int), r),
            r matches Err(e) ==> !(e@ is Unhandled),
        decreases old(self).tokens.len() - old(self).index, 4int,
    {
        broadcast use group_tree_views;

        proof {
            reveal(select_item);
            reveal(expr);
        }
        if self.consume_token(&Token::Star) {
            Ok(node(Kind::Wildcard, trees0()))
        } else {
            let e = self.parse_expr()?;
            let alias = self.parse_optional_alias(false)?;
            Ok(node(Kind::SelectExpr, trees2(e, alias)))
        }
    }
}

/// What [`Parser::parse_select_item_list`] yields from the token at `i` on.
#[verifier::opaque]
pub open spec fn select_item_list(p: Input, i: int, items: Seq<TreeView>) -> Out<Seq<TreeView>>
    decreases p.toks.len() - i, 5int,
{
    match onward(p, i, select_item(p, i)) { Failed(e, i) => Failed(e, i), Got(item, i) => {
    if at_token(p, i, TokenView::Comma) {
        let i = i + 1;
        select_item_list(p, i, items.push(item))
    } else {
        Got(items.push(item), i)
    }
    }}
}

impl Parser {
    /// Parses one or more `select_item`, separated by commas, after those in `items`.
    pub fn parse_select_item_list(&mut self, mut items: Trees) -> (r: Result<Trees, Failure>)
        requires
            old(self).ready(),
        ensures
            final(self).follows(*old(self), select_item_list(old(self).input(), old(self).index as int, items@), r),
            r matches Ok(all) ==> all@.len() > items@.len(),
            r matches Err(e) ==> !(e@ is Unhandled),
        decreases old(self).tokens.len() - old(self).index, 5int,
    {
        broadcast use group_tree_views;

        proof {
            reveal(select_item_list);
            reveal(select_item);
        }
        let ghost before = *self;
        let ghost given = items@.len();
        let ghost goal = select_item_list(self.input(), self.index as int, items@);
        #[verifier::loop_isolation(false)]
        loop
            invariant
                self.ready(),
                self.input() == before.input(),
                self.tokens.len() == before.tokens.len(),
                before.index <= self.index,
                before == *old(self),
                given <= items@.len(),
                select_item_list(self.input(), self.index as int, items@) == goal,
            decreases self.tokens.len() - self.index,
        {
            proof {
                reveal(select_item_list);
                reveal(select_item);
            }
            let item = self.parse_select_item()?;
            if self.consume_token(&Token::Comma) {
                items = items.with(item);
                continue;
            } else {
                return Ok(items.with(item));
            }
        }
    }
}

} // verus!
