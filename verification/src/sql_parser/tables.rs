//! Tables in a query, and joins.

use vstd::prelude::*;

use crate::sql_parser::checks::{lone_table, is_lone_table};
use crate::sql_parser::expr::{expr, function};
use crate::sql_parser::keywords::{Keyword};
use crate::sql_parser::kind::{Kind};
use crate::sql_parser::names::{identifier, optional_table_alias, parenthesized_column_list, raw_name};
use crate::sql_parser::outcome::Out::{Failed, Got};
use crate::sql_parser::outcome::{Out, Failure};
use crate::sql_parser::parser::{Parser, Input, at_keyword, at_keywords2, at_token, token_at, keyword, token, onward, past, expected_at};
use crate::sql_parser::query::{optional_args, query};
use crate::sql_parser::syntax::{group_tree_views, Tree, TreeView, Trees, node, list, trees0, trees1, trees2, trees3, trees5};
use crate::sql_parser::token::{Token, TokenView};

verus! {

/// What [`Parser::parse_table_and_joins`] yields from the token at `i` on.
#[verifier::opaque]
pub open spec fn table_and_joins(p: Input, i: int) -> Out<TreeView>
    decreases p.toks.len() - i, 1int,
{
    match onward(p, i, table_factor(p, i)) { Failed(e, i) => Failed(e, i), Got(relation, i) => {
    match joins(p, i, Seq::<TreeView>::empty()) { Failed(e, i) => Failed(e, i), Got(joins, i) => {
    Got(TreeView::Node(Kind::TableWithJoins, seq![relation, TreeView::List(joins)]), i)
    }}
    }}
}

impl Parser {
    /// Parse a table with what it is joined to.
    pub fn parse_table_and_joins(&mut self) -> (r: Result<Tree, Failure>)
        requires
            old(self).ready(),
        ensures
            final(self).follows(*old(self), table_and_joins(old(self).input(), old(self).index as int), r),
            r matches Err(e) ==> !(e@ is Unhandled),
        decreases old(self).tokens.len() - old(self).index, 1int,
    {
        broadcast use group_tree_views;

        proof {
            reveal(table_and_joins);
            reveal(joins);
            reveal(table_factor);
        }
        let relation = self.parse_table_factor()?;
        let joins = self.parse_joins(trees0())?;
        Ok(node(Kind::TableWithJoins, trees2(relation, list(joins))))
    }
}

/// What [`Parser::parse_table_and_joins_list`] yields from the token at `i` on.
#[verifier::opaque]
pub open spec fn table_and_joins_list(p: Input, i: int, items: Seq<TreeView>) -> Out<Seq<TreeView>>
    decreases p.toks.len() - i, 2int,
{
    match onward(p, i, table_and_joins(p, i)) { Failed(e, i) => Failed(e, i), Got(item, i) => {
    if at_token(p, i, TokenView::Comma) {
        let i = i + 1;
        table_and_joins_list(p, i, items.push(item))
    } else {
        Got(items.push(item), i)
    }
    }}
}

impl Parser {
    /// Parses one or more `table_and_joins`, separated by commas, after those in `items`.
    pub fn parse_table_and_joins_list(&mut self, mut items: Trees) -> (r: Result<Trees, Failure>)
        requires
            old(self).ready(),
        ensures
            final(self).follows(*old(self), table_and_joins_list(old(self).input(), old(self).index as int, items@), r),
            r matches Ok(all) ==> all@.len() > items@.len(),
            r matches Err(e) ==> !(e@ is Unhandled),
        decreases old(self).tokens.len() - old(self).index, 2int,
    {
        broadcast use group_tree_views;

        proof {
            reveal(table_and_joins_list);
            reveal(table_and_joins);
        }
        let ghost before = *self;
        let ghost given = items@.len();
        let ghost goal = table_and_joins_list(self.input(), self.index as int, items@);
        #[verifier::loop_isolation(false)]
        loop
            invariant
                self.ready(),
                self.input() == before.input(),
                self.tokens.len() == before.tokens.len(),
                before.index <= self.index,
                before == *old(self),
                given <= items@.len(),
                table_and_joins_list(self.input(), self.index as int, items@) == goal,
            decreases self.tokens.len() - self.index,
        {
            proof {
                reveal(table_and_joins_list);
                reveal(table_and_joins);
            }
            let item = self.parse_table_and_joins()?;
            if self.consume_token(&Token::Comma) {
                items = items.with(item);
                continue;
            } else {
                return Ok(items.with(item));
            }
        }
    }
}

/// What [`Parser::parse_joins`] yields from the token at `i` on.
#[verifier::opaque]
pub open spec fn joins(p: Input, i: int, found: Seq<TreeView>) -> Out<Seq<TreeView>>
    decreases p.toks.len() - i, 0int,
{
    if at_keyword(p, i, Keyword::CROSS) {
        let i = i + 1;
        match keyword(p, i, Keyword::JOIN) { Failed(e, i) => Failed(e, i), Got(_, i) => {
        match onward(p, i, table_factor(p, i)) { Failed(e, i) => Failed(e, i), Got(relation, i) => {
        joins(p, i, found.push(TreeView::Node(Kind::Join, seq![relation, TreeView::Node(Kind::CrossJoin, Seq::<TreeView>::empty())])))
        }}
        }}
    } else {
        let natural = at_keyword(p, i, Keyword::NATURAL);
        let i = if natural { i + 1 } else { i };
        match token_at(p, i) {
            Some(TokenView::Keyword(Keyword::INNER)) | Some(TokenView::Keyword(Keyword::JOIN)) => {
                let i = if at_keyword(p, i, Keyword::INNER) { i + 1 } else { i };
                match keyword(p, i, Keyword::JOIN) { Failed(e, i) => Failed(e, i), Got(_, i) => {
                match onward(p, i, table_factor(p, i)) { Failed(e, i) => Failed(e, i), Got(relation, i) => {
                match onward(p, i, join_constraint(p, i, natural)) { Failed(e, i) => Failed(e, i), Got(constraint, i) => {
                joins(p, i, found.push(TreeView::Node(Kind::Join, seq![relation, TreeView::Node(Kind::InnerJoin, seq![constraint])])))
                }}
                }}
                }}
            },
            Some(TokenView::Keyword(Keyword::LEFT)) => {
                match keyword(p, i, Keyword::LEFT) { Failed(e, i) => Failed(e, i), Got(_, i) => {
                let i = if at_keyword(p, i, Keyword::OUTER) { i + 1 } else { i };
                match keyword(p, i, Keyword::JOIN) { Failed(e, i) => Failed(e, i), Got(_, i) => {
                match onward(p, i, table_factor(p, i)) { Failed(e, i) => Failed(e, i), Got(relation, i) => {
                match onward(p, i, join_constraint(p, i, natural)) { Failed(e, i) => Failed(e, i), Got(constraint, i) => {
                joins(p, i, found.push(TreeView::Node(Kind::Join, seq![relation, TreeView::Node(Kind::LeftOuterJoin, seq![constraint])])))
                }}
                }}
                }}
                }}
            },
            Some(TokenView::Keyword(Keyword::RIGHT)) => {
                match keyword(p, i, Keyword::RIGHT) { Failed(e, i) => Failed(e, i), Got(_, i) => {
                let i = if at_keyword(p, i, Keyword::OUTER) { i + 1 } else { i };
                match keyword(p, i, Keyword::JOIN) { Failed(e, i) => Failed(e, i), Got(_, i) => {
                match onward(p, i, table_factor(p, i)) { Failed(e, i) => Failed(e, i), Got(relation, i) => {
                match onward(p, i, join_constraint(p, i, natural)) { Failed(e, i) => Failed(e, i), Got(constraint, i) => {
                joins(p, i, found.push(TreeView::Node(Kind::Join, seq![relation, TreeView::Node(Kind::RightOuterJoin, seq![constraint])])))
                }}
                }}
                }}
                }}
            },
            Some(TokenView::Keyword(Keyword::FULL)) => {
                match keyword(p, i, Keyword::FULL) { Failed(e, i) => Failed(e, i), Got(_, i) => {
                let i = if at_keyword(p, i, Keyword::OUTER) { i + 1 } else { i };
                match keyword(p, i, Keyword::JOIN) { Failed(e, i) => Failed(e, i), Got(_, i) => {
                match onward(p, i, table_factor(p, i)) { Failed(e, i) => Failed(e, i), Got(relation, i) => {
                match onward(p, i, join_constraint(p, i, natural)) { Failed(e, i) => Failed(e, i), Got(constraint, i) => {
                joins(p, i, found.push(TreeView::Node(Kind::Join, seq![relation, TreeView::Node(Kind::FullOuterJoin, seq![constraint])])))
                }}
                }}
                }}
                }}
            },
            Some(TokenView::Keyword(Keyword::OUTER)) => {
                Failed(expected_at(p, i, "LEFT, RIGHT, or FULL"@), i)
            },
            Some(TokenView::Keyword(k)) => {
                Got(found, i)
            },
            _ => {
                if natural {
                    Failed(expected_at(p, i, "a join type after NATURAL"@), i)
                } else {
                    Got(found, i)
                }
            },
        }
    }
}

impl Parser {
    /// Parse the joins that follow those in `found`.
    #[verifier::rlimit(60)]
    pub fn parse_joins(&mut self, mut found: Trees) -> (r: Result<Trees, Failure>)
        requires
            old(self).ready(),
        ensures
            final(self).follows(*old(self), joins(old(self).input(), old(self).index as int, found@), r),
            r matches Err(e) ==> !(e@ is Unhandled),
        decreases old(self).tokens.len() - old(self).index, 0int,
    {
        broadcast use group_tree_views;

        proof {
            reveal(joins);
            reveal(join_constraint);
            reveal(table_factor);
        }
        let ghost before = *self;
        let ghost goal = joins(self.input(), self.index as int, found@);
        #[verifier::loop_isolation(false)]
        loop
            invariant
                self.ready(),
                self.input() == before.input(),
                self.tokens.len() == before.tokens.len(),
                before.index <= self.index,
                before == *old(self),
                joins(self.input(), self.index as int, found@) == goal,
            decreases self.tokens.len() - self.index,
        {
            proof {
                reveal(joins);
                reveal(join_constraint);
                reveal(table_factor);
            }
            if self.parse_keyword(Keyword::CROSS) {
                self.expect_keyword(Keyword::JOIN)?;
                let relation = self.parse_table_factor()?;
                found = found.with(node(Kind::Join, trees2(relation, node(Kind::CrossJoin, trees0()))));
                continue;
            } else {
                let natural = self.parse_keyword(Keyword::NATURAL);
                match self.peek_token() {
                    Some(Token::Keyword(Keyword::INNER)) | Some(Token::Keyword(Keyword::JOIN)) => {
                        let _ = self.parse_keyword(Keyword::INNER);
                        self.expect_keyword(Keyword::JOIN)?;
                        let relation = self.parse_table_factor()?;
                        let constraint = self.parse_join_constraint(natural)?;
                        found = found.with(node(Kind::Join, trees2(relation, node(Kind::InnerJoin, trees1(constraint)))));
                        continue;
                    },
                    Some(Token::Keyword(Keyword::LEFT)) => {
                        self.expect_keyword(Keyword::LEFT)?;
                        let _ = self.parse_keyword(Keyword::OUTER);
                        self.expect_keyword(Keyword::JOIN)?;
                        let relation = self.parse_table_factor()?;
                        let constraint = self.parse_join_constraint(natural)?;
                        found = found.with(node(Kind::Join, trees2(relation, node(Kind::LeftOuterJoin, trees1(constraint)))));
                        continue;
                    },
                    Some(Token::Keyword(Keyword::RIGHT)) => {
                        self.expect_keyword(Keyword::RIGHT)?;
                        let _ = self.parse_keyword(Keyword::OUTER);
                        self.expect_keyword(Keyword::JOIN)?;
                        let relation = self.parse_table_factor()?;
                        let constraint = self.parse_join_constraint(natural)?;
                        found = found.with(node(Kind::Join, trees2(relation, node(Kind::RightOuterJoin, trees1(constraint)))));
                        continue;
                    },
                    Some(Token::Keyword(Keyword::FULL)) => {
                        self.expect_keyword(Keyword::FULL)?;
                        let _ = self.parse_keyword(Keyword::OUTER);
                        self.expect_keyword(Keyword::JOIN)?;
                        let relation = self.parse_table_factor()?;
                        let constraint = self.parse_join_constraint(natural)?;
                        found = found.with(node(Kind::Join, trees2(relation, node(Kind::FullOuterJoin, trees1(constraint)))));
                        continue;
                    },
                    Some(Token::Keyword(Keyword::OUTER)) => {
                        return Err(self.expected_here("LEFT, RIGHT, or FULL"));
                    },
                    Some(Token::Keyword(k)) => {
                        return Ok(found);
                    },
                    _ => {
                        if natural {
                            return Err(self.expected_here("a join type after NATURAL"));
                        } else {
                            return Ok(found);
                        }
                    },
                }
            }
        }
    }
}

/// What [`Parser::parse_table_function`] yields from the token at `i` on.
#[verifier::opaque]
pub open spec fn table_function(p: Input, i: int, name: TreeView) -> Out<TreeView>
    decreases p.toks.len() - i, 6int,
{
    match optional_args(p, i, false) { Failed(e, i) => Failed(e, i), Got(args, i) => {
    match optional_table_alias(p, i) { Failed(e, i) => Failed(e, i), Got(alias, i) => {
    let with_ordinality = at_keywords2(p, i, Keyword::WITH, Keyword::ORDINALITY);
    let i = if with_ordinality { i + 2 } else { i };
    Got(TreeView::Node(Kind::TableFunction, seq![TreeView::Node(Kind::Function, seq![name, args, TreeView::Absent, TreeView::Absent, TreeView::Flag(false)]), alias, TreeView::Flag(with_ordinality)]), i)
    }}
    }}
}

impl Parser {
    /// Parse the arguments of a table function, its alias and `WITH ORDINALITY`.
    #[verifier::rlimit(30)]
    pub fn parse_table_function(&mut self, name: Tree) -> (r: Result<Tree, Failure>)
        requires
            old(self).ready(),
        ensures
            final(self).follows(*old(self), table_function(old(self).input(), old(self).index as int, name@), r),
            r matches Err(e) ==> !(e@ is Unhandled),
        decreases old(self).tokens.len() - old(self).index, 6int,
    {
        broadcast use group_tree_views;

        proof {
            reveal(table_function);
            reveal(optional_args);
        }
        let args = self.parse_optional_args(false)?;
        let alias = self.parse_optional_table_alias()?;
        let with_ordinality = self.parse_keywords2(Keyword::WITH, Keyword::ORDINALITY);
        Ok(node(Kind::TableFunction, trees3(node(Kind::Function, trees5(name, args, Tree::Absent, Tree::Absent, Tree::Flag(false))), alias, Tree::Flag(with_ordinality))))
    }
}

/// What [`Parser::parse_table_factor`] yields from the token at `i` on.
#[verifier::opaque]
pub open spec fn table_factor(p: Input, i: int) -> Out<TreeView>
    decreases p.toks.len() - i, 0int,
{
    if at_keyword(p, i, Keyword::LATERAL) {
        let i = i + 1;
        if at_token(p, i, TokenView::LParen) {
            let i = i + 1;
            derived_table_factor(p, i, true)
        } else {
            if at_keywords2(p, i, Keyword::ROWS, Keyword::FROM) {
                let i = i + 2;
                rows_from(p, i)
            } else {
                match past(p, i, raw_name(p, i)) { Failed(e, i) => Failed(e, i), Got(name, i) => {
                match token(p, i, TokenView::LParen) { Failed(e, i) => Failed(e, i), Got(_, i) => {
                table_function(p, i, name)
                }}
                }}
            }
        }
    } else {
        if at_token(p, i, TokenView::LParen) {
            let i = i + 1;
            match derived_table_factor(p, i, false) {
                Got(t, i) => {
                    Got(t, i)
                },
                Failed(_, _) => {
                    match table_and_joins(p, i) { Failed(e, i) => Failed(e, i), Got(t, i) => {
                    if lone_table(t) {
                        Failed(expected_at(p, i, "joined table"@), i)
                    } else {
                        match token(p, i, TokenView::RParen) { Failed(e, i) => Failed(e, i), Got(_, i) => {
                        match optional_table_alias(p, i) { Failed(e, i) => Failed(e, i), Got(alias, i) => {
                        Got(TreeView::Node(Kind::NestedJoin, seq![t, alias]), i)
                        }}
                        }}
                    }
                    }}
                },
            }
        } else {
            if at_keywords2(p, i, Keyword::ROWS, Keyword::FROM) {
                let i = i + 2;
                rows_from(p, i)
            } else {
                match past(p, i, raw_name(p, i)) { Failed(e, i) => Failed(e, i), Got(name, i) => {
                if at_token(p, i, TokenView::LParen) {
                    let i = i + 1;
                    table_function(p, i, name)
                } else {
                    match optional_table_alias(p, i) { Failed(e, i) => Failed(e, i), Got(alias, i) => {
                    Got(TreeView::Node(Kind::Table, seq![name, alias]), i)
                    }}
                }
                }}
            }
        }
    }
}

impl Parser {
    /// A table name or a parenthesized subquery, followed by optional `[AS] alias`.
    #[verifier::rlimit(60)]
    pub fn parse_table_factor(&mut self) -> (r: Result<Tree, Failure>)
        requires
            old(self).ready(),
        ensures
            final(self).follows(*old(self), table_factor(old(self).input(), old(self).index as int), r),
            r matches Err(e) ==> !(e@ is Unhandled),
        decreases old(self).tokens.len() - old(self).index, 0int,
    {
        broadcast use group_tree_views;

        proof {
            reveal(table_factor);
            reveal(derived_table_factor);
            reveal(rows_from);
            reveal(table_and_joins);
            reveal(table_function);
        }
        if self.parse_keyword(Keyword::LATERAL) {
            if self.consume_token(&Token::LParen) {
                self.parse_derived_table_factor(true)
            } else if self.parse_keywords2(Keyword::ROWS, Keyword::FROM) {
                self.parse_rows_from()
            } else {
                let name = self.parse_raw_name()?;
                self.expect_token(&Token::LParen)?;
                self.parse_table_function(name)
            }
        } else if self.consume_token(&Token::LParen) {
            let mark: usize = self.index;
            match self.parse_derived_table_factor(false) {
                Ok(t) => {
                    Ok(t)
                },
                Err(_) => {
                    self.index = mark;
                    let t = self.parse_table_and_joins()?;
                    if is_lone_table(&t) {
                        Err(self.expected_here("joined table"))
                    } else {
                        self.expect_token(&Token::RParen)?;
                        let alias = self.parse_optional_table_alias()?;
                        Ok(node(Kind::NestedJoin, trees2(t, alias)))
                    }
                },
            }
        } else if self.parse_keywords2(Keyword::ROWS, Keyword::FROM) {
            self.parse_rows_from()
        } else {
            let name = self.parse_raw_name()?;
            if self.consume_token(&Token::LParen) {
                self.parse_table_function(name)
            } else {
                let alias = self.parse_optional_table_alias()?;
                Ok(node(Kind::Table, trees2(name, alias)))
            }
        }
    }
}

/// What [`Parser::parse_rows_from`] yields from the token at `i` on.
#[verifier::opaque]
pub open spec fn rows_from(p: Input, i: int) -> Out<TreeView>
    decreases p.toks.len() - i, 0int,
{
    match token(p, i, TokenView::LParen) { Failed(e, i) => Failed(e, i), Got(_, i) => {
    match named_function_list(p, i, Seq::<TreeView>::empty()) { Failed(e, i) => Failed(e, i), Got(functions, i) => {
    match token(p, i, TokenView::RParen) { Failed(e, i) => Failed(e, i), Got(_, i) => {
    match optional_table_alias(p, i) { Failed(e, i) => Failed(e, i), Got(alias, i) => {
    let with_ordinality = at_keywords2(p, i, Keyword::WITH, Keyword::ORDINALITY);
    let i = if with_ordinality { i + 2 } else { i };
    Got(TreeView::Node(Kind::RowsFrom, seq![TreeView::List(functions), alias, TreeView::Flag(with_ordinality)]), i)
    }}
    }}
    }}
    }}
}

impl Parser {
    /// Parse what follows `ROWS FROM`.
    #[verifier::rlimit(30)]
    pub fn parse_rows_from(&mut self) -> (r: Result<Tree, Failure>)
        requires
            old(self).ready(),
        ensures
            final(self).follows(*old(self), rows_from(old(self).input(), old(self).index as int), r),
            r is Ok ==> final(self).index > old(self).index,
            r matches Err(e) ==> !(e@ is Unhandled),
        decreases old(self).tokens.len() - old(self).index, 0int,
    {
        broadcast use group_tree_views;

        proof {
            reveal(rows_from);
            reveal(named_function_list);
        }
        self.expect_token(&Token::LParen)?;
        let functions = self.parse_named_function_list(trees0())?;
        self.expect_token(&Token::RParen)?;
        let alias = self.parse_optional_table_alias()?;
        let with_ordinality = self.parse_keywords2(Keyword::WITH, Keyword::ORDINALITY);
        Ok(node(Kind::RowsFrom, trees3(list(functions), alias, Tree::Flag(with_ordinality))))
    }
}

/// What [`Parser::parse_named_function`] yields from the token at `i` on.
#[verifier::opaque]
pub open spec fn named_function(p: Input, i: int) -> Out<TreeView>
    decreases p.toks.len() - i, 0int,
{
    match past(p, i, raw_name(p, i)) { Failed(e, i) => Failed(e, i), Got(name, i) => {
    function(p, i, name)
    }}
}

impl Parser {
    /// Parse a function call.
    pub fn parse_named_function(&mut self) -> (r: Result<Tree, Failure>)
        requires
            old(self).ready(),
        ensures
            final(self).follows(*old(self), named_function(old(self).input(), old(self).index as int), r),
            r is Ok ==> final(self).index > old(self).index,
            r matches Err(e) ==> !(e@ is Unhandled),
        decreases old(self).tokens.len() - old(self).index, 0int,
    {
        broadcast use group_tree_views;

        proof {
            reveal(named_function);
            reveal(function);
        }
        let name = self.parse_raw_name()?;
        self.parse_function(name)
    }
}

/// What [`Parser::parse_named_function_list`] yields from the token at `i` on.
#[verifier::opaque]
pub open spec fn named_function_list(p: Input, i: int, items: Seq<TreeView>) -> Out<Seq<TreeView>>
    decreases p.toks.len() - i, 1int,
{
    match past(p, i, named_function(p, i)) { Failed(e, i) => Failed(e, i), Got(item, i) => {
    if at_token(p, i, TokenView::Comma) {
        let i = i + 1;
        named_function_list(p, i, items.push(item))
    } else {
        Got(items.push(item), i)
    }
    }}
}

impl Parser {
    /// Parses one or more `named_function`, separated by commas, after those in `items`.
    pub fn parse_named_function_list(&mut self, mut items: Trees) -> (r: Result<Trees, Failure>)
        requires
            old(self).ready(),
        ensures
            final(self).follows(*old(self), named_function_list(old(self).input(), old(self).index as int, items@), r),
            r is Ok ==> final(self).index > old(self).index,
            r matches Ok(all) ==> all@.len() > items@.len(),
            r matches Err(e) ==> !(e@ is Unhandled),
        decreases old(self).tokens.len() - old(self).index, 1int,
    {
        broadcast use group_tree_views;

        proof {
            reveal(named_function_list);
            reveal(named_function);
        }
        let ghost before = *self;
        let ghost given = items@.len();
        let ghost goal = named_function_list(self.input(), self.index as int, items@);
        #[verifier::loop_isolation(false)]
        loop
            invariant
                self.ready(),
                self.input() == before.input(),
                self.tokens.len() == before.tokens.len(),
                before.index <= self.index,
                before == *old(self),
                given <= items@.len(),
                named_function_list(self.input(), self.index as int, items@) == goal,
            decreases self.tokens.len() - self.index,
        {
            proof {
                reveal(named_function_list);
                reveal(named_function);
            }
            let item = self.parse_named_function()?;
            if self.consume_token(&Token::Comma) {
                items = items.with(item);
                continue;
            } else {
                return Ok(items.with(item));
            }
        }
    }
}

/// What [`Parser::parse_join_constraint`] yields from the token at `i` on.
#[verifier::opaque]
pub open spec fn join_constraint(p: Input, i: int, natural: bool) -> Out<TreeView>
    decreases p.toks.len() - i, 0int,
{
    if natural {
        Got(TreeView::Node(Kind::NaturalConstraint, Seq::<TreeView>::empty()), i)
    } else {
        if at_keyword(p, i, Keyword::ON) {
            let i = i + 1;
            match expr(p, i) { Failed(e, i) => Failed(e, i), Got(e, i) => {
            Got(TreeView::Node(Kind::OnConstraint, seq![e]), i)
            }}
        } else {
            if at_keyword(p, i, Keyword::USING) {
                let i = i + 1;
                match parenthesized_column_list(p, i, false) { Failed(e, i) => Failed(e, i), Got(columns, i) => {
                match {
                    if at_keyword(p, i, Keyword::AS) {
                        let i = i + 1;
                        identifier(p, i)
                    } else {
                        Got(TreeView::Absent, i)
                    }
                } { Failed(e, i) => Failed(e, i), Got(alias, i) => {
                Got(TreeView::Node(Kind::UsingConstraint, seq![columns, alias]), i)
                }}
                }}
            } else {
                Failed(expected_at(p, i, "ON, or USING after JOIN"@), i)
            }
        }
    }
}

impl Parser {
    /// Parse the constraint of a join.
    pub fn parse_join_constraint(&mut self, natural: bool) -> (r: Result<Tree, Failure>)
        requires
            old(self).ready(),
        ensures
            final(self).follows(*old(self), join_constraint(old(self).input(), old(self).index as int, natural), r),
            r matches Err(e) ==> !(e@ is Unhandled),
        decreases old(self).tokens.len() - old(self).index, 0int,
    {
        broadcast use group_tree_views;

        proof {
            reveal(join_constraint);
            reveal(expr);
        }
        if natural {
            Ok(node(Kind::NaturalConstraint, trees0()))
        } else if self.parse_keyword(Keyword::ON) {
            let e = self.parse_expr()?;
            Ok(node(Kind::OnConstraint, trees1(e)))
        } else if self.parse_keyword(Keyword::USING) {
            let columns = self.parse_parenthesized_column_list(false)?;
            let alias = if self.parse_keyword(Keyword::AS) {
                self.parse_identifier()?
            } else {
                Tree::Absent
            };
            Ok(node(Kind::UsingConstraint, trees2(columns, alias)))
        } else {
            Err(self.expected_here("ON, or USING after JOIN"))
        }
    }
}

/// What [`Parser::parse_derived_table_factor`] yields from the token at `i` on.
#[verifier::opaque]
pub open spec fn derived_table_factor(p: Input, i: int, lateral: bool) -> Out<TreeView>
    decreases p.toks.len() - i, 3int,
{
    match query(p, i) { Failed(e, i) => Failed(e, i), Got(subquery, i) => {
    match token(p, i, TokenView::RParen) { Failed(e, i) => Failed(e, i), Got(_, i) => {
    match optional_table_alias(p, i) { Failed(e, i) => Failed(e, i), Got(alias, i) => {
    Got(TreeView::Node(Kind::Derived, seq![TreeView::Flag(lateral), subquery, alias]), i)
    }}
    }}
    }}
}

impl Parser {
    /// Parse a subquery up to its closing parenthesis, and its alias.
    #[verifier::rlimit(30)]
    pub fn parse_derived_table_factor(&mut self, lateral: bool) -> (r: Result<Tree, Failure>)
        requires
            old(self).ready(),
        ensures
            final(self).follows(*old(self), derived_table_factor(old(self).input(), old(self).index as int, lateral), r),
            r is Ok ==> final(self).index > old(self).index,
            r matches Err(e) ==> !(e@ is Unhandled),
        decreases old(self).tokens.len() - old(self).index, 3int,
    {
        broadcast use group_tree_views;

        proof {
            reveal(derived_table_factor);
            reveal(query);
        }
        let subquery = self.parse_query()?;
        self.expect_token(&Token::RParen)?;
        let alias = self.parse_optional_table_alias()?;
        Ok(node(Kind::Derived, trees3(Tree::Flag(lateral), subquery, alias)))
    }
}

} // verus!
