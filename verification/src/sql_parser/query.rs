//! Queries: `SELECT`, `VALUES`, set operations, joins, and what may stand in
//! them.

use vstd::prelude::*;

use crate::sql_parser::checks::{query_parts, split_query, no_members, is_empty_list};
use crate::sql_parser::expr::{expr, expr_list};
use crate::sql_parser::keywords::{Keyword};
use crate::sql_parser::kind::{Kind};
use crate::sql_parser::names::{data_type, identifier, parenthesized_column_list};
use crate::sql_parser::options::{optional_option_value};
use crate::sql_parser::outcome::Out::{Failed, Got};
use crate::sql_parser::outcome::{Out, Failure, error_view, too_deep, error};
use crate::sql_parser::parser::{Parser, Input, SetPrecedence, RECURSION_LIMIT, at_keyword, at_keywords2, at_token, token_at, position, keyword, token, one_of, one_keyword, onward, past, deeper, expected_at, set_binding};
use crate::sql_parser::select::{select, values_row_list};
use crate::sql_parser::show::{show};
use crate::sql_parser::syntax::{group_tree_views, Tree, TreeView, Trees, node, list, trees0, trees1, trees2, trees3, trees4, trees5};
use crate::sql_parser::text::{no_text};
use crate::sql_parser::token::{Token, TokenView};

verus! {

/// What [`Parser::parse_query`] yields from the token at `i` on.
#[verifier::opaque]
pub open spec fn query(p: Input, i: int) -> Out<TreeView>
    decreases p.toks.len() - i, 2int,
{
    (if p.depth >= RECURSION_LIMIT { Failed(too_deep(), i) } else { query_level(deeper(p), i) })
}

impl Parser {
    /// Parse a query expression, i.e. a `SELECT` statement optionally
    /// preceded with some `WITH` CTE declarations and optionally followed
    /// by `ORDER BY`. Unlike some other parse_... methods, this one doesn't
    /// expect the initial keyword to be already consumed.
    pub fn parse_query(&mut self) -> (r: Result<Tree, Failure>)
        requires
            old(self).ready(),
        ensures
            final(self).follows(*old(self), query(old(self).input(), old(self).index as int), r),
            r is Ok ==> final(self).index > old(self).index,
            r matches Err(e) ==> !(e@ is Unhandled),
        decreases old(self).tokens.len() - old(self).index, 2int,
    {
        broadcast use group_tree_views;

        proof {
            reveal(query);
            reveal(query_level);
        }
        self.descend()?;
        let outcome = self.parse_query_level();
        self.ascend();
        outcome
    }
}

/// What [`Parser::parse_query_level`] yields from the token at `i` on.
#[verifier::opaque]
pub open spec fn query_level(p: Input, i: int) -> Out<TreeView>
    decreases p.toks.len() - i, 1int,
{
    match onward(p, i, cte_block(p, i)) { Failed(e, i) => Failed(e, i), Got(ctes, i) => {
    match past(p, i, query_body(p, i, SetPrecedence::Zero)) { Failed(e, i) => Failed(e, i), Got(body, i) => {
    query_tail(p, i, ctes, body)
    }}
    }}
}

impl Parser {
    /// Parse a query expression at one nesting level.
    pub fn parse_query_level(&mut self) -> (r: Result<Tree, Failure>)
        requires
            old(self).ready(),
        ensures
            final(self).follows(*old(self), query_level(old(self).input(), old(self).index as int), r),
            r is Ok ==> final(self).index > old(self).index,
            r matches Err(e) ==> !(e@ is Unhandled),
        decreases old(self).tokens.len() - old(self).index, 1int,
    {
        broadcast use group_tree_views;

        proof {
            reveal(query_level);
            reveal(cte_block);
            reveal(query_body);
            reveal(query_tail);
        }
        let ctes = self.parse_cte_block()?;
        let body = self.parse_query_body(SetPrecedence::Zero)?;
        self.parse_query_tail(ctes, body)
    }
}

/// What [`Parser::parse_cte_block`] yields from the token at `i` on.
#[verifier::opaque]
pub open spec fn cte_block(p: Input, i: int) -> Out<TreeView>
    decreases p.toks.len() - i, 0int,
{
    if at_keyword(p, i, Keyword::WITH) {
        let i = i + 1;
        if at_keyword(p, i, Keyword::MUTUALLY) {
            let i = i + 1;
            match keyword(p, i, Keyword::RECURSIVE) { Failed(e, i) => Failed(e, i), Got(_, i) => {
            match onward(p, i, {
                if at_token(p, i, TokenView::LParen) {
                    let i = i + 1;
                    match past(p, i, mut_rec_block_option_list(p, i, Seq::<TreeView>::empty())) { Failed(e, i) => Failed(e, i), Got(os, i) => {
                    match token(p, i, TokenView::RParen) { Failed(e, i) => Failed(e, i), Got(_, i) => {
                    Got(TreeView::List(os), i)
                    }}
                    }}
                } else {
                    Got(TreeView::List(Seq::<TreeView>::empty()), i)
                }
            }) { Failed(e, i) => Failed(e, i), Got(options, i) => {
            match cte_mut_rec_list(p, i, Seq::<TreeView>::empty()) { Failed(e, i) => Failed(e, i), Got(ctes, i) => {
            Got(TreeView::Node(Kind::MutuallyRecursiveCtes, seq![TreeView::List(ctes), options]), i)
            }}
            }}
            }}
        } else {
            match cte_list(p, i, Seq::<TreeView>::empty()) { Failed(e, i) => Failed(e, i), Got(ctes, i) => {
            Got(TreeView::Node(Kind::SimpleCtes, seq![TreeView::List(ctes)]), i)
            }}
        }
    } else {
        Got(TreeView::Node(Kind::SimpleCtes, seq![TreeView::List(Seq::<TreeView>::empty())]), i)
    }
}

impl Parser {
    /// Parse the `WITH` CTE declarations, if there are any.
    pub fn parse_cte_block(&mut self) -> (r: Result<Tree, Failure>)
        requires
            old(self).ready(),
        ensures
            final(self).follows(*old(self), cte_block(old(self).input(), old(self).index as int), r),
            r matches Err(e) ==> !(e@ is Unhandled),
        decreases old(self).tokens.len() - old(self).index, 0int,
    {
        broadcast use group_tree_views;

        proof {
            reveal(cte_block);
            reveal(cte_list);
            reveal(cte_mut_rec_list);
        }
        if self.parse_keyword(Keyword::WITH) {
            if self.parse_keyword(Keyword::MUTUALLY) {
                self.expect_keyword(Keyword::RECURSIVE)?;
                let options = if self.consume_token(&Token::LParen) {
                    let os = self.parse_mut_rec_block_option_list(trees0())?;
                    self.expect_token(&Token::RParen)?;
                    list(os)
                } else {
                    list(trees0())
                };
                let ctes = self.parse_cte_mut_rec_list(trees0())?;
                Ok(node(Kind::MutuallyRecursiveCtes, trees2(list(ctes), options)))
            } else {
                let ctes = self.parse_cte_list(trees0())?;
                Ok(node(Kind::SimpleCtes, trees1(list(ctes))))
            }
        } else {
            Ok(node(Kind::SimpleCtes, trees1(list(trees0()))))
        }
    }
}

/// What [`Parser::parse_mut_rec_block_option`] yields from the token at `i` on.
#[verifier::opaque]
pub open spec fn mut_rec_block_option(p: Input, i: int) -> Out<TreeView>
{
    match one_keyword(p, i, seq![Keyword::RECURSION, Keyword::RETURN, Keyword::ERROR]) { Failed(e, i) => Failed(e, i), Got(k, i) => {
    match k {
        Keyword::RECURSION => {
            match keyword(p, i, Keyword::LIMIT) { Failed(e, i) => Failed(e, i), Got(_, i) => {
            match optional_option_value(p, i) { Failed(e, i) => Failed(e, i), Got(v, i) => {
            Got(TreeView::Node(Kind::MutRecBlockOption, seq![TreeView::Node(Kind::RecursionLimit, Seq::<TreeView>::empty()), v]), i)
            }}
            }}
        },
        Keyword::RETURN => {
            match keyword(p, i, Keyword::AT) { Failed(e, i) => Failed(e, i), Got(_, i) => {
            match keyword(p, i, Keyword::RECURSION) { Failed(e, i) => Failed(e, i), Got(_, i) => {
            match keyword(p, i, Keyword::LIMIT) { Failed(e, i) => Failed(e, i), Got(_, i) => {
            match optional_option_value(p, i) { Failed(e, i) => Failed(e, i), Got(v, i) => {
            Got(TreeView::Node(Kind::MutRecBlockOption, seq![TreeView::Node(Kind::ReturnAtRecursionLimit, Seq::<TreeView>::empty()), v]), i)
            }}
            }}}}}}
        },
        _ => {
            match keyword(p, i, Keyword::AT) { Failed(e, i) => Failed(e, i), Got(_, i) => {
            match keyword(p, i, Keyword::RECURSION) { Failed(e, i) => Failed(e, i), Got(_, i) => {
            match keyword(p, i, Keyword::LIMIT) { Failed(e, i) => Failed(e, i), Got(_, i) => {
            match optional_option_value(p, i) { Failed(e, i) => Failed(e, i), Got(v, i) => {
            Got(TreeView::Node(Kind::MutRecBlockOption, seq![TreeView::Node(Kind::ErrorAtRecursionLimit, Seq::<TreeView>::empty()), v]), i)
            }}
            }}}}}}
        },
    }
    }}
}

impl Parser {
    /// Parse an option of a `WITH MUTUALLY RECURSIVE` block.
    pub fn parse_mut_rec_block_option(&mut self) -> (r: Result<Tree, Failure>)
        requires
            old(self).ready(),
        ensures
            final(self).follows(*old(self), mut_rec_block_option(old(self).input(), old(self).index as int), r),
            r is Ok ==> final(self).index > old(self).index,
            r matches Err(e) ==> !(e@ is Unhandled),
    {
        broadcast use group_tree_views;

        proof {
            reveal(mut_rec_block_option);
        }
        let choices: [Keyword; 3] = [Keyword::RECURSION, Keyword::RETURN, Keyword::ERROR];
        assert(choices@ =~= seq![Keyword::RECURSION, Keyword::RETURN, Keyword::ERROR]);
        let k = self.expect_one_of_keywords(&choices)?;
        match k {
            Keyword::RECURSION => {
                self.expect_keyword(Keyword::LIMIT)?;
                let v = self.parse_optional_option_value()?;
                Ok(node(Kind::MutRecBlockOption, trees2(node(Kind::RecursionLimit, trees0()), v)))
            },
            Keyword::RETURN => {
                self.expect_keyword(Keyword::AT)?;
                self.expect_keyword(Keyword::RECURSION)?;
                self.expect_keyword(Keyword::LIMIT)?;
                let v = self.parse_optional_option_value()?;
                Ok(node(Kind::MutRecBlockOption, trees2(node(Kind::ReturnAtRecursionLimit, trees0()), v)))
            },
            _ => {
                self.expect_keyword(Keyword::AT)?;
                self.expect_keyword(Keyword::RECURSION)?;
                self.expect_keyword(Keyword::LIMIT)?;
                let v = self.parse_optional_option_value()?;
                Ok(node(Kind::MutRecBlockOption, trees2(node(Kind::ErrorAtRecursionLimit, trees0()), v)))
            },
        }
    }
}

/// What [`Parser::parse_mut_rec_block_option_list`] yields from the token at `i` on.
#[verifier::opaque]
pub open spec fn mut_rec_block_option_list(p: Input, i: int, items: Seq<TreeView>) -> Out<Seq<TreeView>>
    decreases p.toks.len() - i, 0int,
{
    match past(p, i, mut_rec_block_option(p, i)) { Failed(e, i) => Failed(e, i), Got(item, i) => {
    if at_token(p, i, TokenView::Comma) {
        let i = i + 1;
        mut_rec_block_option_list(p, i, items.push(item))
    } else {
        Got(items.push(item), i)
    }
    }}
}

impl Parser {
    /// Parses one or more `mut_rec_block_option`, separated by commas, after those in `items`.
    pub fn parse_mut_rec_block_option_list(&mut self, mut items: Trees) -> (r: Result<Trees, Failure>)
        requires
            old(self).ready(),
        ensures
            final(self).follows(*old(self), mut_rec_block_option_list(old(self).input(), old(self).index as int, items@), r),
            r is Ok ==> final(self).index > old(self).index,
            r matches Ok(all) ==> all@.len() > items@.len(),
            r matches Err(e) ==> !(e@ is Unhandled),
        decreases old(self).tokens.len() - old(self).index, 0int,
    {
        broadcast use group_tree_views;

        proof {
            reveal(mut_rec_block_option_list);
        }
        let ghost before = *self;
        let ghost given = items@.len();
        let ghost goal = mut_rec_block_option_list(self.input(), self.index as int, items@);
        #[verifier::loop_isolation(false)]
        loop
            invariant
                self.ready(),
                self.input() == before.input(),
                self.tokens.len() == before.tokens.len(),
                before.index <= self.index,
                before == *old(self),
                given <= items@.len(),
                mut_rec_block_option_list(self.input(), self.index as int, items@) == goal,
            decreases self.tokens.len() - self.index,
        {
            proof {
                reveal(mut_rec_block_option_list);
            }
            let item = self.parse_mut_rec_block_option()?;
            if self.consume_token(&Token::Comma) {
                items = items.with(item);
                continue;
            } else {
                return Ok(items.with(item));
            }
        }
    }
}

/// What [`Parser::parse_query_tail`] yields from the token at `i` on.
#[verifier::opaque]
pub open spec fn query_tail(p: Input, i: int, ctes: TreeView, body: TreeView) -> Out<TreeView>
    decreases p.toks.len() - i, 0int,
{
    let (inner_ctes, inner_order_by, inner_limit, inner_offset, body) = query_parts(body);
    match onward(p, i, {
        if no_members(ctes) {
            Got(inner_ctes, i)
        } else {
            if !no_members(inner_ctes) {
                Failed(error_view(position(p, i), no_text() + "multiple WITH clauses not allowed"@), i)
            } else {
                Got(ctes, i)
            }
        }
    }) { Failed(e, i) => Failed(e, i), Got(ctes, i) => {
    match onward(p, i, {
        if at_keywords2(p, i, Keyword::ORDER, Keyword::BY) {
            let i = i + 2;
            if !is_empty_list(inner_order_by) {
                Failed(error_view(position(p, i - 1), no_text() + "multiple ORDER BY clauses not allowed"@), i)
            } else {
                match past(p, i, order_by_expr_list(p, i, Seq::<TreeView>::empty())) { Failed(e, i) => Failed(e, i), Got(es, i) => {
                Got(TreeView::List(es), i)
                }}
            }
        } else {
            Got(inner_order_by, i)
        }
    }) { Failed(e, i) => Failed(e, i), Got(order_by, i) => {
    match onward(p, i, {
        if at_keyword(p, i, Keyword::LIMIT) {
            let i = i + 1;
            if !(inner_limit is Absent) {
                Failed(error_view(position(p, i - 1), no_text() + "multiple LIMIT/FETCH clauses not allowed"@), i)
            } else {
                if at_keyword(p, i, Keyword::ALL) {
                    let i = i + 1;
                    Got(TreeView::Absent, i)
                } else {
                    match past(p, i, expr(p, i)) { Failed(e, i) => Failed(e, i), Got(quantity, i) => {
                    Got(TreeView::Node(Kind::Limit, seq![TreeView::Flag(false), quantity]), i)
                    }}
                }
            }
        } else {
            Got(inner_limit, i)
        }
    }) { Failed(e, i) => Failed(e, i), Got(limit, i) => {
    match onward(p, i, {
        if at_keyword(p, i, Keyword::OFFSET) {
            let i = i + 1;
            if !(inner_offset is Absent) {
                Failed(error_view(position(p, i - 1), no_text() + "multiple OFFSET clauses not allowed"@), i)
            } else {
                match past(p, i, expr(p, i)) { Failed(e, i) => Failed(e, i), Got(v, i) => {
                match onward(p, i, skip_row_word(p, i)) { Failed(e, i) => Failed(e, i), Got(_, i) => {
                Got(v, i)
                }}
                }}
            }
        } else {
            Got(inner_offset, i)
        }
    }) { Failed(e, i) => Failed(e, i), Got(offset, i) => {
    match {
        if !(limit is Absent) {
            Got(limit, i)
        } else {
            if at_keyword(p, i, Keyword::FETCH) {
                let i = i + 1;
                fetch_clause(p, i)
            } else {
                Got(limit, i)
            }
        }
    } { Failed(e, i) => Failed(e, i), Got(limit, i) => {
    Got(TreeView::Node(Kind::Query, seq![ctes, body, order_by, limit, offset]), i)
    }}
    }}
    }}
    }}
    }}
}

impl Parser {
    /// Parse the `ORDER BY`, `LIMIT`, `OFFSET` and `FETCH` clauses that may follow a
    /// query's body. Those of a body that is itself a query in parentheses become
    /// the query's own.
    #[verifier::rlimit(60)]
    pub fn parse_query_tail(&mut self, ctes: Tree, body: Tree) -> (r: Result<Tree, Failure>)
        requires
            old(self).ready(),
        ensures
            final(self).follows(*old(self), query_tail(old(self).input(), old(self).index as int, ctes@, body@), r),
            r matches Err(e) ==> !(e@ is Unhandled),
        decreases old(self).tokens.len() - old(self).index, 0int,
    {
        broadcast use group_tree_views;

        proof {
            reveal(query_tail);
            reveal(expr);
            reveal(fetch_clause);
            reveal(order_by_expr_list);
        }
        let (inner_ctes, inner_order_by, inner_limit, inner_offset, body) = split_query(body);
        let ctes = if ctes.has_no_members() {
            inner_ctes
        } else if !inner_ctes.has_no_members() {
            let pos: usize = self.peek_pos();
            return Err(error(pos, String::new().concat("multiple WITH clauses not allowed")));
        } else {
            ctes
        };
        let order_by = if self.parse_keywords2(Keyword::ORDER, Keyword::BY) {
            if !inner_order_by.is_empty_list() {
                let pos: usize = self.peek_prev_pos();
                return Err(error(pos, String::new().concat("multiple ORDER BY clauses not allowed")));
            } else {
                let es = self.parse_order_by_expr_list(trees0())?;
                list(es)
            }
        } else {
            inner_order_by
        };
        let limit = if self.parse_keyword(Keyword::LIMIT) {
            if !inner_limit.is_absent() {
                let pos: usize = self.peek_prev_pos();
                return Err(error(pos, String::new().concat("multiple LIMIT/FETCH clauses not allowed")));
            } else if self.parse_keyword(Keyword::ALL) {
                Tree::Absent
            } else {
                let quantity = self.parse_expr()?;
                node(Kind::Limit, trees2(Tree::Flag(false), quantity))
            }
        } else {
            inner_limit
        };
        let offset = if self.parse_keyword(Keyword::OFFSET) {
            if !inner_offset.is_absent() {
                let pos: usize = self.peek_prev_pos();
                return Err(error(pos, String::new().concat("multiple OFFSET clauses not allowed")));
            } else {
                let v = self.parse_expr()?;
                self.parse_skip_row_word()?;
                v
            }
        } else {
            inner_offset
        };
        let limit = if !limit.is_absent() {
            limit
        } else if self.parse_keyword(Keyword::FETCH) {
            self.parse_fetch_clause()?
        } else {
            limit
        };
        Ok(node(Kind::Query, trees5(ctes, body, order_by, limit, offset)))
    }
}

/// What [`Parser::parse_skip_row_word`] yields from the token at `i` on.
#[verifier::opaque]
pub open spec fn skip_row_word(p: Input, i: int) -> Out<()>
{
    match one_of(p, i, seq![Keyword::ROW, Keyword::ROWS]) {
        Some(_) => {
            let i = i + 1;
            Got((), i)
        },
        None => {
            Got((), i)
        },
    }
}

impl Parser {
    /// Parse `ROW` or `ROWS`, if it is there.
    pub fn parse_skip_row_word(&mut self) -> (r: Result<(), Failure>)
        requires
            old(self).ready(),
        ensures
            final(self).follows(*old(self), skip_row_word(old(self).input(), old(self).index as int), r),
            r matches Err(e) ==> !(e@ is Unhandled),
    {
        broadcast use group_tree_views;

        proof {
            reveal(skip_row_word);
        }
        let choices: [Keyword; 2] = [Keyword::ROW, Keyword::ROWS];
        assert(choices@ =~= seq![Keyword::ROW, Keyword::ROWS]);
        match self.parse_one_of_keywords(&choices) {
            Some(_) => {
                Ok(())
            },
            None => {
                Ok(())
            },
        }
    }
}

/// What [`Parser::parse_fetch_clause`] yields from the token at `i` on.
#[verifier::opaque]
pub open spec fn fetch_clause(p: Input, i: int) -> Out<TreeView>
    decreases p.toks.len() - i, 0int,
{
    match one_keyword(p, i, seq![Keyword::FIRST, Keyword::NEXT]) { Failed(e, i) => Failed(e, i), Got(k, i) => {
    match {
        match one_of(p, i, seq![Keyword::ROW, Keyword::ROWS]) {
            Some(_) => {
                let i = i + 1;
                Got(TreeView::Node(Kind::NumberValue, seq![TreeView::Text("1"@)]), i)
            },
            None => {
                match expr(p, i) { Failed(e, i) => Failed(e, i), Got(q, i) => {
                match one_keyword(p, i, seq![Keyword::ROW, Keyword::ROWS]) { Failed(e, i) => Failed(e, i), Got(k, i) => {
                Got(q, i)
                }}
                }}
            },
        }
    } { Failed(e, i) => Failed(e, i), Got(quantity, i) => {
    if at_keyword(p, i, Keyword::ONLY) {
        let i = i + 1;
        Got(TreeView::Node(Kind::Limit, seq![TreeView::Flag(false), quantity]), i)
    } else {
        if at_keywords2(p, i, Keyword::WITH, Keyword::TIES) {
            let i = i + 2;
            Got(TreeView::Node(Kind::Limit, seq![TreeView::Flag(true), quantity]), i)
        } else {
            Failed(expected_at(p, i, "one of ONLY or WITH TIES"@), i)
        }
    }
    }}
    }}
}

impl Parser {
    /// Parse what follows `FETCH` in a query.
    pub fn parse_fetch_clause(&mut self) -> (r: Result<Tree, Failure>)
        requires
            old(self).ready(),
        ensures
            final(self).follows(*old(self), fetch_clause(old(self).input(), old(self).index as int), r),
            r is Ok ==> final(self).index > old(self).index,
            r matches Err(e) ==> !(e@ is Unhandled),
        decreases old(self).tokens.len() - old(self).index, 0int,
    {
        broadcast use group_tree_views;

        proof {
            reveal(fetch_clause);
            reveal(expr);
        }
        let choices: [Keyword; 2] = [Keyword::FIRST, Keyword::NEXT];
        assert(choices@ =~= seq![Keyword::FIRST, Keyword::NEXT]);
        let k = self.expect_one_of_keywords(&choices)?;
        let choices: [Keyword; 2] = [Keyword::ROW, Keyword::ROWS];
        assert(choices@ =~= seq![Keyword::ROW, Keyword::ROWS]);
        let quantity = match self.parse_one_of_keywords(&choices) {
            Some(_) => {
                node(Kind::NumberValue, trees1(Tree::Text(String::from_str("1"))))
            },
            None => {
                let q = self.parse_expr()?;
                let choices: [Keyword; 2] = [Keyword::ROW, Keyword::ROWS];
                assert(choices@ =~= seq![Keyword::ROW, Keyword::ROWS]);
                let k = self.expect_one_of_keywords(&choices)?;
                q
            },
        };
        if self.parse_keyword(Keyword::ONLY) {
            Ok(node(Kind::Limit, trees2(Tree::Flag(false), quantity)))
        } else if self.parse_keywords2(Keyword::WITH, Keyword::TIES) {
            Ok(node(Kind::Limit, trees2(Tree::Flag(true), quantity)))
        } else {
            Err(self.expected_here("one of ONLY or WITH TIES"))
        }
    }
}

/// What [`Parser::parse_cte`] yields from the token at `i` on.
#[verifier::opaque]
pub open spec fn cte(p: Input, i: int) -> Out<TreeView>
    decreases p.toks.len() - i, 0int,
{
    match past(p, i, identifier(p, i)) { Failed(e, i) => Failed(e, i), Got(name, i) => {
    match onward(p, i, parenthesized_column_list(p, i, true)) { Failed(e, i) => Failed(e, i), Got(columns, i) => {
    match keyword(p, i, Keyword::AS) { Failed(e, i) => Failed(e, i), Got(_, i) => {
    match token(p, i, TokenView::LParen) { Failed(e, i) => Failed(e, i), Got(_, i) => {
    match query(p, i) { Failed(e, i) => Failed(e, i), Got(q, i) => {
    match token(p, i, TokenView::RParen) { Failed(e, i) => Failed(e, i), Got(_, i) => {
    Got(TreeView::Node(Kind::Cte, seq![TreeView::Node(Kind::TableAlias, seq![name, columns, TreeView::Flag(false)]), q]), i)
    }}
    }}
    }}
    }}
    }}
    }}
}

impl Parser {
    /// Parse a CTE (`alias [( col1, col2, ... )] AS (subquery)`).
    pub fn parse_cte(&mut self) -> (r: Result<Tree, Failure>)
        requires
            old(self).ready(),
        ensures
            final(self).follows(*old(self), cte(old(self).input(), old(self).index as int), r),
            r is Ok ==> final(self).index > old(self).index,
            r matches Err(e) ==> !(e@ is Unhandled),
        decreases old(self).tokens.len() - old(self).index, 0int,
    {
        broadcast use group_tree_views;

        proof {
            reveal(cte);
            reveal(query);
        }
        let name = self.parse_identifier()?;
        let columns = self.parse_parenthesized_column_list(true)?;
        self.expect_keyword(Keyword::AS)?;
        self.expect_token(&Token::LParen)?;
        let q = self.parse_query()?;
        self.expect_token(&Token::RParen)?;
        Ok(node(Kind::Cte, trees2(node(Kind::TableAlias, trees3(name, columns, Tree::Flag(false))), q)))
    }
}

/// What [`Parser::parse_cte_list`] yields from the token at `i` on.
#[verifier::opaque]
pub open spec fn cte_list(p: Input, i: int, items: Seq<TreeView>) -> Out<Seq<TreeView>>
    decreases p.toks.len() - i, 1int,
{
    match past(p, i, cte(p, i)) { Failed(e, i) => Failed(e, i), Got(item, i) => {
    if at_token(p, i, TokenView::Comma) {
        let i = i + 1;
        cte_list(p, i, items.push(item))
    } else {
        Got(items.push(item), i)
    }
    }}
}

impl Parser {
    /// Parses one or more `cte`, separated by commas, after those in `items`.
    pub fn parse_cte_list(&mut self, mut items: Trees) -> (r: Result<Trees, Failure>)
        requires
            old(self).ready(),
        ensures
            final(self).follows(*old(self), cte_list(old(self).input(), old(self).index as int, items@), r),
            r is Ok ==> final(self).index > old(self).index,
            r matches Ok(all) ==> all@.len() > items@.len(),
            r matches Err(e) ==> !(e@ is Unhandled),
        decreases old(self).tokens.len() - old(self).index, 1int,
    {
        broadcast use group_tree_views;

        proof {
            reveal(cte_list);
            reveal(cte);
        }
        let ghost before = *self;
        let ghost given = items@.len();
        let ghost goal = cte_list(self.input(), self.index as int, items@);
        #[verifier::loop_isolation(false)]
        loop
            invariant
                self.ready(),
                self.input() == before.input(),
                self.tokens.len() == before.tokens.len(),
                before.index <= self.index,
                before == *old(self),
                given <= items@.len(),
                cte_list(self.input(), self.index as int, items@) == goal,
            decreases self.tokens.len() - self.index,
        {
            proof {
                reveal(cte_list);
                reveal(cte);
            }
            let item = self.parse_cte()?;
            if self.consume_token(&Token::Comma) {
                items = items.with(item);
                continue;
            } else {
                return Ok(items.with(item));
            }
        }
    }
}

/// What [`Parser::parse_cte_mut_rec_column`] yields from the token at `i` on.
#[verifier::opaque]
pub open spec fn cte_mut_rec_column(p: Input, i: int) -> Out<TreeView>
{
    match identifier(p, i) { Failed(e, i) => Failed(e, i), Got(name, i) => {
    match data_type(p, i) { Failed(e, i) => Failed(e, i), Got(data_type, i) => {
    Got(TreeView::Node(Kind::CteMutRecColumnDef, seq![name, data_type]), i)
    }}
    }}
}

impl Parser {
    /// Parse a column of a mutually recursive CTE.
    pub fn parse_cte_mut_rec_column(&mut self) -> (r: Result<Tree, Failure>)
        requires
            old(self).ready(),
        ensures
            final(self).follows(*old(self), cte_mut_rec_column(old(self).input(), old(self).index as int), r),
            r is Ok ==> final(self).index > old(self).index,
            r matches Err(e) ==> !(e@ is Unhandled),
    {
        broadcast use group_tree_views;

        proof {
            reveal(cte_mut_rec_column);
        }
        let name = self.parse_identifier()?;
        let data_type = self.parse_data_type()?;
        Ok(node(Kind::CteMutRecColumnDef, trees2(name, data_type)))
    }
}

/// What [`Parser::parse_cte_mut_rec_column_list`] yields from the token at `i` on.
#[verifier::opaque]
pub open spec fn cte_mut_rec_column_list(p: Input, i: int, items: Seq<TreeView>) -> Out<Seq<TreeView>>
    decreases p.toks.len() - i, 0int,
{
    match past(p, i, cte_mut_rec_column(p, i)) { Failed(e, i) => Failed(e, i), Got(item, i) => {
    if at_token(p, i, TokenView::Comma) {
        let i = i + 1;
        cte_mut_rec_column_list(p, i, items.push(item))
    } else {
        Got(items.push(item), i)
    }
    }}
}

impl Parser {
    /// Parses one or more `cte_mut_rec_column`, separated by commas, after those in `items`.
    pub fn parse_cte_mut_rec_column_list(&mut self, mut items: Trees) -> (r: Result<Trees, Failure>)
        requires
            old(self).ready(),
        ensures
            final(self).follows(*old(self), cte_mut_rec_column_list(old(self).input(), old(self).index as int, items@), r),
            r is Ok ==> final(self).index > old(self).index,
            r matches Ok(all) ==> all@.len() > items@.len(),
            r matches Err(e) ==> !(e@ is Unhandled),
        decreases old(self).tokens.len() - old(self).index, 0int,
    {
        broadcast use group_tree_views;

        proof {
            reveal(cte_mut_rec_column_list);
        }
        let ghost before = *self;
        let ghost given = items@.len();
        let ghost goal = cte_mut_rec_column_list(self.input(), self.index as int, items@);
        #[verifier::loop_isolation(false)]
        loop
            invariant
                self.ready(),
                self.input() == before.input(),
                self.tokens.len() == before.tokens.len(),
                before.index <= self.index,
                before == *old(self),
                given <= items@.len(),
                cte_mut_rec_column_list(self.input(), self.index as int, items@) == goal,
            decreases self.tokens.len() - self.index,
        {
            proof {
                reveal(cte_mut_rec_column_list);
            }
            let item = self.parse_cte_mut_rec_column()?;
            if self.consume_token(&Token::Comma) {
                items = items.with(item);
                continue;
            } else {
                return Ok(items.with(item));
            }
        }
    }
}

/// What [`Parser::parse_cte_mut_rec`] yields from the token at `i` on.
#[verifier::opaque]
pub open spec fn cte_mut_rec(p: Input, i: int) -> Out<TreeView>
    decreases p.toks.len() - i, 0int,
{
    match past(p, i, identifier(p, i)) { Failed(e, i) => Failed(e, i), Got(name, i) => {
    match token(p, i, TokenView::LParen) { Failed(e, i) => Failed(e, i), Got(_, i) => {
    match past(p, i, cte_mut_rec_column_list(p, i, Seq::<TreeView>::empty())) { Failed(e, i) => Failed(e, i), Got(columns, i) => {
    match token(p, i, TokenView::RParen) { Failed(e, i) => Failed(e, i), Got(_, i) => {
    match keyword(p, i, Keyword::AS) { Failed(e, i) => Failed(e, i), Got(_, i) => {
    match token(p, i, TokenView::LParen) { Failed(e, i) => Failed(e, i), Got(_, i) => {
    match query(p, i) { Failed(e, i) => Failed(e, i), Got(q, i) => {
    match token(p, i, TokenView::RParen) { Failed(e, i) => Failed(e, i), Got(_, i) => {
    Got(TreeView::Node(Kind::CteMutRec, seq![name, TreeView::List(columns), q]), i)
    }}
    }}
    }}
    }}
    }}
    }}
    }}
    }}
}

impl Parser {
    /// Parse a mutually recursive CTE (`alias ( col1: typ1, col2: typ2, ... ) AS (subquery)`).
    ///
    /// The main distinction from `parse_cte` is that the column names and types are mandatory.
    /// This is not how SQL works for `WITH RECURSIVE`, but we are doing it for now to make the
    /// query interpretation that much easier.
    pub fn parse_cte_mut_rec(&mut self) -> (r: Result<Tree, Failure>)
        requires
            old(self).ready(),
        ensures
            final(self).follows(*old(self), cte_mut_rec(old(self).input(), old(self).index as int), r),
            r is Ok ==> final(self).index > old(self).index,
            r matches Err(e) ==> !(e@ is Unhandled),
        decreases old(self).tokens.len() - old(self).index, 0int,
    {
        broadcast use group_tree_views;

        proof {
            reveal(cte_mut_rec);
            reveal(query);
        }
        let name = self.parse_identifier()?;
        self.expect_token(&Token::LParen)?;
        let columns = self.parse_cte_mut_rec_column_list(trees0())?;
        self.expect_token(&Token::RParen)?;
        self.expect_keyword(Keyword::AS)?;
        self.expect_token(&Token::LParen)?;
        let q = self.parse_query()?;
        self.expect_token(&Token::RParen)?;
        Ok(node(Kind::CteMutRec, trees3(name, list(columns), q)))
    }
}

/// What [`Parser::parse_cte_mut_rec_list`] yields from the token at `i` on.
#[verifier::opaque]
pub open spec fn cte_mut_rec_list(p: Input, i: int, items: Seq<TreeView>) -> Out<Seq<TreeView>>
    decreases p.toks.len() - i, 1int,
{
    match past(p, i, cte_mut_rec(p, i)) { Failed(e, i) => Failed(e, i), Got(item, i) => {
    if at_token(p, i, TokenView::Comma) {
        let i = i + 1;
        cte_mut_rec_list(p, i, items.push(item))
    } else {
        Got(items.push(item), i)
    }
    }}
}

impl Parser {
    /// Parses one or more `cte_mut_rec`, separated by commas, after those in `items`.
    pub fn parse_cte_mut_rec_list(&mut self, mut items: Trees) -> (r: Result<Trees, Failure>)
        requires
            old(self).ready(),
        ensures
            final(self).follows(*old(self), cte_mut_rec_list(old(self).input(), old(self).index as int, items@), r),
            r is Ok ==> final(self).index > old(self).index,
            r matches Ok(all) ==> all@.len() > items@.len(),
            r matches Err(e) ==> !(e@ is Unhandled),
        decreases old(self).tokens.len() - old(self).index, 1int,
    {
        broadcast use group_tree_views;

        proof {
            reveal(cte_mut_rec_list);
            reveal(cte_mut_rec);
        }
        let ghost before = *self;
        let ghost given = items@.len();
        let ghost goal = cte_mut_rec_list(self.input(), self.index as int, items@);
        #[verifier::loop_isolation(false)]
        loop
            invariant
                self.ready(),
                self.input() == before.input(),
                self.tokens.len() == before.tokens.len(),
                before.index <= self.index,
                before == *old(self),
                given <= items@.len(),
                cte_mut_rec_list(self.input(), self.index as int, items@) == goal,
            decreases self.tokens.len() - self.index,
        {
            proof {
                reveal(cte_mut_rec_list);
                reveal(cte_mut_rec);
            }
            let item = self.parse_cte_mut_rec()?;
            if self.consume_token(&Token::Comma) {
                items = items.with(item);
                continue;
            } else {
                return Ok(items.with(item));
            }
        }
    }
}

/// What [`Parser::parse_query_body`] yields from the token at `i` on.
#[verifier::opaque]
pub open spec fn query_body(p: Input, i: int, precedence: SetPrecedence) -> Out<TreeView>
    decreases p.toks.len() - i, 0int,
{
    match onward(p, i, {
        if at_keyword(p, i, Keyword::SELECT) {
            let i = i + 1;
            match onward(p, i, select(p, i)) { Failed(e, i) => Failed(e, i), Got(s, i) => {
            Got(TreeView::Node(Kind::SelectBody, seq![s]), i)
            }}
        } else {
            if at_token(p, i, TokenView::LParen) {
                let i = i + 1;
                match past(p, i, query(p, i)) { Failed(e, i) => Failed(e, i), Got(subquery, i) => {
                match token(p, i, TokenView::RParen) { Failed(e, i) => Failed(e, i), Got(_, i) => {
                Got(TreeView::Node(Kind::QueryBody, seq![subquery]), i)
                }}
                }}
            } else {
                if at_keyword(p, i, Keyword::VALUES) {
                    let i = i + 1;
                    match past(p, i, values_row_list(p, i, Seq::<TreeView>::empty())) { Failed(e, i) => Failed(e, i), Got(rows, i) => {
                    Got(TreeView::Node(Kind::ValuesBody, seq![TreeView::List(rows)]), i)
                    }}
                } else {
                    if at_keyword(p, i, Keyword::SHOW) {
                        let i = i + 1;
                        match onward(p, i, show(p, i)) { Failed(e, i) => Failed(e, i), Got(s, i) => {
                        Got(TreeView::Node(Kind::ShowBody, seq![s]), i)
                        }}
                    } else {
                        Failed(expected_at(p, i, "SELECT, VALUES, or a subquery in the query body"@), i)
                    }
                }
            }
        }
    }) { Failed(e, i) => Failed(e, i), Got(e, i) => {
    query_body_seeded(p, i, precedence, e)
    }}
}

impl Parser {
    /// Parse a "query body", which is an expression with roughly the
    /// following grammar:
    /// ```text
    ///   query_body ::= restricted_select | '(' subquery ')' | set_operation
    ///   restricted_select ::= 'SELECT' [expr_list] [ from ] [ where ] [ groupby_having ]
    ///   subquery ::= query_body [ order_by_limit ]
    ///   set_operation ::= query_body { 'UNION' | 'EXCEPT' | 'INTERSECT' } [ 'ALL' ] query_body
    /// ```
    pub fn parse_query_body(&mut self, precedence: SetPrecedence) -> (r: Result<Tree, Failure>)
        requires
            old(self).ready(),
        ensures
            final(self).follows(*old(self), query_body(old(self).input(), old(self).index as int, precedence), r),
            r is Ok ==> final(self).index > old(self).index,
            r matches Err(e) ==> !(e@ is Unhandled),
        decreases old(self).tokens.len() - old(self).index, 0int,
    {
        broadcast use group_tree_views;

        proof {
            reveal(query_body);
            reveal(query);
            reveal(query_body_seeded);
            reveal(select);
            reveal(show);
            reveal(values_row_list);
        }
        let e = if self.parse_keyword(Keyword::SELECT) {
            let s = self.parse_select()?;
            node(Kind::SelectBody, trees1(s))
        } else if self.consume_token(&Token::LParen) {
            let subquery = self.parse_query()?;
            self.expect_token(&Token::RParen)?;
            node(Kind::QueryBody, trees1(subquery))
        } else if self.parse_keyword(Keyword::VALUES) {
            let rows = self.parse_values_row_list(trees0())?;
            node(Kind::ValuesBody, trees1(list(rows)))
        } else if self.parse_keyword(Keyword::SHOW) {
            let s = self.parse_show()?;
            node(Kind::ShowBody, trees1(s))
        } else {
            return Err(self.expected_here("SELECT, VALUES, or a subquery in the query body"));
        };
        self.parse_query_body_seeded(precedence, e)
    }
}

/// What [`Parser::parse_query_body_seeded`] yields from the token at `i` on.
#[verifier::opaque]
pub open spec fn query_body_seeded(p: Input, i: int, precedence: SetPrecedence, e: TreeView) -> Out<TreeView>
    decreases p.toks.len() - i, 0int,
{
    match token_at(p, i) {
        Some(TokenView::Keyword(Keyword::UNION)) => {
            if set_binding(precedence) >= set_binding(SetPrecedence::UnionExcept) {
                Got(e, i)
            } else {
                match keyword(p, i, Keyword::UNION) { Failed(e, i) => Failed(e, i), Got(_, i) => {
                match onward(p, i, set_operation_all(p, i)) { Failed(e, i) => Failed(e, i), Got(all, i) => {
                match past(p, i, query_body(p, i, SetPrecedence::UnionExcept)) { Failed(e, i) => Failed(e, i), Got(right, i) => {
                query_body_seeded(p, i, precedence, TreeView::Node(Kind::SetOperation, seq![e, TreeView::Node(Kind::Union, Seq::<TreeView>::empty()), TreeView::Flag(all), right]))
                }}
                }}
                }}
            }
        },
        Some(TokenView::Keyword(Keyword::EXCEPT)) => {
            if set_binding(precedence) >= set_binding(SetPrecedence::UnionExcept) {
                Got(e, i)
            } else {
                match keyword(p, i, Keyword::EXCEPT) { Failed(e, i) => Failed(e, i), Got(_, i) => {
                match onward(p, i, set_operation_all(p, i)) { Failed(e, i) => Failed(e, i), Got(all, i) => {
                match past(p, i, query_body(p, i, SetPrecedence::UnionExcept)) { Failed(e, i) => Failed(e, i), Got(right, i) => {
                query_body_seeded(p, i, precedence, TreeView::Node(Kind::SetOperation, seq![e, TreeView::Node(Kind::Except, Seq::<TreeView>::empty()), TreeView::Flag(all), right]))
                }}
                }}
                }}
            }
        },
        Some(TokenView::Keyword(Keyword::INTERSECT)) => {
            if set_binding(precedence) >= set_binding(SetPrecedence::Intersect) {
                Got(e, i)
            } else {
                match keyword(p, i, Keyword::INTERSECT) { Failed(e, i) => Failed(e, i), Got(_, i) => {
                match onward(p, i, set_operation_all(p, i)) { Failed(e, i) => Failed(e, i), Got(all, i) => {
                match past(p, i, query_body(p, i, SetPrecedence::Intersect)) { Failed(e, i) => Failed(e, i), Got(right, i) => {
                query_body_seeded(p, i, precedence, TreeView::Node(Kind::SetOperation, seq![e, TreeView::Node(Kind::Intersect, Seq::<TreeView>::empty()), TreeView::Flag(all), right]))
                }}
                }}
                }}
            }
        },
        _ => {
            Got(e, i)
        },
    }
}

impl Parser {
    /// Parse the set operators that follow the query body `e`, until the precedence
    /// decreases.
    #[verifier::rlimit(30)]
    pub fn parse_query_body_seeded(&mut self, mut precedence: SetPrecedence, mut e: Tree) -> (r: Result<Tree, Failure>)
        requires
            old(self).ready(),
        ensures
            final(self).follows(*old(self), query_body_seeded(old(self).input(), old(self).index as int, precedence, e@), r),
            r matches Err(e) ==> !(e@ is Unhandled),
        decreases old(self).tokens.len() - old(self).index, 0int,
    {
        broadcast use group_tree_views;

        proof {
            reveal(query_body_seeded);
            reveal(query_body);
        }
        let ghost before = *self;
        let ghost goal = query_body_seeded(self.input(), self.index as int, precedence, e@);
        #[verifier::loop_isolation(false)]
        loop
            invariant
                self.ready(),
                self.input() == before.input(),
                self.tokens.len() == before.tokens.len(),
                before.index <= self.index,
                before == *old(self),
                query_body_seeded(self.input(), self.index as int, precedence, e@) == goal,
            decreases self.tokens.len() - self.index,
        {
            proof {
                reveal(query_body_seeded);
                reveal(query_body);
            }
            match self.peek_token() {
                Some(Token::Keyword(Keyword::UNION)) => {
                    if precedence.at_least(SetPrecedence::UnionExcept) {
                        return Ok(e);
                    } else {
                        self.expect_keyword(Keyword::UNION)?;
                        let all = self.parse_set_operation_all()?;
                        let right = self.parse_query_body(SetPrecedence::UnionExcept)?;
                        e = node(Kind::SetOperation, trees4(e, node(Kind::Union, trees0()), Tree::Flag(all), right));
                        continue;
                    }
                },
                Some(Token::Keyword(Keyword::EXCEPT)) => {
                    if precedence.at_least(SetPrecedence::UnionExcept) {
                        return Ok(e);
                    } else {
                        self.expect_keyword(Keyword::EXCEPT)?;
                        let all = self.parse_set_operation_all()?;
                        let right = self.parse_query_body(SetPrecedence::UnionExcept)?;
                        e = node(Kind::SetOperation, trees4(e, node(Kind::Except, trees0()), Tree::Flag(all), right));
                        continue;
                    }
                },
                Some(Token::Keyword(Keyword::INTERSECT)) => {
                    if precedence.at_least(SetPrecedence::Intersect) {
                        return Ok(e);
                    } else {
                        self.expect_keyword(Keyword::INTERSECT)?;
                        let all = self.parse_set_operation_all()?;
                        let right = self.parse_query_body(SetPrecedence::Intersect)?;
                        e = node(Kind::SetOperation, trees4(e, node(Kind::Intersect, trees0()), Tree::Flag(all), right));
                        continue;
                    }
                },
                _ => {
                    return Ok(e);
                },
            }
        }
    }
}

/// What [`Parser::parse_set_operation_all`] yields from the token at `i` on.
#[verifier::opaque]
pub open spec fn set_operation_all(p: Input, i: int) -> Out<bool>
{
    let all = at_keyword(p, i, Keyword::ALL);
    let i = if all { i + 1 } else { i };
    let distinct = at_keyword(p, i, Keyword::DISTINCT);
    let i = if distinct { i + 1 } else { i };
    if all && distinct {
        Failed(error_view(position(p, i - 1), no_text() + "Cannot specify both ALL and DISTINCT in set operation"@), i)
    } else {
        Got(all, i)
    }
}

impl Parser {
    /// Parse `ALL` or `DISTINCT` after a set operator; tell whether it is `ALL`.
    pub fn parse_set_operation_all(&mut self) -> (r: Result<bool, Failure>)
        requires
            old(self).ready(),
        ensures
            final(self).follows(*old(self), set_operation_all(old(self).input(), old(self).index as int), r),
            r matches Err(e) ==> !(e@ is Unhandled),
    {
        broadcast use group_tree_views;

        proof {
            reveal(set_operation_all);
        }
        let all = self.parse_keyword(Keyword::ALL);
        let distinct = self.parse_keyword(Keyword::DISTINCT);
        if all && distinct {
            let pos: usize = self.peek_prev_pos();
            Err(error(pos, String::new().concat("Cannot specify both ALL and DISTINCT in set operation")))
        } else {
            Ok(all)
        }
    }
}

/// What [`Parser::parse_order_by_expr`] yields from the token at `i` on.
#[verifier::opaque]
pub open spec fn order_by_expr(p: Input, i: int) -> Out<TreeView>
    decreases p.toks.len() - i, 4int,
{
    match expr(p, i) { Failed(e, i) => Failed(e, i), Got(e, i) => {
    match {
        if at_keyword(p, i, Keyword::ASC) {
            let i = i + 1;
            Got(TreeView::Flag(true), i)
        } else {
            if at_keyword(p, i, Keyword::DESC) {
                let i = i + 1;
                Got(TreeView::Flag(false), i)
            } else {
                Got(TreeView::Absent, i)
            }
        }
    } { Failed(e, i) => Failed(e, i), Got(asc, i) => {
    match {
        if at_keyword(p, i, Keyword::NULLS) {
            let i = i + 1;
            match one_keyword(p, i, seq![Keyword::FIRST, Keyword::LAST]) { Failed(e, i) => Failed(e, i), Got(k, i) => {
            if k == Keyword::LAST {
                Got(TreeView::Flag(true), i)
            } else {
                Got(TreeView::Flag(false), i)
            }
            }}
        } else {
            Got(TreeView::Absent, i)
        }
    } { Failed(e, i) => Failed(e, i), Got(nulls_last, i) => {
    Got(TreeView::Node(Kind::OrderByExpr, seq![e, asc, nulls_last]), i)
    }}
    }}
    }}
}

impl Parser {
    /// Parse an expression, optionally followed by ASC or DESC,
    /// and then `[NULLS { FIRST | LAST }]` (used in ORDER BY).
    pub fn parse_order_by_expr(&mut self) -> (r: Result<Tree, Failure>)
        requires
            old(self).ready(),
        ensures
            final(self).follows(*old(self), order_by_expr(old(self).input(), old(self).index as int), r),
            r is Ok ==> final(self).index > old(self).index,
            r matches Err(e) ==> !(e@ is Unhandled),
        decreases old(self).tokens.len() - old(self).index, 4int,
    {
        broadcast use group_tree_views;

        proof {
            reveal(order_by_expr);
            reveal(expr);
        }
        let e = self.parse_expr()?;
        let asc = if self.parse_keyword(Keyword::ASC) {
            Tree::Flag(true)
        } else if self.parse_keyword(Keyword::DESC) {
            Tree::Flag(false)
        } else {
            Tree::Absent
        };
        let nulls_last = if self.parse_keyword(Keyword::NULLS) {
            let choices: [Keyword; 2] = [Keyword::FIRST, Keyword::LAST];
            assert(choices@ =~= seq![Keyword::FIRST, Keyword::LAST]);
            let k = self.expect_one_of_keywords(&choices)?;
            if k == Keyword::LAST {
                Tree::Flag(true)
            } else {
                Tree::Flag(false)
            }
        } else {
            Tree::Absent
        };
        Ok(node(Kind::OrderByExpr, trees3(e, asc, nulls_last)))
    }
}

/// What [`Parser::parse_order_by_expr_list`] yields from the token at `i` on.
#[verifier::opaque]
pub open spec fn order_by_expr_list(p: Input, i: int, items: Seq<TreeView>) -> Out<Seq<TreeView>>
    decreases p.toks.len() - i, 5int,
{
    match past(p, i, order_by_expr(p, i)) { Failed(e, i) => Failed(e, i), Got(item, i) => {
    if at_token(p, i, TokenView::Comma) {
        let i = i + 1;
        order_by_expr_list(p, i, items.push(item))
    } else {
        Got(items.push(item), i)
    }
    }}
}

impl Parser {
    /// Parses one or more `order_by_expr`, separated by commas, after those in `items`.
    pub fn parse_order_by_expr_list(&mut self, mut items: Trees) -> (r: Result<Trees, Failure>)
        requires
            old(self).ready(),
        ensures
            final(self).follows(*old(self), order_by_expr_list(old(self).input(), old(self).index as int, items@), r),
            r is Ok ==> final(self).index > old(self).index,
            r matches Ok(all) ==> all@.len() > items@.len(),
            r matches Err(e) ==> !(e@ is Unhandled),
        decreases old(self).tokens.len() - old(self).index, 5int,
    {
        broadcast use group_tree_views;

        proof {
            reveal(order_by_expr_list);
            reveal(order_by_expr);
        }
        let ghost before = *self;
        let ghost given = items@.len();
        let ghost goal = order_by_expr_list(self.input(), self.index as int, items@);
        #[verifier::loop_isolation(false)]
        loop
            invariant
                self.ready(),
                self.input() == before.input(),
                self.tokens.len() == before.tokens.len(),
                before.index <= self.index,
                before == *old(self),
                given <= items@.len(),
                order_by_expr_list(self.input(), self.index as int, items@) == goal,
            decreases self.tokens.len() - self.index,
        {
            proof {
                reveal(order_by_expr_list);
                reveal(order_by_expr);
            }
            let item = self.parse_order_by_expr()?;
            if self.consume_token(&Token::Comma) {
                items = items.with(item);
                continue;
            } else {
                return Ok(items.with(item));
            }
        }
    }
}

/// What [`Parser::parse_optional_args`] yields from the token at `i` on.
#[verifier::opaque]
pub open spec fn optional_args(p: Input, i: int, allow_order_by: bool) -> Out<TreeView>
    decreases p.toks.len() - i, 5int,
{
    if at_token(p, i, TokenView::Star) {
        let i = i + 1;
        match token(p, i, TokenView::RParen) { Failed(e, i) => Failed(e, i), Got(_, i) => {
        Got(TreeView::Node(Kind::StarArgs, Seq::<TreeView>::empty()), i)
        }}
    } else {
        if at_token(p, i, TokenView::RParen) {
            let i = i + 1;
            Got(TreeView::Node(Kind::Args, seq![TreeView::List(Seq::<TreeView>::empty()), TreeView::List(Seq::<TreeView>::empty())]), i)
        } else {
            match past(p, i, expr_list(p, i, Seq::<TreeView>::empty())) { Failed(e, i) => Failed(e, i), Got(args, i) => {
            match {
                if !(allow_order_by) {
                    Got(TreeView::List(Seq::<TreeView>::empty()), i)
                } else {
                    if at_keywords2(p, i, Keyword::ORDER, Keyword::BY) {
                        let i = i + 2;
                        match order_by_expr_list(p, i, Seq::<TreeView>::empty()) { Failed(e, i) => Failed(e, i), Got(es, i) => {
                        Got(TreeView::List(es), i)
                        }}
                    } else {
                        Got(TreeView::List(Seq::<TreeView>::empty()), i)
                    }
                }
            } { Failed(e, i) => Failed(e, i), Got(order_by, i) => {
            match token(p, i, TokenView::RParen) { Failed(e, i) => Failed(e, i), Got(_, i) => {
            Got(TreeView::Node(Kind::Args, seq![TreeView::List(args), order_by]), i)
            }}
            }}
            }}
        }
    }
}

impl Parser {
    /// Parse the arguments of a function up to the closing parenthesis.
    pub fn parse_optional_args(&mut self, allow_order_by: bool) -> (r: Result<Tree, Failure>)
        requires
            old(self).ready(),
        ensures
            final(self).follows(*old(self), optional_args(old(self).input(), old(self).index as int, allow_order_by), r),
            r is Ok ==> final(self).index > old(self).index,
            r matches Err(e) ==> !(e@ is Unhandled),
        decreases old(self).tokens.len() - old(self).index, 5int,
    {
        broadcast use group_tree_views;

        proof {
            reveal(optional_args);
            reveal(expr_list);
            reveal(order_by_expr_list);
        }
        if self.consume_token(&Token::Star) {
            self.expect_token(&Token::RParen)?;
            Ok(node(Kind::StarArgs, trees0()))
        } else if self.consume_token(&Token::RParen) {
            Ok(node(Kind::Args, trees2(list(trees0()), list(trees0()))))
        } else {
            let args = self.parse_expr_list(trees0())?;
            let order_by = if !allow_order_by {
                list(trees0())
            } else if self.parse_keywords2(Keyword::ORDER, Keyword::BY) {
                let es = self.parse_order_by_expr_list(trees0())?;
                list(es)
            } else {
                list(trees0())
            };
            self.expect_token(&Token::RParen)?;
            Ok(node(Kind::Args, trees2(list(args), order_by)))
        }
    }
}

} // verus!
