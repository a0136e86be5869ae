//! How `SELECT` are read inside of larger texts.

use vstd::prelude::*;

use crate::sql_parser::alignment::expr::{aligned_expr, aligned_expr_list};
use crate::sql_parser::alignment::names::aligned_optional_alias;
use crate::sql_parser::alignment::options::aligned_optional_option_value;
use crate::sql_parser::alignment::tables::aligned_table_and_joins_list;
use crate::sql_parser::alignment::{agrees, aligned};
use crate::sql_parser::expr::{expr, expr_list};
use crate::sql_parser::keywords::{Keyword, is_reserved_spec};
use crate::sql_parser::kind::Kind;
use crate::sql_parser::names::optional_alias;
use crate::sql_parser::outcome::Out::{Failed, Got};
use crate::sql_parser::outcome::error_view;
use crate::sql_parser::parser::{
    Input, at_keyword, at_keywords2, at_keywords3, at_token, onward, past, position, token,
    token_at,
};
use crate::sql_parser::select::{
    distinct_clause, from_clause, group_by_clause, having_clause, projection, select,
    select_distinct, select_item, select_item_list, select_option, select_option_list,
    select_options, values_row, values_row_list, where_clause,
};
use crate::sql_parser::syntax::TreeView;
use crate::sql_parser::tables::table_and_joins_list;
use crate::sql_parser::text::no_text;
use crate::sql_parser::token::TokenView;

verus! {

pub(crate) proof fn unfold_select(p: Input, i: int)
    ensures
        select(p, i) == ({
            match onward(p, i, select_distinct(p, i)) { Failed(e, i) => Failed(e, i), Got(distinct, i) => {
            match onward(p, i, projection(p, i)) { Failed(e, i) => Failed(e, i), Got(projection, i) => {
            match onward(p, i, from_clause(p, i)) { Failed(e, i) => Failed(e, i), Got(from, i) => {
            match onward(p, i, where_clause(p, i)) { Failed(e, i) => Failed(e, i), Got(selection, i) => {
            match onward(p, i, group_by_clause(p, i)) { Failed(e, i) => Failed(e, i), Got(group_by, i) => {
            match having_clause(p, i) { Failed(e, i) => Failed(e, i), Got(having, i) => {
            match select_options(p, i) { Failed(e, i) => Failed(e, i), Got(options, i) => {
            Got(TreeView::Node(Kind::Select, seq![distinct, projection, from, selection, group_by, having, options]), i)
            }}
            }}
            }}
            }}
            }}
            }}
            }}
        }),
{
    reveal(select);
    reveal(from_clause);
    reveal(group_by_clause);
    reveal(having_clause);
    reveal(projection);
    reveal(select_distinct);
    reveal(where_clause);
}

pub(crate) proof fn aligned_select(p: Input, larger: Input, ahead: int, i: int)
    requires
        aligned(p, larger, ahead),
        0 <= i <= p.toks.len(),
    ensures
        agrees(p, ahead, i, select(p, i), select(larger, ahead + i)),
    decreases p.toks.len() - i, 7int,
{
    unfold_select(p, i);
    unfold_select(larger, ahead + i);
    aligned_select_distinct(p, larger, ahead, i);
    if let Got(distinct, i) = onward(p, i, select_distinct(p, i)) {
        aligned_projection(p, larger, ahead, i);
        if let Got(projection, i) = onward(p, i, projection(p, i)) {
            aligned_from_clause(p, larger, ahead, i);
            if let Got(from, i) = onward(p, i, from_clause(p, i)) {
                aligned_where_clause(p, larger, ahead, i);
                if let Got(selection, i) = onward(p, i, where_clause(p, i)) {
                    aligned_group_by_clause(p, larger, ahead, i);
                    if let Got(group_by, i) = onward(p, i, group_by_clause(p, i)) {
                        aligned_having_clause(p, larger, ahead, i);
                        if let Got(having, i) = having_clause(p, i) {
                            aligned_select_options(p, larger, ahead, i);
                        }
                    }
                }
            }
        }
    }
}

pub(crate) proof fn unfold_select_distinct(p: Input, i: int)
    ensures
        select_distinct(p, i) == ({
            let all = at_keyword(p, i, Keyword::ALL);
            let i = if all { i + 1 } else { i };
            let distinct = at_keyword(p, i, Keyword::DISTINCT);
            let i = if distinct { i + 1 } else { i };
            if all && distinct {
                Failed(error_view(position(p, i - 1), no_text() + "Cannot specify both ALL and DISTINCT in SELECT"@), i)
            } else {
                distinct_clause(p, i, distinct)
            }
        }),
{
    reveal(select_distinct);
    reveal(distinct_clause);
}

pub(crate) proof fn aligned_select_distinct(p: Input, larger: Input, ahead: int, i: int)
    requires
        aligned(p, larger, ahead),
        0 <= i <= p.toks.len(),
    ensures
        agrees(p, ahead, i, select_distinct(p, i), select_distinct(larger, ahead + i)),
    decreases p.toks.len() - i, 1int,
{
    unfold_select_distinct(p, i);
    unfold_select_distinct(larger, ahead + i);
    let all = at_keyword(p, i, Keyword::ALL);
    let i = if all { i + 1 } else { i };
    let distinct = at_keyword(p, i, Keyword::DISTINCT);
    let i = if distinct { i + 1 } else { i };
    if !(all && distinct) {
        aligned_distinct_clause(p, larger, ahead, i, distinct);
    }
}

pub(crate) proof fn unfold_group_by_clause(p: Input, i: int)
    ensures
        group_by_clause(p, i) == ({
            if at_keywords2(p, i, Keyword::GROUP, Keyword::BY) {
                let i = i + 2;
                match expr_list(p, i, Seq::<TreeView>::empty()) { Failed(e, i) => Failed(e, i), Got(es, i) => {
                Got(TreeView::List(es), i)
                }}
            } else {
                Got(TreeView::List(Seq::<TreeView>::empty()), i)
            }
        }),
{
    reveal(group_by_clause);
    reveal(expr_list);
}

pub(crate) proof fn aligned_group_by_clause(p: Input, larger: Input, ahead: int, i: int)
    requires
        aligned(p, larger, ahead),
        0 <= i <= p.toks.len(),
    ensures
        agrees(p, ahead, i, group_by_clause(p, i), group_by_clause(larger, ahead + i)),
    decreases p.toks.len() - i, 0int,
{
    unfold_group_by_clause(p, i);
    unfold_group_by_clause(larger, ahead + i);
    if at_keywords2(p, i, Keyword::GROUP, Keyword::BY) {
        let i = i + 2;
        aligned_expr_list(p, larger, ahead, i, Seq::<TreeView>::empty());
    }
}

pub(crate) proof fn unfold_having_clause(p: Input, i: int)
    ensures
        having_clause(p, i) == ({
            if at_keyword(p, i, Keyword::HAVING) {
                let i = i + 1;
                expr(p, i)
            } else {
                Got(TreeView::Absent, i)
            }
        }),
{
    reveal(having_clause);
    reveal(expr);
}

pub(crate) proof fn aligned_having_clause(p: Input, larger: Input, ahead: int, i: int)
    requires
        aligned(p, larger, ahead),
        0 <= i <= p.toks.len(),
    ensures
        agrees(p, ahead, i, having_clause(p, i), having_clause(larger, ahead + i)),
    decreases p.toks.len() - i, 0int,
{
    unfold_having_clause(p, i);
    unfold_having_clause(larger, ahead + i);
    if at_keyword(p, i, Keyword::HAVING) {
        let i = i + 1;
        aligned_expr(p, larger, ahead, i);
    }
}

pub(crate) proof fn aligned_select_options(p: Input, larger: Input, ahead: int, i: int)
    requires
        aligned(p, larger, ahead),
        0 <= i <= p.toks.len(),
    ensures
        agrees(p, ahead, i, select_options(p, i), select_options(larger, ahead + i)),
{
    reveal(select_options);
    if at_keyword(p, i, Keyword::OPTIONS) {
        let i = i + 1;
        if let Got(_, i) = token(p, i, TokenView::LParen) {
            aligned_select_option_list(p, larger, ahead, i, Seq::<TreeView>::empty());
        }
    }
}

pub(crate) proof fn unfold_distinct_clause(p: Input, i: int, distinct: bool)
    ensures
        distinct_clause(p, i, distinct) == ({
            if !(distinct) {
                Got(TreeView::Absent, i)
            } else {
                if at_keyword(p, i, Keyword::ON) {
                    let i = i + 1;
                    match token(p, i, TokenView::LParen) { Failed(e, i) => Failed(e, i), Got(_, i) => {
                    match expr_list(p, i, Seq::<TreeView>::empty()) { Failed(e, i) => Failed(e, i), Got(es, i) => {
                    match token(p, i, TokenView::RParen) { Failed(e, i) => Failed(e, i), Got(_, i) => {
                    Got(TreeView::Node(Kind::DistinctOn, seq![TreeView::List(es)]), i)
                    }}
                    }}
                    }}
                } else {
                    Got(TreeView::Node(Kind::DistinctRow, Seq::<TreeView>::empty()), i)
                }
            }
        }),
{
    reveal(distinct_clause);
    reveal(expr_list);
}

pub(crate) proof fn aligned_distinct_clause(p: Input, larger: Input, ahead: int, i: int, distinct: bool)
    requires
        aligned(p, larger, ahead),
        0 <= i <= p.toks.len(),
    ensures
        agrees(p, ahead, i, distinct_clause(p, i, distinct), distinct_clause(larger, ahead + i, distinct)),
    decreases p.toks.len() - i, 0int,
{
    unfold_distinct_clause(p, i, distinct);
    unfold_distinct_clause(larger, ahead + i, distinct);
    if !(!(distinct)) {
        if at_keyword(p, i, Keyword::ON) {
            let i = i + 1;
            if let Got(_, i) = token(p, i, TokenView::LParen) {
                aligned_expr_list(p, larger, ahead, i, Seq::<TreeView>::empty());
            }
        }
    }
}

pub(crate) proof fn unfold_projection(p: Input, i: int)
    ensures
        projection(p, i) == ({
            match token_at(p, i) {
                Some(TokenView::Keyword(k)) => {
                    if is_reserved_spec(k) {
                        Got(TreeView::List(Seq::<TreeView>::empty()), i)
                    } else {
                        match select_item_list(p, i, Seq::<TreeView>::empty()) { Failed(e, i) => Failed(e, i), Got(items, i) => {
                        Got(TreeView::List(items), i)
                        }}
                    }
                },
                Some(TokenView::Semicolon) | Some(TokenView::RParen) => {
                    Got(TreeView::List(Seq::<TreeView>::empty()), i)
                },
                None => {
                    Got(TreeView::List(Seq::<TreeView>::empty()), i)
                },
                _ => {
                    match select_item_list(p, i, Seq::<TreeView>::empty()) { Failed(e, i) => Failed(e, i), Got(items, i) => {
                    Got(TreeView::List(items), i)
                    }}
                },
            }
        }),
{
    reveal(projection);
    reveal(select_item_list);
}

pub(crate) proof fn aligned_projection(p: Input, larger: Input, ahead: int, i: int)
    requires
        aligned(p, larger, ahead),
        0 <= i <= p.toks.len(),
    ensures
        agrees(p, ahead, i, projection(p, i), projection(larger, ahead + i)),
    decreases p.toks.len() - i, 6int,
{
    unfold_projection(p, i);
    unfold_projection(larger, ahead + i);
    match token_at(p, i) {
        Some(TokenView::Keyword(k)) => {
            if !is_reserved_spec(k) {
                aligned_select_item_list(p, larger, ahead, i, Seq::<TreeView>::empty());
            }
        },
        Some(TokenView::Semicolon) | Some(TokenView::RParen) => {},
        None => {},
        _ => {
            aligned_select_item_list(p, larger, ahead, i, Seq::<TreeView>::empty());
        },
    }
}

pub(crate) proof fn unfold_from_clause(p: Input, i: int)
    ensures
        from_clause(p, i) == ({
            if at_keyword(p, i, Keyword::FROM) {
                let i = i + 1;
                match table_and_joins_list(p, i, Seq::<TreeView>::empty()) { Failed(e, i) => Failed(e, i), Got(tables, i) => {
                Got(TreeView::List(tables), i)
                }}
            } else {
                Got(TreeView::List(Seq::<TreeView>::empty()), i)
            }
        }),
{
    reveal(from_clause);
    reveal(table_and_joins_list);
}

pub(crate) proof fn aligned_from_clause(p: Input, larger: Input, ahead: int, i: int)
    requires
        aligned(p, larger, ahead),
        0 <= i <= p.toks.len(),
    ensures
        agrees(p, ahead, i, from_clause(p, i), from_clause(larger, ahead + i)),
    decreases p.toks.len() - i, 0int,
{
    unfold_from_clause(p, i);
    unfold_from_clause(larger, ahead + i);
    if at_keyword(p, i, Keyword::FROM) {
        let i = i + 1;
        aligned_table_and_joins_list(p, larger, ahead, i, Seq::<TreeView>::empty());
    }
}

pub(crate) proof fn unfold_where_clause(p: Input, i: int)
    ensures
        where_clause(p, i) == ({
            if at_keyword(p, i, Keyword::WHERE) {
                let i = i + 1;
                expr(p, i)
            } else {
                Got(TreeView::Absent, i)
            }
        }),
{
    reveal(where_clause);
    reveal(expr);
}

pub(crate) proof fn aligned_where_clause(p: Input, larger: Input, ahead: int, i: int)
    requires
        aligned(p, larger, ahead),
        0 <= i <= p.toks.len(),
    ensures
        agrees(p, ahead, i, where_clause(p, i), where_clause(larger, ahead + i)),
    decreases p.toks.len() - i, 0int,
{
    unfold_where_clause(p, i);
    unfold_where_clause(larger, ahead + i);
    if at_keyword(p, i, Keyword::WHERE) {
        let i = i + 1;
        aligned_expr(p, larger, ahead, i);
    }
}

pub(crate) proof fn aligned_select_option(p: Input, larger: Input, ahead: int, i: int)
    requires
        aligned(p, larger, ahead),
        0 <= i <= p.toks.len(),
    ensures
        agrees(p, ahead, i + 1, select_option(p, i), select_option(larger, ahead + i)),
{
    reveal(select_option);
    if at_keywords3(p, i, Keyword::EXPECTED, Keyword::GROUP, Keyword::SIZE) {
        let i = i + 3;
        aligned_optional_option_value(p, larger, ahead, i);
    }
}

pub(crate) proof fn unfold_select_option_list(p: Input, i: int, items: Seq<TreeView>)
    ensures
        select_option_list(p, i, items) == ({
            match past(p, i, select_option(p, i)) { Failed(e, i) => Failed(e, i), Got(item, i) => {
            if at_token(p, i, TokenView::Comma) {
                let i = i + 1;
                select_option_list(p, i, items.push(item))
            } else {
                Got(items.push(item), i)
            }
            }}
        }),
{
    reveal(select_option_list);
}

pub(crate) proof fn aligned_select_option_list(p: Input, larger: Input, ahead: int, i: int, items: Seq<TreeView>)
    requires
        aligned(p, larger, ahead),
        0 <= i <= p.toks.len(),
    ensures
        agrees(p, ahead, i + 1, select_option_list(p, i, items), select_option_list(larger, ahead + i, items)),
    decreases p.toks.len() - i, 0int,
{
    unfold_select_option_list(p, i, items);
    unfold_select_option_list(larger, ahead + i, items);
    aligned_select_option(p, larger, ahead, i);
    if let Got(item, i) = past(p, i, select_option(p, i)) {
        if at_token(p, i, TokenView::Comma) {
            let i = i + 1;
            aligned_select_option_list(p, larger, ahead, i, items.push(item));
        }
    }
}

pub(crate) proof fn unfold_values_row(p: Input, i: int)
    ensures
        values_row(p, i) == ({
            match token(p, i, TokenView::LParen) { Failed(e, i) => Failed(e, i), Got(_, i) => {
            match expr_list(p, i, Seq::<TreeView>::empty()) { Failed(e, i) => Failed(e, i), Got(es, i) => {
            match token(p, i, TokenView::RParen) { Failed(e, i) => Failed(e, i), Got(_, i) => {
            Got(TreeView::List(es), i)
            }}
            }}
            }}
        }),
{
    reveal(values_row);
    reveal(expr_list);
}

pub(crate) proof fn aligned_values_row(p: Input, larger: Input, ahead: int, i: int)
    requires
        aligned(p, larger, ahead),
        0 <= i <= p.toks.len(),
    ensures
        agrees(p, ahead, i + 1, values_row(p, i), values_row(larger, ahead + i)),
    decreases p.toks.len() - i, 0int,
{
    unfold_values_row(p, i);
    unfold_values_row(larger, ahead + i);
    if let Got(_, i) = token(p, i, TokenView::LParen) {
        aligned_expr_list(p, larger, ahead, i, Seq::<TreeView>::empty());
    }
}

pub(crate) proof fn unfold_values_row_list(p: Input, i: int, items: Seq<TreeView>)
    ensures
        values_row_list(p, i, items) == ({
            match past(p, i, values_row(p, i)) { Failed(e, i) => Failed(e, i), Got(item, i) => {
            if at_token(p, i, TokenView::Comma) {
                let i = i + 1;
                values_row_list(p, i, items.push(item))
            } else {
                Got(items.push(item), i)
            }
            }}
        }),
{
    reveal(values_row_list);
    reveal(values_row);
}

pub(crate) proof fn aligned_values_row_list(p: Input, larger: Input, ahead: int, i: int, items: Seq<TreeView>)
    requires
        aligned(p, larger, ahead),
        0 <= i <= p.toks.len(),
    ensures
        agrees(p, ahead, i + 1, values_row_list(p, i, items), values_row_list(larger, ahead + i, items)),
    decreases p.toks.len() - i, 1int,
{
    unfold_values_row_list(p, i, items);
    unfold_values_row_list(larger, ahead + i, items);
    aligned_values_row(p, larger, ahead, i);
    if let Got(item, i) = past(p, i, values_row(p, i)) {
        if at_token(p, i, TokenView::Comma) {
            let i = i + 1;
            aligned_values_row_list(p, larger, ahead, i, items.push(item));
        }
    }
}

pub(crate) proof fn unfold_select_item(p: Input, i: int)
    ensures
        select_item(p, i) == ({
            if at_token(p, i, TokenView::Star) {
                let i = i + 1;
                Got(TreeView::Node(Kind::Wildcard, Seq::<TreeView>::empty()), i)
            } else {
                match expr(p, i) { Failed(e, i) => Failed(e, i), Got(e, i) => {
                match optional_alias(p, i, false) { Failed(e, i) => Failed(e, i), Got(alias, i) => {
                Got(TreeView::Node(Kind::SelectExpr, seq![e, alias]), i)
                }}
                }}
            }
        }),
{
    reveal(select_item);
    reveal(expr);
}

pub(crate) proof fn aligned_select_item(p: Input, larger: Input, ahead: int, i: int)
    requires
        aligned(p, larger, ahead),
        0 <= i <= p.toks.len(),
    ensures
        agrees(p, ahead, i, select_item(p, i), select_item(larger, ahead + i)),
    decreases p.toks.len() - i, 4int,
{
    unfold_select_item(p, i);
    unfold_select_item(larger, ahead + i);
    if !at_token(p, i, TokenView::Star) {
        aligned_expr(p, larger, ahead, i);
        if let Got(e, i) = expr(p, i) {
            aligned_optional_alias(p, larger, ahead, i, false);
        }
    }
}

pub(crate) proof fn unfold_select_item_list(p: Input, i: int, items: Seq<TreeView>)
    ensures
        select_item_list(p, i, items) == ({
            match onward(p, i, select_item(p, i)) { Failed(e, i) => Failed(e, i), Got(item, i) => {
            if at_token(p, i, TokenView::Comma) {
                let i = i + 1;
                select_item_list(p, i, items.push(item))
            } else {
                Got(items.push(item), i)
            }
            }}
        }),
{
    reveal(select_item_list);
    reveal(select_item);
}

pub(crate) proof fn aligned_select_item_list(p: Input, larger: Input, ahead: int, i: int, items: Seq<TreeView>)
    requires
        aligned(p, larger, ahead),
        0 <= i <= p.toks.len(),
    ensures
        agrees(p, ahead, i, select_item_list(p, i, items), select_item_list(larger, ahead + i, items)),
    decreases p.toks.len() - i, 5int,
{
    unfold_select_item_list(p, i, items);
    unfold_select_item_list(larger, ahead + i, items);
    aligned_select_item(p, larger, ahead, i);
    if let Got(item, i) = onward(p, i, select_item(p, i)) {
        if at_token(p, i, TokenView::Comma) {
            let i = i + 1;
            aligned_select_item_list(p, larger, ahead, i, items.push(item));
        }
    }
}

} // verus!
