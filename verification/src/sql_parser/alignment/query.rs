//! How queries are read inside of larger texts.

use vstd::prelude::*;

use crate::sql_parser::alignment::expr::{aligned_expr, aligned_expr_list};
use crate::sql_parser::alignment::names::{
    aligned_data_type, aligned_identifier, aligned_parenthesized_column_list,
};
use crate::sql_parser::alignment::options::aligned_optional_option_value;
use crate::sql_parser::alignment::select::{aligned_select, aligned_values_row_list};
use crate::sql_parser::alignment::show::aligned_show;
use crate::sql_parser::alignment::{agrees, aligned, lemma_deeper};
use crate::sql_parser::checks::{is_empty_list, no_members, query_parts};
use crate::sql_parser::expr::{expr, expr_list};
use crate::sql_parser::keywords::Keyword;
use crate::sql_parser::kind::Kind;
use crate::sql_parser::names::{identifier, parenthesized_column_list};
use crate::sql_parser::outcome::Out::{Failed, Got};
use crate::sql_parser::outcome::{error_view, too_deep};
use crate::sql_parser::parser::{
    Input, RECURSION_LIMIT, SetPrecedence, at_keyword, at_keywords2, at_keywords3, at_token,
    deeper, expected_at, keyword, one_keyword, one_of, onward, past, position, set_binding, token,
    token_at,
};
use crate::sql_parser::query::{
    cte, cte_block, cte_list, cte_mut_rec, cte_mut_rec_column, cte_mut_rec_column_list,
    cte_mut_rec_list, fetch_clause, mut_rec_block_option, mut_rec_block_option_list, optional_args,
    order_by_expr, order_by_expr_list, query, query_body, query_body_seeded, query_level,
    query_tail, set_operation_all, skip_row_word,
};
use crate::sql_parser::select::{select, values_row_list};
use crate::sql_parser::show::show;
use crate::sql_parser::syntax::TreeView;
use crate::sql_parser::text::no_text;
use crate::sql_parser::token::TokenView;

verus! {

pub(crate) proof fn unfold_query(p: Input, i: int)
    ensures
        query(p, i) == ({
            (if p.depth >= RECURSION_LIMIT { Failed(too_deep(), i) } else { query_level(deeper(p), i) })
        }),
{
    reveal(query);
    reveal(query_level);
}

pub(crate) proof fn aligned_query(p: Input, larger: Input, ahead: int, i: int)
    requires
        aligned(p, larger, ahead),
        0 <= i <= p.toks.len(),
    ensures
        agrees(p, ahead, i + 1, query(p, i), query(larger, ahead + i)),
    decreases p.toks.len() - i, 2int,
{
    unfold_query(p, i);
    unfold_query(larger, ahead + i);
    lemma_deeper(p, larger, ahead);
    if p.depth < RECURSION_LIMIT {
        aligned_query_level(deeper(p), deeper(larger), ahead, i);
    }
}

pub(crate) proof fn unfold_query_level(p: Input, i: int)
    ensures
        query_level(p, i) == ({
            match onward(p, i, cte_block(p, i)) { Failed(e, i) => Failed(e, i), Got(ctes, i) => {
            match past(p, i, query_body(p, i, SetPrecedence::Zero)) { Failed(e, i) => Failed(e, i), Got(body, i) => {
            query_tail(p, i, ctes, body)
            }}
            }}
        }),
{
    reveal(query_level);
    reveal(cte_block);
    reveal(query_body);
    reveal(query_tail);
}

pub(crate) proof fn aligned_query_level(p: Input, larger: Input, ahead: int, i: int)
    requires
        aligned(p, larger, ahead),
        0 <= i <= p.toks.len(),
    ensures
        agrees(p, ahead, i + 1, query_level(p, i), query_level(larger, ahead + i)),
    decreases p.toks.len() - i, 1int,
{
    unfold_query_level(p, i);
    unfold_query_level(larger, ahead + i);
    aligned_cte_block(p, larger, ahead, i);
    if let Got(ctes, i) = onward(p, i, cte_block(p, i)) {
        aligned_query_body(p, larger, ahead, i, SetPrecedence::Zero);
        if let Got(body, i) = past(p, i, query_body(p, i, SetPrecedence::Zero)) {
            aligned_query_tail(p, larger, ahead, i, ctes, body);
        }
    }
}

pub(crate) proof fn unfold_cte_block(p: Input, i: int)
    ensures
        cte_block(p, i) == ({
            if at_keyword(p, i, Keyword::WITH) {
                let i = i + 1;
                if at_keyword(p, i, Keyword::MUTUALLY) {
                    let i = i + 1;
                    match keyword(p, i, Keyword::RECURSIVE) { Failed(e, i) => Failed(e, i), Got(_, i) => {
                    match onward(p, i, {
                        if at_token(p, i, TokenView::LParen) {
                            let i = i + 1;
                            match past(p, i, mut_rec_block_option_list(p, i, Seq::<TreeView>::empty())) { Failed(e, i) => Failed(e, i), Got(os, i) => {
                            match token(p, i, TokenView::RParen) { Failed(e, i) => Failed(e, i), Got(_, i) => {
                            Got(TreeView::List(os), i)
                            }}
                            }}
                        } else {
                            Got(TreeView::List(Seq::<TreeView>::empty()), i)
                        }
                    }) { Failed(e, i) => Failed(e, i), Got(options, i) => {
                    match cte_mut_rec_list(p, i, Seq::<TreeView>::empty()) { Failed(e, i) => Failed(e, i), Got(ctes, i) => {
                    Got(TreeView::Node(Kind::MutuallyRecursiveCtes, seq![TreeView::List(ctes), options]), i)
                    }}
                    }}
                    }}
                } else {
                    match cte_list(p, i, Seq::<TreeView>::empty()) { Failed(e, i) => Failed(e, i), Got(ctes, i) => {
                    Got(TreeView::Node(Kind::SimpleCtes, seq![TreeView::List(ctes)]), i)
                    }}
                }
            } else {
                Got(TreeView::Node(Kind::SimpleCtes, seq![TreeView::List(Seq::<TreeView>::empty())]), i)
            }
        }),
{
    reveal(cte_block);
    reveal(cte_list);
    reveal(cte_mut_rec_list);
}

pub(crate) proof fn aligned_cte_block(p: Input, larger: Input, ahead: int, i: int)
    requires
        aligned(p, larger, ahead),
        0 <= i <= p.toks.len(),
    ensures
        agrees(p, ahead, i, cte_block(p, i), cte_block(larger, ahead + i)),
    decreases p.toks.len() - i, 0int,
{
    unfold_cte_block(p, i);
    unfold_cte_block(larger, ahead + i);
    if at_keyword(p, i, Keyword::WITH) {
        let i = i + 1;
        if at_keyword(p, i, Keyword::MUTUALLY) {
            let i = i + 1;
            if let Got(_, i) = keyword(p, i, Keyword::RECURSIVE) {
                if at_token(p, i, TokenView::LParen) {
                    let i = i + 1;
                    aligned_mut_rec_block_option_list(p, larger, ahead, i, Seq::<TreeView>::empty());
                }
                let part = {
                    if at_token(p, i, TokenView::LParen) {
                        let i = i + 1;
                        match past(p, i, mut_rec_block_option_list(p, i, Seq::<TreeView>::empty())) { Failed(e, i) => Failed(e, i), Got(os, i) => {
                        match token(p, i, TokenView::RParen) { Failed(e, i) => Failed(e, i), Got(_, i) => {
                        Got(TreeView::List(os), i)
                        }}
                        }}
                    } else {
                        Got(TreeView::List(Seq::<TreeView>::empty()), i)
                    }
                };
                if let Got(options, i) = onward(p, i, part) {
                    aligned_cte_mut_rec_list(p, larger, ahead, i, Seq::<TreeView>::empty());
                }
            }
        } else {
            aligned_cte_list(p, larger, ahead, i, Seq::<TreeView>::empty());
        }
    }
}

pub(crate) proof fn aligned_mut_rec_block_option(p: Input, larger: Input, ahead: int, i: int)
    requires
        aligned(p, larger, ahead),
        0 <= i <= p.toks.len(),
    ensures
        agrees(p, ahead, i + 1, mut_rec_block_option(p, i), mut_rec_block_option(larger, ahead + i)),
{
    reveal(mut_rec_block_option);
    if let Got(k, i) = one_keyword(p, i, seq![Keyword::RECURSION, Keyword::RETURN, Keyword::ERROR]) {
        match k {
            Keyword::RECURSION => {
                if let Got(_, i) = keyword(p, i, Keyword::LIMIT) {
                    aligned_optional_option_value(p, larger, ahead, i);
                }
            },
            Keyword::RETURN => {
                if at_keywords3(p, i, Keyword::AT, Keyword::RECURSION, Keyword::LIMIT) {
                    let i = i + 3;
                    aligned_optional_option_value(p, larger, ahead, i);
                }
            },
            _ => {
                if at_keywords3(p, i, Keyword::AT, Keyword::RECURSION, Keyword::LIMIT) {
                    let i = i + 3;
                    aligned_optional_option_value(p, larger, ahead, i);
                }
            },
        }
    }
}

pub(crate) proof fn unfold_mut_rec_block_option_list(p: Input, i: int, items: Seq<TreeView>)
    ensures
        mut_rec_block_option_list(p, i, items) == ({
            match past(p, i, mut_rec_block_option(p, i)) { Failed(e, i) => Failed(e, i), Got(item, i) => {
            if at_token(p, i, TokenView::Comma) {
                let i = i + 1;
                mut_rec_block_option_list(p, i, items.push(item))
            } else {
                Got(items.push(item), i)
            }
            }}
        }),
{
    reveal(mut_rec_block_option_list);
}

pub(crate) proof fn aligned_mut_rec_block_option_list(p: Input, larger: Input, ahead: int, i: int, items: Seq<TreeView>)
    requires
        aligned(p, larger, ahead),
        0 <= i <= p.toks.len(),
    ensures
        agrees(p, ahead, i + 1, mut_rec_block_option_list(p, i, items), mut_rec_block_option_list(larger, ahead + i, items)),
    decreases p.toks.len() - i, 0int,
{
    unfold_mut_rec_block_option_list(p, i, items);
    unfold_mut_rec_block_option_list(larger, ahead + i, items);
    aligned_mut_rec_block_option(p, larger, ahead, i);
    if let Got(item, i) = past(p, i, mut_rec_block_option(p, i)) {
        if at_token(p, i, TokenView::Comma) {
            let i = i + 1;
            aligned_mut_rec_block_option_list(p, larger, ahead, i, items.push(item));
        }
    }
}

pub(crate) proof fn unfold_query_tail(p: Input, i: int, ctes: TreeView, body: TreeView)
    ensures
        query_tail(p, i, ctes, body) == ({
            let (inner_ctes, inner_order_by, inner_limit, inner_offset, body) = query_parts(body);
            match onward(p, i, {
                if no_members(ctes) {
                    Got(inner_ctes, i)
                } else {
                    if !no_members(inner_ctes) {
                        Failed(error_view(position(p, i), no_text() + "multiple WITH clauses not allowed"@), i)
                    } else {
                        Got(ctes, i)
                    }
                }
            }) { Failed(e, i) => Failed(e, i), Got(ctes, i) => {
            match onward(p, i, {
                if at_keywords2(p, i, Keyword::ORDER, Keyword::BY) {
                    let i = i + 2;
                    if !is_empty_list(inner_order_by) {
                        Failed(error_view(position(p, i - 1), no_text() + "multiple ORDER BY clauses not allowed"@), i)
                    } else {
                        match past(p, i, order_by_expr_list(p, i, Seq::<TreeView>::empty())) { Failed(e, i) => Failed(e, i), Got(es, i) => {
                        Got(TreeView::List(es), i)
                        }}
                    }
                } else {
                    Got(inner_order_by, i)
                }
            }) { Failed(e, i) => Failed(e, i), Got(order_by, i) => {
            match onward(p, i, {
                if at_keyword(p, i, Keyword::LIMIT) {
                    let i = i + 1;
                    if !(inner_limit is Absent) {
                        Failed(error_view(position(p, i - 1), no_text() + "multiple LIMIT/FETCH clauses not allowed"@), i)
                    } else {
                        if at_keyword(p, i, Keyword::ALL) {
                            let i = i + 1;
                            Got(TreeView::Absent, i)
                        } else {
                            match past(p, i, expr(p, i)) { Failed(e, i) => Failed(e, i), Got(quantity, i) => {
                            Got(TreeView::Node(Kind::Limit, seq![TreeView::Flag(false), quantity]), i)
                            }}
                        }
                    }
                } else {
                    Got(inner_limit, i)
                }
            }) { Failed(e, i) => Failed(e, i), Got(limit, i) => {
            match onward(p, i, {
                if at_keyword(p, i, Keyword::OFFSET) {
                    let i = i + 1;
                    if !(inner_offset is Absent) {
                        Failed(error_view(position(p, i - 1), no_text() + "multiple OFFSET clauses not allowed"@), i)
                    } else {
                        match past(p, i, expr(p, i)) { Failed(e, i) => Failed(e, i), Got(v, i) => {
                        match onward(p, i, skip_row_word(p, i)) { Failed(e, i) => Failed(e, i), Got(_, i) => {
                        Got(v, i)
                        }}
                        }}
                    }
                } else {
                    Got(inner_offset, i)
                }
            }) { Failed(e, i) => Failed(e, i), Got(offset, i) => {
            match {
                if !(limit is Absent) {
                    Got(limit, i)
                } else {
                    if at_keyword(p, i, Keyword::FETCH) {
                        let i = i + 1;
                        fetch_clause(p, i)
                    } else {
                        Got(limit, i)
                    }
                }
            } { Failed(e, i) => Failed(e, i), Got(limit, i) => {
            Got(TreeView::Node(Kind::Query, seq![ctes, body, order_by, limit, offset]), i)
            }}
            }}
            }}
            }}
            }}
        }),
{
    reveal(query_tail);
    reveal(expr);
    reveal(fetch_clause);
    reveal(order_by_expr_list);
}

pub(crate) proof fn aligned_query_tail(p: Input, larger: Input, ahead: int, i: int, ctes: TreeView, body: TreeView)
    requires
        aligned(p, larger, ahead),
        0 <= i <= p.toks.len(),
    ensures
        agrees(p, ahead, i, query_tail(p, i, ctes, body), query_tail(larger, ahead + i, ctes, body)),
    decreases p.toks.len() - i, 0int,
{
    unfold_query_tail(p, i, ctes, body);
    unfold_query_tail(larger, ahead + i, ctes, body);
    let (inner_ctes, inner_order_by, inner_limit, inner_offset, body) = query_parts(body);
    let part = {
        if no_members(ctes) {
            Got(inner_ctes, i)
        } else {
            if !no_members(inner_ctes) {
                Failed(error_view(position(p, i), no_text() + "multiple WITH clauses not allowed"@), i)
            } else {
                Got(ctes, i)
            }
        }
    };
    if let Got(ctes, i) = onward(p, i, part) {
        if at_keywords2(p, i, Keyword::ORDER, Keyword::BY) {
            let i = i + 2;
            if !(!is_empty_list(inner_order_by)) {
                aligned_order_by_expr_list(p, larger, ahead, i, Seq::<TreeView>::empty());
            }
        }
        let part = {
            if at_keywords2(p, i, Keyword::ORDER, Keyword::BY) {
                let i = i + 2;
                if !is_empty_list(inner_order_by) {
                    Failed(error_view(position(p, i - 1), no_text() + "multiple ORDER BY clauses not allowed"@), i)
                } else {
                    match past(p, i, order_by_expr_list(p, i, Seq::<TreeView>::empty())) { Failed(e, i) => Failed(e, i), Got(es, i) => {
                    Got(TreeView::List(es), i)
                    }}
                }
            } else {
                Got(inner_order_by, i)
            }
        };
        if let Got(order_by, i) = onward(p, i, part) {
            if at_keyword(p, i, Keyword::LIMIT) {
                let i = i + 1;
                if !(!(inner_limit is Absent)) {
                    if !at_keyword(p, i, Keyword::ALL) {
                        aligned_expr(p, larger, ahead, i);
                    }
                }
            }
            let part = {
                if at_keyword(p, i, Keyword::LIMIT) {
                    let i = i + 1;
                    if !(inner_limit is Absent) {
                        Failed(error_view(position(p, i - 1), no_text() + "multiple LIMIT/FETCH clauses not allowed"@), i)
                    } else {
                        if at_keyword(p, i, Keyword::ALL) {
                            let i = i + 1;
                            Got(TreeView::Absent, i)
                        } else {
                            match past(p, i, expr(p, i)) { Failed(e, i) => Failed(e, i), Got(quantity, i) => {
                            Got(TreeView::Node(Kind::Limit, seq![TreeView::Flag(false), quantity]), i)
                            }}
                        }
                    }
                } else {
                    Got(inner_limit, i)
                }
            };
            if let Got(limit, i) = onward(p, i, part) {
                if at_keyword(p, i, Keyword::OFFSET) {
                    let i = i + 1;
                    if !(!(inner_offset is Absent)) {
                        aligned_expr(p, larger, ahead, i);
                        if let Got(v, i) = past(p, i, expr(p, i)) {
                            aligned_skip_row_word(p, larger, ahead, i);
                        }
                    }
                }
                let part = {
                    if at_keyword(p, i, Keyword::OFFSET) {
                        let i = i + 1;
                        if !(inner_offset is Absent) {
                            Failed(error_view(position(p, i - 1), no_text() + "multiple OFFSET clauses not allowed"@), i)
                        } else {
                            match past(p, i, expr(p, i)) { Failed(e, i) => Failed(e, i), Got(v, i) => {
                            match onward(p, i, skip_row_word(p, i)) { Failed(e, i) => Failed(e, i), Got(_, i) => {
                            Got(v, i)
                            }}
                            }}
                        }
                    } else {
                        Got(inner_offset, i)
                    }
                };
                if let Got(offset, i) = onward(p, i, part) {
                    if !(!(limit is Absent)) {
                        if at_keyword(p, i, Keyword::FETCH) {
                            let i = i + 1;
                            aligned_fetch_clause(p, larger, ahead, i);
                        }
                    }
                }
            }
        }
    }
}

pub(crate) proof fn aligned_skip_row_word(p: Input, larger: Input, ahead: int, i: int)
    requires
        aligned(p, larger, ahead),
        0 <= i <= p.toks.len(),
    ensures
        agrees(p, ahead, i, skip_row_word(p, i), skip_row_word(larger, ahead + i)),
{
    reveal(skip_row_word);
}

pub(crate) proof fn unfold_fetch_clause(p: Input, i: int)
    ensures
        fetch_clause(p, i) == ({
            match one_keyword(p, i, seq![Keyword::FIRST, Keyword::NEXT]) { Failed(e, i) => Failed(e, i), Got(k, i) => {
            match {
                match one_of(p, i, seq![Keyword::ROW, Keyword::ROWS]) {
                    Some(_) => {
                        let i = i + 1;
                        Got(TreeView::Node(Kind::NumberValue, seq![TreeView::Text("1"@)]), i)
                    },
                    None => {
                        match expr(p, i) { Failed(e, i) => Failed(e, i), Got(q, i) => {
                        match one_keyword(p, i, seq![Keyword::ROW, Keyword::ROWS]) { Failed(e, i) => Failed(e, i), Got(k, i) => {
                        Got(q, i)
                        }}
                        }}
                    },
                }
            } { Failed(e, i) => Failed(e, i), Got(quantity, i) => {
            if at_keyword(p, i, Keyword::ONLY) {
                let i = i + 1;
                Got(TreeView::Node(Kind::Limit, seq![TreeView::Flag(false), quantity]), i)
            } else {
                if at_keywords2(p, i, Keyword::WITH, Keyword::TIES) {
                    let i = i + 2;
                    Got(TreeView::Node(Kind::Limit, seq![TreeView::Flag(true), quantity]), i)
                } else {
                    Failed(expected_at(p, i, "one of ONLY or WITH TIES"@), i)
                }
            }
            }}
            }}
        }),
{
    reveal(fetch_clause);
    reveal(expr);
}

pub(crate) proof fn aligned_fetch_clause(p: Input, larger: Input, ahead: int, i: int)
    requires
        aligned(p, larger, ahead),
        0 <= i <= p.toks.len(),
    ensures
        agrees(p, ahead, i + 1, fetch_clause(p, i), fetch_clause(larger, ahead + i)),
    decreases p.toks.len() - i, 0int,
{
    unfold_fetch_clause(p, i);
    unfold_fetch_clause(larger, ahead + i);
    if let Got(k, i) = one_keyword(p, i, seq![Keyword::FIRST, Keyword::NEXT]) {
        if one_of(p, i, seq![Keyword::ROW, Keyword::ROWS]) is None {
            aligned_expr(p, larger, ahead, i);
        }
    }
}

pub(crate) proof fn unfold_cte(p: Input, i: int)
    ensures
        cte(p, i) == ({
            match past(p, i, identifier(p, i)) { Failed(e, i) => Failed(e, i), Got(name, i) => {
            match onward(p, i, parenthesized_column_list(p, i, true)) { Failed(e, i) => Failed(e, i), Got(columns, i) => {
            match keyword(p, i, Keyword::AS) { Failed(e, i) => Failed(e, i), Got(_, i) => {
            match token(p, i, TokenView::LParen) { Failed(e, i) => Failed(e, i), Got(_, i) => {
            match query(p, i) { Failed(e, i) => Failed(e, i), Got(q, i) => {
            match token(p, i, TokenView::RParen) { Failed(e, i) => Failed(e, i), Got(_, i) => {
            Got(TreeView::Node(Kind::Cte, seq![TreeView::Node(Kind::TableAlias, seq![name, columns, TreeView::Flag(false)]), q]), i)
            }}
            }}
            }}
            }}
            }}
            }}
        }),
{
    reveal(cte);
    reveal(query);
}

pub(crate) proof fn aligned_cte(p: Input, larger: Input, ahead: int, i: int)
    requires
        aligned(p, larger, ahead),
        0 <= i <= p.toks.len(),
    ensures
        agrees(p, ahead, i + 1, cte(p, i), cte(larger, ahead + i)),
    decreases p.toks.len() - i, 0int,
{
    unfold_cte(p, i);
    unfold_cte(larger, ahead + i);
    aligned_identifier(p, larger, ahead, i);
    if let Got(name, i) = past(p, i, identifier(p, i)) {
        aligned_parenthesized_column_list(p, larger, ahead, i, true);
        if let Got(columns, i) = onward(p, i, parenthesized_column_list(p, i, true)) {
            if let Got(_, i) = keyword(p, i, Keyword::AS) {
                if let Got(_, i) = token(p, i, TokenView::LParen) {
                    aligned_query(p, larger, ahead, i);
                }
            }
        }
    }
}

pub(crate) proof fn unfold_cte_list(p: Input, i: int, items: Seq<TreeView>)
    ensures
        cte_list(p, i, items) == ({
            match past(p, i, cte(p, i)) { Failed(e, i) => Failed(e, i), Got(item, i) => {
            if at_token(p, i, TokenView::Comma) {
                let i = i + 1;
                cte_list(p, i, items.push(item))
            } else {
                Got(items.push(item), i)
            }
            }}
        }),
{
    reveal(cte_list);
    reveal(cte);
}

pub(crate) proof fn aligned_cte_list(p: Input, larger: Input, ahead: int, i: int, items: Seq<TreeView>)
    requires
        aligned(p, larger, ahead),
        0 <= i <= p.toks.len(),
    ensures
        agrees(p, ahead, i + 1, cte_list(p, i, items), cte_list(larger, ahead + i, items)),
    decreases p.toks.len() - i, 1int,
{
    unfold_cte_list(p, i, items);
    unfold_cte_list(larger, ahead + i, items);
    aligned_cte(p, larger, ahead, i);
    if let Got(item, i) = past(p, i, cte(p, i)) {
        if at_token(p, i, TokenView::Comma) {
            let i = i + 1;
            aligned_cte_list(p, larger, ahead, i, items.push(item));
        }
    }
}

pub(crate) proof fn aligned_cte_mut_rec_column(p: Input, larger: Input, ahead: int, i: int)
    requires
        aligned(p, larger, ahead),
        0 <= i <= p.toks.len(),
    ensures
        agrees(p, ahead, i + 1, cte_mut_rec_column(p, i), cte_mut_rec_column(larger, ahead + i)),
{
    reveal(cte_mut_rec_column);
    aligned_identifier(p, larger, ahead, i);
    if let Got(name, i) = identifier(p, i) {
        aligned_data_type(p, larger, ahead, i);
    }
}

pub(crate) proof fn unfold_cte_mut_rec_column_list(p: Input, i: int, items: Seq<TreeView>)
    ensures
        cte_mut_rec_column_list(p, i, items) == ({
            match past(p, i, cte_mut_rec_column(p, i)) { Failed(e, i) => Failed(e, i), Got(item, i) => {
            if at_token(p, i, TokenView::Comma) {
                let i = i + 1;
                cte_mut_rec_column_list(p, i, items.push(item))
            } else {
                Got(items.push(item), i)
            }
            }}
        }),
{
    reveal(cte_mut_rec_column_list);
}

pub(crate) proof fn aligned_cte_mut_rec_column_list(p: Input, larger: Input, ahead: int, i: int, items: Seq<TreeView>)
    requires
        aligned(p, larger, ahead),
        0 <= i <= p.toks.len(),
    ensures
        agrees(p, ahead, i + 1, cte_mut_rec_column_list(p, i, items), cte_mut_rec_column_list(larger, ahead + i, items)),
    decreases p.toks.len() - i, 0int,
{
    unfold_cte_mut_rec_column_list(p, i, items);
    unfold_cte_mut_rec_column_list(larger, ahead + i, items);
    aligned_cte_mut_rec_column(p, larger, ahead, i);
    if let Got(item, i) = past(p, i, cte_mut_rec_column(p, i)) {
        if at_token(p, i, TokenView::Comma) {
            let i = i + 1;
            aligned_cte_mut_rec_column_list(p, larger, ahead, i, items.push(item));
        }
    }
}

pub(crate) proof fn unfold_cte_mut_rec(p: Input, i: int)
    ensures
        cte_mut_rec(p, i) == ({
            match past(p, i, identifier(p, i)) { Failed(e, i) => Failed(e, i), Got(name, i) => {
            match token(p, i, TokenView::LParen) { Failed(e, i) => Failed(e, i), Got(_, i) => {
            match past(p, i, cte_mut_rec_column_list(p, i, Seq::<TreeView>::empty())) { Failed(e, i) => Failed(e, i), Got(columns, i) => {
            match token(p, i, TokenView::RParen) { Failed(e, i) => Failed(e, i), Got(_, i) => {
            match keyword(p, i, Keyword::AS) { Failed(e, i) => Failed(e, i), Got(_, i) => {
            match token(p, i, TokenView::LParen) { Failed(e, i) => Failed(e, i), Got(_, i) => {
            match query(p, i) { Failed(e, i) => Failed(e, i), Got(q, i) => {
            match token(p, i, TokenView::RParen) { Failed(e, i) => Failed(e, i), Got(_, i) => {
            Got(TreeView::Node(Kind::CteMutRec, seq![name, TreeView::List(columns), q]), i)
            }}
            }}
            }}
            }}
            }}
            }}
            }}
            }}
        }),
{
    reveal(cte_mut_rec);
    reveal(query);
}

pub(crate) proof fn aligned_cte_mut_rec(p: Input, larger: Input, ahead: int, i: int)
    requires
        aligned(p, larger, ahead),
        0 <= i <= p.toks.len(),
    ensures
        agrees(p, ahead, i + 1, cte_mut_rec(p, i), cte_mut_rec(larger, ahead + i)),
    decreases p.toks.len() - i, 0int,
{
    unfold_cte_mut_rec(p, i);
    unfold_cte_mut_rec(larger, ahead + i);
    aligned_identifier(p, larger, ahead, i);
    if let Got(name, i) = past(p, i, identifier(p, i)) {
        if let Got(_, i) = token(p, i, TokenView::LParen) {
            aligned_cte_mut_rec_column_list(p, larger, ahead, i, Seq::<TreeView>::empty());
            if let Got(columns, i) = past(p, i, cte_mut_rec_column_list(p, i, Seq::<TreeView>::empty())) {
                if let Got(_, i) = token(p, i, TokenView::RParen) {
                    if let Got(_, i) = keyword(p, i, Keyword::AS) {
                        if let Got(_, i) = token(p, i, TokenView::LParen) {
                            aligned_query(p, larger, ahead, i);
                        }
                    }
                }
            }
        }
    }
}

pub(crate) proof fn unfold_cte_mut_rec_list(p: Input, i: int, items: Seq<TreeView>)
    ensures
        cte_mut_rec_list(p, i, items) == ({
            match past(p, i, cte_mut_rec(p, i)) { Failed(e, i) => Failed(e, i), Got(item, i) => {
            if at_token(p, i, TokenView::Comma) {
                let i = i + 1;
                cte_mut_rec_list(p, i, items.push(item))
            } else {
                Got(items.push(item), i)
            }
            }}
        }),
{
    reveal(cte_mut_rec_list);
    reveal(cte_mut_rec);
}

pub(crate) proof fn aligned_cte_mut_rec_list(p: Input, larger: Input, ahead: int, i: int, items: Seq<TreeView>)
    requires
        aligned(p, larger, ahead),
        0 <= i <= p.toks.len(),
    ensures
        agrees(p, ahead, i + 1, cte_mut_rec_list(p, i, items), cte_mut_rec_list(larger, ahead + i, items)),
    decreases p.toks.len() - i, 1int,
{
    unfold_cte_mut_rec_list(p, i, items);
    unfold_cte_mut_rec_list(larger, ahead + i, items);
    aligned_cte_mut_rec(p, larger, ahead, i);
    if let Got(item, i) = past(p, i, cte_mut_rec(p, i)) {
        if at_token(p, i, TokenView::Comma) {
            let i = i + 1;
            aligned_cte_mut_rec_list(p, larger, ahead, i, items.push(item));
        }
    }
}

pub(crate) proof fn unfold_query_body(p: Input, i: int, precedence: SetPrecedence)
    ensures
        query_body(p, i, precedence) == ({
            match onward(p, i, {
                if at_keyword(p, i, Keyword::SELECT) {
                    let i = i + 1;
                    match onward(p, i, select(p, i)) { Failed(e, i) => Failed(e, i), Got(s, i) => {
                    Got(TreeView::Node(Kind::SelectBody, seq![s]), i)
                    }}
                } else {
                    if at_token(p, i, TokenView::LParen) {
                        let i = i + 1;
                        match past(p, i, query(p, i)) { Failed(e, i) => Failed(e, i), Got(subquery, i) => {
                        match token(p, i, TokenView::RParen) { Failed(e, i) => Failed(e, i), Got(_, i) => {
                        Got(TreeView::Node(Kind::QueryBody, seq![subquery]), i)
                        }}
                        }}
                    } else {
                        if at_keyword(p, i, Keyword::VALUES) {
                            let i = i + 1;
                            match past(p, i, values_row_list(p, i, Seq::<TreeView>::empty())) { Failed(e, i) => Failed(e, i), Got(rows, i) => {
                            Got(TreeView::Node(Kind::ValuesBody, seq![TreeView::List(rows)]), i)
                            }}
                        } else {
                            if at_keyword(p, i, Keyword::SHOW) {
                                let i = i + 1;
                                match onward(p, i, show(p, i)) { Failed(e, i) => Failed(e, i), Got(s, i) => {
                                Got(TreeView::Node(Kind::ShowBody, seq![s]), i)
                                }}
                            } else {
                                Failed(expected_at(p, i, "SELECT, VALUES, or a subquery in the query body"@), i)
                            }
                        }
                    }
                }
            }) { Failed(e, i) => Failed(e, i), Got(e, i) => {
            query_body_seeded(p, i, precedence, e)
            }}
        }),
{
    reveal(query_body);
    reveal(query);
    reveal(query_body_seeded);
    reveal(select);
    reveal(show);
    reveal(values_row_list);
}

pub(crate) proof fn aligned_query_body(p: Input, larger: Input, ahead: int, i: int, precedence: SetPrecedence)
    requires
        aligned(p, larger, ahead),
        0 <= i <= p.toks.len(),
    ensures
        agrees(p, ahead, i + 1, query_body(p, i, precedence), query_body(larger, ahead + i, precedence)),
    decreases p.toks.len() - i, 0int,
{
    unfold_query_body(p, i, precedence);
    unfold_query_body(larger, ahead + i, precedence);
    if at_keyword(p, i, Keyword::SELECT) {
        let i = i + 1;
        aligned_select(p, larger, ahead, i);
    } else {
        if at_token(p, i, TokenView::LParen) {
            let i = i + 1;
            aligned_query(p, larger, ahead, i);
        } else {
            if at_keyword(p, i, Keyword::VALUES) {
                let i = i + 1;
                aligned_values_row_list(p, larger, ahead, i, Seq::<TreeView>::empty());
            } else {
                if at_keyword(p, i, Keyword::SHOW) {
                    let i = i + 1;
                    aligned_show(p, larger, ahead, i);
                }
            }
        }
    }
    let part = {
        if at_keyword(p, i, Keyword::SELECT) {
            let i = i + 1;
            match onward(p, i, select(p, i)) { Failed(e, i) => Failed(e, i), Got(s, i) => {
            Got(TreeView::Node(Kind::SelectBody, seq![s]), i)
            }}
        } else {
            if at_token(p, i, TokenView::LParen) {
                let i = i + 1;
                match past(p, i, query(p, i)) { Failed(e, i) => Failed(e, i), Got(subquery, i) => {
                match token(p, i, TokenView::RParen) { Failed(e, i) => Failed(e, i), Got(_, i) => {
                Got(TreeView::Node(Kind::QueryBody, seq![subquery]), i)
                }}
                }}
            } else {
                if at_keyword(p, i, Keyword::VALUES) {
                    let i = i + 1;
                    match past(p, i, values_row_list(p, i, Seq::<TreeView>::empty())) { Failed(e, i) => Failed(e, i), Got(rows, i) => {
                    Got(TreeView::Node(Kind::ValuesBody, seq![TreeView::List(rows)]), i)
                    }}
                } else {
                    if at_keyword(p, i, Keyword::SHOW) {
                        let i = i + 1;
                        match onward(p, i, show(p, i)) { Failed(e, i) => Failed(e, i), Got(s, i) => {
                        Got(TreeView::Node(Kind::ShowBody, seq![s]), i)
                        }}
                    } else {
                        Failed(expected_at(p, i, "SELECT, VALUES, or a subquery in the query body"@), i)
                    }
                }
            }
        }
    };
    if let Got(e, i) = onward(p, i, part) {
        aligned_query_body_seeded(p, larger, ahead, i, precedence, e);
    }
}

pub(crate) proof fn unfold_query_body_seeded(p: Input, i: int, precedence: SetPrecedence, e: TreeView)
    ensures
        query_body_seeded(p, i, precedence, e) == ({
            match token_at(p, i) {
                Some(TokenView::Keyword(Keyword::UNION)) => {
                    if set_binding(precedence) >= set_binding(SetPrecedence::UnionExcept) {
                        Got(e, i)
                    } else {
                        match keyword(p, i, Keyword::UNION) { Failed(e, i) => Failed(e, i), Got(_, i) => {
                        match onward(p, i, set_operation_all(p, i)) { Failed(e, i) => Failed(e, i), Got(all, i) => {
                        match past(p, i, query_body(p, i, SetPrecedence::UnionExcept)) { Failed(e, i) => Failed(e, i), Got(right, i) => {
                        query_body_seeded(p, i, precedence, TreeView::Node(Kind::SetOperation, seq![e, TreeView::Node(Kind::Union, Seq::<TreeView>::empty()), TreeView::Flag(all), right]))
                        }}
                        }}
                        }}
                    }
                },
                Some(TokenView::Keyword(Keyword::EXCEPT)) => {
                    if set_binding(precedence) >= set_binding(SetPrecedence::UnionExcept) {
                        Got(e, i)
                    } else {
                        match keyword(p, i, Keyword::EXCEPT) { Failed(e, i) => Failed(e, i), Got(_, i) => {
                        match onward(p, i, set_operation_all(p, i)) { Failed(e, i) => Failed(e, i), Got(all, i) => {
                        match past(p, i, query_body(p, i, SetPrecedence::UnionExcept)) { Failed(e, i) => Failed(e, i), Got(right, i) => {
                        query_body_seeded(p, i, precedence, TreeView::Node(Kind::SetOperation, seq![e, TreeView::Node(Kind::Except, Seq::<TreeView>::empty()), TreeView::Flag(all), right]))
                        }}
                        }}
                        }}
                    }
                },
                Some(TokenView::Keyword(Keyword::INTERSECT)) => {
                    if set_binding(precedence) >= set_binding(SetPrecedence::Intersect) {
                        Got(e, i)
                    } else {
                        match keyword(p, i, Keyword::INTERSECT) { Failed(e, i) => Failed(e, i), Got(_, i) => {
                        match onward(p, i, set_operation_all(p, i)) { Failed(e, i) => Failed(e, i), Got(all, i) => {
                        match past(p, i, query_body(p, i, SetPrecedence::Intersect)) { Failed(e, i) => Failed(e, i), Got(right, i) => {
                        query_body_seeded(p, i, precedence, TreeView::Node(Kind::SetOperation, seq![e, TreeView::Node(Kind::Intersect, Seq::<TreeView>::empty()), TreeView::Flag(all), right]))
                        }}
                        }}
                        }}
                    }
                },
                _ => {
                    Got(e, i)
                },
            }
        }),
{
    reveal(query_body_seeded);
    reveal(query_body);
}

pub(crate) proof fn aligned_query_body_seeded(p: Input, larger: Input, ahead: int, i: int, precedence: SetPrecedence, e: TreeView)
    requires
        aligned(p, larger, ahead),
        0 <= i <= p.toks.len(),
    ensures
        agrees(p, ahead, i, query_body_seeded(p, i, precedence, e), query_body_seeded(larger, ahead + i, precedence, e)),
    decreases p.toks.len() - i, 0int,
{
    unfold_query_body_seeded(p, i, precedence, e);
    unfold_query_body_seeded(larger, ahead + i, precedence, e);
    match token_at(p, i) {
        Some(TokenView::Keyword(Keyword::UNION)) => {
            if !(set_binding(precedence) >= set_binding(SetPrecedence::UnionExcept)) {
                if let Got(_, i) = keyword(p, i, Keyword::UNION) {
                    aligned_set_operation_all(p, larger, ahead, i);
                    if let Got(all, i) = onward(p, i, set_operation_all(p, i)) {
                        aligned_query_body(p, larger, ahead, i, SetPrecedence::UnionExcept);
                        if let Got(right, i) = past(p, i, query_body(p, i, SetPrecedence::UnionExcept)) {
                            aligned_query_body_seeded(p, larger, ahead, i, precedence, TreeView::Node(Kind::SetOperation, seq![e, TreeView::Node(Kind::Union, Seq::<TreeView>::empty()), TreeView::Flag(all), right]));
                        }
                    }
                }
            }
        },
        Some(TokenView::Keyword(Keyword::EXCEPT)) => {
            if !(set_binding(precedence) >= set_binding(SetPrecedence::UnionExcept)) {
                if let Got(_, i) = keyword(p, i, Keyword::EXCEPT) {
                    aligned_set_operation_all(p, larger, ahead, i);
                    if let Got(all, i) = onward(p, i, set_operation_all(p, i)) {
                        aligned_query_body(p, larger, ahead, i, SetPrecedence::UnionExcept);
                        if let Got(right, i) = past(p, i, query_body(p, i, SetPrecedence::UnionExcept)) {
                            aligned_query_body_seeded(p, larger, ahead, i, precedence, TreeView::Node(Kind::SetOperation, seq![e, TreeView::Node(Kind::Except, Seq::<TreeView>::empty()), TreeView::Flag(all), right]));
                        }
                    }
                }
            }
        },
        Some(TokenView::Keyword(Keyword::INTERSECT)) => {
            if !(set_binding(precedence) >= set_binding(SetPrecedence::Intersect)) {
                if let Got(_, i) = keyword(p, i, Keyword::INTERSECT) {
                    aligned_set_operation_all(p, larger, ahead, i);
                    if let Got(all, i) = onward(p, i, set_operation_all(p, i)) {
                        aligned_query_body(p, larger, ahead, i, SetPrecedence::Intersect);
                        if let Got(right, i) = past(p, i, query_body(p, i, SetPrecedence::Intersect)) {
                            aligned_query_body_seeded(p, larger, ahead, i, precedence, TreeView::Node(Kind::SetOperation, seq![e, TreeView::Node(Kind::Intersect, Seq::<TreeView>::empty()), TreeView::Flag(all), right]));
                        }
                    }
                }
            }
        },
        _ => {},
    }
}

pub(crate) proof fn aligned_set_operation_all(p: Input, larger: Input, ahead: int, i: int)
    requires
        aligned(p, larger, ahead),
        0 <= i <= p.toks.len(),
    ensures
        agrees(p, ahead, i, set_operation_all(p, i), set_operation_all(larger, ahead + i)),
{
    reveal(set_operation_all);
}

pub(crate) proof fn unfold_order_by_expr(p: Input, i: int)
    ensures
        order_by_expr(p, i) == ({
            match expr(p, i) { Failed(e, i) => Failed(e, i), Got(e, i) => {
            match {
                if at_keyword(p, i, Keyword::ASC) {
                    let i = i + 1;
                    Got(TreeView::Flag(true), i)
                } else {
                    if at_keyword(p, i, Keyword::DESC) {
                        let i = i + 1;
                        Got(TreeView::Flag(false), i)
                    } else {
                        Got(TreeView::Absent, i)
                    }
                }
            } { Failed(e, i) => Failed(e, i), Got(asc, i) => {
            match {
                if at_keyword(p, i, Keyword::NULLS) {
                    let i = i + 1;
                    match one_keyword(p, i, seq![Keyword::FIRST, Keyword::LAST]) { Failed(e, i) => Failed(e, i), Got(k, i) => {
                    if k == Keyword::LAST {
                        Got(TreeView::Flag(true), i)
                    } else {
                        Got(TreeView::Flag(false), i)
                    }
                    }}
                } else {
                    Got(TreeView::Absent, i)
                }
            } { Failed(e, i) => Failed(e, i), Got(nulls_last, i) => {
            Got(TreeView::Node(Kind::OrderByExpr, seq![e, asc, nulls_last]), i)
            }}
            }}
            }}
        }),
{
    reveal(order_by_expr);
    reveal(expr);
}

pub(crate) proof fn aligned_order_by_expr(p: Input, larger: Input, ahead: int, i: int)
    requires
        aligned(p, larger, ahead),
        0 <= i <= p.toks.len(),
    ensures
        agrees(p, ahead, i + 1, order_by_expr(p, i), order_by_expr(larger, ahead + i)),
    decreases p.toks.len() - i, 4int,
{
    unfold_order_by_expr(p, i);
    unfold_order_by_expr(larger, ahead + i);
    aligned_expr(p, larger, ahead, i);
}

pub(crate) proof fn unfold_order_by_expr_list(p: Input, i: int, items: Seq<TreeView>)
    ensures
        order_by_expr_list(p, i, items) == ({
            match past(p, i, order_by_expr(p, i)) { Failed(e, i) => Failed(e, i), Got(item, i) => {
            if at_token(p, i, TokenView::Comma) {
                let i = i + 1;
                order_by_expr_list(p, i, items.push(item))
            } else {
                Got(items.push(item), i)
            }
            }}
        }),
{
    reveal(order_by_expr_list);
    reveal(order_by_expr);
}

pub(crate) proof fn aligned_order_by_expr_list(p: Input, larger: Input, ahead: int, i: int, items: Seq<TreeView>)
    requires
        aligned(p, larger, ahead),
        0 <= i <= p.toks.len(),
    ensures
        agrees(p, ahead, i + 1, order_by_expr_list(p, i, items), order_by_expr_list(larger, ahead + i, items)),
    decreases p.toks.len() - i, 5int,
{
    unfold_order_by_expr_list(p, i, items);
    unfold_order_by_expr_list(larger, ahead + i, items);
    aligned_order_by_expr(p, larger, ahead, i);
    if let Got(item, i) = past(p, i, order_by_expr(p, i)) {
        if at_token(p, i, TokenView::Comma) {
            let i = i + 1;
            aligned_order_by_expr_list(p, larger, ahead, i, items.push(item));
        }
    }
}

pub(crate) proof fn unfold_optional_args(p: Input, i: int, allow_order_by: bool)
    ensures
        optional_args(p, i, allow_order_by) == ({
            if at_token(p, i, TokenView::Star) {
                let i = i + 1;
                match token(p, i, TokenView::RParen) { Failed(e, i) => Failed(e, i), Got(_, i) => {
                Got(TreeView::Node(Kind::StarArgs, Seq::<TreeView>::empty()), i)
                }}
            } else {
                if at_token(p, i, TokenView::RParen) {
                    let i = i + 1;
                    Got(TreeView::Node(Kind::Args, seq![TreeView::List(Seq::<TreeView>::empty()), TreeView::List(Seq::<TreeView>::empty())]), i)
                } else {
                    match past(p, i, expr_list(p, i, Seq::<TreeView>::empty())) { Failed(e, i) => Failed(e, i), Got(args, i) => {
                    match {
                        if !(allow_order_by) {
                            Got(TreeView::List(Seq::<TreeView>::empty()), i)
                        } else {
                            if at_keywords2(p, i, Keyword::ORDER, Keyword::BY) {
                                let i = i + 2;
                                match order_by_expr_list(p, i, Seq::<TreeView>::empty()) { Failed(e, i) => Failed(e, i), Got(es, i) => {
                                Got(TreeView::List(es), i)
                                }}
                            } else {
                                Got(TreeView::List(Seq::<TreeView>::empty()), i)
                            }
                        }
                    } { Failed(e, i) => Failed(e, i), Got(order_by, i) => {
                    match token(p, i, TokenView::RParen) { Failed(e, i) => Failed(e, i), Got(_, i) => {
                    Got(TreeView::Node(Kind::Args, seq![TreeView::List(args), order_by]), i)
                    }}
                    }}
                    }}
                }
            }
        }),
{
    reveal(optional_args);
    reveal(expr_list);
    reveal(order_by_expr_list);
}

pub(crate) proof fn aligned_optional_args(p: Input, larger: Input, ahead: int, i: int, allow_order_by: bool)
    requires
        aligned(p, larger, ahead),
        0 <= i <= p.toks.len(),
    ensures
        agrees(p, ahead, i + 1, optional_args(p, i, allow_order_by), optional_args(larger, ahead + i, allow_order_by)),
    decreases p.toks.len() - i, 5int,
{
    unfold_optional_args(p, i, allow_order_by);
    unfold_optional_args(larger, ahead + i, allow_order_by);
    if !at_token(p, i, TokenView::Star) {
        if !at_token(p, i, TokenView::RParen) {
            aligned_expr_list(p, larger, ahead, i, Seq::<TreeView>::empty());
            if let Got(args, i) = past(p, i, expr_list(p, i, Seq::<TreeView>::empty())) {
                if !(!(allow_order_by)) {
                    if at_keywords2(p, i, Keyword::ORDER, Keyword::BY) {
                        let i = i + 2;
                        aligned_order_by_expr_list(p, larger, ahead, i, Seq::<TreeView>::empty());
                    }
                }
            }
        }
    }
}

} // verus!
