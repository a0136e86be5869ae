//! How expressions are read inside of larger texts.

use vstd::prelude::*;

use crate::sql_parser::alignment::names::{
    aligned_array_expr, aligned_data_type, aligned_identifier, aligned_item_name,
    aligned_list_expr, aligned_literal_string, aligned_literal_uint, aligned_optional_precision,
    aligned_qualified_identifier, aligned_value,
};
use crate::sql_parser::alignment::query::{
    aligned_optional_args, aligned_order_by_expr_list, aligned_query, aligned_query_body_seeded,
    aligned_query_tail,
};
use crate::sql_parser::alignment::tables::aligned_named_function;
use crate::sql_parser::alignment::{agrees, aligned, lemma_deeper};
use crate::sql_parser::checks::{
    date_time_field, field_order, is_interval, is_node, name_text, next_precedence,
};
use crate::sql_parser::expr::{
    between, binary_operand, case_arms, case_expr, cast_expr, composite_field,
    composite_field_list, composite_type_definition, distinct_choice, exists_expr, expr, expr_list,
    extract_expr, function, homogenizing_function, in_predicate, infix, infixes,
    interval_precision, interval_value, is_construct, like, more_exprs, nested_rest, nullif_expr,
    operator, parenthesized, parenthesized_expr, pg_cast, position_expr, prefix, prefix_operand,
    range_predicate, row_expr, subexpr, subexpr_seeded, subscripts, substring_expr, trim_expr,
    typed_literal, window_frame, window_frame_bound,
};
use crate::sql_parser::keywords::{Keyword, is_reserved_spec, keyword_ident};
use crate::sql_parser::kind::Kind;
use crate::sql_parser::names::{
    array_expr, data_type, identifier, item_name, list_expr, literal_string, qualified_identifier,
    value,
};
use crate::sql_parser::number::number_kind;
use crate::sql_parser::outcome::Out::{Failed, Got};
use crate::sql_parser::outcome::{FailureView, error_view, too_deep};
use crate::sql_parser::parser::{
    Input, Precedence, RECURSION_LIMIT, SetPrecedence, at_keyword, at_keywords2, at_token, binding,
    deeper, expected_at, keyword, one_keyword, one_of, onward, past, position, token, token_at,
};
use crate::sql_parser::query::{
    optional_args, order_by_expr_list, query, query_body_seeded, query_tail,
};
use crate::sql_parser::syntax::TreeView;
use crate::sql_parser::tables::named_function;
use crate::sql_parser::text::no_text;
use crate::sql_parser::token::TokenView;

verus! {

pub(crate) proof fn unfold_expr(p: Input, i: int)
    ensures
        expr(p, i) == ({
            subexpr(p, i, Precedence::Zero)
        }),
{
    reveal(expr);
    reveal(subexpr);
}

pub(crate) proof fn aligned_expr(p: Input, larger: Input, ahead: int, i: int)
    requires
        aligned(p, larger, ahead),
        0 <= i <= p.toks.len(),
    ensures
        agrees(p, ahead, i + 1, expr(p, i), expr(larger, ahead + i)),
    decreases p.toks.len() - i, 3int,
{
    unfold_expr(p, i);
    unfold_expr(larger, ahead + i);
    aligned_subexpr(p, larger, ahead, i, Precedence::Zero);
}

pub(crate) proof fn unfold_expr_list(p: Input, i: int, items: Seq<TreeView>)
    ensures
        expr_list(p, i, items) == ({
            match past(p, i, expr(p, i)) { Failed(e, i) => Failed(e, i), Got(item, i) => {
            if at_token(p, i, TokenView::Comma) {
                let i = i + 1;
                expr_list(p, i, items.push(item))
            } else {
                Got(items.push(item), i)
            }
            }}
        }),
{
    reveal(expr_list);
    reveal(expr);
}

pub(crate) proof fn aligned_expr_list(p: Input, larger: Input, ahead: int, i: int, items: Seq<TreeView>)
    requires
        aligned(p, larger, ahead),
        0 <= i <= p.toks.len(),
    ensures
        agrees(p, ahead, i + 1, expr_list(p, i, items), expr_list(larger, ahead + i, items)),
    decreases p.toks.len() - i, 4int,
{
    unfold_expr_list(p, i, items);
    unfold_expr_list(larger, ahead + i, items);
    aligned_expr(p, larger, ahead, i);
    if let Got(item, i) = past(p, i, expr(p, i)) {
        if at_token(p, i, TokenView::Comma) {
            let i = i + 1;
            aligned_expr_list(p, larger, ahead, i, items.push(item));
        }
    }
}

pub(crate) proof fn unfold_subexpr(p: Input, i: int, precedence: Precedence)
    ensures
        subexpr(p, i, precedence) == ({
            match past(p, i, (if p.depth >= RECURSION_LIMIT { Failed(too_deep(), i) } else { prefix(deeper(p), i) })) { Failed(e, i) => Failed(e, i), Got(e, i) => {
            subexpr_seeded(p, i, precedence, e)
            }}
        }),
{
    reveal(subexpr);
    reveal(prefix);
    reveal(subexpr_seeded);
}

pub(crate) proof fn aligned_subexpr(p: Input, larger: Input, ahead: int, i: int, precedence: Precedence)
    requires
        aligned(p, larger, ahead),
        0 <= i <= p.toks.len(),
    ensures
        agrees(p, ahead, i + 1, subexpr(p, i, precedence), subexpr(larger, ahead + i, precedence)),
    decreases p.toks.len() - i, 2int,
{
    unfold_subexpr(p, i, precedence);
    unfold_subexpr(larger, ahead + i, precedence);
    lemma_deeper(p, larger, ahead);
    if p.depth < RECURSION_LIMIT {
        aligned_prefix(deeper(p), deeper(larger), ahead, i);
    }
    if let Got(e, i) = past(p, i, (if p.depth >= RECURSION_LIMIT { Failed(too_deep(), i) } else { prefix(deeper(p), i) })) {
        aligned_subexpr_seeded(p, larger, ahead, i, precedence, e);
    }
}

pub(crate) proof fn unfold_subexpr_seeded(p: Input, i: int, precedence: Precedence, e: TreeView)
    ensures
        subexpr_seeded(p, i, precedence, e) == ({
            (if p.depth >= RECURSION_LIMIT { Failed(too_deep(), i) } else { infixes(deeper(p), i, precedence, e) })
        }),
{
    reveal(subexpr_seeded);
    reveal(infixes);
}

pub(crate) proof fn aligned_subexpr_seeded(p: Input, larger: Input, ahead: int, i: int, precedence: Precedence, e: TreeView)
    requires
        aligned(p, larger, ahead),
        0 <= i <= p.toks.len(),
    ensures
        agrees(p, ahead, i, subexpr_seeded(p, i, precedence, e), subexpr_seeded(larger, ahead + i, precedence, e)),
    decreases p.toks.len() - i, 3int,
{
    unfold_subexpr_seeded(p, i, precedence, e);
    unfold_subexpr_seeded(larger, ahead + i, precedence, e);
    lemma_deeper(p, larger, ahead);
    if p.depth < RECURSION_LIMIT {
        aligned_infixes(deeper(p), deeper(larger), ahead, i, precedence, e);
    }
}

pub(crate) proof fn unfold_infixes(p: Input, i: int, precedence: Precedence, e: TreeView)
    ensures
        infixes(p, i, precedence, e) == ({
            if binding(precedence) >= binding(next_precedence(p, i)) {
                Got(e, i)
            } else {
                match past(p, i, infix(p, i, e, next_precedence(p, i))) { Failed(e, i) => Failed(e, i), Got(longer, i) => {
                infixes(p, i, precedence, longer)
                }}
            }
        }),
{
    reveal(infixes);
    reveal(infix);
}

pub(crate) proof fn aligned_infixes(p: Input, larger: Input, ahead: int, i: int, precedence: Precedence, e: TreeView)
    requires
        aligned(p, larger, ahead),
        0 <= i <= p.toks.len(),
    ensures
        agrees(p, ahead, i, infixes(p, i, precedence, e), infixes(larger, ahead + i, precedence, e)),
    decreases p.toks.len() - i, 2int,
{
    unfold_infixes(p, i, precedence, e);
    unfold_infixes(larger, ahead + i, precedence, e);
    if !(binding(precedence) >= binding(next_precedence(p, i))) {
        aligned_infix(p, larger, ahead, i, e, next_precedence(p, i));
        if let Got(longer, i) = past(p, i, infix(p, i, e, next_precedence(p, i))) {
            aligned_infixes(p, larger, ahead, i, precedence, longer);
        }
    }
}

pub(crate) proof fn aligned_typed_literal(p: Input, larger: Input, ahead: int, i: int)
    requires
        aligned(p, larger, ahead),
        0 <= i <= p.toks.len(),
    ensures
        agrees(p, ahead, i + 1, typed_literal(p, i), typed_literal(larger, ahead + i)),
{
    reveal(typed_literal);
    aligned_data_type(p, larger, ahead, i);
    if let Got(data_type, i) = data_type(p, i) {
        if is_interval(data_type) {
            aligned_interval_value(p, larger, ahead, i);
        } else {
            aligned_literal_string(p, larger, ahead, i);
        }
    }
}

pub(crate) proof fn unfold_prefix_operand(p: Input, i: int, op: Seq<char>, precedence: Precedence)
    ensures
        prefix_operand(p, i, op, precedence) == ({
            match subexpr(p, i, precedence) { Failed(e, i) => Failed(e, i), Got(e, i) => {
            Got(TreeView::Node(Kind::Op, seq![TreeView::Node(Kind::BareOp, seq![TreeView::Text(op)]), e, TreeView::Absent]), i)
            }}
        }),
{
    reveal(prefix_operand);
    reveal(subexpr);
}

pub(crate) proof fn aligned_prefix_operand(p: Input, larger: Input, ahead: int, i: int, op: Seq<char>, precedence: Precedence)
    requires
        aligned(p, larger, ahead),
        0 <= i <= p.toks.len(),
    ensures
        agrees(p, ahead, i + 1, prefix_operand(p, i, op, precedence), prefix_operand(larger, ahead + i, op, precedence)),
    decreases p.toks.len() - i, 3int,
{
    unfold_prefix_operand(p, i, op, precedence);
    unfold_prefix_operand(larger, ahead + i, op, precedence);
    aligned_subexpr(p, larger, ahead, i, precedence);
}

pub(crate) proof fn unfold_prefix(p: Input, i: int)
    ensures
        prefix(p, i) == ({
            match typed_literal(p, i) {
                Got(e, i) => {
                    Got(e, i)
                },
                Failed(_, _) => {
                    let found = token_at(p, i);
                    let i = i + 1;
                    match found {
                        Some(TokenView::LBracket) => {
                            let i = i - 1;
                            named_function(p, i)
                        },
                        Some(TokenView::Keyword(Keyword::TRUE)) | Some(TokenView::Keyword(Keyword::FALSE)) | Some(TokenView::Keyword(Keyword::NULL)) => {
                            let i = i - 1;
                            value(p, i)
                        },
                        Some(TokenView::Keyword(Keyword::ARRAY)) => {
                            array_expr(p, i)
                        },
                        Some(TokenView::Keyword(Keyword::LIST)) => {
                            list_expr(p, i)
                        },
                        Some(TokenView::Keyword(Keyword::CASE)) => {
                            case_expr(p, i)
                        },
                        Some(TokenView::Keyword(Keyword::CAST)) => {
                            cast_expr(p, i)
                        },
                        Some(TokenView::Keyword(Keyword::COALESCE)) => {
                            homogenizing_function(p, i, TreeView::Node(Kind::Coalesce, Seq::<TreeView>::empty()))
                        },
                        Some(TokenView::Keyword(Keyword::GREATEST)) => {
                            homogenizing_function(p, i, TreeView::Node(Kind::Greatest, Seq::<TreeView>::empty()))
                        },
                        Some(TokenView::Keyword(Keyword::LEAST)) => {
                            homogenizing_function(p, i, TreeView::Node(Kind::Least, Seq::<TreeView>::empty()))
                        },
                        Some(TokenView::Keyword(Keyword::NULLIF)) => {
                            nullif_expr(p, i)
                        },
                        Some(TokenView::Keyword(Keyword::EXISTS)) => {
                            exists_expr(p, i)
                        },
                        Some(TokenView::Keyword(Keyword::EXTRACT)) => {
                            extract_expr(p, i)
                        },
                        Some(TokenView::Keyword(Keyword::INTERVAL)) => {
                            interval_value(p, i)
                        },
                        Some(TokenView::Keyword(Keyword::NOT)) => {
                            match subexpr(p, i, Precedence::PrefixNot) { Failed(e, i) => Failed(e, i), Got(e, i) => {
                            Got(TreeView::Node(Kind::Not, seq![e]), i)
                            }}
                        },
                        Some(TokenView::Keyword(Keyword::ROW)) => {
                            row_expr(p, i)
                        },
                        Some(TokenView::Keyword(Keyword::TRIM)) => {
                            trim_expr(p, i)
                        },
                        Some(TokenView::Keyword(Keyword::POSITION)) => {
                            if at_token(p, i, TokenView::LParen) {
                                position_expr(p, i)
                            } else {
                                qualified_identifier(p, i, TreeView::Text(keyword_ident(Keyword::POSITION)))
                            }
                        },
                        Some(TokenView::Keyword(Keyword::SUBSTRING)) => {
                            substring_expr(p, i)
                        },
                        Some(TokenView::Keyword(k)) => {
                            if is_reserved_spec(k) {
                                Failed(error_view(position(p, i - 1), no_text() + "expected expression, but found reserved keyword"@), i)
                            } else {
                                qualified_identifier(p, i, TreeView::Text(keyword_ident(k)))
                            }
                        },
                        Some(TokenView::Ident(s)) => {
                            qualified_identifier(p, i, TreeView::Text(s))
                        },
                        Some(TokenView::Op(s)) => {
                            if s == "-"@ {
                                match token_at(p, i) {
                                    Some(TokenView::Number(n)) => {
                                        match number_kind(n) {
                                            Some(true) => {
                                                let i = i - 1;
                                                value(p, i)
                                            },
                                            Some(false) => {
                                                prefix_operand(p, i, s, Precedence::PrefixPlusMinus)
                                            },
                                            None => {
                                                Failed(error_view(position(p, i - 1), no_text() + "invalid number "@ + n), i)
                                            },
                                        }
                                    },
                                    _ => {
                                        prefix_operand(p, i, s, Precedence::PrefixPlusMinus)
                                    },
                                }
                            } else {
                                if s == "+"@ {
                                    prefix_operand(p, i, s, Precedence::PrefixPlusMinus)
                                } else {
                                    if s == "~"@ {
                                        prefix_operand(p, i, s, Precedence::Other)
                                    } else {
                                        Failed(expected_at(p, i - 1, "an expression"@), i)
                                    }
                                }
                            }
                        },
                        Some(TokenView::Number(s)) | Some(TokenView::String(s)) | Some(TokenView::HexString(s)) => {
                            let i = i - 1;
                            value(p, i)
                        },
                        Some(TokenView::Parameter(n)) => {
                            Got(TreeView::Node(Kind::Parameter, seq![TreeView::Num(n as u64)]), i)
                        },
                        Some(TokenView::LParen) => {
                            match parenthesized_expr(p, i) { Failed(e, i) => Failed(e, i), Got(e, i) => {
                            match token(p, i, TokenView::RParen) { Failed(e, i) => Failed(e, i), Got(_, i) => {
                            Got(e, i)
                            }}
                            }}
                        },
                        None => {
                            Failed(error_view(position(p, i - 1), no_text() + "Unexpected EOF"@), i)
                        },
                        _ => {
                            Failed(expected_at(p, i - 1, "an expression"@), i)
                        },
                    }
                },
            }
        }),
{
    reveal(prefix);
    reveal(array_expr);
    reveal(case_expr);
    reveal(cast_expr);
    reveal(exists_expr);
    reveal(extract_expr);
    reveal(homogenizing_function);
    reveal(list_expr);
    reveal(named_function);
    reveal(nullif_expr);
    reveal(parenthesized_expr);
    reveal(position_expr);
    reveal(prefix_operand);
    reveal(qualified_identifier);
    reveal(row_expr);
    reveal(subexpr);
    reveal(substring_expr);
    reveal(trim_expr);
}

pub(crate) proof fn aligned_prefix(p: Input, larger: Input, ahead: int, i: int)
    requires
        aligned(p, larger, ahead),
        0 <= i <= p.toks.len(),
    ensures
        agrees(p, ahead, i + 1, prefix(p, i), prefix(larger, ahead + i)),
    decreases p.toks.len() - i, 1int,
{
    unfold_prefix(p, i);
    unfold_prefix(larger, ahead + i);
    aligned_typed_literal(p, larger, ahead, i);
    if typed_literal(p, i) is Failed {
        let found = token_at(p, i);
        let i = i + 1;
        match found {
            Some(TokenView::LBracket) => {
                let i = i - 1;
                aligned_named_function(p, larger, ahead, i);
            },
            Some(TokenView::Keyword(Keyword::TRUE)) | Some(TokenView::Keyword(Keyword::FALSE)) | Some(TokenView::Keyword(Keyword::NULL)) => {
                let i = i - 1;
                aligned_value(p, larger, ahead, i);
            },
            Some(TokenView::Keyword(Keyword::ARRAY)) => {
                aligned_array_expr(p, larger, ahead, i);
            },
            Some(TokenView::Keyword(Keyword::LIST)) => {
                aligned_list_expr(p, larger, ahead, i);
            },
            Some(TokenView::Keyword(Keyword::CASE)) => {
                aligned_case_expr(p, larger, ahead, i);
            },
            Some(TokenView::Keyword(Keyword::CAST)) => {
                aligned_cast_expr(p, larger, ahead, i);
            },
            Some(TokenView::Keyword(Keyword::COALESCE)) => {
                aligned_homogenizing_function(p, larger, ahead, i, TreeView::Node(Kind::Coalesce, Seq::<TreeView>::empty()));
            },
            Some(TokenView::Keyword(Keyword::GREATEST)) => {
                aligned_homogenizing_function(p, larger, ahead, i, TreeView::Node(Kind::Greatest, Seq::<TreeView>::empty()));
            },
            Some(TokenView::Keyword(Keyword::LEAST)) => {
                aligned_homogenizing_function(p, larger, ahead, i, TreeView::Node(Kind::Least, Seq::<TreeView>::empty()));
            },
            Some(TokenView::Keyword(Keyword::NULLIF)) => {
                aligned_nullif_expr(p, larger, ahead, i);
            },
            Some(TokenView::Keyword(Keyword::EXISTS)) => {
                aligned_exists_expr(p, larger, ahead, i);
            },
            Some(TokenView::Keyword(Keyword::EXTRACT)) => {
                aligned_extract_expr(p, larger, ahead, i);
            },
            Some(TokenView::Keyword(Keyword::INTERVAL)) => {
                aligned_interval_value(p, larger, ahead, i);
            },
            Some(TokenView::Keyword(Keyword::NOT)) => {
                aligned_subexpr(p, larger, ahead, i, Precedence::PrefixNot);
            },
            Some(TokenView::Keyword(Keyword::ROW)) => {
                aligned_row_expr(p, larger, ahead, i);
            },
            Some(TokenView::Keyword(Keyword::TRIM)) => {
                aligned_trim_expr(p, larger, ahead, i);
            },
            Some(TokenView::Keyword(Keyword::POSITION)) => {
                if at_token(p, i, TokenView::LParen) {
                    aligned_position_expr(p, larger, ahead, i);
                } else {
                    aligned_qualified_identifier(p, larger, ahead, i, TreeView::Text(keyword_ident(Keyword::POSITION)));
                }
            },
            Some(TokenView::Keyword(Keyword::SUBSTRING)) => {
                aligned_substring_expr(p, larger, ahead, i);
            },
            Some(TokenView::Keyword(k)) => {
                if !is_reserved_spec(k) {
                    aligned_qualified_identifier(p, larger, ahead, i, TreeView::Text(keyword_ident(k)));
                }
            },
            Some(TokenView::Ident(s)) => {
                aligned_qualified_identifier(p, larger, ahead, i, TreeView::Text(s));
            },
            Some(TokenView::Op(s)) => {
                if s == "-"@ {
                    match token_at(p, i) {
                        Some(TokenView::Number(n)) => {
                            match number_kind(n) {
                                Some(true) => {
                                    let i = i - 1;
                                    aligned_value(p, larger, ahead, i);
                                },
                                Some(false) => {
                                    aligned_prefix_operand(p, larger, ahead, i, s, Precedence::PrefixPlusMinus);
                                },
                                _ => {},
                            }
                        },
                        _ => {
                            aligned_prefix_operand(p, larger, ahead, i, s, Precedence::PrefixPlusMinus);
                        },
                    }
                } else {
                    if s == "+"@ {
                        aligned_prefix_operand(p, larger, ahead, i, s, Precedence::PrefixPlusMinus);
                    } else {
                        if s == "~"@ {
                            aligned_prefix_operand(p, larger, ahead, i, s, Precedence::Other);
                        }
                    }
                }
            },
            Some(TokenView::Number(s)) | Some(TokenView::String(s)) | Some(TokenView::HexString(s)) => {
                let i = i - 1;
                aligned_value(p, larger, ahead, i);
            },
            Some(TokenView::Parameter(n)) => {},
            Some(TokenView::LParen) => {
                aligned_parenthesized_expr(p, larger, ahead, i);
            },
            _ => {},
        }
    }
}

pub(crate) proof fn unfold_parenthesized_expr(p: Input, i: int)
    ensures
        parenthesized_expr(p, i) == ({
            match parenthesized(p, i) { Failed(e, i) => Failed(e, i), Got(e, i) => {
            if is_node(e, Kind::Query) {
                Got(TreeView::Node(Kind::Subquery, seq![e]), i)
            } else {
                Got(e, i)
            }
            }}
        }),
{
    reveal(parenthesized_expr);
    reveal(parenthesized);
}

pub(crate) proof fn aligned_parenthesized_expr(p: Input, larger: Input, ahead: int, i: int)
    requires
        aligned(p, larger, ahead),
        0 <= i <= p.toks.len(),
    ensures
        agrees(p, ahead, i + 1, parenthesized_expr(p, i), parenthesized_expr(larger, ahead + i)),
    decreases p.toks.len() - i, 6int,
{
    unfold_parenthesized_expr(p, i);
    unfold_parenthesized_expr(larger, ahead + i);
    aligned_parenthesized(p, larger, ahead, i);
}

pub(crate) proof fn unfold_parenthesized(p: Input, i: int)
    ensures
        parenthesized(p, i) == ({
            if at_keyword(p, i, Keyword::SELECT) || at_keyword(p, i, Keyword::WITH) {
                query(p, i)
            } else {
                if at_token(p, i, TokenView::LParen) {
                    let i = i + 1;
                    match past(p, i, (if p.depth >= RECURSION_LIMIT { Failed(too_deep(), i) } else { parenthesized(deeper(p), i) })) { Failed(e, i) => Failed(e, i), Got(e, i) => {
                    match token(p, i, TokenView::RParen) { Failed(e, i) => Failed(e, i), Got(_, i) => {
                    match token_at(p, i) {
                        Some(TokenView::RParen) => {
                            if is_node(e, Kind::Query) {
                                Got(e, i)
                            } else {
                                Got(TreeView::Node(Kind::Nested, seq![e]), i)
                            }
                        },
                        Some(TokenView::Comma) => {
                            match onward(p, i, {
                                if is_node(e, Kind::Query) {
                                    Got(TreeView::Node(Kind::Subquery, seq![e]), i)
                                } else {
                                    Got(e, i)
                                }
                            }) { Failed(e, i) => Failed(e, i), Got(first, i) => {
                            match more_exprs(p, i, seq![first]) { Failed(e, i) => Failed(e, i), Got(es, i) => {
                            Got(TreeView::Node(Kind::Row, seq![TreeView::List(es)]), i)
                            }}
                            }}
                        },
                        Some(TokenView::Keyword(Keyword::UNION)) | Some(TokenView::Keyword(Keyword::INTERSECT)) | Some(TokenView::Keyword(Keyword::EXCEPT)) => {
                            if is_node(e, Kind::Query) {
                                match onward(p, i, query_body_seeded(p, i, SetPrecedence::Zero, TreeView::Node(Kind::QueryBody, seq![e]))) { Failed(e, i) => Failed(e, i), Got(body, i) => {
                                query_tail(p, i, TreeView::Node(Kind::SimpleCtes, seq![TreeView::List(Seq::<TreeView>::empty())]), body)
                                }}
                            } else {
                                nested_rest(p, i, e)
                            }
                        },
                        _ => {
                            nested_rest(p, i, e)
                        },
                    }
                    }}
                    }}
                } else {
                    match expr_list(p, i, Seq::<TreeView>::empty()) { Failed(e, i) => Failed(e, i), Got(es, i) => {
                    if es.len() == 1 {
                        Got(TreeView::Node(Kind::Nested, seq![es[0]]), i)
                    } else {
                        Got(TreeView::Node(Kind::Row, seq![TreeView::List(es)]), i)
                    }
                    }}
                }
            }
        }),
{
    reveal(parenthesized);
    reveal(expr_list);
    reveal(more_exprs);
    reveal(nested_rest);
    reveal(query);
    reveal(query_body_seeded);
    reveal(query_tail);
}

pub(crate) proof fn aligned_parenthesized(p: Input, larger: Input, ahead: int, i: int)
    requires
        aligned(p, larger, ahead),
        0 <= i <= p.toks.len(),
    ensures
        agrees(p, ahead, i + 1, parenthesized(p, i), parenthesized(larger, ahead + i)),
    decreases p.toks.len() - i, 5int,
{
    unfold_parenthesized(p, i);
    unfold_parenthesized(larger, ahead + i);
    if at_keyword(p, i, Keyword::SELECT) || at_keyword(p, i, Keyword::WITH) {
        aligned_query(p, larger, ahead, i);
    } else {
        if at_token(p, i, TokenView::LParen) {
            let i = i + 1;
            lemma_deeper(p, larger, ahead);
            if p.depth < RECURSION_LIMIT {
                aligned_parenthesized(deeper(p), deeper(larger), ahead, i);
            }
            if let Got(e, i) = past(p, i, (if p.depth >= RECURSION_LIMIT { Failed(too_deep(), i) } else { parenthesized(deeper(p), i) })) {
                if let Got(_, i) = token(p, i, TokenView::RParen) {
                    match token_at(p, i) {
                        Some(TokenView::RParen) => {},
                        Some(TokenView::Comma) => {
                            let part = {
                                if is_node(e, Kind::Query) {
                                    Got(TreeView::Node(Kind::Subquery, seq![e]), i)
                                } else {
                                    Got(e, i)
                                }
                            };
                            if let Got(first, i) = onward(p, i, part) {
                                aligned_more_exprs(p, larger, ahead, i, seq![first]);
                            }
                        },
                        Some(TokenView::Keyword(Keyword::UNION)) | Some(TokenView::Keyword(Keyword::INTERSECT)) | Some(TokenView::Keyword(Keyword::EXCEPT)) => {
                            if is_node(e, Kind::Query) {
                                aligned_query_body_seeded(p, larger, ahead, i, SetPrecedence::Zero, TreeView::Node(Kind::QueryBody, seq![e]));
                                if let Got(body, i) = onward(p, i, query_body_seeded(p, i, SetPrecedence::Zero, TreeView::Node(Kind::QueryBody, seq![e]))) {
                                    aligned_query_tail(p, larger, ahead, i, TreeView::Node(Kind::SimpleCtes, seq![TreeView::List(Seq::<TreeView>::empty())]), body);
                                }
                            } else {
                                aligned_nested_rest(p, larger, ahead, i, e);
                            }
                        },
                        _ => {
                            aligned_nested_rest(p, larger, ahead, i, e);
                        },
                    }
                }
            }
        } else {
            aligned_expr_list(p, larger, ahead, i, Seq::<TreeView>::empty());
        }
    }
}

pub(crate) proof fn unfold_nested_rest(p: Input, i: int, e: TreeView)
    ensures
        nested_rest(p, i, e) == ({
            match onward(p, i, {
                if is_node(e, Kind::Query) {
                    Got(TreeView::Node(Kind::Subquery, seq![e]), i)
                } else {
                    Got(e, i)
                }
            }) { Failed(e, i) => Failed(e, i), Got(first, i) => {
            match subexpr_seeded(p, i, Precedence::Zero, first) { Failed(e, i) => Failed(e, i), Got(whole, i) => {
            Got(TreeView::Node(Kind::Nested, seq![whole]), i)
            }}
            }}
        }),
{
    reveal(nested_rest);
    reveal(subexpr_seeded);
}

pub(crate) proof fn aligned_nested_rest(p: Input, larger: Input, ahead: int, i: int, e: TreeView)
    requires
        aligned(p, larger, ahead),
        0 <= i <= p.toks.len(),
    ensures
        agrees(p, ahead, i, nested_rest(p, i, e), nested_rest(larger, ahead + i, e)),
    decreases p.toks.len() - i, 4int,
{
    unfold_nested_rest(p, i, e);
    unfold_nested_rest(larger, ahead + i, e);
    let part = {
        if is_node(e, Kind::Query) {
            Got(TreeView::Node(Kind::Subquery, seq![e]), i)
        } else {
            Got(e, i)
        }
    };
    if let Got(first, i) = onward(p, i, part) {
        aligned_subexpr_seeded(p, larger, ahead, i, Precedence::Zero, first);
    }
}

pub(crate) proof fn unfold_more_exprs(p: Input, i: int, es: Seq<TreeView>)
    ensures
        more_exprs(p, i, es) == ({
            if at_token(p, i, TokenView::Comma) {
                let i = i + 1;
                match past(p, i, expr(p, i)) { Failed(e, i) => Failed(e, i), Got(e, i) => {
                more_exprs(p, i, es.push(e))
                }}
            } else {
                Got(es, i)
            }
        }),
{
    reveal(more_exprs);
    reveal(expr);
}

pub(crate) proof fn aligned_more_exprs(p: Input, larger: Input, ahead: int, i: int, es: Seq<TreeView>)
    requires
        aligned(p, larger, ahead),
        0 <= i <= p.toks.len(),
    ensures
        agrees(p, ahead, i, more_exprs(p, i, es), more_exprs(larger, ahead + i, es)),
    decreases p.toks.len() - i, 0int,
{
    unfold_more_exprs(p, i, es);
    unfold_more_exprs(larger, ahead + i, es);
    if at_token(p, i, TokenView::Comma) {
        let i = i + 1;
        aligned_expr(p, larger, ahead, i);
        if let Got(e, i) = past(p, i, expr(p, i)) {
            aligned_more_exprs(p, larger, ahead, i, es.push(e));
        }
    }
}

pub(crate) proof fn aligned_distinct_choice(p: Input, larger: Input, ahead: int, i: int, place: Seq<char>)
    requires
        aligned(p, larger, ahead),
        0 <= i <= p.toks.len(),
    ensures
        agrees(p, ahead, i, distinct_choice(p, i, place), distinct_choice(larger, ahead + i, place)),
{
    reveal(distinct_choice);
}

pub(crate) proof fn unfold_function(p: Input, i: int, name: TreeView)
    ensures
        function(p, i, name) == ({
            match token(p, i, TokenView::LParen) { Failed(e, i) => Failed(e, i), Got(_, i) => {
            match onward(p, i, distinct_choice(p, i, no_text() + "function: "@ + name_text(name))) { Failed(e, i) => Failed(e, i), Got(distinct, i) => {
            match past(p, i, optional_args(p, i, true)) { Failed(e, i) => Failed(e, i), Got(args, i) => {
            if distinct && is_node(args, Kind::StarArgs) {
                Failed(error_view(position(p, i - 1) - 1, no_text() + "DISTINCT * not supported as function args"@), i)
            } else {
                match onward(p, i, {
                    if at_keyword(p, i, Keyword::FILTER) {
                        let i = i + 1;
                        match token(p, i, TokenView::LParen) { Failed(e, i) => Failed(e, i), Got(_, i) => {
                        match keyword(p, i, Keyword::WHERE) { Failed(e, i) => Failed(e, i), Got(_, i) => {
                        match past(p, i, expr(p, i)) { Failed(e, i) => Failed(e, i), Got(e, i) => {
                        match token(p, i, TokenView::RParen) { Failed(e, i) => Failed(e, i), Got(_, i) => {
                        Got(e, i)
                        }}
                        }}
                        }}
                        }}
                    } else {
                        Got(TreeView::Absent, i)
                    }
                }) { Failed(e, i) => Failed(e, i), Got(filter, i) => {
                match {
                    if at_keyword(p, i, Keyword::OVER) {
                        let i = i + 1;
                        match token(p, i, TokenView::LParen) { Failed(e, i) => Failed(e, i), Got(_, i) => {
                        match onward(p, i, {
                            if at_keywords2(p, i, Keyword::PARTITION, Keyword::BY) {
                                let i = i + 2;
                                match past(p, i, expr_list(p, i, Seq::<TreeView>::empty())) { Failed(e, i) => Failed(e, i), Got(es, i) => {
                                Got(TreeView::List(es), i)
                                }}
                            } else {
                                Got(TreeView::List(Seq::<TreeView>::empty()), i)
                            }
                        }) { Failed(e, i) => Failed(e, i), Got(partition_by, i) => {
                        match {
                            if at_keywords2(p, i, Keyword::ORDER, Keyword::BY) {
                                let i = i + 2;
                                match order_by_expr_list(p, i, Seq::<TreeView>::empty()) { Failed(e, i) => Failed(e, i), Got(es, i) => {
                                Got(TreeView::List(es), i)
                                }}
                            } else {
                                Got(TreeView::List(Seq::<TreeView>::empty()), i)
                            }
                        } { Failed(e, i) => Failed(e, i), Got(order_by, i) => {
                        match {
                            if at_token(p, i, TokenView::RParen) {
                                let i = i + 1;
                                Got(TreeView::Absent, i)
                            } else {
                                match window_frame(p, i) { Failed(e, i) => Failed(e, i), Got(frame, i) => {
                                match token(p, i, TokenView::RParen) { Failed(e, i) => Failed(e, i), Got(_, i) => {
                                Got(frame, i)
                                }}
                                }}
                            }
                        } { Failed(e, i) => Failed(e, i), Got(window_frame, i) => {
                        Got(TreeView::Node(Kind::WindowSpec, seq![partition_by, order_by, window_frame]), i)
                        }}
                        }}
                        }}
                        }}
                    } else {
                        Got(TreeView::Absent, i)
                    }
                } { Failed(e, i) => Failed(e, i), Got(over, i) => {
                Got(TreeView::Node(Kind::Function, seq![name, args, filter, over, TreeView::Flag(distinct)]), i)
                }}
                }}
            }
            }}
            }}
            }}
        }),
{
    reveal(function);
    reveal(expr);
    reveal(expr_list);
    reveal(optional_args);
    reveal(order_by_expr_list);
}

pub(crate) proof fn aligned_function(p: Input, larger: Input, ahead: int, i: int, name: TreeView)
    requires
        aligned(p, larger, ahead),
        0 <= i <= p.toks.len(),
    ensures
        agrees(p, ahead, i + 1, function(p, i, name), function(larger, ahead + i, name)),
    decreases p.toks.len() - i, 0int,
{
    unfold_function(p, i, name);
    unfold_function(larger, ahead + i, name);
    if let Got(_, i) = token(p, i, TokenView::LParen) {
        aligned_distinct_choice(p, larger, ahead, i, no_text() + "function: "@ + name_text(name));
        if let Got(distinct, i) = onward(p, i, distinct_choice(p, i, no_text() + "function: "@ + name_text(name))) {
            aligned_optional_args(p, larger, ahead, i, true);
            if let Got(args, i) = past(p, i, optional_args(p, i, true)) {
                if !(distinct && is_node(args, Kind::StarArgs)) {
                    if at_keyword(p, i, Keyword::FILTER) {
                        let i = i + 1;
                        if let Got(_, i) = token(p, i, TokenView::LParen) {
                            if let Got(_, i) = keyword(p, i, Keyword::WHERE) {
                                aligned_expr(p, larger, ahead, i);
                            }
                        }
                    }
                    let part = {
                        if at_keyword(p, i, Keyword::FILTER) {
                            let i = i + 1;
                            match token(p, i, TokenView::LParen) { Failed(e, i) => Failed(e, i), Got(_, i) => {
                            match keyword(p, i, Keyword::WHERE) { Failed(e, i) => Failed(e, i), Got(_, i) => {
                            match past(p, i, expr(p, i)) { Failed(e, i) => Failed(e, i), Got(e, i) => {
                            match token(p, i, TokenView::RParen) { Failed(e, i) => Failed(e, i), Got(_, i) => {
                            Got(e, i)
                            }}
                            }}
                            }}
                            }}
                        } else {
                            Got(TreeView::Absent, i)
                        }
                    };
                    if let Got(filter, i) = onward(p, i, part) {
                        if at_keyword(p, i, Keyword::OVER) {
                            let i = i + 1;
                            if let Got(_, i) = token(p, i, TokenView::LParen) {
                                if at_keywords2(p, i, Keyword::PARTITION, Keyword::BY) {
                                    let i = i + 2;
                                    aligned_expr_list(p, larger, ahead, i, Seq::<TreeView>::empty());
                                }
                                let part = {
                                    if at_keywords2(p, i, Keyword::PARTITION, Keyword::BY) {
                                        let i = i + 2;
                                        match past(p, i, expr_list(p, i, Seq::<TreeView>::empty())) { Failed(e, i) => Failed(e, i), Got(es, i) => {
                                        Got(TreeView::List(es), i)
                                        }}
                                    } else {
                                        Got(TreeView::List(Seq::<TreeView>::empty()), i)
                                    }
                                };
                                if let Got(partition_by, i) = onward(p, i, part) {
                                    if at_keywords2(p, i, Keyword::ORDER, Keyword::BY) {
                                        let i = i + 2;
                                        aligned_order_by_expr_list(p, larger, ahead, i, Seq::<TreeView>::empty());
                                    }
                                    let part = {
                                        if at_keywords2(p, i, Keyword::ORDER, Keyword::BY) {
                                            let i = i + 2;
                                            match order_by_expr_list(p, i, Seq::<TreeView>::empty()) { Failed(e, i) => Failed(e, i), Got(es, i) => {
                                            Got(TreeView::List(es), i)
                                            }}
                                        } else {
                                            Got(TreeView::List(Seq::<TreeView>::empty()), i)
                                        }
                                    };
                                    if let Got(order_by, i) = part {
                                        if !at_token(p, i, TokenView::RParen) {
                                            aligned_window_frame(p, larger, ahead, i);
                                        }
                                    }
                                }
                            }
                        }
                    }
                }
            }
        }
    }
}

pub(crate) proof fn aligned_window_frame(p: Input, larger: Input, ahead: int, i: int)
    requires
        aligned(p, larger, ahead),
        0 <= i <= p.toks.len(),
    ensures
        agrees(p, ahead, i + 1, window_frame(p, i), window_frame(larger, ahead + i)),
{
    reveal(window_frame);
    if let Got(k, i) = one_keyword(p, i, seq![Keyword::ROWS, Keyword::RANGE, Keyword::GROUPS]) {
        let part = {
            match k {
                Keyword::ROWS => {
                    Got(TreeView::Node(Kind::Rows, Seq::<TreeView>::empty()), i)
                },
                Keyword::RANGE => {
                    Got(TreeView::Node(Kind::Range, Seq::<TreeView>::empty()), i)
                },
                _ => {
                    Got(TreeView::Node(Kind::Groups, Seq::<TreeView>::empty()), i)
                },
            }
        };
        if let Got(units, i) = part {
            if at_keyword(p, i, Keyword::BETWEEN) {
                let i = i + 1;
                aligned_window_frame_bound(p, larger, ahead, i);
                if let Got(start_bound, i) = window_frame_bound(p, i) {
                    if let Got(_, i) = keyword(p, i, Keyword::AND) {
                        aligned_window_frame_bound(p, larger, ahead, i);
                    }
                }
            } else {
                aligned_window_frame_bound(p, larger, ahead, i);
            }
        }
    }
}

pub(crate) proof fn aligned_window_frame_bound(p: Input, larger: Input, ahead: int, i: int)
    requires
        aligned(p, larger, ahead),
        0 <= i <= p.toks.len(),
    ensures
        agrees(p, ahead, i + 1, window_frame_bound(p, i), window_frame_bound(larger, ahead + i)),
{
    reveal(window_frame_bound);
    if !at_keywords2(p, i, Keyword::CURRENT, Keyword::ROW) {
        if !at_keyword(p, i, Keyword::UNBOUNDED) {
            aligned_literal_uint(p, larger, ahead, i);
        }
    }
}

pub(crate) proof fn unfold_case_expr(p: Input, i: int)
    ensures
        case_expr(p, i) == ({
            match onward(p, i, {
                if at_keyword(p, i, Keyword::WHEN) {
                    let i = i + 1;
                    Got(TreeView::Absent, i)
                } else {
                    match past(p, i, expr(p, i)) { Failed(e, i) => Failed(e, i), Got(e, i) => {
                    match keyword(p, i, Keyword::WHEN) { Failed(e, i) => Failed(e, i), Got(_, i) => {
                    Got(e, i)
                    }}
                    }}
                }
            }) { Failed(e, i) => Failed(e, i), Got(operand, i) => {
            match past(p, i, case_arms(p, i, Seq::<TreeView>::empty())) { Failed(e, i) => Failed(e, i), Got(arms, i) => {
            match {
                if at_keyword(p, i, Keyword::ELSE) {
                    let i = i + 1;
                    expr(p, i)
                } else {
                    Got(TreeView::Absent, i)
                }
            } { Failed(e, i) => Failed(e, i), Got(else_result, i) => {
            match keyword(p, i, Keyword::END) { Failed(e, i) => Failed(e, i), Got(_, i) => {
            Got(TreeView::Node(Kind::Case, seq![operand, TreeView::List(arms), else_result]), i)
            }}
            }}
            }}
            }}
        }),
{
    reveal(case_expr);
    reveal(case_arms);
    reveal(expr);
}

pub(crate) proof fn aligned_case_expr(p: Input, larger: Input, ahead: int, i: int)
    requires
        aligned(p, larger, ahead),
        0 <= i <= p.toks.len(),
    ensures
        agrees(p, ahead, i + 1, case_expr(p, i), case_expr(larger, ahead + i)),
    decreases p.toks.len() - i, 4int,
{
    unfold_case_expr(p, i);
    unfold_case_expr(larger, ahead + i);
    if !at_keyword(p, i, Keyword::WHEN) {
        aligned_expr(p, larger, ahead, i);
    }
    let part = {
        if at_keyword(p, i, Keyword::WHEN) {
            let i = i + 1;
            Got(TreeView::Absent, i)
        } else {
            match past(p, i, expr(p, i)) { Failed(e, i) => Failed(e, i), Got(e, i) => {
            match keyword(p, i, Keyword::WHEN) { Failed(e, i) => Failed(e, i), Got(_, i) => {
            Got(e, i)
            }}
            }}
        }
    };
    if let Got(operand, i) = onward(p, i, part) {
        aligned_case_arms(p, larger, ahead, i, Seq::<TreeView>::empty());
        if let Got(arms, i) = past(p, i, case_arms(p, i, Seq::<TreeView>::empty())) {
            if at_keyword(p, i, Keyword::ELSE) {
                let i = i + 1;
                aligned_expr(p, larger, ahead, i);
            }
        }
    }
}

pub(crate) proof fn unfold_case_arms(p: Input, i: int, arms: Seq<TreeView>)
    ensures
        case_arms(p, i, arms) == ({
            match past(p, i, expr(p, i)) { Failed(e, i) => Failed(e, i), Got(condition, i) => {
            match keyword(p, i, Keyword::THEN) { Failed(e, i) => Failed(e, i), Got(_, i) => {
            match past(p, i, expr(p, i)) { Failed(e, i) => Failed(e, i), Got(result, i) => {
            if at_keyword(p, i, Keyword::WHEN) {
                let i = i + 1;
                case_arms(p, i, arms.push(TreeView::Node(Kind::CaseArm, seq![condition, result])))
            } else {
                Got(arms.push(TreeView::Node(Kind::CaseArm, seq![condition, result])), i)
            }
            }}
            }}
            }}
        }),
{
    reveal(case_arms);
    reveal(expr);
}

pub(crate) proof fn aligned_case_arms(p: Input, larger: Input, ahead: int, i: int, arms: Seq<TreeView>)
    requires
        aligned(p, larger, ahead),
        0 <= i <= p.toks.len(),
    ensures
        agrees(p, ahead, i + 1, case_arms(p, i, arms), case_arms(larger, ahead + i, arms)),
    decreases p.toks.len() - i, 4int,
{
    unfold_case_arms(p, i, arms);
    unfold_case_arms(larger, ahead + i, arms);
    aligned_expr(p, larger, ahead, i);
    if let Got(condition, i) = past(p, i, expr(p, i)) {
        if let Got(_, i) = keyword(p, i, Keyword::THEN) {
            aligned_expr(p, larger, ahead, i);
            if let Got(result, i) = past(p, i, expr(p, i)) {
                if at_keyword(p, i, Keyword::WHEN) {
                    let i = i + 1;
                    aligned_case_arms(p, larger, ahead, i, arms.push(TreeView::Node(Kind::CaseArm, seq![condition, result])));
                }
            }
        }
    }
}

pub(crate) proof fn unfold_cast_expr(p: Input, i: int)
    ensures
        cast_expr(p, i) == ({
            match token(p, i, TokenView::LParen) { Failed(e, i) => Failed(e, i), Got(_, i) => {
            match expr(p, i) { Failed(e, i) => Failed(e, i), Got(e, i) => {
            match keyword(p, i, Keyword::AS) { Failed(e, i) => Failed(e, i), Got(_, i) => {
            match data_type(p, i) { Failed(e, i) => Failed(e, i), Got(data_type, i) => {
            match token(p, i, TokenView::RParen) { Failed(e, i) => Failed(e, i), Got(_, i) => {
            Got(TreeView::Node(Kind::Cast, seq![e, data_type]), i)
            }}
            }}
            }}
            }}
            }}
        }),
{
    reveal(cast_expr);
    reveal(expr);
}

pub(crate) proof fn aligned_cast_expr(p: Input, larger: Input, ahead: int, i: int)
    requires
        aligned(p, larger, ahead),
        0 <= i <= p.toks.len(),
    ensures
        agrees(p, ahead, i + 1, cast_expr(p, i), cast_expr(larger, ahead + i)),
    decreases p.toks.len() - i, 0int,
{
    unfold_cast_expr(p, i);
    unfold_cast_expr(larger, ahead + i);
    if let Got(_, i) = token(p, i, TokenView::LParen) {
        aligned_expr(p, larger, ahead, i);
        if let Got(e, i) = expr(p, i) {
            if let Got(_, i) = keyword(p, i, Keyword::AS) {
                aligned_data_type(p, larger, ahead, i);
            }
        }
    }
}

pub(crate) proof fn unfold_exists_expr(p: Input, i: int)
    ensures
        exists_expr(p, i) == ({
            match token(p, i, TokenView::LParen) { Failed(e, i) => Failed(e, i), Got(_, i) => {
            match query(p, i) { Failed(e, i) => Failed(e, i), Got(q, i) => {
            match token(p, i, TokenView::RParen) { Failed(e, i) => Failed(e, i), Got(_, i) => {
            Got(TreeView::Node(Kind::Exists, seq![q]), i)
            }}
            }}
            }}
        }),
{
    reveal(exists_expr);
    reveal(query);
}

pub(crate) proof fn aligned_exists_expr(p: Input, larger: Input, ahead: int, i: int)
    requires
        aligned(p, larger, ahead),
        0 <= i <= p.toks.len(),
    ensures
        agrees(p, ahead, i + 1, exists_expr(p, i), exists_expr(larger, ahead + i)),
    decreases p.toks.len() - i, 0int,
{
    unfold_exists_expr(p, i);
    unfold_exists_expr(larger, ahead + i);
    if let Got(_, i) = token(p, i, TokenView::LParen) {
        aligned_query(p, larger, ahead, i);
    }
}

pub(crate) proof fn unfold_homogenizing_function(p: Input, i: int, function: TreeView)
    ensures
        homogenizing_function(p, i, function) == ({
            match token(p, i, TokenView::LParen) { Failed(e, i) => Failed(e, i), Got(_, i) => {
            match expr_list(p, i, Seq::<TreeView>::empty()) { Failed(e, i) => Failed(e, i), Got(es, i) => {
            match token(p, i, TokenView::RParen) { Failed(e, i) => Failed(e, i), Got(_, i) => {
            Got(TreeView::Node(Kind::HomogenizingFunction, seq![function, TreeView::List(es)]), i)
            }}
            }}
            }}
        }),
{
    reveal(homogenizing_function);
    reveal(expr_list);
}

pub(crate) proof fn aligned_homogenizing_function(p: Input, larger: Input, ahead: int, i: int, function: TreeView)
    requires
        aligned(p, larger, ahead),
        0 <= i <= p.toks.len(),
    ensures
        agrees(p, ahead, i + 1, homogenizing_function(p, i, function), homogenizing_function(larger, ahead + i, function)),
    decreases p.toks.len() - i, 0int,
{
    unfold_homogenizing_function(p, i, function);
    unfold_homogenizing_function(larger, ahead + i, function);
    if let Got(_, i) = token(p, i, TokenView::LParen) {
        aligned_expr_list(p, larger, ahead, i, Seq::<TreeView>::empty());
    }
}

pub(crate) proof fn unfold_nullif_expr(p: Input, i: int)
    ensures
        nullif_expr(p, i) == ({
            match token(p, i, TokenView::LParen) { Failed(e, i) => Failed(e, i), Got(_, i) => {
            match past(p, i, expr(p, i)) { Failed(e, i) => Failed(e, i), Got(l_expr, i) => {
            match token(p, i, TokenView::Comma) { Failed(e, i) => Failed(e, i), Got(_, i) => {
            match expr(p, i) { Failed(e, i) => Failed(e, i), Got(r_expr, i) => {
            match token(p, i, TokenView::RParen) { Failed(e, i) => Failed(e, i), Got(_, i) => {
            Got(TreeView::Node(Kind::NullIf, seq![l_expr, r_expr]), i)
            }}
            }}
            }}
            }}
            }}
        }),
{
    reveal(nullif_expr);
    reveal(expr);
}

pub(crate) proof fn aligned_nullif_expr(p: Input, larger: Input, ahead: int, i: int)
    requires
        aligned(p, larger, ahead),
        0 <= i <= p.toks.len(),
    ensures
        agrees(p, ahead, i + 1, nullif_expr(p, i), nullif_expr(larger, ahead + i)),
    decreases p.toks.len() - i, 0int,
{
    unfold_nullif_expr(p, i);
    unfold_nullif_expr(larger, ahead + i);
    if let Got(_, i) = token(p, i, TokenView::LParen) {
        aligned_expr(p, larger, ahead, i);
        if let Got(l_expr, i) = past(p, i, expr(p, i)) {
            if let Got(_, i) = token(p, i, TokenView::Comma) {
                aligned_expr(p, larger, ahead, i);
            }
        }
    }
}

pub(crate) proof fn unfold_extract_expr(p: Input, i: int)
    ensures
        extract_expr(p, i) == ({
            match token(p, i, TokenView::LParen) { Failed(e, i) => Failed(e, i), Got(_, i) => {
            match onward(p, i, {
                let found = token_at(p, i);
                let i = i + 1;
                match found {
                    Some(TokenView::Keyword(k)) => {
                        Got(keyword_ident(k), i)
                    },
                    Some(TokenView::Ident(s)) => {
                        Got(s, i)
                    },
                    Some(TokenView::String(s)) => {
                        Got(s, i)
                    },
                    _ => {
                        Failed(expected_at(p, i - 1, "extract field token"@), i)
                    },
                }
            }) { Failed(e, i) => Failed(e, i), Got(field, i) => {
            match keyword(p, i, Keyword::FROM) { Failed(e, i) => Failed(e, i), Got(_, i) => {
            match expr(p, i) { Failed(e, i) => Failed(e, i), Got(e, i) => {
            match token(p, i, TokenView::RParen) { Failed(e, i) => Failed(e, i), Got(_, i) => {
            Got(TreeView::Node(Kind::Function, seq![TreeView::Node(Kind::ItemName, seq![TreeView::List(seq![TreeView::Text("extract"@)])]), TreeView::Node(Kind::Args, seq![TreeView::List(seq![TreeView::Node(Kind::StringValue, seq![TreeView::Text(field)]), e]), TreeView::List(Seq::<TreeView>::empty())]), TreeView::Absent, TreeView::Absent, TreeView::Flag(false)]), i)
            }}
            }}
            }}
            }}
            }}
        }),
{
    reveal(extract_expr);
    reveal(expr);
}

pub(crate) proof fn aligned_extract_expr(p: Input, larger: Input, ahead: int, i: int)
    requires
        aligned(p, larger, ahead),
        0 <= i <= p.toks.len(),
    ensures
        agrees(p, ahead, i + 1, extract_expr(p, i), extract_expr(larger, ahead + i)),
    decreases p.toks.len() - i, 0int,
{
    unfold_extract_expr(p, i);
    unfold_extract_expr(larger, ahead + i);
    if let Got(_, i) = token(p, i, TokenView::LParen) {
        let part = {
            let found = token_at(p, i);
            let i = i + 1;
            match found {
                Some(TokenView::Keyword(k)) => {
                    Got(keyword_ident(k), i)
                },
                Some(TokenView::Ident(s)) => {
                    Got(s, i)
                },
                Some(TokenView::String(s)) => {
                    Got(s, i)
                },
                _ => {
                    Failed(expected_at(p, i - 1, "extract field token"@), i)
                },
            }
        };
        if let Got(field, i) = onward(p, i, part) {
            if let Got(_, i) = keyword(p, i, Keyword::FROM) {
                aligned_expr(p, larger, ahead, i);
            }
        }
    }
}

pub(crate) proof fn unfold_row_expr(p: Input, i: int)
    ensures
        row_expr(p, i) == ({
            match token(p, i, TokenView::LParen) { Failed(e, i) => Failed(e, i), Got(_, i) => {
            if at_token(p, i, TokenView::RParen) {
                let i = i + 1;
                Got(TreeView::Node(Kind::Row, seq![TreeView::List(Seq::<TreeView>::empty())]), i)
            } else {
                match expr_list(p, i, Seq::<TreeView>::empty()) { Failed(e, i) => Failed(e, i), Got(es, i) => {
                match token(p, i, TokenView::RParen) { Failed(e, i) => Failed(e, i), Got(_, i) => {
                Got(TreeView::Node(Kind::Row, seq![TreeView::List(es)]), i)
                }}
                }}
            }
            }}
        }),
{
    reveal(row_expr);
    reveal(expr_list);
}

pub(crate) proof fn aligned_row_expr(p: Input, larger: Input, ahead: int, i: int)
    requires
        aligned(p, larger, ahead),
        0 <= i <= p.toks.len(),
    ensures
        agrees(p, ahead, i + 1, row_expr(p, i), row_expr(larger, ahead + i)),
    decreases p.toks.len() - i, 0int,
{
    unfold_row_expr(p, i);
    unfold_row_expr(larger, ahead + i);
    if let Got(_, i) = token(p, i, TokenView::LParen) {
        if !at_token(p, i, TokenView::RParen) {
            aligned_expr_list(p, larger, ahead, i, Seq::<TreeView>::empty());
        }
    }
}

pub(crate) proof fn aligned_composite_field(p: Input, larger: Input, ahead: int, i: int)
    requires
        aligned(p, larger, ahead),
        0 <= i <= p.toks.len(),
    ensures
        agrees(p, ahead, i + 1, composite_field(p, i), composite_field(larger, ahead + i)),
{
    reveal(composite_field);
    aligned_identifier(p, larger, ahead, i);
    if let Got(name, i) = identifier(p, i) {
        aligned_data_type(p, larger, ahead, i);
    }
}

pub(crate) proof fn unfold_composite_field_list(p: Input, i: int, items: Seq<TreeView>)
    ensures
        composite_field_list(p, i, items) == ({
            match past(p, i, composite_field(p, i)) { Failed(e, i) => Failed(e, i), Got(item, i) => {
            if at_token(p, i, TokenView::Comma) {
                let i = i + 1;
                composite_field_list(p, i, items.push(item))
            } else {
                Got(items.push(item), i)
            }
            }}
        }),
{
    reveal(composite_field_list);
}

pub(crate) proof fn aligned_composite_field_list(p: Input, larger: Input, ahead: int, i: int, items: Seq<TreeView>)
    requires
        aligned(p, larger, ahead),
        0 <= i <= p.toks.len(),
    ensures
        agrees(p, ahead, i + 1, composite_field_list(p, i, items), composite_field_list(larger, ahead + i, items)),
    decreases p.toks.len() - i, 0int,
{
    unfold_composite_field_list(p, i, items);
    unfold_composite_field_list(larger, ahead + i, items);
    aligned_composite_field(p, larger, ahead, i);
    if let Got(item, i) = past(p, i, composite_field(p, i)) {
        if at_token(p, i, TokenView::Comma) {
            let i = i + 1;
            aligned_composite_field_list(p, larger, ahead, i, items.push(item));
        }
    }
}

pub(crate) proof fn aligned_composite_type_definition(p: Input, larger: Input, ahead: int, i: int)
    requires
        aligned(p, larger, ahead),
        0 <= i <= p.toks.len(),
    ensures
        agrees(p, ahead, i + 1, composite_type_definition(p, i), composite_type_definition(larger, ahead + i)),
{
    reveal(composite_type_definition);
    if let Got(_, i) = token(p, i, TokenView::LParen) {
        aligned_composite_field_list(p, larger, ahead, i, Seq::<TreeView>::empty());
    }
}

pub(crate) proof fn unfold_trim_expr(p: Input, i: int)
    ensures
        trim_expr(p, i) == ({
            match token(p, i, TokenView::LParen) { Failed(e, i) => Failed(e, i), Got(_, i) => {
            match onward(p, i, {
                match one_of(p, i, seq![Keyword::BOTH, Keyword::LEADING, Keyword::TRAILING]) {
                    Some(side) => {
                        let i = i + 1;
                        match side {
                            Keyword::LEADING => {
                                Got(TreeView::Text("ltrim"@), i)
                            },
                            Keyword::TRAILING => {
                                Got(TreeView::Text("rtrim"@), i)
                            },
                            _ => {
                                Got(TreeView::Text("btrim"@), i)
                            },
                        }
                    },
                    None => {
                        Got(TreeView::Text("btrim"@), i)
                    },
                }
            }) { Failed(e, i) => Failed(e, i), Got(name, i) => {
            match {
                if at_keyword(p, i, Keyword::FROM) {
                    let i = i + 1;
                    match expr(p, i) { Failed(e, i) => Failed(e, i), Got(e, i) => {
                    Got(seq![e], i)
                    }}
                } else {
                    match past(p, i, expr(p, i)) { Failed(e, i) => Failed(e, i), Got(e, i) => {
                    if at_keyword(p, i, Keyword::FROM) {
                        let i = i + 1;
                        match expr(p, i) { Failed(e, i) => Failed(e, i), Got(s, i) => {
                        Got(seq![s, e], i)
                        }}
                    } else {
                        Got(seq![e], i)
                    }
                    }}
                }
            } { Failed(e, i) => Failed(e, i), Got(es, i) => {
            match token(p, i, TokenView::RParen) { Failed(e, i) => Failed(e, i), Got(_, i) => {
            Got(TreeView::Node(Kind::Function, seq![TreeView::Node(Kind::ItemName, seq![TreeView::List(seq![name])]), TreeView::Node(Kind::Args, seq![TreeView::List(es), TreeView::List(Seq::<TreeView>::empty())]), TreeView::Absent, TreeView::Absent, TreeView::Flag(false)]), i)
            }}
            }}
            }}
            }}
        }),
{
    reveal(trim_expr);
    reveal(expr);
}

pub(crate) proof fn aligned_trim_expr(p: Input, larger: Input, ahead: int, i: int)
    requires
        aligned(p, larger, ahead),
        0 <= i <= p.toks.len(),
    ensures
        agrees(p, ahead, i + 1, trim_expr(p, i), trim_expr(larger, ahead + i)),
    decreases p.toks.len() - i, 0int,
{
    unfold_trim_expr(p, i);
    unfold_trim_expr(larger, ahead + i);
    if let Got(_, i) = token(p, i, TokenView::LParen) {
        let part = {
            match one_of(p, i, seq![Keyword::BOTH, Keyword::LEADING, Keyword::TRAILING]) {
                Some(side) => {
                    let i = i + 1;
                    match side {
                        Keyword::LEADING => {
                            Got(TreeView::Text("ltrim"@), i)
                        },
                        Keyword::TRAILING => {
                            Got(TreeView::Text("rtrim"@), i)
                        },
                        _ => {
                            Got(TreeView::Text("btrim"@), i)
                        },
                    }
                },
                None => {
                    Got(TreeView::Text("btrim"@), i)
                },
            }
        };
        if let Got(name, i) = onward(p, i, part) {
            if at_keyword(p, i, Keyword::FROM) {
                let i = i + 1;
                aligned_expr(p, larger, ahead, i);
            } else {
                aligned_expr(p, larger, ahead, i);
                if let Got(e, i) = past(p, i, expr(p, i)) {
                    if at_keyword(p, i, Keyword::FROM) {
                        let i = i + 1;
                        aligned_expr(p, larger, ahead, i);
                    }
                }
            }
        }
    }
}

pub(crate) proof fn unfold_position_expr(p: Input, i: int)
    ensures
        position_expr(p, i) == ({
            match token(p, i, TokenView::LParen) { Failed(e, i) => Failed(e, i), Got(_, i) => {
            match past(p, i, subexpr(p, i, Precedence::Like)) { Failed(e, i) => Failed(e, i), Got(needle, i) => {
            match token(p, i, TokenView::Keyword(Keyword::IN)) { Failed(e, i) => Failed(e, i), Got(_, i) => {
            match expr(p, i) { Failed(e, i) => Failed(e, i), Got(haystack, i) => {
            match token(p, i, TokenView::RParen) { Failed(e, i) => Failed(e, i), Got(_, i) => {
            Got(TreeView::Node(Kind::Function, seq![TreeView::Node(Kind::ItemName, seq![TreeView::List(seq![TreeView::Text("position"@)])]), TreeView::Node(Kind::Args, seq![TreeView::List(seq![needle, haystack]), TreeView::List(Seq::<TreeView>::empty())]), TreeView::Absent, TreeView::Absent, TreeView::Flag(false)]), i)
            }}
            }}
            }}
            }}
            }}
        }),
{
    reveal(position_expr);
    reveal(expr);
    reveal(subexpr);
}

pub(crate) proof fn aligned_position_expr(p: Input, larger: Input, ahead: int, i: int)
    requires
        aligned(p, larger, ahead),
        0 <= i <= p.toks.len(),
    ensures
        agrees(p, ahead, i + 1, position_expr(p, i), position_expr(larger, ahead + i)),
    decreases p.toks.len() - i, 0int,
{
    unfold_position_expr(p, i);
    unfold_position_expr(larger, ahead + i);
    if let Got(_, i) = token(p, i, TokenView::LParen) {
        aligned_subexpr(p, larger, ahead, i, Precedence::Like);
        if let Got(needle, i) = past(p, i, subexpr(p, i, Precedence::Like)) {
            if let Got(_, i) = token(p, i, TokenView::Keyword(Keyword::IN)) {
                aligned_expr(p, larger, ahead, i);
            }
        }
    }
}

pub(crate) proof fn aligned_interval_precision(p: Input, larger: Input, ahead: int, i: int, low: TreeView)
    requires
        aligned(p, larger, ahead),
        0 <= i <= p.toks.len(),
    ensures
        agrees(p, ahead, i, interval_precision(p, i, low), interval_precision(larger, ahead + i, low)),
{
    reveal(interval_precision);
    if is_node(low, Kind::Second) {
        aligned_optional_precision(p, larger, ahead, i);
    }
}

pub(crate) proof fn aligned_interval_value(p: Input, larger: Input, ahead: int, i: int)
    requires
        aligned(p, larger, ahead),
        0 <= i <= p.toks.len(),
    ensures
        agrees(p, ahead, i + 1, interval_value(p, i), interval_value(larger, ahead + i)),
{
    reveal(interval_value);
    aligned_literal_string(p, larger, ahead, i);
    if let Got(value, i) = literal_string(p, i) {
        if let Some(d) = one_of(p, i, seq![Keyword::YEAR, Keyword::MONTH, Keyword::DAY, Keyword::HOUR, Keyword::MINUTE, Keyword::SECOND, Keyword::YEARS, Keyword::MONTHS, Keyword::DAYS, Keyword::HOURS, Keyword::MINUTES, Keyword::SECONDS]) {
            let i = i + 1;
            let d_pos = position(p, i - 1);
            if at_keyword(p, i, Keyword::TO) {
                let i = i + 1;
                if let Got(e, i) = one_keyword(p, i, seq![Keyword::YEAR, Keyword::MONTH, Keyword::DAY, Keyword::HOUR, Keyword::MINUTE, Keyword::SECOND, Keyword::YEARS, Keyword::MONTHS, Keyword::DAYS, Keyword::HOURS, Keyword::MINUTES, Keyword::SECONDS]) {
                    if !(field_order(d) >= field_order(e)) {
                        let low = date_time_field(e);
                        aligned_interval_precision(p, larger, ahead, i, low);
                    }
                }
            } else {
                let low = date_time_field(d);
                aligned_interval_precision(p, larger, ahead, i, low);
            }
        }
    }
}

pub(crate) proof fn unfold_binary_operand(p: Input, i: int, left: TreeView, op: TreeView, precedence: Precedence)
    ensures
        binary_operand(p, i, left, op, precedence) == ({
            match one_of(p, i, seq![Keyword::ANY, Keyword::SOME, Keyword::ALL]) {
                Some(quantifier) => {
                    let i = i + 1;
                    match token(p, i, TokenView::LParen) { Failed(e, i) => Failed(e, i), Got(_, i) => {
                    match one_of(p, i, seq![Keyword::SELECT, Keyword::VALUES]) {
                        Some(_) => {
                            let i = i + 1;
                            let i = i - 1;
                            match query(p, i) { Failed(e, i) => Failed(e, i), Got(subquery, i) => {
                            match token(p, i, TokenView::RParen) { Failed(e, i) => Failed(e, i), Got(_, i) => {
                            if quantifier == Keyword::ALL {
                                Got(TreeView::Node(Kind::AllSubquery, seq![left, op, subquery]), i)
                            } else {
                                Got(TreeView::Node(Kind::AnySubquery, seq![left, op, subquery]), i)
                            }
                            }}
                            }}
                        },
                        None => {
                            match expr(p, i) { Failed(e, i) => Failed(e, i), Got(right, i) => {
                            match token(p, i, TokenView::RParen) { Failed(e, i) => Failed(e, i), Got(_, i) => {
                            if quantifier == Keyword::ALL {
                                Got(TreeView::Node(Kind::AllExpr, seq![left, op, right]), i)
                            } else {
                                Got(TreeView::Node(Kind::AnyExpr, seq![left, op, right]), i)
                            }
                            }}
                            }}
                        },
                    }
                    }}
                },
                None => {
                    match subexpr(p, i, precedence) { Failed(e, i) => Failed(e, i), Got(right, i) => {
                    Got(TreeView::Node(Kind::Op, seq![op, left, right]), i)
                    }}
                },
            }
        }),
{
    reveal(binary_operand);
    reveal(expr);
    reveal(query);
    reveal(subexpr);
}

pub(crate) proof fn aligned_binary_operand(p: Input, larger: Input, ahead: int, i: int, left: TreeView, op: TreeView, precedence: Precedence)
    requires
        aligned(p, larger, ahead),
        0 <= i <= p.toks.len(),
    ensures
        agrees(p, ahead, i + 1, binary_operand(p, i, left, op, precedence), binary_operand(larger, ahead + i, left, op, precedence)),
    decreases p.toks.len() - i, 3int,
{
    unfold_binary_operand(p, i, left, op, precedence);
    unfold_binary_operand(larger, ahead + i, left, op, precedence);
    if let Some(quantifier) = one_of(p, i, seq![Keyword::ANY, Keyword::SOME, Keyword::ALL]) {
        let i = i + 1;
        if let Got(_, i) = token(p, i, TokenView::LParen) {
            if let Some(_) = one_of(p, i, seq![Keyword::SELECT, Keyword::VALUES]) {
                let i = i + 1;
                let i = i - 1;
                aligned_query(p, larger, ahead, i);
            } else {
                aligned_expr(p, larger, ahead, i);
            }
        }
    } else {
        aligned_subexpr(p, larger, ahead, i, precedence);
    }
}

pub(crate) proof fn unfold_is_construct(p: Input, i: int, e: TreeView)
    ensures
        is_construct(p, i, e) == ({
            let negated = at_keyword(p, i, Keyword::NOT);
            let i = if negated { i + 1 } else { i };
            match one_of(p, i, seq![Keyword::NULL, Keyword::TRUE, Keyword::FALSE, Keyword::UNKNOWN, Keyword::DISTINCT]) {
                Some(construct) => {
                    let i = i + 1;
                    match construct {
                        Keyword::NULL => {
                            Got(TreeView::Node(Kind::IsExpr, seq![e, TreeView::Flag(negated), TreeView::Node(Kind::IsNull, Seq::<TreeView>::empty())]), i)
                        },
                        Keyword::TRUE => {
                            Got(TreeView::Node(Kind::IsExpr, seq![e, TreeView::Flag(negated), TreeView::Node(Kind::IsTrue, Seq::<TreeView>::empty())]), i)
                        },
                        Keyword::FALSE => {
                            Got(TreeView::Node(Kind::IsExpr, seq![e, TreeView::Flag(negated), TreeView::Node(Kind::IsFalse, Seq::<TreeView>::empty())]), i)
                        },
                        Keyword::UNKNOWN => {
                            Got(TreeView::Node(Kind::IsExpr, seq![e, TreeView::Flag(negated), TreeView::Node(Kind::IsUnknown, Seq::<TreeView>::empty())]), i)
                        },
                        _ => {
                            match keyword(p, i, Keyword::FROM) { Failed(e, i) => Failed(e, i), Got(_, i) => {
                            match expr(p, i) { Failed(e, i) => Failed(e, i), Got(other, i) => {
                            Got(TreeView::Node(Kind::IsExpr, seq![e, TreeView::Flag(negated), TreeView::Node(Kind::IsDistinctFrom, seq![other])]), i)
                            }}
                            }}
                        },
                    }
                },
                None => {
                    Failed(expected_at(p, i, "NULL, NOT NULL, TRUE, NOT TRUE, FALSE, NOT FALSE, UNKNOWN, NOT UNKNOWN after IS"@), i)
                },
            }
        }),
{
    reveal(is_construct);
    reveal(expr);
}

pub(crate) proof fn aligned_is_construct(p: Input, larger: Input, ahead: int, i: int, e: TreeView)
    requires
        aligned(p, larger, ahead),
        0 <= i <= p.toks.len(),
    ensures
        agrees(p, ahead, i + 1, is_construct(p, i, e), is_construct(larger, ahead + i, e)),
    decreases p.toks.len() - i, 0int,
{
    unfold_is_construct(p, i, e);
    unfold_is_construct(larger, ahead + i, e);
    let negated = at_keyword(p, i, Keyword::NOT);
    let i = if negated { i + 1 } else { i };
    if let Some(construct) = one_of(p, i, seq![Keyword::NULL, Keyword::TRUE, Keyword::FALSE, Keyword::UNKNOWN, Keyword::DISTINCT]) {
        let i = i + 1;
        match construct {
            Keyword::NULL => {},
            Keyword::TRUE => {},
            Keyword::FALSE => {},
            Keyword::UNKNOWN => {},
            _ => {
                if let Got(_, i) = keyword(p, i, Keyword::FROM) {
                    aligned_expr(p, larger, ahead, i);
                }
            },
        }
    }
}

pub(crate) proof fn unfold_range_predicate(p: Input, i: int, e: TreeView)
    ensures
        range_predicate(p, i, e) == ({
            let negated = at_keyword(p, i, Keyword::NOT);
            let i = if negated { i + 1 } else { i };
            if at_keyword(p, i, Keyword::IN) {
                let i = i + 1;
                in_predicate(p, i, e, negated)
            } else {
                if at_keyword(p, i, Keyword::BETWEEN) {
                    let i = i + 1;
                    between(p, i, e, negated)
                } else {
                    if at_keyword(p, i, Keyword::LIKE) {
                        let i = i + 1;
                        like(p, i, e, false, negated)
                    } else {
                        if at_keyword(p, i, Keyword::ILIKE) {
                            let i = i + 1;
                            like(p, i, e, true, negated)
                        } else {
                            Failed(expected_at(p, i, "IN, BETWEEN, LIKE, or ILIKE after NOT"@), i)
                        }
                    }
                }
            }
        }),
{
    reveal(range_predicate);
    reveal(between);
    reveal(in_predicate);
    reveal(like);
}

pub(crate) proof fn aligned_range_predicate(p: Input, larger: Input, ahead: int, i: int, e: TreeView)
    requires
        aligned(p, larger, ahead),
        0 <= i <= p.toks.len(),
    ensures
        agrees(p, ahead, i + 1, range_predicate(p, i, e), range_predicate(larger, ahead + i, e)),
    decreases p.toks.len() - i, 0int,
{
    unfold_range_predicate(p, i, e);
    unfold_range_predicate(larger, ahead + i, e);
    let negated = at_keyword(p, i, Keyword::NOT);
    let i = if negated { i + 1 } else { i };
    if at_keyword(p, i, Keyword::IN) {
        let i = i + 1;
        aligned_in_predicate(p, larger, ahead, i, e, negated);
    } else {
        if at_keyword(p, i, Keyword::BETWEEN) {
            let i = i + 1;
            aligned_between(p, larger, ahead, i, e, negated);
        } else {
            if at_keyword(p, i, Keyword::LIKE) {
                let i = i + 1;
                aligned_like(p, larger, ahead, i, e, false, negated);
            } else {
                if at_keyword(p, i, Keyword::ILIKE) {
                    let i = i + 1;
                    aligned_like(p, larger, ahead, i, e, true, negated);
                }
            }
        }
    }
}

pub(crate) proof fn unfold_infix(p: Input, i: int, e: TreeView, precedence: Precedence)
    ensures
        infix(p, i, e, precedence) == ({
            let found = token_at(p, i);
            let i = i + 1;
            match found {
                Some(TokenView::Op(s)) => {
                    binary_operand(p, i, e, TreeView::Node(Kind::BareOp, seq![TreeView::Text(s)]), precedence)
                },
                Some(TokenView::Eq) => {
                    binary_operand(p, i, e, TreeView::Node(Kind::BareOp, seq![TreeView::Text("="@)]), precedence)
                },
                Some(TokenView::Star) => {
                    binary_operand(p, i, e, TreeView::Node(Kind::BareOp, seq![TreeView::Text("*"@)]), precedence)
                },
                Some(TokenView::Keyword(Keyword::OPERATOR)) => {
                    match token(p, i, TokenView::LParen) { Failed(e, i) => Failed(e, i), Got(_, i) => {
                    match past(p, i, operator(p, i, Seq::<TreeView>::empty())) { Failed(e, i) => Failed(e, i), Got(op, i) => {
                    match token(p, i, TokenView::RParen) { Failed(e, i) => Failed(e, i), Got(_, i) => {
                    binary_operand(p, i, e, op, precedence)
                    }}
                    }}
                    }}
                },
                Some(TokenView::Keyword(Keyword::IS)) => {
                    is_construct(p, i, e)
                },
                Some(TokenView::Keyword(Keyword::ISNULL)) => {
                    Got(TreeView::Node(Kind::IsExpr, seq![e, TreeView::Flag(false), TreeView::Node(Kind::IsNull, Seq::<TreeView>::empty())]), i)
                },
                Some(TokenView::Keyword(Keyword::NOT)) | Some(TokenView::Keyword(Keyword::IN)) | Some(TokenView::Keyword(Keyword::LIKE)) | Some(TokenView::Keyword(Keyword::ILIKE)) | Some(TokenView::Keyword(Keyword::BETWEEN)) => {
                    let i = i - 1;
                    range_predicate(p, i, e)
                },
                Some(TokenView::Keyword(Keyword::AND)) => {
                    match subexpr(p, i, precedence) { Failed(e, i) => Failed(e, i), Got(right, i) => {
                    Got(TreeView::Node(Kind::And, seq![e, right]), i)
                    }}
                },
                Some(TokenView::Keyword(Keyword::OR)) => {
                    match subexpr(p, i, precedence) { Failed(e, i) => Failed(e, i), Got(right, i) => {
                    Got(TreeView::Node(Kind::Or, seq![e, right]), i)
                    }}
                },
                Some(TokenView::Keyword(Keyword::AT)) => {
                    match keyword(p, i, Keyword::TIME) { Failed(e, i) => Failed(e, i), Got(_, i) => {
                    match keyword(p, i, Keyword::ZONE) { Failed(e, i) => Failed(e, i), Got(_, i) => {
                    match subexpr(p, i, precedence) { Failed(e, i) => Failed(e, i), Got(zone, i) => {
                    Got(TreeView::Node(Kind::Function, seq![TreeView::Node(Kind::ItemName, seq![TreeView::List(seq![TreeView::Text("timezone"@)])]), TreeView::Node(Kind::Args, seq![TreeView::List(seq![zone, e]), TreeView::List(Seq::<TreeView>::empty())]), TreeView::Absent, TreeView::Absent, TreeView::Flag(false)]), i)
                    }}
                    }}}}
                },
                Some(TokenView::Keyword(Keyword::COLLATE)) => {
                    match item_name(p, i) { Failed(e, i) => Failed(e, i), Got(collation, i) => {
                    Got(TreeView::Node(Kind::Collate, seq![e, collation]), i)
                    }}
                },
                Some(TokenView::DoubleColon) => {
                    pg_cast(p, i, e)
                },
                Some(TokenView::LBracket) => {
                    match subscripts(p, i, Seq::<TreeView>::empty()) { Failed(e, i) => Failed(e, i), Got(positions, i) => {
                    Got(TreeView::Node(Kind::Subscript, seq![e, TreeView::List(positions)]), i)
                    }}
                },
                Some(TokenView::Dot) => {
                    let found = token_at(p, i);
                    let i = i + 1;
                    match found {
                        Some(TokenView::Ident(s)) => {
                            Got(TreeView::Node(Kind::FieldAccess, seq![e, TreeView::Text(s)]), i)
                        },
                        Some(TokenView::Keyword(k)) => {
                            Got(TreeView::Node(Kind::FieldAccess, seq![e, TreeView::Text(keyword_ident(k))]), i)
                        },
                        Some(TokenView::Star) => {
                            Got(TreeView::Node(Kind::WildcardAccess, seq![e]), i)
                        },
                        _ => {
                            Failed(expected_at(p, i - 1, "an identifier or a '*' after '.'"@), i)
                        },
                    }
                },
                _ => {
                    Failed(FailureView::Unhandled, i)
                },
            }
        }),
{
    reveal(infix);
    reveal(binary_operand);
    reveal(is_construct);
    reveal(range_predicate);
    reveal(subexpr);
    reveal(subscripts);
}

pub(crate) proof fn aligned_infix(p: Input, larger: Input, ahead: int, i: int, e: TreeView, precedence: Precedence)
    requires
        aligned(p, larger, ahead),
        0 <= i <= p.toks.len(),
    ensures
        agrees(p, ahead, i + 1, infix(p, i, e, precedence), infix(larger, ahead + i, e, precedence)),
    decreases p.toks.len() - i, 1int,
{
    unfold_infix(p, i, e, precedence);
    unfold_infix(larger, ahead + i, e, precedence);
    let found = token_at(p, i);
    let i = i + 1;
    match found {
        Some(TokenView::Op(s)) => {
            aligned_binary_operand(p, larger, ahead, i, e, TreeView::Node(Kind::BareOp, seq![TreeView::Text(s)]), precedence);
        },
        Some(TokenView::Eq) => {
            aligned_binary_operand(p, larger, ahead, i, e, TreeView::Node(Kind::BareOp, seq![TreeView::Text("="@)]), precedence);
        },
        Some(TokenView::Star) => {
            aligned_binary_operand(p, larger, ahead, i, e, TreeView::Node(Kind::BareOp, seq![TreeView::Text("*"@)]), precedence);
        },
        Some(TokenView::Keyword(Keyword::OPERATOR)) => {
            if let Got(_, i) = token(p, i, TokenView::LParen) {
                aligned_operator(p, larger, ahead, i, Seq::<TreeView>::empty());
                if let Got(op, i) = past(p, i, operator(p, i, Seq::<TreeView>::empty())) {
                    if let Got(_, i) = token(p, i, TokenView::RParen) {
                        aligned_binary_operand(p, larger, ahead, i, e, op, precedence);
                    }
                }
            }
        },
        Some(TokenView::Keyword(Keyword::IS)) => {
            aligned_is_construct(p, larger, ahead, i, e);
        },
        Some(TokenView::Keyword(Keyword::ISNULL)) => {},
        Some(TokenView::Keyword(Keyword::NOT)) | Some(TokenView::Keyword(Keyword::IN)) | Some(TokenView::Keyword(Keyword::LIKE)) | Some(TokenView::Keyword(Keyword::ILIKE)) | Some(TokenView::Keyword(Keyword::BETWEEN)) => {
            let i = i - 1;
            aligned_range_predicate(p, larger, ahead, i, e);
        },
        Some(TokenView::Keyword(Keyword::AND)) => {
            aligned_subexpr(p, larger, ahead, i, precedence);
        },
        Some(TokenView::Keyword(Keyword::OR)) => {
            aligned_subexpr(p, larger, ahead, i, precedence);
        },
        Some(TokenView::Keyword(Keyword::AT)) => {
            if at_keywords2(p, i, Keyword::TIME, Keyword::ZONE) {
                let i = i + 2;
                aligned_subexpr(p, larger, ahead, i, precedence);
            }
        },
        Some(TokenView::Keyword(Keyword::COLLATE)) => {
            aligned_item_name(p, larger, ahead, i);
        },
        Some(TokenView::DoubleColon) => {
            aligned_pg_cast(p, larger, ahead, i, e);
        },
        Some(TokenView::LBracket) => {
            aligned_subscripts(p, larger, ahead, i, Seq::<TreeView>::empty());
        },
        _ => {},
    }
}

pub(crate) proof fn unfold_subscripts(p: Input, i: int, positions: Seq<TreeView>)
    ensures
        subscripts(p, i, positions) == ({
            match onward(p, i, {
                if at_token(p, i, TokenView::Colon) {
                    Got(TreeView::Absent, i)
                } else {
                    expr(p, i)
                }
            }) { Failed(e, i) => Failed(e, i), Got(start, i) => {
            match onward(p, i, {
                if at_token(p, i, TokenView::Colon) {
                    let i = i + 1;
                    match onward(p, i, {
                        if at_token(p, i, TokenView::RBracket) {
                            Got(TreeView::Absent, i)
                        } else {
                            expr(p, i)
                        }
                    }) { Failed(e, i) => Failed(e, i), Got(end, i) => {
                    Got(TreeView::Node(Kind::SubscriptPosition, seq![start, end, TreeView::Flag(true)]), i)
                    }}
                } else {
                    Got(TreeView::Node(Kind::SubscriptPosition, seq![start, TreeView::Absent, TreeView::Flag(false)]), i)
                }
            }) { Failed(e, i) => Failed(e, i), Got(position, i) => {
            match token(p, i, TokenView::RBracket) { Failed(e, i) => Failed(e, i), Got(_, i) => {
            if at_token(p, i, TokenView::LBracket) {
                let i = i + 1;
                subscripts(p, i, positions.push(position))
            } else {
                Got(positions.push(position), i)
            }
            }}
            }}
            }}
        }),
{
    reveal(subscripts);
    reveal(expr);
}

pub(crate) proof fn aligned_subscripts(p: Input, larger: Input, ahead: int, i: int, positions: Seq<TreeView>)
    requires
        aligned(p, larger, ahead),
        0 <= i <= p.toks.len(),
    ensures
        agrees(p, ahead, i + 1, subscripts(p, i, positions), subscripts(larger, ahead + i, positions)),
    decreases p.toks.len() - i, 4int,
{
    unfold_subscripts(p, i, positions);
    unfold_subscripts(larger, ahead + i, positions);
    if !at_token(p, i, TokenView::Colon) {
        aligned_expr(p, larger, ahead, i);
    }
    let part = {
        if at_token(p, i, TokenView::Colon) {
            Got(TreeView::Absent, i)
        } else {
            expr(p, i)
        }
    };
    if let Got(start, i) = onward(p, i, part) {
        if at_token(p, i, TokenView::Colon) {
            let i = i + 1;
            if !at_token(p, i, TokenView::RBracket) {
                aligned_expr(p, larger, ahead, i);
            }
        }
        let part = {
            if at_token(p, i, TokenView::Colon) {
                let i = i + 1;
                match onward(p, i, {
                    if at_token(p, i, TokenView::RBracket) {
                        Got(TreeView::Absent, i)
                    } else {
                        expr(p, i)
                    }
                }) { Failed(e, i) => Failed(e, i), Got(end, i) => {
                Got(TreeView::Node(Kind::SubscriptPosition, seq![start, end, TreeView::Flag(true)]), i)
                }}
            } else {
                Got(TreeView::Node(Kind::SubscriptPosition, seq![start, TreeView::Absent, TreeView::Flag(false)]), i)
            }
        };
        if let Got(position, i) = onward(p, i, part) {
            if let Got(_, i) = token(p, i, TokenView::RBracket) {
                if at_token(p, i, TokenView::LBracket) {
                    let i = i + 1;
                    aligned_subscripts(p, larger, ahead, i, positions.push(position));
                }
            }
        }
    }
}

pub(crate) proof fn unfold_substring_expr(p: Input, i: int)
    ensures
        substring_expr(p, i) == ({
            match token(p, i, TokenView::LParen) { Failed(e, i) => Failed(e, i), Got(_, i) => {
            match past(p, i, expr(p, i)) { Failed(e, i) => Failed(e, i), Got(s, i) => {
            match {
                if at_keyword(p, i, Keyword::FROM) {
                    let i = i + 1;
                    match past(p, i, expr(p, i)) { Failed(e, i) => Failed(e, i), Got(start, i) => {
                    if at_keyword(p, i, Keyword::FOR) {
                        let i = i + 1;
                        match expr(p, i) { Failed(e, i) => Failed(e, i), Got(count, i) => {
                        Got(seq![s, start, count], i)
                        }}
                    } else {
                        Got(seq![s, start], i)
                    }
                    }}
                } else {
                    if at_keyword(p, i, Keyword::FOR) {
                        let i = i + 1;
                        match expr(p, i) { Failed(e, i) => Failed(e, i), Got(count, i) => {
                        Got(seq![s, TreeView::Node(Kind::NumberValue, seq![TreeView::Text("1"@)]), count], i)
                        }}
                    } else {
                        match token(p, i, TokenView::Comma) { Failed(e, i) => Failed(e, i), Got(_, i) => {
                        match expr_list(p, i, Seq::<TreeView>::empty()) { Failed(e, i) => Failed(e, i), Got(more, i) => {
                        Got(seq![s] + more, i)
                        }}
                        }}
                    }
                }
            } { Failed(e, i) => Failed(e, i), Got(es, i) => {
            match token(p, i, TokenView::RParen) { Failed(e, i) => Failed(e, i), Got(_, i) => {
            Got(TreeView::Node(Kind::Function, seq![TreeView::Node(Kind::ItemName, seq![TreeView::List(seq![TreeView::Text("substring"@)])]), TreeView::Node(Kind::Args, seq![TreeView::List(es), TreeView::List(Seq::<TreeView>::empty())]), TreeView::Absent, TreeView::Absent, TreeView::Flag(false)]), i)
            }}
            }}
            }}
            }}
        }),
{
    reveal(substring_expr);
    reveal(expr);
    reveal(expr_list);
}

pub(crate) proof fn aligned_substring_expr(p: Input, larger: Input, ahead: int, i: int)
    requires
        aligned(p, larger, ahead),
        0 <= i <= p.toks.len(),
    ensures
        agrees(p, ahead, i + 1, substring_expr(p, i), substring_expr(larger, ahead + i)),
    decreases p.toks.len() - i, 0int,
{
    unfold_substring_expr(p, i);
    unfold_substring_expr(larger, ahead + i);
    if let Got(_, i) = token(p, i, TokenView::LParen) {
        aligned_expr(p, larger, ahead, i);
        if let Got(s, i) = past(p, i, expr(p, i)) {
            if at_keyword(p, i, Keyword::FROM) {
                let i = i + 1;
                aligned_expr(p, larger, ahead, i);
                if let Got(start, i) = past(p, i, expr(p, i)) {
                    if at_keyword(p, i, Keyword::FOR) {
                        let i = i + 1;
                        aligned_expr(p, larger, ahead, i);
                    }
                }
            } else {
                if at_keyword(p, i, Keyword::FOR) {
                    let i = i + 1;
                    aligned_expr(p, larger, ahead, i);
                } else {
                    if let Got(_, i) = token(p, i, TokenView::Comma) {
                        aligned_expr_list(p, larger, ahead, i, Seq::<TreeView>::empty());
                    }
                }
            }
        }
    }
}

pub(crate) proof fn unfold_operator(p: Input, i: int, namespace: Seq<TreeView>)
    ensures
        operator(p, i, namespace) == ({
            let found = token_at(p, i);
            let i = i + 1;
            match found {
                Some(TokenView::Keyword(k)) => {
                    match token(p, i, TokenView::Dot) { Failed(e, i) => Failed(e, i), Got(_, i) => {
                    operator(p, i, namespace.push(TreeView::Text(keyword_ident(k))))
                    }}
                },
                Some(TokenView::Ident(s)) => {
                    match token(p, i, TokenView::Dot) { Failed(e, i) => Failed(e, i), Got(_, i) => {
                    operator(p, i, namespace.push(TreeView::Text(s)))
                    }}
                },
                Some(TokenView::Op(s)) => {
                    Got(TreeView::Node(Kind::QualifiedOp, seq![TreeView::List(namespace), TreeView::Text(s)]), i)
                },
                Some(TokenView::Star) => {
                    Got(TreeView::Node(Kind::QualifiedOp, seq![TreeView::List(namespace), TreeView::Text("*"@)]), i)
                },
                _ => {
                    Failed(expected_at(p, i - 1, "operator"@), i)
                },
            }
        }),
{
    reveal(operator);
}

pub(crate) proof fn aligned_operator(p: Input, larger: Input, ahead: int, i: int, namespace: Seq<TreeView>)
    requires
        aligned(p, larger, ahead),
        0 <= i <= p.toks.len(),
    ensures
        agrees(p, ahead, i + 1, operator(p, i, namespace), operator(larger, ahead + i, namespace)),
    decreases p.toks.len() - i, 0int,
{
    unfold_operator(p, i, namespace);
    unfold_operator(larger, ahead + i, namespace);
    let found = token_at(p, i);
    let i = i + 1;
    match found {
        Some(TokenView::Keyword(k)) => {
            if let Got(_, i) = token(p, i, TokenView::Dot) {
                aligned_operator(p, larger, ahead, i, namespace.push(TreeView::Text(keyword_ident(k))));
            }
        },
        Some(TokenView::Ident(s)) => {
            if let Got(_, i) = token(p, i, TokenView::Dot) {
                aligned_operator(p, larger, ahead, i, namespace.push(TreeView::Text(s)));
            }
        },
        _ => {},
    }
}

pub(crate) proof fn unfold_in_predicate(p: Input, i: int, e: TreeView, negated: bool)
    ensures
        in_predicate(p, i, e, negated) == ({
            match token(p, i, TokenView::LParen) { Failed(e, i) => Failed(e, i), Got(_, i) => {
            match {
                match one_of(p, i, seq![Keyword::SELECT, Keyword::VALUES, Keyword::WITH]) {
                    Some(_) => {
                        let i = i + 1;
                        let i = i - 1;
                        match query(p, i) { Failed(e, i) => Failed(e, i), Got(subquery, i) => {
                        Got(TreeView::Node(Kind::InSubquery, seq![e, subquery, TreeView::Flag(negated)]), i)
                        }}
                    },
                    None => {
                        match expr_list(p, i, Seq::<TreeView>::empty()) { Failed(e, i) => Failed(e, i), Got(members, i) => {
                        Got(TreeView::Node(Kind::InList, seq![e, TreeView::List(members), TreeView::Flag(negated)]), i)
                        }}
                    },
                }
            } { Failed(e, i) => Failed(e, i), Got(in_op, i) => {
            match token(p, i, TokenView::RParen) { Failed(e, i) => Failed(e, i), Got(_, i) => {
            Got(in_op, i)
            }}
            }}
            }}
        }),
{
    reveal(in_predicate);
    reveal(expr_list);
    reveal(query);
}

pub(crate) proof fn aligned_in_predicate(p: Input, larger: Input, ahead: int, i: int, e: TreeView, negated: bool)
    requires
        aligned(p, larger, ahead),
        0 <= i <= p.toks.len(),
    ensures
        agrees(p, ahead, i + 1, in_predicate(p, i, e, negated), in_predicate(larger, ahead + i, e, negated)),
    decreases p.toks.len() - i, 3int,
{
    unfold_in_predicate(p, i, e, negated);
    unfold_in_predicate(larger, ahead + i, e, negated);
    if let Got(_, i) = token(p, i, TokenView::LParen) {
        if let Some(_) = one_of(p, i, seq![Keyword::SELECT, Keyword::VALUES, Keyword::WITH]) {
            let i = i + 1;
            let i = i - 1;
            aligned_query(p, larger, ahead, i);
        } else {
            aligned_expr_list(p, larger, ahead, i, Seq::<TreeView>::empty());
        }
    }
}

pub(crate) proof fn unfold_between(p: Input, i: int, e: TreeView, negated: bool)
    ensures
        between(p, i, e, negated) == ({
            match past(p, i, subexpr(p, i, Precedence::Like)) { Failed(e, i) => Failed(e, i), Got(low, i) => {
            match keyword(p, i, Keyword::AND) { Failed(e, i) => Failed(e, i), Got(_, i) => {
            match subexpr(p, i, Precedence::Like) { Failed(e, i) => Failed(e, i), Got(high, i) => {
            Got(TreeView::Node(Kind::Between, seq![e, TreeView::Flag(negated), low, high]), i)
            }}
            }}
            }}
        }),
{
    reveal(between);
    reveal(subexpr);
}

pub(crate) proof fn aligned_between(p: Input, larger: Input, ahead: int, i: int, e: TreeView, negated: bool)
    requires
        aligned(p, larger, ahead),
        0 <= i <= p.toks.len(),
    ensures
        agrees(p, ahead, i + 1, between(p, i, e, negated), between(larger, ahead + i, e, negated)),
    decreases p.toks.len() - i, 3int,
{
    unfold_between(p, i, e, negated);
    unfold_between(larger, ahead + i, e, negated);
    aligned_subexpr(p, larger, ahead, i, Precedence::Like);
    if let Got(low, i) = past(p, i, subexpr(p, i, Precedence::Like)) {
        if let Got(_, i) = keyword(p, i, Keyword::AND) {
            aligned_subexpr(p, larger, ahead, i, Precedence::Like);
        }
    }
}

pub(crate) proof fn unfold_like(p: Input, i: int, e: TreeView, case_insensitive: bool, negated: bool)
    ensures
        like(p, i, e, case_insensitive, negated) == ({
            match past(p, i, subexpr(p, i, Precedence::Like)) { Failed(e, i) => Failed(e, i), Got(pattern, i) => {
            match {
                if at_keyword(p, i, Keyword::ESCAPE) {
                    let i = i + 1;
                    subexpr(p, i, Precedence::Like)
                } else {
                    Got(TreeView::Absent, i)
                }
            } { Failed(e, i) => Failed(e, i), Got(escape, i) => {
            Got(TreeView::Node(Kind::Like, seq![e, pattern, escape, TreeView::Flag(case_insensitive), TreeView::Flag(negated)]), i)
            }}
            }}
        }),
{
    reveal(like);
    reveal(subexpr);
}

pub(crate) proof fn aligned_like(p: Input, larger: Input, ahead: int, i: int, e: TreeView, case_insensitive: bool, negated: bool)
    requires
        aligned(p, larger, ahead),
        0 <= i <= p.toks.len(),
    ensures
        agrees(p, ahead, i + 1, like(p, i, e, case_insensitive, negated), like(larger, ahead + i, e, case_insensitive, negated)),
    decreases p.toks.len() - i, 3int,
{
    unfold_like(p, i, e, case_insensitive, negated);
    unfold_like(larger, ahead + i, e, case_insensitive, negated);
    aligned_subexpr(p, larger, ahead, i, Precedence::Like);
    if let Got(pattern, i) = past(p, i, subexpr(p, i, Precedence::Like)) {
        if at_keyword(p, i, Keyword::ESCAPE) {
            let i = i + 1;
            aligned_subexpr(p, larger, ahead, i, Precedence::Like);
        }
    }
}

pub(crate) proof fn aligned_pg_cast(p: Input, larger: Input, ahead: int, i: int, e: TreeView)
    requires
        aligned(p, larger, ahead),
        0 <= i <= p.toks.len(),
    ensures
        agrees(p, ahead, i + 1, pg_cast(p, i, e), pg_cast(larger, ahead + i, e)),
{
    reveal(pg_cast);
    aligned_data_type(p, larger, ahead, i);
}

} // verus!
