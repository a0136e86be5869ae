//! How tables and joins are read inside of larger texts.

use vstd::prelude::*;

use crate::sql_parser::alignment::expr::{aligned_expr, aligned_function};
use crate::sql_parser::alignment::names::{
    aligned_identifier, aligned_optional_table_alias, aligned_parenthesized_column_list,
    aligned_raw_name,
};
use crate::sql_parser::alignment::query::{aligned_optional_args, aligned_query};
use crate::sql_parser::alignment::{agrees, aligned};
use crate::sql_parser::checks::lone_table;
use crate::sql_parser::expr::{expr, function};
use crate::sql_parser::keywords::Keyword;
use crate::sql_parser::kind::Kind;
use crate::sql_parser::names::{
    identifier, optional_table_alias, parenthesized_column_list, raw_name,
};
use crate::sql_parser::outcome::Out::{Failed, Got};
use crate::sql_parser::parser::{
    Input, at_keyword, at_keywords2, at_token, expected_at, keyword, onward, past, token, token_at,
};
use crate::sql_parser::query::{optional_args, query};
use crate::sql_parser::syntax::TreeView;
use crate::sql_parser::tables::{
    derived_table_factor, join_constraint, joins, named_function, named_function_list, rows_from,
    table_and_joins, table_and_joins_list, table_factor, table_function,
};
use crate::sql_parser::token::TokenView;

verus! {

pub(crate) proof fn unfold_table_and_joins(p: Input, i: int)
    ensures
        table_and_joins(p, i) == ({
            match onward(p, i, table_factor(p, i)) { Failed(e, i) => Failed(e, i), Got(relation, i) => {
            match joins(p, i, Seq::<TreeView>::empty()) { Failed(e, i) => Failed(e, i), Got(joins, i) => {
            Got(TreeView::Node(Kind::TableWithJoins, seq![relation, TreeView::List(joins)]), i)
            }}
            }}
        }),
{
    reveal(table_and_joins);
    reveal(joins);
    reveal(table_factor);
}

pub(crate) proof fn aligned_table_and_joins(p: Input, larger: Input, ahead: int, i: int)
    requires
        aligned(p, larger, ahead),
        0 <= i <= p.toks.len(),
    ensures
        agrees(p, ahead, i, table_and_joins(p, i), table_and_joins(larger, ahead + i)),
    decreases p.toks.len() - i, 1int,
{
    unfold_table_and_joins(p, i);
    unfold_table_and_joins(larger, ahead + i);
    aligned_table_factor(p, larger, ahead, i);
    if let Got(relation, i) = onward(p, i, table_factor(p, i)) {
        aligned_joins(p, larger, ahead, i, Seq::<TreeView>::empty());
    }
}

pub(crate) proof fn unfold_table_and_joins_list(p: Input, i: int, items: Seq<TreeView>)
    ensures
        table_and_joins_list(p, i, items) == ({
            match onward(p, i, table_and_joins(p, i)) { Failed(e, i) => Failed(e, i), Got(item, i) => {
            if at_token(p, i, TokenView::Comma) {
                let i = i + 1;
                table_and_joins_list(p, i, items.push(item))
            } else {
                Got(items.push(item), i)
            }
            }}
        }),
{
    reveal(table_and_joins_list);
    reveal(table_and_joins);
}

pub(crate) proof fn aligned_table_and_joins_list(p: Input, larger: Input, ahead: int, i: int, items: Seq<TreeView>)
    requires
        aligned(p, larger, ahead),
        0 <= i <= p.toks.len(),
    ensures
        agrees(p, ahead, i, table_and_joins_list(p, i, items), table_and_joins_list(larger, ahead + i, items)),
    decreases p.toks.len() - i, 2int,
{
    unfold_table_and_joins_list(p, i, items);
    unfold_table_and_joins_list(larger, ahead + i, items);
    aligned_table_and_joins(p, larger, ahead, i);
    if let Got(item, i) = onward(p, i, table_and_joins(p, i)) {
        if at_token(p, i, TokenView::Comma) {
            let i = i + 1;
            aligned_table_and_joins_list(p, larger, ahead, i, items.push(item));
        }
    }
}

pub(crate) proof fn unfold_joins(p: Input, i: int, found: Seq<TreeView>)
    ensures
        joins(p, i, found) == ({
            if at_keyword(p, i, Keyword::CROSS) {
                let i = i + 1;
                match keyword(p, i, Keyword::JOIN) { Failed(e, i) => Failed(e, i), Got(_, i) => {
                match onward(p, i, table_factor(p, i)) { Failed(e, i) => Failed(e, i), Got(relation, i) => {
                joins(p, i, found.push(TreeView::Node(Kind::Join, seq![relation, TreeView::Node(Kind::CrossJoin, Seq::<TreeView>::empty())])))
                }}
                }}
            } else {
                let natural = at_keyword(p, i, Keyword::NATURAL);
                let i = if natural { i + 1 } else { i };
                match token_at(p, i) {
                    Some(TokenView::Keyword(Keyword::INNER)) | Some(TokenView::Keyword(Keyword::JOIN)) => {
                        let i = if at_keyword(p, i, Keyword::INNER) { i + 1 } else { i };
                        match keyword(p, i, Keyword::JOIN) { Failed(e, i) => Failed(e, i), Got(_, i) => {
                        match onward(p, i, table_factor(p, i)) { Failed(e, i) => Failed(e, i), Got(relation, i) => {
                        match onward(p, i, join_constraint(p, i, natural)) { Failed(e, i) => Failed(e, i), Got(constraint, i) => {
                        joins(p, i, found.push(TreeView::Node(Kind::Join, seq![relation, TreeView::Node(Kind::InnerJoin, seq![constraint])])))
                        }}
                        }}
                        }}
                    },
                    Some(TokenView::Keyword(Keyword::LEFT)) => {
                        match keyword(p, i, Keyword::LEFT) { Failed(e, i) => Failed(e, i), Got(_, i) => {
                        let i = if at_keyword(p, i, Keyword::OUTER) { i + 1 } else { i };
                        match keyword(p, i, Keyword::JOIN) { Failed(e, i) => Failed(e, i), Got(_, i) => {
                        match onward(p, i, table_factor(p, i)) { Failed(e, i) => Failed(e, i), Got(relation, i) => {
                        match onward(p, i, join_constraint(p, i, natural)) { Failed(e, i) => Failed(e, i), Got(constraint, i) => {
                        joins(p, i, found.push(TreeView::Node(Kind::Join, seq![relation, TreeView::Node(Kind::LeftOuterJoin, seq![constraint])])))
                        }}
                        }}
                        }}
                        }}
                    },
                    Some(TokenView::Keyword(Keyword::RIGHT)) => {
                        match keyword(p, i, Keyword::RIGHT) { Failed(e, i) => Failed(e, i), Got(_, i) => {
                        let i = if at_keyword(p, i, Keyword::OUTER) { i + 1 } else { i };
                        match keyword(p, i, Keyword::JOIN) { Failed(e, i) => Failed(e, i), Got(_, i) => {
                        match onward(p, i, table_factor(p, i)) { Failed(e, i) => Failed(e, i), Got(relation, i) => {
                        match onward(p, i, join_constraint(p, i, natural)) { Failed(e, i) => Failed(e, i), Got(constraint, i) => {
                        joins(p, i, found.push(TreeView::Node(Kind::Join, seq![relation, TreeView::Node(Kind::RightOuterJoin, seq![constraint])])))
                        }}
                        }}
                        }}
                        }}
                    },
                    Some(TokenView::Keyword(Keyword::FULL)) => {
                        match keyword(p, i, Keyword::FULL) { Failed(e, i) => Failed(e, i), Got(_, i) => {
                        let i = if at_keyword(p, i, Keyword::OUTER) { i + 1 } else { i };
                        match keyword(p, i, Keyword::JOIN) { Failed(e, i) => Failed(e, i), Got(_, i) => {
                        match onward(p, i, table_factor(p, i)) { Failed(e, i) => Failed(e, i), Got(relation, i) => {
                        match onward(p, i, join_constraint(p, i, natural)) { Failed(e, i) => Failed(e, i), Got(constraint, i) => {
                        joins(p, i, found.push(TreeView::Node(Kind::Join, seq![relation, TreeView::Node(Kind::FullOuterJoin, seq![constraint])])))
                        }}
                        }}
                        }}
                        }}
                    },
                    Some(TokenView::Keyword(Keyword::OUTER)) => {
                        Failed(expected_at(p, i, "LEFT, RIGHT, or FULL"@), i)
                    },
                    Some(TokenView::Keyword(k)) => {
                        Got(found, i)
                    },
                    _ => {
                        if natural {
                            Failed(expected_at(p, i, "a join type after NATURAL"@), i)
                        } else {
                            Got(found, i)
                        }
                    },
                }
            }
        }),
{
    reveal(joins);
    reveal(join_constraint);
    reveal(table_factor);
}

pub(crate) proof fn aligned_joins(p: Input, larger: Input, ahead: int, i: int, found: Seq<TreeView>)
    requires
        aligned(p, larger, ahead),
        0 <= i <= p.toks.len(),
    ensures
        agrees(p, ahead, i, joins(p, i, found), joins(larger, ahead + i, found)),
    decreases p.toks.len() - i, 0int,
{
    unfold_joins(p, i, found);
    unfold_joins(larger, ahead + i, found);
    if at_keyword(p, i, Keyword::CROSS) {
        let i = i + 1;
        if let Got(_, i) = keyword(p, i, Keyword::JOIN) {
            aligned_table_factor(p, larger, ahead, i);
            if let Got(relation, i) = onward(p, i, table_factor(p, i)) {
                aligned_joins(p, larger, ahead, i, found.push(TreeView::Node(Kind::Join, seq![relation, TreeView::Node(Kind::CrossJoin, Seq::<TreeView>::empty())])));
            }
        }
    } else {
        let natural = at_keyword(p, i, Keyword::NATURAL);
        let i = if natural { i + 1 } else { i };
        match token_at(p, i) {
            Some(TokenView::Keyword(Keyword::INNER)) | Some(TokenView::Keyword(Keyword::JOIN)) => {
                let i = if at_keyword(p, i, Keyword::INNER) { i + 1 } else { i };
                if let Got(_, i) = keyword(p, i, Keyword::JOIN) {
                    aligned_table_factor(p, larger, ahead, i);
                    if let Got(relation, i) = onward(p, i, table_factor(p, i)) {
                        aligned_join_constraint(p, larger, ahead, i, natural);
                        if let Got(constraint, i) = onward(p, i, join_constraint(p, i, natural)) {
                            aligned_joins(p, larger, ahead, i, found.push(TreeView::Node(Kind::Join, seq![relation, TreeView::Node(Kind::InnerJoin, seq![constraint])])));
                        }
                    }
                }
            },
            Some(TokenView::Keyword(Keyword::LEFT)) => {
                if let Got(_, i) = keyword(p, i, Keyword::LEFT) {
                    let i = if at_keyword(p, i, Keyword::OUTER) { i + 1 } else { i };
                    if let Got(_, i) = keyword(p, i, Keyword::JOIN) {
                        aligned_table_factor(p, larger, ahead, i);
                        if let Got(relation, i) = onward(p, i, table_factor(p, i)) {
                            aligned_join_constraint(p, larger, ahead, i, natural);
                            if let Got(constraint, i) = onward(p, i, join_constraint(p, i, natural)) {
                                aligned_joins(p, larger, ahead, i, found.push(TreeView::Node(Kind::Join, seq![relation, TreeView::Node(Kind::LeftOuterJoin, seq![constraint])])));
                            }
                        }
                    }
                }
            },
            Some(TokenView::Keyword(Keyword::RIGHT)) => {
                if let Got(_, i) = keyword(p, i, Keyword::RIGHT) {
                    let i = if at_keyword(p, i, Keyword::OUTER) { i + 1 } else { i };
                    if let Got(_, i) = keyword(p, i, Keyword::JOIN) {
                        aligned_table_factor(p, larger, ahead, i);
                        if let Got(relation, i) = onward(p, i, table_factor(p, i)) {
                            aligned_join_constraint(p, larger, ahead, i, natural);
                            if let Got(constraint, i) = onward(p, i, join_constraint(p, i, natural)) {
                                aligned_joins(p, larger, ahead, i, found.push(TreeView::Node(Kind::Join, seq![relation, TreeView::Node(Kind::RightOuterJoin, seq![constraint])])));
                            }
                        }
                    }
                }
            },
            Some(TokenView::Keyword(Keyword::FULL)) => {
                if let Got(_, i) = keyword(p, i, Keyword::FULL) {
                    let i = if at_keyword(p, i, Keyword::OUTER) { i + 1 } else { i };
                    if let Got(_, i) = keyword(p, i, Keyword::JOIN) {
                        aligned_table_factor(p, larger, ahead, i);
                        if let Got(relation, i) = onward(p, i, table_factor(p, i)) {
                            aligned_join_constraint(p, larger, ahead, i, natural);
                            if let Got(constraint, i) = onward(p, i, join_constraint(p, i, natural)) {
                                aligned_joins(p, larger, ahead, i, found.push(TreeView::Node(Kind::Join, seq![relation, TreeView::Node(Kind::FullOuterJoin, seq![constraint])])));
                            }
                        }
                    }
                }
            },
            _ => {},
        }
    }
}

pub(crate) proof fn unfold_table_function(p: Input, i: int, name: TreeView)
    ensures
        table_function(p, i, name) == ({
            match optional_args(p, i, false) { Failed(e, i) => Failed(e, i), Got(args, i) => {
            match optional_table_alias(p, i) { Failed(e, i) => Failed(e, i), Got(alias, i) => {
            let with_ordinality = at_keywords2(p, i, Keyword::WITH, Keyword::ORDINALITY);
            let i = if with_ordinality { i + 2 } else { i };
            Got(TreeView::Node(Kind::TableFunction, seq![TreeView::Node(Kind::Function, seq![name, args, TreeView::Absent, TreeView::Absent, TreeView::Flag(false)]), alias, TreeView::Flag(with_ordinality)]), i)
            }}
            }}
        }),
{
    reveal(table_function);
    reveal(optional_args);
}

pub(crate) proof fn aligned_table_function(p: Input, larger: Input, ahead: int, i: int, name: TreeView)
    requires
        aligned(p, larger, ahead),
        0 <= i <= p.toks.len(),
    ensures
        agrees(p, ahead, i, table_function(p, i, name), table_function(larger, ahead + i, name)),
    decreases p.toks.len() - i, 6int,
{
    unfold_table_function(p, i, name);
    unfold_table_function(larger, ahead + i, name);
    aligned_optional_args(p, larger, ahead, i, false);
    if let Got(args, i) = optional_args(p, i, false) {
        aligned_optional_table_alias(p, larger, ahead, i);
    }
}

pub(crate) proof fn unfold_table_factor(p: Input, i: int)
    ensures
        table_factor(p, i) == ({
            if at_keyword(p, i, Keyword::LATERAL) {
                let i = i + 1;
                if at_token(p, i, TokenView::LParen) {
                    let i = i + 1;
                    derived_table_factor(p, i, true)
                } else {
                    if at_keywords2(p, i, Keyword::ROWS, Keyword::FROM) {
                        let i = i + 2;
                        rows_from(p, i)
                    } else {
                        match past(p, i, raw_name(p, i)) { Failed(e, i) => Failed(e, i), Got(name, i) => {
                        match token(p, i, TokenView::LParen) { Failed(e, i) => Failed(e, i), Got(_, i) => {
                        table_function(p, i, name)
                        }}
                        }}
                    }
                }
            } else {
                if at_token(p, i, TokenView::LParen) {
                    let i = i + 1;
                    match derived_table_factor(p, i, false) {
                        Got(t, i) => {
                            Got(t, i)
                        },
                        Failed(_, _) => {
                            match table_and_joins(p, i) { Failed(e, i) => Failed(e, i), Got(t, i) => {
                            if lone_table(t) {
                                Failed(expected_at(p, i, "joined table"@), i)
                            } else {
                                match token(p, i, TokenView::RParen) { Failed(e, i) => Failed(e, i), Got(_, i) => {
                                match optional_table_alias(p, i) { Failed(e, i) => Failed(e, i), Got(alias, i) => {
                                Got(TreeView::Node(Kind::NestedJoin, seq![t, alias]), i)
                                }}
                                }}
                            }
                            }}
                        },
                    }
                } else {
                    if at_keywords2(p, i, Keyword::ROWS, Keyword::FROM) {
                        let i = i + 2;
                        rows_from(p, i)
                    } else {
                        match past(p, i, raw_name(p, i)) { Failed(e, i) => Failed(e, i), Got(name, i) => {
                        if at_token(p, i, TokenView::LParen) {
                            let i = i + 1;
                            table_function(p, i, name)
                        } else {
                            match optional_table_alias(p, i) { Failed(e, i) => Failed(e, i), Got(alias, i) => {
                            Got(TreeView::Node(Kind::Table, seq![name, alias]), i)
                            }}
                        }
                        }}
                    }
                }
            }
        }),
{
    reveal(table_factor);
    reveal(derived_table_factor);
    reveal(rows_from);
    reveal(table_and_joins);
    reveal(table_function);
}

pub(crate) proof fn aligned_table_factor(p: Input, larger: Input, ahead: int, i: int)
    requires
        aligned(p, larger, ahead),
        0 <= i <= p.toks.len(),
    ensures
        agrees(p, ahead, i, table_factor(p, i), table_factor(larger, ahead + i)),
    decreases p.toks.len() - i, 0int,
{
    unfold_table_factor(p, i);
    unfold_table_factor(larger, ahead + i);
    if at_keyword(p, i, Keyword::LATERAL) {
        let i = i + 1;
        if at_token(p, i, TokenView::LParen) {
            let i = i + 1;
            aligned_derived_table_factor(p, larger, ahead, i, true);
        } else {
            if at_keywords2(p, i, Keyword::ROWS, Keyword::FROM) {
                let i = i + 2;
                aligned_rows_from(p, larger, ahead, i);
            } else {
                aligned_raw_name(p, larger, ahead, i);
                if let Got(name, i) = past(p, i, raw_name(p, i)) {
                    if let Got(_, i) = token(p, i, TokenView::LParen) {
                        aligned_table_function(p, larger, ahead, i, name);
                    }
                }
            }
        }
    } else {
        if at_token(p, i, TokenView::LParen) {
            let i = i + 1;
            aligned_derived_table_factor(p, larger, ahead, i, false);
            if derived_table_factor(p, i, false) is Failed {
                aligned_table_and_joins(p, larger, ahead, i);
                if let Got(t, i) = table_and_joins(p, i) {
                    if !lone_table(t) {
                        if let Got(_, i) = token(p, i, TokenView::RParen) {
                            aligned_optional_table_alias(p, larger, ahead, i);
                        }
                    }
                }
            }
        } else {
            if at_keywords2(p, i, Keyword::ROWS, Keyword::FROM) {
                let i = i + 2;
                aligned_rows_from(p, larger, ahead, i);
            } else {
                aligned_raw_name(p, larger, ahead, i);
                if let Got(name, i) = past(p, i, raw_name(p, i)) {
                    if at_token(p, i, TokenView::LParen) {
                        let i = i + 1;
                        aligned_table_function(p, larger, ahead, i, name);
                    } else {
                        aligned_optional_table_alias(p, larger, ahead, i);
                    }
                }
            }
        }
    }
}

pub(crate) proof fn unfold_rows_from(p: Input, i: int)
    ensures
        rows_from(p, i) == ({
            match token(p, i, TokenView::LParen) { Failed(e, i) => Failed(e, i), Got(_, i) => {
            match named_function_list(p, i, Seq::<TreeView>::empty()) { Failed(e, i) => Failed(e, i), Got(functions, i) => {
            match token(p, i, TokenView::RParen) { Failed(e, i) => Failed(e, i), Got(_, i) => {
            match optional_table_alias(p, i) { Failed(e, i) => Failed(e, i), Got(alias, i) => {
            let with_ordinality = at_keywords2(p, i, Keyword::WITH, Keyword::ORDINALITY);
            let i = if with_ordinality { i + 2 } else { i };
            Got(TreeView::Node(Kind::RowsFrom, seq![TreeView::List(functions), alias, TreeView::Flag(with_ordinality)]), i)
            }}
            }}
            }}
            }}
        }),
{
    reveal(rows_from);
    reveal(named_function_list);
}

pub(crate) proof fn aligned_rows_from(p: Input, larger: Input, ahead: int, i: int)
    requires
        aligned(p, larger, ahead),
        0 <= i <= p.toks.len(),
    ensures
        agrees(p, ahead, i + 1, rows_from(p, i), rows_from(larger, ahead + i)),
    decreases p.toks.len() - i, 0int,
{
    unfold_rows_from(p, i);
    unfold_rows_from(larger, ahead + i);
    if let Got(_, i) = token(p, i, TokenView::LParen) {
        aligned_named_function_list(p, larger, ahead, i, Seq::<TreeView>::empty());
        if let Got(functions, i) = named_function_list(p, i, Seq::<TreeView>::empty()) {
            if let Got(_, i) = token(p, i, TokenView::RParen) {
                aligned_optional_table_alias(p, larger, ahead, i);
            }
        }
    }
}

pub(crate) proof fn unfold_named_function(p: Input, i: int)
    ensures
        named_function(p, i) == ({
            match past(p, i, raw_name(p, i)) { Failed(e, i) => Failed(e, i), Got(name, i) => {
            function(p, i, name)
            }}
        }),
{
    reveal(named_function);
    reveal(function);
}

pub(crate) proof fn aligned_named_function(p: Input, larger: Input, ahead: int, i: int)
    requires
        aligned(p, larger, ahead),
        0 <= i <= p.toks.len(),
    ensures
        agrees(p, ahead, i + 1, named_function(p, i), named_function(larger, ahead + i)),
    decreases p.toks.len() - i, 0int,
{
    unfold_named_function(p, i);
    unfold_named_function(larger, ahead + i);
    aligned_raw_name(p, larger, ahead, i);
    if let Got(name, i) = past(p, i, raw_name(p, i)) {
        aligned_function(p, larger, ahead, i, name);
    }
}

pub(crate) proof fn unfold_named_function_list(p: Input, i: int, items: Seq<TreeView>)
    ensures
        named_function_list(p, i, items) == ({
            match past(p, i, named_function(p, i)) { Failed(e, i) => Failed(e, i), Got(item, i) => {
            if at_token(p, i, TokenView::Comma) {
                let i = i + 1;
                named_function_list(p, i, items.push(item))
            } else {
                Got(items.push(item), i)
            }
            }}
        }),
{
    reveal(named_function_list);
    reveal(named_function);
}

pub(crate) proof fn aligned_named_function_list(p: Input, larger: Input, ahead: int, i: int, items: Seq<TreeView>)
    requires
        aligned(p, larger, ahead),
        0 <= i <= p.toks.len(),
    ensures
        agrees(p, ahead, i + 1, named_function_list(p, i, items), named_function_list(larger, ahead + i, items)),
    decreases p.toks.len() - i, 1int,
{
    unfold_named_function_list(p, i, items);
    unfold_named_function_list(larger, ahead + i, items);
    aligned_named_function(p, larger, ahead, i);
    if let Got(item, i) = past(p, i, named_function(p, i)) {
        if at_token(p, i, TokenView::Comma) {
            let i = i + 1;
            aligned_named_function_list(p, larger, ahead, i, items.push(item));
        }
    }
}

pub(crate) proof fn unfold_join_constraint(p: Input, i: int, natural: bool)
    ensures
        join_constraint(p, i, natural) == ({
            if natural {
                Got(TreeView::Node(Kind::NaturalConstraint, Seq::<TreeView>::empty()), i)
            } else {
                if at_keyword(p, i, Keyword::ON) {
                    let i = i + 1;
                    match expr(p, i) { Failed(e, i) => Failed(e, i), Got(e, i) => {
                    Got(TreeView::Node(Kind::OnConstraint, seq![e]), i)
                    }}
                } else {
                    if at_keyword(p, i, Keyword::USING) {
                        let i = i + 1;
                        match parenthesized_column_list(p, i, false) { Failed(e, i) => Failed(e, i), Got(columns, i) => {
                        match {
                            if at_keyword(p, i, Keyword::AS) {
                                let i = i + 1;
                                identifier(p, i)
                            } else {
                                Got(TreeView::Absent, i)
                            }
                        } { Failed(e, i) => Failed(e, i), Got(alias, i) => {
                        Got(TreeView::Node(Kind::UsingConstraint, seq![columns, alias]), i)
                        }}
                        }}
                    } else {
                        Failed(expected_at(p, i, "ON, or USING after JOIN"@), i)
                    }
                }
            }
        }),
{
    reveal(join_constraint);
    reveal(expr);
}

pub(crate) proof fn aligned_join_constraint(p: Input, larger: Input, ahead: int, i: int, natural: bool)
    requires
        aligned(p, larger, ahead),
        0 <= i <= p.toks.len(),
    ensures
        agrees(p, ahead, i, join_constraint(p, i, natural), join_constraint(larger, ahead + i, natural)),
    decreases p.toks.len() - i, 0int,
{
    unfold_join_constraint(p, i, natural);
    unfold_join_constraint(larger, ahead + i, natural);
    if !(natural) {
        if at_keyword(p, i, Keyword::ON) {
            let i = i + 1;
            aligned_expr(p, larger, ahead, i);
        } else {
            if at_keyword(p, i, Keyword::USING) {
                let i = i + 1;
                aligned_parenthesized_column_list(p, larger, ahead, i, false);
                if let Got(columns, i) = parenthesized_column_list(p, i, false) {
                    if at_keyword(p, i, Keyword::AS) {
                        let i = i + 1;
                        aligned_identifier(p, larger, ahead, i);
                    }
                }
            }
        }
    }
}

pub(crate) proof fn unfold_derived_table_factor(p: Input, i: int, lateral: bool)
    ensures
        derived_table_factor(p, i, lateral) == ({
            match query(p, i) { Failed(e, i) => Failed(e, i), Got(subquery, i) => {
            match token(p, i, TokenView::RParen) { Failed(e, i) => Failed(e, i), Got(_, i) => {
            match optional_table_alias(p, i) { Failed(e, i) => Failed(e, i), Got(alias, i) => {
            Got(TreeView::Node(Kind::Derived, seq![TreeView::Flag(lateral), subquery, alias]), i)
            }}
            }}
            }}
        }),
{
    reveal(derived_table_factor);
    reveal(query);
}

pub(crate) proof fn aligned_derived_table_factor(p: Input, larger: Input, ahead: int, i: int, lateral: bool)
    requires
        aligned(p, larger, ahead),
        0 <= i <= p.toks.len(),
    ensures
        agrees(p, ahead, i + 1, derived_table_factor(p, i, lateral), derived_table_factor(larger, ahead + i, lateral)),
    decreases p.toks.len() - i, 3int,
{
    unfold_derived_table_factor(p, i, lateral);
    unfold_derived_table_factor(larger, ahead + i, lateral);
    aligned_query(p, larger, ahead, i);
    if let Got(subquery, i) = query(p, i) {
        if let Got(_, i) = token(p, i, TokenView::RParen) {
            aligned_optional_table_alias(p, larger, ahead, i);
        }
    }
}

} // verus!
