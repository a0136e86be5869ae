//! How statements are read inside of larger texts.

use vstd::prelude::*;

use crate::sql_parser::alignment::alter::{aligned_alter, aligned_drop_statement};
use crate::sql_parser::alignment::aligned_optional_as_of;
use crate::sql_parser::alignment::create::aligned_create;
use crate::sql_parser::alignment::expr::{aligned_expr, aligned_expr_list};
use crate::sql_parser::alignment::grant::{aligned_grant, aligned_reassign_owned, aligned_revoke};
use crate::sql_parser::alignment::names::{
    aligned_identifier, aligned_identifier_list, aligned_item_name, aligned_literal_uint,
    aligned_optional_alias, aligned_optional_table_alias, aligned_parenthesized_column_list,
    aligned_raw_name, aligned_value,
};
use crate::sql_parser::alignment::options::aligned_optional_option_value;
use crate::sql_parser::alignment::query::{aligned_order_by_expr_list, aligned_query};
use crate::sql_parser::alignment::select::{aligned_select_item_list, aligned_where_clause};
use crate::sql_parser::alignment::show::aligned_show;
use crate::sql_parser::alignment::tables::aligned_table_and_joins_list;
use crate::sql_parser::alignment::{agrees, aligned};
use crate::sql_parser::alter::{alter, drop_statement};
use crate::sql_parser::as_of::optional_as_of;
use crate::sql_parser::checks::{is_node, is_preparable, keyword_named};
use crate::sql_parser::create::create;
use crate::sql_parser::grant::{grant, reassign_owned, revoke};
use crate::sql_parser::keywords::{Keyword, keyword_text};
use crate::sql_parser::kind::Kind;
use crate::sql_parser::names::{
    identifier, identifier_list, item_name, literal_uint, optional_alias, optional_table_alias,
    parenthesized_column_list, raw_name, value,
};
use crate::sql_parser::outcome::Out::{Failed, Got};
use crate::sql_parser::outcome::error_view;
use crate::sql_parser::parser::{
    Input, at_keyword, at_keywords2, at_keywords4, at_token, expected_at, keyword, one_keyword,
    one_of, past, position, token, token_at,
};
use crate::sql_parser::query::query;
use crate::sql_parser::show::show;
use crate::sql_parser::statement::{
    assignment, assignment_list, begin, close, commit, commit_rollback_chain, copy, copy_option,
    copy_option_list, deallocate, declare, delete, discard, execute, explain, explain_stage, fetch,
    fetch_option, fetch_option_list, identifier_text, insert, isolation_level, optional_up_to,
    prepare, raise, reset, returning, rollback, set_schema_to, set_variable_to, set_variable_value,
    set_variable_value_list, skip_transaction_word, start_transaction, statement, subscribe,
    subscribe_option, subscribe_option_list, transaction_modes, update,
};
use crate::sql_parser::syntax::TreeView;
use crate::sql_parser::tables::table_and_joins_list;
use crate::sql_parser::text::no_text;
use crate::sql_parser::token::TokenView;

verus! {

pub(crate) proof fn unfold_statement(p: Input, i: int)
    ensures
        statement(p, i) == ({
            let found = token_at(p, i);
            let i = i + 1;
            match found {
                Some(TokenView::Keyword(Keyword::SELECT)) | Some(TokenView::Keyword(Keyword::WITH)) | Some(TokenView::Keyword(Keyword::VALUES)) => {
                    let i = i - 1;
                    match query(p, i) { Failed(e, i) => Failed(e, i), Got(q, i) => {
                    match optional_as_of(p, i) { Failed(e, i) => Failed(e, i), Got(as_of, i) => {
                    Got(TreeView::Node(Kind::SelectStatement, seq![q, as_of]), i)
                    }}
                    }}
                },
                Some(TokenView::Keyword(Keyword::CREATE)) => {
                    create(p, i)
                },
                Some(TokenView::Keyword(Keyword::DISCARD)) => {
                    discard(p, i)
                },
                Some(TokenView::Keyword(Keyword::DROP)) => {
                    drop_statement(p, i)
                },
                Some(TokenView::Keyword(Keyword::DELETE)) => {
                    delete(p, i)
                },
                Some(TokenView::Keyword(Keyword::INSERT)) => {
                    insert(p, i)
                },
                Some(TokenView::Keyword(Keyword::UPDATE)) => {
                    update(p, i)
                },
                Some(TokenView::Keyword(Keyword::ALTER)) => {
                    alter(p, i)
                },
                Some(TokenView::Keyword(Keyword::COPY)) => {
                    copy(p, i)
                },
                Some(TokenView::Keyword(Keyword::SET)) => {
                    crate::sql_parser::statement::set(p, i)
                },
                Some(TokenView::Keyword(Keyword::RESET)) => {
                    reset(p, i)
                },
                Some(TokenView::Keyword(Keyword::SHOW)) => {
                    match show(p, i) { Failed(e, i) => Failed(e, i), Got(shown, i) => {
                    Got(TreeView::Node(Kind::ShowStatement, seq![shown]), i)
                    }}
                },
                Some(TokenView::Keyword(Keyword::START)) => {
                    start_transaction(p, i)
                },
                Some(TokenView::Keyword(Keyword::BEGIN)) => {
                    begin(p, i)
                },
                Some(TokenView::Keyword(Keyword::COMMIT)) => {
                    commit(p, i)
                },
                Some(TokenView::Keyword(Keyword::ROLLBACK)) => {
                    rollback(p, i)
                },
                Some(TokenView::Keyword(Keyword::TAIL)) => {
                    Failed(error_view(position(p, i - 1), no_text() + "TAIL has been renamed to SUBSCRIBE"@), i)
                },
                Some(TokenView::Keyword(Keyword::SUBSCRIBE)) => {
                    subscribe(p, i)
                },
                Some(TokenView::Keyword(Keyword::EXPLAIN)) => {
                    explain(p, i)
                },
                Some(TokenView::Keyword(Keyword::DECLARE)) => {
                    declare(p, i)
                },
                Some(TokenView::Keyword(Keyword::FETCH)) => {
                    fetch(p, i)
                },
                Some(TokenView::Keyword(Keyword::CLOSE)) => {
                    close(p, i)
                },
                Some(TokenView::Keyword(Keyword::PREPARE)) => {
                    prepare(p, i)
                },
                Some(TokenView::Keyword(Keyword::EXECUTE)) => {
                    execute(p, i)
                },
                Some(TokenView::Keyword(Keyword::DEALLOCATE)) => {
                    deallocate(p, i)
                },
                Some(TokenView::Keyword(Keyword::RAISE)) => {
                    raise(p, i)
                },
                Some(TokenView::Keyword(Keyword::GRANT)) => {
                    grant(p, i)
                },
                Some(TokenView::Keyword(Keyword::REVOKE)) => {
                    revoke(p, i)
                },
                Some(TokenView::Keyword(Keyword::REASSIGN)) => {
                    reassign_owned(p, i)
                },
                Some(TokenView::Keyword(k)) => {
                    Failed(error_view(position(p, i - 1), no_text() + "Unexpected keyword "@ + keyword_text(k) + " at the beginning of a statement"@), i)
                },
                Some(TokenView::LParen) => {
                    let i = i - 1;
                    match query(p, i) { Failed(e, i) => Failed(e, i), Got(q, i) => {
                    Got(TreeView::Node(Kind::SelectStatement, seq![q, TreeView::Absent]), i)
                    }}
                },
                None => {
                    Failed(expected_at(p, i - 1, "SQL statement"@), i)
                },
                _ => {
                    Failed(expected_at(p, i - 1, "a keyword at the beginning of a statement"@), i)
                },
            }
        }),
{
    reveal(statement);
    reveal(copy);
    reveal(declare);
    reveal(prepare);
}

pub(crate) proof fn aligned_statement(p: Input, larger: Input, ahead: int, i: int)
    requires
        aligned(p, larger, ahead),
        0 <= i <= p.toks.len(),
    ensures
        agrees(p, ahead, i + 1, statement(p, i), statement(larger, ahead + i)),
    decreases p.toks.len() - i, 0int,
{
    unfold_statement(p, i);
    unfold_statement(larger, ahead + i);
    let found = token_at(p, i);
    let i = i + 1;
    match found {
        Some(TokenView::Keyword(Keyword::SELECT)) | Some(TokenView::Keyword(Keyword::WITH)) | Some(TokenView::Keyword(Keyword::VALUES)) => {
            let i = i - 1;
            aligned_query(p, larger, ahead, i);
            if let Got(q, i) = query(p, i) {
                aligned_optional_as_of(p, larger, ahead, i);
            }
        },
        Some(TokenView::Keyword(Keyword::CREATE)) => {
            aligned_create(p, larger, ahead, i);
        },
        Some(TokenView::Keyword(Keyword::DISCARD)) => {
            aligned_discard(p, larger, ahead, i);
        },
        Some(TokenView::Keyword(Keyword::DROP)) => {
            aligned_drop_statement(p, larger, ahead, i);
        },
        Some(TokenView::Keyword(Keyword::DELETE)) => {
            aligned_delete(p, larger, ahead, i);
        },
        Some(TokenView::Keyword(Keyword::INSERT)) => {
            aligned_insert(p, larger, ahead, i);
        },
        Some(TokenView::Keyword(Keyword::UPDATE)) => {
            aligned_update(p, larger, ahead, i);
        },
        Some(TokenView::Keyword(Keyword::ALTER)) => {
            aligned_alter(p, larger, ahead, i);
        },
        Some(TokenView::Keyword(Keyword::COPY)) => {
            aligned_copy(p, larger, ahead, i);
        },
        Some(TokenView::Keyword(Keyword::SET)) => {
            aligned_set(p, larger, ahead, i);
        },
        Some(TokenView::Keyword(Keyword::RESET)) => {
            aligned_reset(p, larger, ahead, i);
        },
        Some(TokenView::Keyword(Keyword::SHOW)) => {
            aligned_show(p, larger, ahead, i);
        },
        Some(TokenView::Keyword(Keyword::START)) => {
            aligned_start_transaction(p, larger, ahead, i);
        },
        Some(TokenView::Keyword(Keyword::BEGIN)) => {
            aligned_begin(p, larger, ahead, i);
        },
        Some(TokenView::Keyword(Keyword::COMMIT)) => {
            aligned_commit(p, larger, ahead, i);
        },
        Some(TokenView::Keyword(Keyword::ROLLBACK)) => {
            aligned_rollback(p, larger, ahead, i);
        },
        Some(TokenView::Keyword(Keyword::TAIL)) => {},
        Some(TokenView::Keyword(Keyword::SUBSCRIBE)) => {
            aligned_subscribe(p, larger, ahead, i);
        },
        Some(TokenView::Keyword(Keyword::EXPLAIN)) => {
            aligned_explain(p, larger, ahead, i);
        },
        Some(TokenView::Keyword(Keyword::DECLARE)) => {
            aligned_declare(p, larger, ahead, i);
        },
        Some(TokenView::Keyword(Keyword::FETCH)) => {
            aligned_fetch(p, larger, ahead, i);
        },
        Some(TokenView::Keyword(Keyword::CLOSE)) => {
            aligned_close(p, larger, ahead, i);
        },
        Some(TokenView::Keyword(Keyword::PREPARE)) => {
            aligned_prepare(p, larger, ahead, i);
        },
        Some(TokenView::Keyword(Keyword::EXECUTE)) => {
            aligned_execute(p, larger, ahead, i);
        },
        Some(TokenView::Keyword(Keyword::DEALLOCATE)) => {
            aligned_deallocate(p, larger, ahead, i);
        },
        Some(TokenView::Keyword(Keyword::RAISE)) => {
            aligned_raise(p, larger, ahead, i);
        },
        Some(TokenView::Keyword(Keyword::GRANT)) => {
            aligned_grant(p, larger, ahead, i);
        },
        Some(TokenView::Keyword(Keyword::REVOKE)) => {
            aligned_revoke(p, larger, ahead, i);
        },
        Some(TokenView::Keyword(Keyword::REASSIGN)) => {
            aligned_reassign_owned(p, larger, ahead, i);
        },
        Some(TokenView::Keyword(k)) => {},
        Some(TokenView::LParen) => {
            let i = i - 1;
            aligned_query(p, larger, ahead, i);
        },
        _ => {},
    }
}

pub(crate) proof fn aligned_discard(p: Input, larger: Input, ahead: int, i: int)
    requires
        aligned(p, larger, ahead),
        0 <= i <= p.toks.len(),
    ensures
        agrees(p, ahead, i + 1, discard(p, i), discard(larger, ahead + i)),
{
    reveal(discard);
}

pub(crate) proof fn aligned_delete(p: Input, larger: Input, ahead: int, i: int)
    requires
        aligned(p, larger, ahead),
        0 <= i <= p.toks.len(),
    ensures
        agrees(p, ahead, i + 1, delete(p, i), delete(larger, ahead + i)),
{
    reveal(delete);
    if let Got(_, i) = keyword(p, i, Keyword::FROM) {
        aligned_item_name(p, larger, ahead, i);
        if let Got(table_name, i) = item_name(p, i) {
            aligned_optional_table_alias(p, larger, ahead, i);
            if let Got(alias, i) = optional_table_alias(p, i) {
                if at_keyword(p, i, Keyword::USING) {
                    let i = i + 1;
                    aligned_table_and_joins_list(p, larger, ahead, i, Seq::<TreeView>::empty());
                }
                let part = {
                    if at_keyword(p, i, Keyword::USING) {
                        let i = i + 1;
                        match table_and_joins_list(p, i, Seq::<TreeView>::empty()) { Failed(e, i) => Failed(e, i), Got(ts, i) => {
                        Got(TreeView::List(ts), i)
                        }}
                    } else {
                        Got(TreeView::List(Seq::<TreeView>::empty()), i)
                    }
                };
                if let Got(using, i) = part {
                    aligned_where_clause(p, larger, ahead, i);
                }
            }
        }
    }
}

pub(crate) proof fn aligned_insert(p: Input, larger: Input, ahead: int, i: int)
    requires
        aligned(p, larger, ahead),
        0 <= i <= p.toks.len(),
    ensures
        agrees(p, ahead, i + 1, insert(p, i), insert(larger, ahead + i)),
{
    reveal(insert);
    if let Got(_, i) = keyword(p, i, Keyword::INTO) {
        aligned_raw_name(p, larger, ahead, i);
        if let Got(table_name, i) = raw_name(p, i) {
            aligned_parenthesized_column_list(p, larger, ahead, i, true);
            if let Got(columns, i) = parenthesized_column_list(p, i, true) {
                if !at_keywords2(p, i, Keyword::DEFAULT, Keyword::VALUES) {
                    aligned_query(p, larger, ahead, i);
                }
                let part = {
                    if at_keywords2(p, i, Keyword::DEFAULT, Keyword::VALUES) {
                        let i = i + 2;
                        Got(TreeView::Node(Kind::DefaultValues, Seq::<TreeView>::empty()), i)
                    } else {
                        query(p, i)
                    }
                };
                if let Got(source, i) = part {
                    aligned_returning(p, larger, ahead, i);
                }
            }
        }
    }
}

pub(crate) proof fn aligned_returning(p: Input, larger: Input, ahead: int, i: int)
    requires
        aligned(p, larger, ahead),
        0 <= i <= p.toks.len(),
    ensures
        agrees(p, ahead, i, returning(p, i), returning(larger, ahead + i)),
{
    reveal(returning);
    if at_keyword(p, i, Keyword::RETURNING) {
        let i = i + 1;
        aligned_select_item_list(p, larger, ahead, i, Seq::<TreeView>::empty());
    }
}

pub(crate) proof fn aligned_update(p: Input, larger: Input, ahead: int, i: int)
    requires
        aligned(p, larger, ahead),
        0 <= i <= p.toks.len(),
    ensures
        agrees(p, ahead, i + 1, update(p, i), update(larger, ahead + i)),
{
    reveal(update);
    aligned_item_name(p, larger, ahead, i);
    if let Got(table_name, i) = item_name(p, i) {
        aligned_optional_alias(p, larger, ahead, i, true);
        if let Got(alias, i) = optional_alias(p, i, true) {
            if let Got(_, i) = keyword(p, i, Keyword::SET) {
                aligned_assignment_list(p, larger, ahead, i, Seq::<TreeView>::empty());
                if let Got(assignments, i) = assignment_list(p, i, Seq::<TreeView>::empty()) {
                    aligned_where_clause(p, larger, ahead, i);
                }
            }
        }
    }
}

pub(crate) proof fn aligned_assignment(p: Input, larger: Input, ahead: int, i: int)
    requires
        aligned(p, larger, ahead),
        0 <= i <= p.toks.len(),
    ensures
        agrees(p, ahead, i + 1, assignment(p, i), assignment(larger, ahead + i)),
{
    reveal(assignment);
    aligned_identifier(p, larger, ahead, i);
    if let Got(id, i) = identifier(p, i) {
        if let Got(_, i) = token(p, i, TokenView::Eq) {
            aligned_expr(p, larger, ahead, i);
        }
    }
}

pub(crate) proof fn unfold_assignment_list(p: Input, i: int, items: Seq<TreeView>)
    ensures
        assignment_list(p, i, items) == ({
            match past(p, i, assignment(p, i)) { Failed(e, i) => Failed(e, i), Got(item, i) => {
            if at_token(p, i, TokenView::Comma) {
                let i = i + 1;
                assignment_list(p, i, items.push(item))
            } else {
                Got(items.push(item), i)
            }
            }}
        }),
{
    reveal(assignment_list);
}

pub(crate) proof fn aligned_assignment_list(p: Input, larger: Input, ahead: int, i: int, items: Seq<TreeView>)
    requires
        aligned(p, larger, ahead),
        0 <= i <= p.toks.len(),
    ensures
        agrees(p, ahead, i + 1, assignment_list(p, i, items), assignment_list(larger, ahead + i, items)),
    decreases p.toks.len() - i, 0int,
{
    unfold_assignment_list(p, i, items);
    unfold_assignment_list(larger, ahead + i, items);
    aligned_assignment(p, larger, ahead, i);
    if let Got(item, i) = past(p, i, assignment(p, i)) {
        if at_token(p, i, TokenView::Comma) {
            let i = i + 1;
            aligned_assignment_list(p, larger, ahead, i, items.push(item));
        }
    }
}

pub(crate) proof fn unfold_copy(p: Input, i: int)
    ensures
        copy(p, i) == ({
            match {
                if at_token(p, i, TokenView::LParen) {
                    let i = i + 1;
                    match statement(p, i) { Failed(e, i) => Failed(e, i), Got(s, i) => {
                    match token(p, i, TokenView::RParen) { Failed(e, i) => Failed(e, i), Got(_, i) => {
                    if is_node(s, Kind::SelectStatement) {
                        Got(s, i)
                    } else {
                        if is_node(s, Kind::Subscribe) {
                            Got(s, i)
                        } else {
                            Failed(error_view(position(p, i - 1), no_text() + "unsupported query in COPY"@), i)
                        }
                    }
                    }}
                    }}
                } else {
                    match raw_name(p, i) { Failed(e, i) => Failed(e, i), Got(name, i) => {
                    match parenthesized_column_list(p, i, true) { Failed(e, i) => Failed(e, i), Got(columns, i) => {
                    Got(TreeView::Node(Kind::CopyTable, seq![name, columns]), i)
                    }}
                    }}
                }
            } { Failed(e, i) => Failed(e, i), Got(relation, i) => {
            match one_keyword(p, i, seq![Keyword::FROM, Keyword::TO]) { Failed(e, i) => Failed(e, i), Got(k, i) => {
            match {
                if k == Keyword::TO {
                    match keyword(p, i, Keyword::STDOUT) { Failed(e, i) => Failed(e, i), Got(_, i) => {
                    Got(TreeView::Node(Kind::CopyTo, Seq::<TreeView>::empty()), i)
                    }}
                } else {
                    if !is_node(relation, Kind::CopyTable) {
                        Failed(error_view(position(p, i - 1), no_text() + "queries not allowed in COPY FROM"@), i)
                    } else {
                        match keyword(p, i, Keyword::STDIN) { Failed(e, i) => Failed(e, i), Got(_, i) => {
                        Got(TreeView::Node(Kind::CopyFrom, Seq::<TreeView>::empty()), i)
                        }}
                    }
                }
            } { Failed(e, i) => Failed(e, i), Got(direction, i) => {
            match {
                if at_keyword(p, i, Keyword::WITH) {
                    let i = i + 1;
                    match token(p, i, TokenView::LParen) { Failed(e, i) => Failed(e, i), Got(_, i) => {
                    Got(true, i)
                    }}
                } else {
                    if at_token(p, i, TokenView::LParen) {
                        let i = i + 1;
                        Got(true, i)
                    } else {
                        Got(false, i)
                    }
                }
            } { Failed(e, i) => Failed(e, i), Got(has_options, i) => {
            if has_options {
                match copy_option_list(p, i, Seq::<TreeView>::empty()) { Failed(e, i) => Failed(e, i), Got(options, i) => {
                match token(p, i, TokenView::RParen) { Failed(e, i) => Failed(e, i), Got(_, i) => {
                Got(TreeView::Node(Kind::Copy, seq![relation, direction, TreeView::List(options)]), i)
                }}
                }}
            } else {
                Got(TreeView::Node(Kind::Copy, seq![relation, direction, TreeView::List(Seq::<TreeView>::empty())]), i)
            }
            }}
            }}
            }}
            }}
        }),
{
    reveal(copy);
    reveal(statement);
}

pub(crate) proof fn aligned_copy(p: Input, larger: Input, ahead: int, i: int)
    requires
        aligned(p, larger, ahead),
        0 <= i <= p.toks.len(),
    ensures
        agrees(p, ahead, i + 1, copy(p, i), copy(larger, ahead + i)),
    decreases p.toks.len() - i, 0int,
{
    unfold_copy(p, i);
    unfold_copy(larger, ahead + i);
    if at_token(p, i, TokenView::LParen) {
        let i = i + 1;
        aligned_statement(p, larger, ahead, i);
    } else {
        aligned_raw_name(p, larger, ahead, i);
        if let Got(name, i) = raw_name(p, i) {
            aligned_parenthesized_column_list(p, larger, ahead, i, true);
        }
    }
    let part = {
        if at_token(p, i, TokenView::LParen) {
            let i = i + 1;
            match statement(p, i) { Failed(e, i) => Failed(e, i), Got(s, i) => {
            match token(p, i, TokenView::RParen) { Failed(e, i) => Failed(e, i), Got(_, i) => {
            if is_node(s, Kind::SelectStatement) {
                Got(s, i)
            } else {
                if is_node(s, Kind::Subscribe) {
                    Got(s, i)
                } else {
                    Failed(error_view(position(p, i - 1), no_text() + "unsupported query in COPY"@), i)
                }
            }
            }}
            }}
        } else {
            match raw_name(p, i) { Failed(e, i) => Failed(e, i), Got(name, i) => {
            match parenthesized_column_list(p, i, true) { Failed(e, i) => Failed(e, i), Got(columns, i) => {
            Got(TreeView::Node(Kind::CopyTable, seq![name, columns]), i)
            }}
            }}
        }
    };
    if let Got(relation, i) = part {
        if let Got(k, i) = one_keyword(p, i, seq![Keyword::FROM, Keyword::TO]) {
            let part = {
                if k == Keyword::TO {
                    match keyword(p, i, Keyword::STDOUT) { Failed(e, i) => Failed(e, i), Got(_, i) => {
                    Got(TreeView::Node(Kind::CopyTo, Seq::<TreeView>::empty()), i)
                    }}
                } else {
                    if !is_node(relation, Kind::CopyTable) {
                        Failed(error_view(position(p, i - 1), no_text() + "queries not allowed in COPY FROM"@), i)
                    } else {
                        match keyword(p, i, Keyword::STDIN) { Failed(e, i) => Failed(e, i), Got(_, i) => {
                        Got(TreeView::Node(Kind::CopyFrom, Seq::<TreeView>::empty()), i)
                        }}
                    }
                }
            };
            if let Got(direction, i) = part {
                let part = {
                    if at_keyword(p, i, Keyword::WITH) {
                        let i = i + 1;
                        match token(p, i, TokenView::LParen) { Failed(e, i) => Failed(e, i), Got(_, i) => {
                        Got(true, i)
                        }}
                    } else {
                        if at_token(p, i, TokenView::LParen) {
                            let i = i + 1;
                            Got(true, i)
                        } else {
                            Got(false, i)
                        }
                    }
                };
                if let Got(has_options, i) = part {
                    if has_options {
                        aligned_copy_option_list(p, larger, ahead, i, Seq::<TreeView>::empty());
                    }
                }
            }
        }
    }
}

pub(crate) proof fn aligned_copy_option(p: Input, larger: Input, ahead: int, i: int)
    requires
        aligned(p, larger, ahead),
        0 <= i <= p.toks.len(),
    ensures
        agrees(p, ahead, i + 1, copy_option(p, i), copy_option(larger, ahead + i)),
{
    reveal(copy_option);
    if let Got(k, i) = one_keyword(p, i, seq![Keyword::FORMAT, Keyword::DELIMITER, Keyword::NULL, Keyword::ESCAPE, Keyword::QUOTE, Keyword::HEADER]) {
        let part = {
            match k {
                Keyword::FORMAT => {
                    Got(TreeView::Node(Kind::CopyFormat, Seq::<TreeView>::empty()), i)
                },
                Keyword::DELIMITER => {
                    Got(TreeView::Node(Kind::CopyDelimiter, Seq::<TreeView>::empty()), i)
                },
                Keyword::NULL => {
                    Got(TreeView::Node(Kind::CopyNull, Seq::<TreeView>::empty()), i)
                },
                Keyword::ESCAPE => {
                    Got(TreeView::Node(Kind::CopyEscape, Seq::<TreeView>::empty()), i)
                },
                Keyword::QUOTE => {
                    Got(TreeView::Node(Kind::CopyQuote, Seq::<TreeView>::empty()), i)
                },
                _ => {
                    Got(TreeView::Node(Kind::CopyHeader, Seq::<TreeView>::empty()), i)
                },
            }
        };
        if let Got(name, i) = part {
            aligned_optional_option_value(p, larger, ahead, i);
        }
    }
}

pub(crate) proof fn unfold_copy_option_list(p: Input, i: int, items: Seq<TreeView>)
    ensures
        copy_option_list(p, i, items) == ({
            match past(p, i, copy_option(p, i)) { Failed(e, i) => Failed(e, i), Got(item, i) => {
            if at_token(p, i, TokenView::Comma) {
                let i = i + 1;
                copy_option_list(p, i, items.push(item))
            } else {
                Got(items.push(item), i)
            }
            }}
        }),
{
    reveal(copy_option_list);
}

pub(crate) proof fn aligned_copy_option_list(p: Input, larger: Input, ahead: int, i: int, items: Seq<TreeView>)
    requires
        aligned(p, larger, ahead),
        0 <= i <= p.toks.len(),
    ensures
        agrees(p, ahead, i + 1, copy_option_list(p, i, items), copy_option_list(larger, ahead + i, items)),
    decreases p.toks.len() - i, 0int,
{
    unfold_copy_option_list(p, i, items);
    unfold_copy_option_list(larger, ahead + i, items);
    aligned_copy_option(p, larger, ahead, i);
    if let Got(item, i) = past(p, i, copy_option(p, i)) {
        if at_token(p, i, TokenView::Comma) {
            let i = i + 1;
            aligned_copy_option_list(p, larger, ahead, i, items.push(item));
        }
    }
}

pub(crate) proof fn aligned_set(p: Input, larger: Input, ahead: int, i: int)
    requires
        aligned(p, larger, ahead),
        0 <= i <= p.toks.len(),
    ensures
        agrees(p, ahead, i + 1, crate::sql_parser::statement::set(p, i), crate::sql_parser::statement::set(larger, ahead + i)),
{
    reveal(crate::sql_parser::statement::set);
    let part = {
        match one_of(p, i, seq![Keyword::SESSION, Keyword::LOCAL]) {
            Some(k) => {
                let i = i + 1;
                if k == Keyword::LOCAL {
                    Got(Kind::LocalScope, i)
                } else {
                    Got(Kind::SessionScope, i)
                }
            },
            None => {
                Got(Kind::NoType, i)
            },
        }
    };
    if let Got(modifier, i) = part {
        aligned_identifier_text(p, larger, ahead, i);
        if let Got(name, i) = identifier_text(p, i) {
            let part = {
                if at_token(p, i, TokenView::Eq) {
                    let i = i + 1;
                    Got(true, i)
                } else {
                    if at_keyword(p, i, Keyword::TO) {
                        let i = i + 1;
                        Got(true, i)
                    } else {
                        Got(false, i)
                    }
                }
            };
            if let Got(normal, i) = part {
                let local = modifier == Kind::LocalScope;
                let known = keyword_named(name);
                if known == Some(Keyword::SCHEMA) {
                    aligned_set_schema_to(p, larger, ahead, i);
                } else {
                    if normal {
                        aligned_set_variable_to(p, larger, ahead, i);
                    } else {
                        if known == Some(Keyword::TIME) {
                            if let Got(_, i) = keyword(p, i, Keyword::ZONE) {
                                aligned_set_variable_to(p, larger, ahead, i);
                            }
                        } else {
                            if known == Some(Keyword::NAMES) {
                                aligned_set_variable_to(p, larger, ahead, i);
                            } else {
                                if known == Some(Keyword::TRANSACTION) && modifier == Kind::NoType {
                                    aligned_transaction_modes(p, larger, ahead, i, true, Seq::<TreeView>::empty());
                                } else {
                                    if modifier == Kind::SessionScope && known == Some(Keyword::CHARACTERISTICS) {
                                        if at_keywords2(p, i, Keyword::AS, Keyword::TRANSACTION) {
                                            let i = i + 2;
                                            aligned_transaction_modes(p, larger, ahead, i, true, Seq::<TreeView>::empty());
                                        }
                                    }
                                }
                            }
                        }
                    }
                }
            }
        }
    }
}

pub(crate) proof fn aligned_identifier_text(p: Input, larger: Input, ahead: int, i: int)
    requires
        aligned(p, larger, ahead),
        0 <= i <= p.toks.len(),
    ensures
        agrees(p, ahead, i + 1, identifier_text(p, i), identifier_text(larger, ahead + i)),
{
    reveal(identifier_text);
    aligned_identifier(p, larger, ahead, i);
}

pub(crate) proof fn aligned_set_schema_to(p: Input, larger: Input, ahead: int, i: int)
    requires
        aligned(p, larger, ahead),
        0 <= i <= p.toks.len(),
    ensures
        agrees(p, ahead, i + 1, set_schema_to(p, i), set_schema_to(larger, ahead + i)),
{
    reveal(set_schema_to);
    if !at_keyword(p, i, Keyword::DEFAULT) {
        aligned_set_variable_value(p, larger, ahead, i);
    }
}

pub(crate) proof fn aligned_set_variable_to(p: Input, larger: Input, ahead: int, i: int)
    requires
        aligned(p, larger, ahead),
        0 <= i <= p.toks.len(),
    ensures
        agrees(p, ahead, i + 1, set_variable_to(p, i), set_variable_to(larger, ahead + i)),
{
    reveal(set_variable_to);
    if !at_keyword(p, i, Keyword::DEFAULT) {
        aligned_set_variable_value_list(p, larger, ahead, i, Seq::<TreeView>::empty());
    }
}

pub(crate) proof fn aligned_set_variable_value(p: Input, larger: Input, ahead: int, i: int)
    requires
        aligned(p, larger, ahead),
        0 <= i <= p.toks.len(),
    ensures
        agrees(p, ahead, i + 1, set_variable_value(p, i), set_variable_value(larger, ahead + i)),
{
    reveal(set_variable_value);
    aligned_value(p, larger, ahead, i);
    if value(p, i) is Failed {
        aligned_identifier(p, larger, ahead, i);
    }
}

pub(crate) proof fn unfold_set_variable_value_list(p: Input, i: int, items: Seq<TreeView>)
    ensures
        set_variable_value_list(p, i, items) == ({
            match past(p, i, set_variable_value(p, i)) { Failed(e, i) => Failed(e, i), Got(item, i) => {
            if at_token(p, i, TokenView::Comma) {
                let i = i + 1;
                set_variable_value_list(p, i, items.push(item))
            } else {
                Got(items.push(item), i)
            }
            }}
        }),
{
    reveal(set_variable_value_list);
}

pub(crate) proof fn aligned_set_variable_value_list(p: Input, larger: Input, ahead: int, i: int, items: Seq<TreeView>)
    requires
        aligned(p, larger, ahead),
        0 <= i <= p.toks.len(),
    ensures
        agrees(p, ahead, i + 1, set_variable_value_list(p, i, items), set_variable_value_list(larger, ahead + i, items)),
    decreases p.toks.len() - i, 0int,
{
    unfold_set_variable_value_list(p, i, items);
    unfold_set_variable_value_list(larger, ahead + i, items);
    aligned_set_variable_value(p, larger, ahead, i);
    if let Got(item, i) = past(p, i, set_variable_value(p, i)) {
        if at_token(p, i, TokenView::Comma) {
            let i = i + 1;
            aligned_set_variable_value_list(p, larger, ahead, i, items.push(item));
        }
    }
}

pub(crate) proof fn aligned_reset(p: Input, larger: Input, ahead: int, i: int)
    requires
        aligned(p, larger, ahead),
        0 <= i <= p.toks.len(),
    ensures
        agrees(p, ahead, i + 1, reset(p, i), reset(larger, ahead + i)),
{
    reveal(reset);
    aligned_identifier_text(p, larger, ahead, i);
}

pub(crate) proof fn aligned_start_transaction(p: Input, larger: Input, ahead: int, i: int)
    requires
        aligned(p, larger, ahead),
        0 <= i <= p.toks.len(),
    ensures
        agrees(p, ahead, i + 1, start_transaction(p, i), start_transaction(larger, ahead + i)),
{
    reveal(start_transaction);
    if let Got(_, i) = keyword(p, i, Keyword::TRANSACTION) {
        aligned_transaction_modes(p, larger, ahead, i, false, Seq::<TreeView>::empty());
    }
}

pub(crate) proof fn aligned_begin(p: Input, larger: Input, ahead: int, i: int)
    requires
        aligned(p, larger, ahead),
        0 <= i <= p.toks.len(),
    ensures
        agrees(p, ahead, i, begin(p, i), begin(larger, ahead + i)),
{
    reveal(begin);
    aligned_skip_transaction_word(p, larger, ahead, i);
    if let Got(_, i) = skip_transaction_word(p, i) {
        aligned_transaction_modes(p, larger, ahead, i, false, Seq::<TreeView>::empty());
    }
}

pub(crate) proof fn aligned_skip_transaction_word(p: Input, larger: Input, ahead: int, i: int)
    requires
        aligned(p, larger, ahead),
        0 <= i <= p.toks.len(),
    ensures
        agrees(p, ahead, i, skip_transaction_word(p, i), skip_transaction_word(larger, ahead + i)),
{
    reveal(skip_transaction_word);
}

pub(crate) proof fn aligned_isolation_level(p: Input, larger: Input, ahead: int, i: int)
    requires
        aligned(p, larger, ahead),
        0 <= i <= p.toks.len(),
    ensures
        agrees(p, ahead, i + 1, isolation_level(p, i), isolation_level(larger, ahead + i)),
{
    reveal(isolation_level);
}

pub(crate) proof fn unfold_transaction_modes(p: Input, i: int, required: bool, modes: Seq<TreeView>)
    ensures
        transaction_modes(p, i, required, modes) == ({
            if at_keywords2(p, i, Keyword::ISOLATION, Keyword::LEVEL) {
                let i = i + 2;
                match past(p, i, isolation_level(p, i)) { Failed(e, i) => Failed(e, i), Got(level, i) => {
                let comma = at_token(p, i, TokenView::Comma);
                let i = if comma { i + 1 } else { i };
                transaction_modes(p, i, comma, modes.push(TreeView::Node(Kind::IsolationLevelMode, seq![level])))
                }}
            } else {
                if at_keywords2(p, i, Keyword::READ, Keyword::ONLY) {
                    let i = i + 2;
                    let comma = at_token(p, i, TokenView::Comma);
                    let i = if comma { i + 1 } else { i };
                    transaction_modes(p, i, comma, modes.push(TreeView::Node(Kind::ReadOnlyMode, Seq::<TreeView>::empty())))
                } else {
                    if at_keywords2(p, i, Keyword::READ, Keyword::WRITE) {
                        let i = i + 2;
                        let comma = at_token(p, i, TokenView::Comma);
                        let i = if comma { i + 1 } else { i };
                        transaction_modes(p, i, comma, modes.push(TreeView::Node(Kind::ReadWriteMode, Seq::<TreeView>::empty())))
                    } else {
                        if required {
                            Failed(expected_at(p, i, "transaction mode"@), i)
                        } else {
                            Got(modes, i)
                        }
                    }
                }
            }
        }),
{
    reveal(transaction_modes);
}

pub(crate) proof fn aligned_transaction_modes(p: Input, larger: Input, ahead: int, i: int, required: bool, modes: Seq<TreeView>)
    requires
        aligned(p, larger, ahead),
        0 <= i <= p.toks.len(),
    ensures
        agrees(p, ahead, i, transaction_modes(p, i, required, modes), transaction_modes(larger, ahead + i, required, modes)),
    decreases p.toks.len() - i, 0int,
{
    unfold_transaction_modes(p, i, required, modes);
    unfold_transaction_modes(larger, ahead + i, required, modes);
    if at_keywords2(p, i, Keyword::ISOLATION, Keyword::LEVEL) {
        let i = i + 2;
        aligned_isolation_level(p, larger, ahead, i);
        if let Got(level, i) = past(p, i, isolation_level(p, i)) {
            let comma = at_token(p, i, TokenView::Comma);
            let i = if comma { i + 1 } else { i };
            aligned_transaction_modes(p, larger, ahead, i, comma, modes.push(TreeView::Node(Kind::IsolationLevelMode, seq![level])));
        }
    } else {
        if at_keywords2(p, i, Keyword::READ, Keyword::ONLY) {
            let i = i + 2;
            let comma = at_token(p, i, TokenView::Comma);
            let i = if comma { i + 1 } else { i };
            aligned_transaction_modes(p, larger, ahead, i, comma, modes.push(TreeView::Node(Kind::ReadOnlyMode, Seq::<TreeView>::empty())));
        } else {
            if at_keywords2(p, i, Keyword::READ, Keyword::WRITE) {
                let i = i + 2;
                let comma = at_token(p, i, TokenView::Comma);
                let i = if comma { i + 1 } else { i };
                aligned_transaction_modes(p, larger, ahead, i, comma, modes.push(TreeView::Node(Kind::ReadWriteMode, Seq::<TreeView>::empty())));
            }
        }
    }
}

pub(crate) proof fn aligned_commit(p: Input, larger: Input, ahead: int, i: int)
    requires
        aligned(p, larger, ahead),
        0 <= i <= p.toks.len(),
    ensures
        agrees(p, ahead, i, commit(p, i), commit(larger, ahead + i)),
{
    reveal(commit);
    aligned_commit_rollback_chain(p, larger, ahead, i);
}

pub(crate) proof fn aligned_rollback(p: Input, larger: Input, ahead: int, i: int)
    requires
        aligned(p, larger, ahead),
        0 <= i <= p.toks.len(),
    ensures
        agrees(p, ahead, i, rollback(p, i), rollback(larger, ahead + i)),
{
    reveal(rollback);
    aligned_commit_rollback_chain(p, larger, ahead, i);
}

pub(crate) proof fn aligned_commit_rollback_chain(p: Input, larger: Input, ahead: int, i: int)
    requires
        aligned(p, larger, ahead),
        0 <= i <= p.toks.len(),
    ensures
        agrees(p, ahead, i, commit_rollback_chain(p, i), commit_rollback_chain(larger, ahead + i)),
{
    reveal(commit_rollback_chain);
    aligned_skip_transaction_word(p, larger, ahead, i);
}

pub(crate) proof fn aligned_optional_up_to(p: Input, larger: Input, ahead: int, i: int)
    requires
        aligned(p, larger, ahead),
        0 <= i <= p.toks.len(),
    ensures
        agrees(p, ahead, i, optional_up_to(p, i), optional_up_to(larger, ahead + i)),
{
    reveal(optional_up_to);
    if at_keyword(p, i, Keyword::UP) {
        let i = i + 1;
        if let Got(_, i) = keyword(p, i, Keyword::TO) {
            aligned_expr(p, larger, ahead, i);
        }
    }
}

pub(crate) proof fn aligned_subscribe(p: Input, larger: Input, ahead: int, i: int)
    requires
        aligned(p, larger, ahead),
        0 <= i <= p.toks.len(),
    ensures
        agrees(p, ahead, i + 1, subscribe(p, i), subscribe(larger, ahead + i)),
{
    reveal(subscribe);
    let i = if at_keyword(p, i, Keyword::TO) { i + 1 } else { i };
    if at_token(p, i, TokenView::LParen) {
        let i = i + 1;
        aligned_query(p, larger, ahead, i);
    } else {
        aligned_raw_name(p, larger, ahead, i);
    }
    let part = {
        if at_token(p, i, TokenView::LParen) {
            let i = i + 1;
            match query(p, i) { Failed(e, i) => Failed(e, i), Got(q, i) => {
            match token(p, i, TokenView::RParen) { Failed(e, i) => Failed(e, i), Got(_, i) => {
            Got(q, i)
            }}
            }}
        } else {
            raw_name(p, i)
        }
    };
    if let Got(relation, i) = part {
        if at_keyword(p, i, Keyword::WITH) {
            let i = i + 1;
            if let Got(_, i) = token(p, i, TokenView::LParen) {
                aligned_subscribe_option_list(p, larger, ahead, i, Seq::<TreeView>::empty());
            }
        }
        let part = {
            if at_keyword(p, i, Keyword::WITH) {
                let i = i + 1;
                match token(p, i, TokenView::LParen) { Failed(e, i) => Failed(e, i), Got(_, i) => {
                match subscribe_option_list(p, i, Seq::<TreeView>::empty()) { Failed(e, i) => Failed(e, i), Got(os, i) => {
                match token(p, i, TokenView::RParen) { Failed(e, i) => Failed(e, i), Got(_, i) => {
                Got(TreeView::List(os), i)
                }}
                }}
                }}
            } else {
                Got(TreeView::List(Seq::<TreeView>::empty()), i)
            }
        };
        if let Got(options, i) = part {
            aligned_optional_as_of(p, larger, ahead, i);
            if let Got(as_of, i) = optional_as_of(p, i) {
                aligned_optional_up_to(p, larger, ahead, i);
                if let Got(up_to, i) = optional_up_to(p, i) {
                    if at_keyword(p, i, Keyword::ENVELOPE) {
                        let i = i + 1;
                        if let Got(k, i) = one_keyword(p, i, seq![Keyword::UPSERT, Keyword::DEBEZIUM]) {
                            if let Got(_, i) = token(p, i, TokenView::LParen) {
                                if let Got(_, i) = keyword(p, i, Keyword::KEY) {
                                    aligned_parenthesized_column_list(p, larger, ahead, i, false);
                                }
                            }
                        }
                    } else {
                        if at_keywords4(p, i, Keyword::WITHIN, Keyword::TIMESTAMP, Keyword::ORDER, Keyword::BY) {
                            let i = i + 4;
                            aligned_order_by_expr_list(p, larger, ahead, i, Seq::<TreeView>::empty());
                        }
                    }
                }
            }
        }
    }
}

pub(crate) proof fn aligned_subscribe_option(p: Input, larger: Input, ahead: int, i: int)
    requires
        aligned(p, larger, ahead),
        0 <= i <= p.toks.len(),
    ensures
        agrees(p, ahead, i + 1, subscribe_option(p, i), subscribe_option(larger, ahead + i)),
{
    reveal(subscribe_option);
    if let Got(k, i) = one_keyword(p, i, seq![Keyword::PROGRESS, Keyword::SNAPSHOT]) {
        aligned_optional_option_value(p, larger, ahead, i);
    }
}

pub(crate) proof fn unfold_subscribe_option_list(p: Input, i: int, items: Seq<TreeView>)
    ensures
        subscribe_option_list(p, i, items) == ({
            match past(p, i, subscribe_option(p, i)) { Failed(e, i) => Failed(e, i), Got(item, i) => {
            if at_token(p, i, TokenView::Comma) {
                let i = i + 1;
                subscribe_option_list(p, i, items.push(item))
            } else {
                Got(items.push(item), i)
            }
            }}
        }),
{
    reveal(subscribe_option_list);
}

pub(crate) proof fn aligned_subscribe_option_list(p: Input, larger: Input, ahead: int, i: int, items: Seq<TreeView>)
    requires
        aligned(p, larger, ahead),
        0 <= i <= p.toks.len(),
    ensures
        agrees(p, ahead, i + 1, subscribe_option_list(p, i, items), subscribe_option_list(larger, ahead + i, items)),
    decreases p.toks.len() - i, 0int,
{
    unfold_subscribe_option_list(p, i, items);
    unfold_subscribe_option_list(larger, ahead + i, items);
    aligned_subscribe_option(p, larger, ahead, i);
    if let Got(item, i) = past(p, i, subscribe_option(p, i)) {
        if at_token(p, i, TokenView::Comma) {
            let i = i + 1;
            aligned_subscribe_option_list(p, larger, ahead, i, items.push(item));
        }
    }
}

pub(crate) proof fn aligned_explain_stage(p: Input, larger: Input, ahead: int, i: int)
    requires
        aligned(p, larger, ahead),
        0 <= i <= p.toks.len(),
    ensures
        agrees(p, ahead, i, explain_stage(p, i), explain_stage(larger, ahead + i)),
{
    reveal(explain_stage);
}

pub(crate) proof fn aligned_explain(p: Input, larger: Input, ahead: int, i: int)
    requires
        aligned(p, larger, ahead),
        0 <= i <= p.toks.len(),
    ensures
        agrees(p, ahead, i + 1, explain(p, i), explain(larger, ahead + i)),
{
    reveal(explain);
    aligned_explain_stage(p, larger, ahead, i);
    if let Got(stage, i) = explain_stage(p, i) {
        if at_keyword(p, i, Keyword::WITH) {
            let i = i + 1;
            if at_token(p, i, TokenView::LParen) {
                let i = i + 1;
                aligned_identifier_list(p, larger, ahead, i, Seq::<TreeView>::empty());
            }
        }
        let part = {
            if at_keyword(p, i, Keyword::WITH) {
                let i = i + 1;
                if at_token(p, i, TokenView::LParen) {
                    let i = i + 1;
                    match identifier_list(p, i, Seq::<TreeView>::empty()) { Failed(e, i) => Failed(e, i), Got(flags, i) => {
                    match token(p, i, TokenView::RParen) { Failed(e, i) => Failed(e, i), Got(_, i) => {
                    Got(TreeView::List(flags), i)
                    }}
                    }}
                } else {
                    let i = i - 1;
                    Got(TreeView::List(Seq::<TreeView>::empty()), i)
                }
            } else {
                Got(TreeView::List(Seq::<TreeView>::empty()), i)
            }
        };
        if let Got(config_flags, i) = part {
            let part = {
                if at_keyword(p, i, Keyword::AS) {
                    let i = i + 1;
                    match one_of(p, i, seq![Keyword::TEXT, Keyword::JSON, Keyword::DOT]) {
                        Some(k) => {
                            let i = i + 1;
                            match k {
                                Keyword::TEXT => {
                                    Got(TreeView::Node(Kind::ExplainText, Seq::<TreeView>::empty()), i)
                                },
                                Keyword::JSON => {
                                    Got(TreeView::Node(Kind::ExplainJson, Seq::<TreeView>::empty()), i)
                                },
                                _ => {
                                    Got(TreeView::Node(Kind::ExplainDot, Seq::<TreeView>::empty()), i)
                                },
                            }
                        },
                        None => {
                            Failed(error_view(position(p, i), no_text() + "expected a format"@), i)
                        },
                    }
                } else {
                    Got(TreeView::Node(Kind::ExplainText, Seq::<TreeView>::empty()), i)
                }
            };
            if let Got(format, i) = part {
                let part = {
                    if stage is Absent {
                        Got(TreeView::Node(Kind::OptimizedPlan, Seq::<TreeView>::empty()), i)
                    } else {
                        match keyword(p, i, Keyword::FOR) { Failed(e, i) => Failed(e, i), Got(_, i) => {
                        Got(stage, i)
                        }}
                    }
                };
                if let Got(stage, i) = part {
                    let no_errors = at_keyword(p, i, Keyword::BROKEN);
                    let i = if no_errors { i + 1 } else { i };
                    if at_keyword(p, i, Keyword::VIEW) {
                        let i = i + 1;
                        aligned_raw_name(p, larger, ahead, i);
                    } else {
                        if at_keywords2(p, i, Keyword::MATERIALIZED, Keyword::VIEW) {
                            let i = i + 2;
                            aligned_raw_name(p, larger, ahead, i);
                        } else {
                            aligned_query(p, larger, ahead, i);
                        }
                    }
                }
            }
        }
    }
}

pub(crate) proof fn unfold_declare(p: Input, i: int)
    ensures
        declare(p, i) == ({
            match past(p, i, identifier(p, i)) { Failed(e, i) => Failed(e, i), Got(name, i) => {
            match keyword(p, i, Keyword::CURSOR) { Failed(e, i) => Failed(e, i), Got(_, i) => {
            let i = if at_keywords2(p, i, Keyword::WITHOUT, Keyword::HOLD) { i + 2 } else { i };
            match keyword(p, i, Keyword::FOR) { Failed(e, i) => Failed(e, i), Got(_, i) => {
            match statement(p, i) { Failed(e, i) => Failed(e, i), Got(s, i) => {
            Got(TreeView::Node(Kind::Declare, seq![name, s]), i)
            }}
            }}
            }}
            }}
        }),
{
    reveal(declare);
    reveal(statement);
}

pub(crate) proof fn aligned_declare(p: Input, larger: Input, ahead: int, i: int)
    requires
        aligned(p, larger, ahead),
        0 <= i <= p.toks.len(),
    ensures
        agrees(p, ahead, i + 1, declare(p, i), declare(larger, ahead + i)),
    decreases p.toks.len() - i, 0int,
{
    unfold_declare(p, i);
    unfold_declare(larger, ahead + i);
    aligned_identifier(p, larger, ahead, i);
    if let Got(name, i) = past(p, i, identifier(p, i)) {
        if let Got(_, i) = keyword(p, i, Keyword::CURSOR) {
            let i = if at_keywords2(p, i, Keyword::WITHOUT, Keyword::HOLD) { i + 2 } else { i };
            if let Got(_, i) = keyword(p, i, Keyword::FOR) {
                aligned_statement(p, larger, ahead, i);
            }
        }
    }
}

pub(crate) proof fn aligned_close(p: Input, larger: Input, ahead: int, i: int)
    requires
        aligned(p, larger, ahead),
        0 <= i <= p.toks.len(),
    ensures
        agrees(p, ahead, i + 1, close(p, i), close(larger, ahead + i)),
{
    reveal(close);
    aligned_identifier(p, larger, ahead, i);
}

pub(crate) proof fn unfold_prepare(p: Input, i: int)
    ensures
        prepare(p, i) == ({
            match past(p, i, identifier(p, i)) { Failed(e, i) => Failed(e, i), Got(name, i) => {
            match keyword(p, i, Keyword::AS) { Failed(e, i) => Failed(e, i), Got(_, i) => {
            let at = position(p, i);
            match statement(p, i) { Failed(e, i) => Failed(e, i), Got(s, i) => {
            if is_preparable(s) {
                Got(TreeView::Node(Kind::Prepare, seq![name, s]), i)
            } else {
                Failed(error_view(at as int, no_text() + "unpreparable statement"@), i)
            }
            }}
            }}
            }}
        }),
{
    reveal(prepare);
    reveal(statement);
}

pub(crate) proof fn aligned_prepare(p: Input, larger: Input, ahead: int, i: int)
    requires
        aligned(p, larger, ahead),
        0 <= i <= p.toks.len(),
    ensures
        agrees(p, ahead, i + 1, prepare(p, i), prepare(larger, ahead + i)),
    decreases p.toks.len() - i, 0int,
{
    unfold_prepare(p, i);
    unfold_prepare(larger, ahead + i);
    aligned_identifier(p, larger, ahead, i);
    if let Got(name, i) = past(p, i, identifier(p, i)) {
        if let Got(_, i) = keyword(p, i, Keyword::AS) {
            let at = position(p, i);
            aligned_statement(p, larger, ahead, i);
        }
    }
}

pub(crate) proof fn aligned_execute(p: Input, larger: Input, ahead: int, i: int)
    requires
        aligned(p, larger, ahead),
        0 <= i <= p.toks.len(),
    ensures
        agrees(p, ahead, i + 1, execute(p, i), execute(larger, ahead + i)),
{
    reveal(execute);
    aligned_identifier(p, larger, ahead, i);
    if let Got(name, i) = identifier(p, i) {
        if at_token(p, i, TokenView::LParen) {
            let i = i + 1;
            aligned_expr_list(p, larger, ahead, i, Seq::<TreeView>::empty());
        }
    }
}

pub(crate) proof fn aligned_deallocate(p: Input, larger: Input, ahead: int, i: int)
    requires
        aligned(p, larger, ahead),
        0 <= i <= p.toks.len(),
    ensures
        agrees(p, ahead, i + 1, deallocate(p, i), deallocate(larger, ahead + i)),
{
    reveal(deallocate);
    let i = if at_keyword(p, i, Keyword::PREPARE) { i + 1 } else { i };
    if !at_keyword(p, i, Keyword::ALL) {
        aligned_identifier(p, larger, ahead, i);
    }
}

pub(crate) proof fn aligned_fetch(p: Input, larger: Input, ahead: int, i: int)
    requires
        aligned(p, larger, ahead),
        0 <= i <= p.toks.len(),
    ensures
        agrees(p, ahead, i + 1, fetch(p, i), fetch(larger, ahead + i)),
{
    reveal(fetch);
    let i = if at_keyword(p, i, Keyword::FORWARD) { i + 1 } else { i };
    aligned_literal_uint(p, larger, ahead, i);
    let part = {
        match literal_uint(p, i) {
            Got(n, i) => {
                Got(TreeView::Node(Kind::ForwardCount, seq![TreeView::Num(n)]), i)
            },
            Failed(_, _) => {
                if at_keyword(p, i, Keyword::ALL) {
                    let i = i + 1;
                    Got(TreeView::Node(Kind::ForwardAll, Seq::<TreeView>::empty()), i)
                } else {
                    Got(TreeView::Absent, i)
                }
            },
        }
    };
    if let Got(count, i) = part {
        let i = if at_keyword(p, i, Keyword::FROM) { i + 1 } else { i };
        aligned_identifier(p, larger, ahead, i);
        if let Got(name, i) = identifier(p, i) {
            if at_keyword(p, i, Keyword::WITH) {
                let i = i + 1;
                if let Got(_, i) = token(p, i, TokenView::LParen) {
                    aligned_fetch_option_list(p, larger, ahead, i, Seq::<TreeView>::empty());
                }
            }
        }
    }
}

pub(crate) proof fn aligned_fetch_option(p: Input, larger: Input, ahead: int, i: int)
    requires
        aligned(p, larger, ahead),
        0 <= i <= p.toks.len(),
    ensures
        agrees(p, ahead, i + 1, fetch_option(p, i), fetch_option(larger, ahead + i)),
{
    reveal(fetch_option);
    if let Got(_, i) = keyword(p, i, Keyword::TIMEOUT) {
        aligned_optional_option_value(p, larger, ahead, i);
    }
}

pub(crate) proof fn unfold_fetch_option_list(p: Input, i: int, items: Seq<TreeView>)
    ensures
        fetch_option_list(p, i, items) == ({
            match past(p, i, fetch_option(p, i)) { Failed(e, i) => Failed(e, i), Got(item, i) => {
            if at_token(p, i, TokenView::Comma) {
                let i = i + 1;
                fetch_option_list(p, i, items.push(item))
            } else {
                Got(items.push(item), i)
            }
            }}
        }),
{
    reveal(fetch_option_list);
}

pub(crate) proof fn aligned_fetch_option_list(p: Input, larger: Input, ahead: int, i: int, items: Seq<TreeView>)
    requires
        aligned(p, larger, ahead),
        0 <= i <= p.toks.len(),
    ensures
        agrees(p, ahead, i + 1, fetch_option_list(p, i, items), fetch_option_list(larger, ahead + i, items)),
    decreases p.toks.len() - i, 0int,
{
    unfold_fetch_option_list(p, i, items);
    unfold_fetch_option_list(larger, ahead + i, items);
    aligned_fetch_option(p, larger, ahead, i);
    if let Got(item, i) = past(p, i, fetch_option(p, i)) {
        if at_token(p, i, TokenView::Comma) {
            let i = i + 1;
            aligned_fetch_option_list(p, larger, ahead, i, items.push(item));
        }
    }
}

pub(crate) proof fn aligned_raise(p: Input, larger: Input, ahead: int, i: int)
    requires
        aligned(p, larger, ahead),
        0 <= i <= p.toks.len(),
    ensures
        agrees(p, ahead, i + 1, raise(p, i), raise(larger, ahead + i)),
{
    reveal(raise);
}

} // verus!
