//! How names, types and literals are read inside of larger texts.

use vstd::prelude::*;

use crate::sql_parser::alignment::expr::{aligned_expr, aligned_function, aligned_interval_value};
use crate::sql_parser::alignment::query::aligned_query;
use crate::sql_parser::alignment::{agrees, aligned};
use crate::sql_parser::checks::is_node;
use crate::sql_parser::expr::{expr, function};
use crate::sql_parser::keywords::{Keyword, keyword_ident};
use crate::sql_parser::kind::Kind;
use crate::sql_parser::names::{
    array_bound, array_elements, array_expr, base_type, cluster_replica_name, data_type,
    database_name, database_name_list, deferred_item_name, identifier, identifier_list,
    identifier_parts, identifiers, item_name, item_name_list, list_elements, list_expr,
    literal_int, literal_int_list, literal_string, literal_uint, map_type, modified_type,
    number_value, object_name, optional_alias, optional_precision, optional_table_alias,
    parenthesized_column_list, qualified_identifier, raw_name, schema_name, schema_name_list,
    typ_mod, type_suffixes, value, with_time_zone,
};
use crate::sql_parser::outcome::Out::{Failed, Got};
use crate::sql_parser::outcome::error_view;
use crate::sql_parser::parser::{
    Input, at_keyword, at_token, expected_at, keyword, onward, past, position, token, token_at,
};
use crate::sql_parser::query::query;
use crate::sql_parser::syntax::TreeView;
use crate::sql_parser::text::no_text;
use crate::sql_parser::token::TokenView;

verus! {

pub(crate) proof fn aligned_identifier(p: Input, larger: Input, ahead: int, i: int)
    requires
        aligned(p, larger, ahead),
        0 <= i <= p.toks.len(),
    ensures
        agrees(p, ahead, i + 1, identifier(p, i), identifier(larger, ahead + i)),
{
    reveal(identifier);
}

pub(crate) proof fn unfold_identifier_list(p: Input, i: int, items: Seq<TreeView>)
    ensures
        identifier_list(p, i, items) == ({
            match past(p, i, identifier(p, i)) { Failed(e, i) => Failed(e, i), Got(item, i) => {
            if at_token(p, i, TokenView::Comma) {
                let i = i + 1;
                identifier_list(p, i, items.push(item))
            } else {
                Got(items.push(item), i)
            }
            }}
        }),
{
    reveal(identifier_list);
}

pub(crate) proof fn aligned_identifier_list(p: Input, larger: Input, ahead: int, i: int, items: Seq<TreeView>)
    requires
        aligned(p, larger, ahead),
        0 <= i <= p.toks.len(),
    ensures
        agrees(p, ahead, i + 1, identifier_list(p, i, items), identifier_list(larger, ahead + i, items)),
    decreases p.toks.len() - i, 0int,
{
    unfold_identifier_list(p, i, items);
    unfold_identifier_list(larger, ahead + i, items);
    aligned_identifier(p, larger, ahead, i);
    if let Got(item, i) = past(p, i, identifier(p, i)) {
        if at_token(p, i, TokenView::Comma) {
            let i = i + 1;
            aligned_identifier_list(p, larger, ahead, i, items.push(item));
        }
    }
}

pub(crate) proof fn unfold_identifiers(p: Input, i: int, idents: Seq<TreeView>)
    ensures
        identifiers(p, i, idents) == ({
            match past(p, i, identifier(p, i)) { Failed(e, i) => Failed(e, i), Got(id, i) => {
            if at_token(p, i, TokenView::Dot) {
                let i = i + 1;
                identifiers(p, i, idents.push(id))
            } else {
                Got(idents.push(id), i)
            }
            }}
        }),
{
    reveal(identifiers);
}

pub(crate) proof fn aligned_identifiers(p: Input, larger: Input, ahead: int, i: int, idents: Seq<TreeView>)
    requires
        aligned(p, larger, ahead),
        0 <= i <= p.toks.len(),
    ensures
        agrees(p, ahead, i + 1, identifiers(p, i, idents), identifiers(larger, ahead + i, idents)),
    decreases p.toks.len() - i, 0int,
{
    unfold_identifiers(p, i, idents);
    unfold_identifiers(larger, ahead + i, idents);
    aligned_identifier(p, larger, ahead, i);
    if let Got(id, i) = past(p, i, identifier(p, i)) {
        if at_token(p, i, TokenView::Dot) {
            let i = i + 1;
            aligned_identifiers(p, larger, ahead, i, idents.push(id));
        }
    }
}

pub(crate) proof fn aligned_database_name(p: Input, larger: Input, ahead: int, i: int)
    requires
        aligned(p, larger, ahead),
        0 <= i <= p.toks.len(),
    ensures
        agrees(p, ahead, i + 1, database_name(p, i), database_name(larger, ahead + i)),
{
    reveal(database_name);
    aligned_identifier(p, larger, ahead, i);
}

pub(crate) proof fn unfold_database_name_list(p: Input, i: int, items: Seq<TreeView>)
    ensures
        database_name_list(p, i, items) == ({
            match past(p, i, database_name(p, i)) { Failed(e, i) => Failed(e, i), Got(item, i) => {
            if at_token(p, i, TokenView::Comma) {
                let i = i + 1;
                database_name_list(p, i, items.push(item))
            } else {
                Got(items.push(item), i)
            }
            }}
        }),
{
    reveal(database_name_list);
}

pub(crate) proof fn aligned_database_name_list(p: Input, larger: Input, ahead: int, i: int, items: Seq<TreeView>)
    requires
        aligned(p, larger, ahead),
        0 <= i <= p.toks.len(),
    ensures
        agrees(p, ahead, i + 1, database_name_list(p, i, items), database_name_list(larger, ahead + i, items)),
    decreases p.toks.len() - i, 0int,
{
    unfold_database_name_list(p, i, items);
    unfold_database_name_list(larger, ahead + i, items);
    aligned_database_name(p, larger, ahead, i);
    if let Got(item, i) = past(p, i, database_name(p, i)) {
        if at_token(p, i, TokenView::Comma) {
            let i = i + 1;
            aligned_database_name_list(p, larger, ahead, i, items.push(item));
        }
    }
}

pub(crate) proof fn aligned_schema_name(p: Input, larger: Input, ahead: int, i: int)
    requires
        aligned(p, larger, ahead),
        0 <= i <= p.toks.len(),
    ensures
        agrees(p, ahead, i + 1, schema_name(p, i), schema_name(larger, ahead + i)),
{
    reveal(schema_name);
    aligned_identifiers(p, larger, ahead, i, Seq::<TreeView>::empty());
}

pub(crate) proof fn unfold_schema_name_list(p: Input, i: int, items: Seq<TreeView>)
    ensures
        schema_name_list(p, i, items) == ({
            match past(p, i, schema_name(p, i)) { Failed(e, i) => Failed(e, i), Got(item, i) => {
            if at_token(p, i, TokenView::Comma) {
                let i = i + 1;
                schema_name_list(p, i, items.push(item))
            } else {
                Got(items.push(item), i)
            }
            }}
        }),
{
    reveal(schema_name_list);
}

pub(crate) proof fn aligned_schema_name_list(p: Input, larger: Input, ahead: int, i: int, items: Seq<TreeView>)
    requires
        aligned(p, larger, ahead),
        0 <= i <= p.toks.len(),
    ensures
        agrees(p, ahead, i + 1, schema_name_list(p, i, items), schema_name_list(larger, ahead + i, items)),
    decreases p.toks.len() - i, 0int,
{
    unfold_schema_name_list(p, i, items);
    unfold_schema_name_list(larger, ahead + i, items);
    aligned_schema_name(p, larger, ahead, i);
    if let Got(item, i) = past(p, i, schema_name(p, i)) {
        if at_token(p, i, TokenView::Comma) {
            let i = i + 1;
            aligned_schema_name_list(p, larger, ahead, i, items.push(item));
        }
    }
}

pub(crate) proof fn aligned_item_name(p: Input, larger: Input, ahead: int, i: int)
    requires
        aligned(p, larger, ahead),
        0 <= i <= p.toks.len(),
    ensures
        agrees(p, ahead, i + 1, item_name(p, i), item_name(larger, ahead + i)),
{
    reveal(item_name);
    aligned_identifiers(p, larger, ahead, i, Seq::<TreeView>::empty());
}

pub(crate) proof fn unfold_item_name_list(p: Input, i: int, items: Seq<TreeView>)
    ensures
        item_name_list(p, i, items) == ({
            match past(p, i, item_name(p, i)) { Failed(e, i) => Failed(e, i), Got(item, i) => {
            if at_token(p, i, TokenView::Comma) {
                let i = i + 1;
                item_name_list(p, i, items.push(item))
            } else {
                Got(items.push(item), i)
            }
            }}
        }),
{
    reveal(item_name_list);
}

pub(crate) proof fn aligned_item_name_list(p: Input, larger: Input, ahead: int, i: int, items: Seq<TreeView>)
    requires
        aligned(p, larger, ahead),
        0 <= i <= p.toks.len(),
    ensures
        agrees(p, ahead, i + 1, item_name_list(p, i, items), item_name_list(larger, ahead + i, items)),
    decreases p.toks.len() - i, 0int,
{
    unfold_item_name_list(p, i, items);
    unfold_item_name_list(larger, ahead + i, items);
    aligned_item_name(p, larger, ahead, i);
    if let Got(item, i) = past(p, i, item_name(p, i)) {
        if at_token(p, i, TokenView::Comma) {
            let i = i + 1;
            aligned_item_name_list(p, larger, ahead, i, items.push(item));
        }
    }
}

pub(crate) proof fn aligned_cluster_replica_name(p: Input, larger: Input, ahead: int, i: int)
    requires
        aligned(p, larger, ahead),
        0 <= i <= p.toks.len(),
    ensures
        agrees(p, ahead, i + 1, cluster_replica_name(p, i), cluster_replica_name(larger, ahead + i)),
{
    reveal(cluster_replica_name);
    aligned_identifier(p, larger, ahead, i);
    if let Got(cluster, i) = identifier(p, i) {
        if let Got(_, i) = token(p, i, TokenView::Dot) {
            aligned_identifier(p, larger, ahead, i);
        }
    }
}

pub(crate) proof fn aligned_raw_name(p: Input, larger: Input, ahead: int, i: int)
    requires
        aligned(p, larger, ahead),
        0 <= i <= p.toks.len(),
    ensures
        agrees(p, ahead, i + 1, raw_name(p, i), raw_name(larger, ahead + i)),
{
    reveal(raw_name);
    if at_token(p, i, TokenView::LBracket) {
        let i = i + 1;
        let part = {
            let found = token_at(p, i);
            let i = i + 1;
            match found {
                Some(TokenView::Ident(s)) => {
                    Got(s, i)
                },
                _ => {
                    Failed(error_view(position(p, i - 1), no_text() + "expected id"@), i)
                },
            }
        };
        if let Got(id, i) = part {
            if let Got(_, i) = keyword(p, i, Keyword::AS) {
                aligned_identifiers(p, larger, ahead, i, Seq::<TreeView>::empty());
            }
        }
    } else {
        aligned_item_name(p, larger, ahead, i);
    }
}

pub(crate) proof fn aligned_deferred_item_name(p: Input, larger: Input, ahead: int, i: int)
    requires
        aligned(p, larger, ahead),
        0 <= i <= p.toks.len(),
    ensures
        agrees(p, ahead, i + 1, deferred_item_name(p, i), deferred_item_name(larger, ahead + i)),
{
    reveal(deferred_item_name);
    aligned_raw_name(p, larger, ahead, i);
}

pub(crate) proof fn aligned_object_name(p: Input, larger: Input, ahead: int, i: int, object_type: Kind)
    requires
        aligned(p, larger, ahead),
        0 <= i <= p.toks.len(),
    ensures
        agrees(p, ahead, i + 1, object_name(p, i, object_type), object_name(larger, ahead + i, object_type)),
{
    reveal(object_name);
    match object_type {
        Kind::RoleType => {
            aligned_identifier(p, larger, ahead, i);
        },
        Kind::ClusterType => {
            aligned_identifier(p, larger, ahead, i);
        },
        Kind::ClusterReplicaType => {
            aligned_cluster_replica_name(p, larger, ahead, i);
        },
        Kind::DatabaseType => {
            aligned_database_name(p, larger, ahead, i);
        },
        Kind::SchemaType => {
            aligned_schema_name(p, larger, ahead, i);
        },
        _ => {
            aligned_item_name(p, larger, ahead, i);
        },
    }
}

pub(crate) proof fn unfold_qualified_identifier(p: Input, i: int, id: TreeView)
    ensures
        qualified_identifier(p, i, id) == ({
            if at_token(p, i, TokenView::LParen) || at_token(p, i, TokenView::Dot) {
                identifier_parts(p, i, seq![id])
            } else {
                Got(TreeView::Node(Kind::Identifier, seq![TreeView::List(seq![id])]), i)
            }
        }),
{
    reveal(qualified_identifier);
    reveal(identifier_parts);
}

pub(crate) proof fn aligned_qualified_identifier(p: Input, larger: Input, ahead: int, i: int, id: TreeView)
    requires
        aligned(p, larger, ahead),
        0 <= i <= p.toks.len(),
    ensures
        agrees(p, ahead, i, qualified_identifier(p, i, id), qualified_identifier(larger, ahead + i, id)),
    decreases p.toks.len() - i, 2int,
{
    unfold_qualified_identifier(p, i, id);
    unfold_qualified_identifier(larger, ahead + i, id);
    if at_token(p, i, TokenView::LParen) || at_token(p, i, TokenView::Dot) {
        aligned_identifier_parts(p, larger, ahead, i, seq![id]);
    }
}

pub(crate) proof fn unfold_identifier_parts(p: Input, i: int, parts: Seq<TreeView>)
    ensures
        identifier_parts(p, i, parts) == ({
            if at_token(p, i, TokenView::Dot) {
                let i = i + 1;
                let found = token_at(p, i);
                let i = i + 1;
                match found {
                    Some(TokenView::Keyword(k)) => {
                        identifier_parts(p, i, parts.push(TreeView::Text(keyword_ident(k))))
                    },
                    Some(TokenView::Ident(s)) => {
                        identifier_parts(p, i, parts.push(TreeView::Text(s)))
                    },
                    Some(TokenView::Star) => {
                        Got(TreeView::Node(Kind::QualifiedWildcard, seq![TreeView::List(parts)]), i)
                    },
                    _ => {
                        Failed(expected_at(p, i - 1, "an identifier or a '*' after '.'"@), i)
                    },
                }
            } else {
                if at_token(p, i, TokenView::LParen) {
                    function(p, i, TreeView::Node(Kind::ItemName, seq![TreeView::List(parts)]))
                } else {
                    Got(TreeView::Node(Kind::Identifier, seq![TreeView::List(parts)]), i)
                }
            }
        }),
{
    reveal(identifier_parts);
    reveal(function);
}

pub(crate) proof fn aligned_identifier_parts(p: Input, larger: Input, ahead: int, i: int, parts: Seq<TreeView>)
    requires
        aligned(p, larger, ahead),
        0 <= i <= p.toks.len(),
    ensures
        agrees(p, ahead, i, identifier_parts(p, i, parts), identifier_parts(larger, ahead + i, parts)),
    decreases p.toks.len() - i, 1int,
{
    unfold_identifier_parts(p, i, parts);
    unfold_identifier_parts(larger, ahead + i, parts);
    if at_token(p, i, TokenView::Dot) {
        let i = i + 1;
        let found = token_at(p, i);
        let i = i + 1;
        match found {
            Some(TokenView::Keyword(k)) => {
                aligned_identifier_parts(p, larger, ahead, i, parts.push(TreeView::Text(keyword_ident(k))));
            },
            Some(TokenView::Ident(s)) => {
                aligned_identifier_parts(p, larger, ahead, i, parts.push(TreeView::Text(s)));
            },
            _ => {},
        }
    } else {
        if at_token(p, i, TokenView::LParen) {
            aligned_function(p, larger, ahead, i, TreeView::Node(Kind::ItemName, seq![TreeView::List(parts)]));
        }
    }
}

pub(crate) proof fn aligned_parenthesized_column_list(p: Input, larger: Input, ahead: int, i: int, optional: bool)
    requires
        aligned(p, larger, ahead),
        0 <= i <= p.toks.len(),
    ensures
        agrees(p, ahead, i, parenthesized_column_list(p, i, optional), parenthesized_column_list(larger, ahead + i, optional)),
{
    reveal(parenthesized_column_list);
    if at_token(p, i, TokenView::LParen) {
        let i = i + 1;
        aligned_identifier_list(p, larger, ahead, i, Seq::<TreeView>::empty());
    }
}

pub(crate) proof fn aligned_optional_precision(p: Input, larger: Input, ahead: int, i: int)
    requires
        aligned(p, larger, ahead),
        0 <= i <= p.toks.len(),
    ensures
        agrees(p, ahead, i, optional_precision(p, i), optional_precision(larger, ahead + i)),
{
    reveal(optional_precision);
    if at_token(p, i, TokenView::LParen) {
        let i = i + 1;
        aligned_literal_uint(p, larger, ahead, i);
    }
}

pub(crate) proof fn aligned_optional_alias(p: Input, larger: Input, ahead: int, i: int, table: bool)
    requires
        aligned(p, larger, ahead),
        1 <= i <= p.toks.len(),
    ensures
        agrees(p, ahead, i - 1, optional_alias(p, i, table), optional_alias(larger, ahead + i, table)),
{
    reveal(optional_alias);
}

pub(crate) proof fn aligned_optional_table_alias(p: Input, larger: Input, ahead: int, i: int)
    requires
        aligned(p, larger, ahead),
        1 <= i <= p.toks.len(),
    ensures
        agrees(p, ahead, i - 1, optional_table_alias(p, i), optional_table_alias(larger, ahead + i)),
{
    reveal(optional_table_alias);
    aligned_optional_alias(p, larger, ahead, i, true);
    if let Got(name, i) = optional_alias(p, i, true) {
        if !(name is Absent) {
            aligned_parenthesized_column_list(p, larger, ahead, i, true);
        }
    }
}

pub(crate) proof fn aligned_value(p: Input, larger: Input, ahead: int, i: int)
    requires
        aligned(p, larger, ahead),
        0 <= i <= p.toks.len(),
    ensures
        agrees(p, ahead, i + 1, value(p, i), value(larger, ahead + i)),
{
    reveal(value);
    let found = token_at(p, i);
    let i = i + 1;
    match found {
        Some(TokenView::Keyword(Keyword::TRUE)) => {},
        Some(TokenView::Keyword(Keyword::FALSE)) => {},
        Some(TokenView::Keyword(Keyword::NULL)) => {},
        Some(TokenView::Keyword(Keyword::INTERVAL)) => {
            aligned_interval_value(p, larger, ahead, i);
        },
        _ => {},
    }
}

pub(crate) proof fn aligned_number_value(p: Input, larger: Input, ahead: int, i: int)
    requires
        aligned(p, larger, ahead),
        0 <= i <= p.toks.len(),
    ensures
        agrees(p, ahead, i + 1, number_value(p, i), number_value(larger, ahead + i)),
{
    reveal(number_value);
    aligned_value(p, larger, ahead, i);
}

pub(crate) proof fn aligned_literal_int(p: Input, larger: Input, ahead: int, i: int)
    requires
        aligned(p, larger, ahead),
        0 <= i <= p.toks.len(),
    ensures
        agrees(p, ahead, i + 1, literal_int(p, i), literal_int(larger, ahead + i)),
{
    reveal(literal_int);
}

pub(crate) proof fn unfold_literal_int_list(p: Input, i: int, items: Seq<TreeView>)
    ensures
        literal_int_list(p, i, items) == ({
            match past(p, i, literal_int(p, i)) { Failed(e, i) => Failed(e, i), Got(item, i) => {
            if at_token(p, i, TokenView::Comma) {
                let i = i + 1;
                literal_int_list(p, i, items.push(item))
            } else {
                Got(items.push(item), i)
            }
            }}
        }),
{
    reveal(literal_int_list);
}

pub(crate) proof fn aligned_literal_int_list(p: Input, larger: Input, ahead: int, i: int, items: Seq<TreeView>)
    requires
        aligned(p, larger, ahead),
        0 <= i <= p.toks.len(),
    ensures
        agrees(p, ahead, i + 1, literal_int_list(p, i, items), literal_int_list(larger, ahead + i, items)),
    decreases p.toks.len() - i, 0int,
{
    unfold_literal_int_list(p, i, items);
    unfold_literal_int_list(larger, ahead + i, items);
    aligned_literal_int(p, larger, ahead, i);
    if let Got(item, i) = past(p, i, literal_int(p, i)) {
        if at_token(p, i, TokenView::Comma) {
            let i = i + 1;
            aligned_literal_int_list(p, larger, ahead, i, items.push(item));
        }
    }
}

pub(crate) proof fn aligned_literal_uint(p: Input, larger: Input, ahead: int, i: int)
    requires
        aligned(p, larger, ahead),
        0 <= i <= p.toks.len(),
    ensures
        agrees(p, ahead, i + 1, literal_uint(p, i), literal_uint(larger, ahead + i)),
{
    reveal(literal_uint);
}

pub(crate) proof fn aligned_literal_string(p: Input, larger: Input, ahead: int, i: int)
    requires
        aligned(p, larger, ahead),
        0 <= i <= p.toks.len(),
    ensures
        agrees(p, ahead, i + 1, literal_string(p, i), literal_string(larger, ahead + i)),
{
    reveal(literal_string);
}

pub(crate) proof fn aligned_typ_mod(p: Input, larger: Input, ahead: int, i: int)
    requires
        aligned(p, larger, ahead),
        0 <= i <= p.toks.len(),
    ensures
        agrees(p, ahead, i, typ_mod(p, i), typ_mod(larger, ahead + i)),
{
    reveal(typ_mod);
    if at_token(p, i, TokenView::LParen) {
        let i = i + 1;
        aligned_literal_int_list(p, larger, ahead, i, Seq::<TreeView>::empty());
    }
}

pub(crate) proof fn aligned_modified_type(p: Input, larger: Input, ahead: int, i: int, name: Seq<char>)
    requires
        aligned(p, larger, ahead),
        0 <= i <= p.toks.len(),
    ensures
        agrees(p, ahead, i, modified_type(p, i, name), modified_type(larger, ahead + i, name)),
{
    reveal(modified_type);
    aligned_typ_mod(p, larger, ahead, i);
}

pub(crate) proof fn aligned_with_time_zone(p: Input, larger: Input, ahead: int, i: int)
    requires
        aligned(p, larger, ahead),
        0 <= i <= p.toks.len(),
    ensures
        agrees(p, ahead, i, with_time_zone(p, i), with_time_zone(larger, ahead + i)),
{
    reveal(with_time_zone);
}

pub(crate) proof fn aligned_base_type(p: Input, larger: Input, ahead: int, i: int)
    requires
        aligned(p, larger, ahead),
        0 <= i <= p.toks.len(),
    ensures
        agrees(p, ahead, i + 1, base_type(p, i), base_type(larger, ahead + i)),
{
    reveal(base_type);
    let found = token_at(p, i);
    let i = i + 1;
    match found {
        Some(TokenView::Keyword(Keyword::CHAR)) | Some(TokenView::Keyword(Keyword::CHARACTER)) => {
            if at_keyword(p, i, Keyword::VARYING) {
                let i = i + 1;
                aligned_modified_type(p, larger, ahead, i, "varchar"@);
            } else {
                aligned_modified_type(p, larger, ahead, i, "bpchar"@);
            }
        },
        Some(TokenView::Keyword(Keyword::BPCHAR)) => {
            aligned_modified_type(p, larger, ahead, i, "bpchar"@);
        },
        Some(TokenView::Keyword(Keyword::VARCHAR)) => {
            aligned_modified_type(p, larger, ahead, i, "varchar"@);
        },
        Some(TokenView::Keyword(Keyword::STRING)) => {},
        Some(TokenView::Keyword(Keyword::BIGINT)) => {},
        Some(TokenView::Keyword(Keyword::SMALLINT)) => {},
        Some(TokenView::Keyword(Keyword::DEC)) | Some(TokenView::Keyword(Keyword::DECIMAL)) => {
            aligned_modified_type(p, larger, ahead, i, "numeric"@);
        },
        Some(TokenView::Keyword(Keyword::DOUBLE)) => {},
        Some(TokenView::Keyword(Keyword::FLOAT)) => {
            aligned_optional_precision(p, larger, ahead, i);
        },
        Some(TokenView::Keyword(Keyword::INT)) | Some(TokenView::Keyword(Keyword::INTEGER)) => {},
        Some(TokenView::Keyword(Keyword::REAL)) => {},
        Some(TokenView::Keyword(Keyword::TIME)) => {
            aligned_with_time_zone(p, larger, ahead, i);
        },
        Some(TokenView::Keyword(Keyword::TIMESTAMP)) => {
            aligned_with_time_zone(p, larger, ahead, i);
        },
        Some(TokenView::Keyword(Keyword::BOOLEAN)) => {},
        Some(TokenView::Keyword(Keyword::BYTES)) => {},
        Some(TokenView::Keyword(Keyword::JSON)) => {},
        Some(TokenView::Keyword(k)) => {
            let i = i - 1;
            aligned_item_name(p, larger, ahead, i);
            if let Got(name, i) = item_name(p, i) {
                aligned_typ_mod(p, larger, ahead, i);
            }
        },
        Some(TokenView::Ident(_)) | Some(TokenView::LBracket) => {
            let i = i - 1;
            aligned_raw_name(p, larger, ahead, i);
            if let Got(name, i) = raw_name(p, i) {
                aligned_typ_mod(p, larger, ahead, i);
            }
        },
        _ => {},
    }
}

pub(crate) proof fn unfold_data_type(p: Input, i: int)
    ensures
        data_type(p, i) == ({
            if at_keyword(p, i, Keyword::MAP) {
                let i = i + 1;
                map_type(p, i)
            } else {
                match base_type(p, i) { Failed(e, i) => Failed(e, i), Got(base, i) => {
                type_suffixes(p, i, base)
                }}
            }
        }),
{
    reveal(data_type);
    reveal(map_type);
}

pub(crate) proof fn aligned_data_type(p: Input, larger: Input, ahead: int, i: int)
    requires
        aligned(p, larger, ahead),
        0 <= i <= p.toks.len(),
    ensures
        agrees(p, ahead, i + 1, data_type(p, i), data_type(larger, ahead + i)),
    decreases p.toks.len() - i, 0int,
{
    unfold_data_type(p, i);
    unfold_data_type(larger, ahead + i);
    if at_keyword(p, i, Keyword::MAP) {
        let i = i + 1;
        aligned_map_type(p, larger, ahead, i);
    } else {
        aligned_base_type(p, larger, ahead, i);
        if let Got(base, i) = base_type(p, i) {
            aligned_type_suffixes(p, larger, ahead, i, base);
        }
    }
}

pub(crate) proof fn unfold_type_suffixes(p: Input, i: int, t: TreeView)
    ensures
        type_suffixes(p, i, t) == ({
            if at_keyword(p, i, Keyword::LIST) {
                let i = i + 1;
                type_suffixes(p, i, TreeView::Node(Kind::ListType, seq![t]))
            } else {
                if at_token(p, i, TokenView::LBracket) {
                    let i = i + 1;
                    match onward(p, i, array_bound(p, i)) { Failed(e, i) => Failed(e, i), Got(_, i) => {
                    match token(p, i, TokenView::RBracket) { Failed(e, i) => Failed(e, i), Got(_, i) => {
                    if is_node(t, Kind::ArrayType) {
                        type_suffixes(p, i, t)
                    } else {
                        type_suffixes(p, i, TreeView::Node(Kind::ArrayType, seq![t]))
                    }
                    }}
                    }}
                } else {
                    Got(t, i)
                }
            }
        }),
{
    reveal(type_suffixes);
}

pub(crate) proof fn aligned_type_suffixes(p: Input, larger: Input, ahead: int, i: int, t: TreeView)
    requires
        aligned(p, larger, ahead),
        0 <= i <= p.toks.len(),
    ensures
        agrees(p, ahead, i, type_suffixes(p, i, t), type_suffixes(larger, ahead + i, t)),
    decreases p.toks.len() - i, 0int,
{
    unfold_type_suffixes(p, i, t);
    unfold_type_suffixes(larger, ahead + i, t);
    if at_keyword(p, i, Keyword::LIST) {
        let i = i + 1;
        aligned_type_suffixes(p, larger, ahead, i, TreeView::Node(Kind::ListType, seq![t]));
    } else {
        if at_token(p, i, TokenView::LBracket) {
            let i = i + 1;
            aligned_array_bound(p, larger, ahead, i);
            if let Got(_, i) = onward(p, i, array_bound(p, i)) {
                if let Got(_, i) = token(p, i, TokenView::RBracket) {
                    if is_node(t, Kind::ArrayType) {
                        aligned_type_suffixes(p, larger, ahead, i, t);
                    } else {
                        aligned_type_suffixes(p, larger, ahead, i, TreeView::Node(Kind::ArrayType, seq![t]));
                    }
                }
            }
        }
    }
}

pub(crate) proof fn aligned_array_bound(p: Input, larger: Input, ahead: int, i: int)
    requires
        aligned(p, larger, ahead),
        0 <= i <= p.toks.len(),
    ensures
        agrees(p, ahead, i, array_bound(p, i), array_bound(larger, ahead + i)),
{
    reveal(array_bound);
    aligned_number_value(p, larger, ahead, i);
}

pub(crate) proof fn unfold_map_type(p: Input, i: int)
    ensures
        map_type(p, i) == ({
            match token(p, i, TokenView::LBracket) { Failed(e, i) => Failed(e, i), Got(_, i) => {
            match past(p, i, data_type(p, i)) { Failed(e, i) => Failed(e, i), Got(key_type, i) => {
            match token(p, i, TokenView::Op("=>"@)) { Failed(e, i) => Failed(e, i), Got(_, i) => {
            match data_type(p, i) { Failed(e, i) => Failed(e, i), Got(value_type, i) => {
            match token(p, i, TokenView::RBracket) { Failed(e, i) => Failed(e, i), Got(_, i) => {
            Got(TreeView::Node(Kind::MapType, seq![key_type, value_type]), i)
            }}
            }}
            }}
            }}
            }}
        }),
{
    reveal(map_type);
    reveal(data_type);
}

pub(crate) proof fn aligned_map_type(p: Input, larger: Input, ahead: int, i: int)
    requires
        aligned(p, larger, ahead),
        0 <= i <= p.toks.len(),
    ensures
        agrees(p, ahead, i + 1, map_type(p, i), map_type(larger, ahead + i)),
    decreases p.toks.len() - i, 0int,
{
    unfold_map_type(p, i);
    unfold_map_type(larger, ahead + i);
    if let Got(_, i) = token(p, i, TokenView::LBracket) {
        aligned_data_type(p, larger, ahead, i);
        if let Got(key_type, i) = past(p, i, data_type(p, i)) {
            if let Got(_, i) = token(p, i, TokenView::Op("=>"@)) {
                aligned_data_type(p, larger, ahead, i);
            }
        }
    }
}

pub(crate) proof fn unfold_array_expr(p: Input, i: int)
    ensures
        array_expr(p, i) == ({
            if at_token(p, i, TokenView::LParen) {
                let i = i + 1;
                match query(p, i) { Failed(e, i) => Failed(e, i), Got(subquery, i) => {
                match token(p, i, TokenView::RParen) { Failed(e, i) => Failed(e, i), Got(_, i) => {
                Got(TreeView::Node(Kind::ArraySubquery, seq![subquery]), i)
                }}
                }}
            } else {
                match token(p, i, TokenView::LBracket) { Failed(e, i) => Failed(e, i), Got(_, i) => {
                match array_elements(p, i, Seq::<TreeView>::empty()) { Failed(e, i) => Failed(e, i), Got(es, i) => {
                match token(p, i, TokenView::RBracket) { Failed(e, i) => Failed(e, i), Got(_, i) => {
                Got(TreeView::Node(Kind::Array, seq![TreeView::List(es)]), i)
                }}
                }}
                }}
            }
        }),
{
    reveal(array_expr);
    reveal(array_elements);
    reveal(query);
}

pub(crate) proof fn aligned_array_expr(p: Input, larger: Input, ahead: int, i: int)
    requires
        aligned(p, larger, ahead),
        0 <= i <= p.toks.len(),
    ensures
        agrees(p, ahead, i + 1, array_expr(p, i), array_expr(larger, ahead + i)),
    decreases p.toks.len() - i, 0int,
{
    unfold_array_expr(p, i);
    unfold_array_expr(larger, ahead + i);
    if at_token(p, i, TokenView::LParen) {
        let i = i + 1;
        aligned_query(p, larger, ahead, i);
    } else {
        if let Got(_, i) = token(p, i, TokenView::LBracket) {
            aligned_array_elements(p, larger, ahead, i, Seq::<TreeView>::empty());
        }
    }
}

pub(crate) proof fn unfold_array_elements(p: Input, i: int, es: Seq<TreeView>)
    ensures
        array_elements(p, i, es) == ({
            if at_token(p, i, TokenView::RBracket) {
                Got(es, i)
            } else {
                match onward(p, i, {
                    if at_token(p, i, TokenView::LBracket) {
                        array_expr(p, i)
                    } else {
                        expr(p, i)
                    }
                }) { Failed(e, i) => Failed(e, i), Got(e, i) => {
                if at_token(p, i, TokenView::Comma) {
                    let i = i + 1;
                    array_elements(p, i, es.push(e))
                } else {
                    Got(es.push(e), i)
                }
                }}
            }
        }),
{
    reveal(array_elements);
    reveal(array_expr);
    reveal(expr);
}

pub(crate) proof fn aligned_array_elements(p: Input, larger: Input, ahead: int, i: int, es: Seq<TreeView>)
    requires
        aligned(p, larger, ahead),
        0 <= i <= p.toks.len(),
    ensures
        agrees(p, ahead, i, array_elements(p, i, es), array_elements(larger, ahead + i, es)),
    decreases p.toks.len() - i, 4int,
{
    unfold_array_elements(p, i, es);
    unfold_array_elements(larger, ahead + i, es);
    if !at_token(p, i, TokenView::RBracket) {
        if at_token(p, i, TokenView::LBracket) {
            aligned_array_expr(p, larger, ahead, i);
        } else {
            aligned_expr(p, larger, ahead, i);
        }
        let part = {
            if at_token(p, i, TokenView::LBracket) {
                array_expr(p, i)
            } else {
                expr(p, i)
            }
        };
        if let Got(e, i) = onward(p, i, part) {
            if at_token(p, i, TokenView::Comma) {
                let i = i + 1;
                aligned_array_elements(p, larger, ahead, i, es.push(e));
            }
        }
    }
}

pub(crate) proof fn unfold_list_expr(p: Input, i: int)
    ensures
        list_expr(p, i) == ({
            if at_token(p, i, TokenView::LParen) {
                let i = i + 1;
                match query(p, i) { Failed(e, i) => Failed(e, i), Got(subquery, i) => {
                match token(p, i, TokenView::RParen) { Failed(e, i) => Failed(e, i), Got(_, i) => {
                Got(TreeView::Node(Kind::ListSubquery, seq![subquery]), i)
                }}
                }}
            } else {
                match token(p, i, TokenView::LBracket) { Failed(e, i) => Failed(e, i), Got(_, i) => {
                match list_elements(p, i, Seq::<TreeView>::empty()) { Failed(e, i) => Failed(e, i), Got(es, i) => {
                match token(p, i, TokenView::RBracket) { Failed(e, i) => Failed(e, i), Got(_, i) => {
                Got(TreeView::Node(Kind::List, seq![TreeView::List(es)]), i)
                }}
                }}
                }}
            }
        }),
{
    reveal(list_expr);
    reveal(list_elements);
    reveal(query);
}

pub(crate) proof fn aligned_list_expr(p: Input, larger: Input, ahead: int, i: int)
    requires
        aligned(p, larger, ahead),
        0 <= i <= p.toks.len(),
    ensures
        agrees(p, ahead, i + 1, list_expr(p, i), list_expr(larger, ahead + i)),
    decreases p.toks.len() - i, 0int,
{
    unfold_list_expr(p, i);
    unfold_list_expr(larger, ahead + i);
    if at_token(p, i, TokenView::LParen) {
        let i = i + 1;
        aligned_query(p, larger, ahead, i);
    } else {
        if let Got(_, i) = token(p, i, TokenView::LBracket) {
            aligned_list_elements(p, larger, ahead, i, Seq::<TreeView>::empty());
        }
    }
}

pub(crate) proof fn unfold_list_elements(p: Input, i: int, es: Seq<TreeView>)
    ensures
        list_elements(p, i, es) == ({
            if at_token(p, i, TokenView::RBracket) {
                Got(es, i)
            } else {
                match onward(p, i, {
                    if at_token(p, i, TokenView::LBracket) {
                        list_expr(p, i)
                    } else {
                        expr(p, i)
                    }
                }) { Failed(e, i) => Failed(e, i), Got(e, i) => {
                if at_token(p, i, TokenView::Comma) {
                    let i = i + 1;
                    list_elements(p, i, es.push(e))
                } else {
                    Got(es.push(e), i)
                }
                }}
            }
        }),
{
    reveal(list_elements);
    reveal(expr);
    reveal(list_expr);
}

pub(crate) proof fn aligned_list_elements(p: Input, larger: Input, ahead: int, i: int, es: Seq<TreeView>)
    requires
        aligned(p, larger, ahead),
        0 <= i <= p.toks.len(),
    ensures
        agrees(p, ahead, i, list_elements(p, i, es), list_elements(larger, ahead + i, es)),
    decreases p.toks.len() - i, 4int,
{
    unfold_list_elements(p, i, es);
    unfold_list_elements(larger, ahead + i, es);
    if !at_token(p, i, TokenView::RBracket) {
        if at_token(p, i, TokenView::LBracket) {
            aligned_list_expr(p, larger, ahead, i);
        } else {
            aligned_expr(p, larger, ahead, i);
        }
        let part = {
            if at_token(p, i, TokenView::LBracket) {
                list_expr(p, i)
            } else {
                expr(p, i)
            }
        };
        if let Got(e, i) = onward(p, i, part) {
            if at_token(p, i, TokenView::Comma) {
                let i = i + 1;
                aligned_list_elements(p, larger, ahead, i, es.push(e));
            }
        }
    }
}

} // verus!
