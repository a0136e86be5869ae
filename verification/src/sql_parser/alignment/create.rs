//! How `CREATE` statements are read inside of larger texts.

use vstd::prelude::*;

use crate::sql_parser::alignment::expr::{aligned_composite_type_definition, aligned_expr};
use crate::sql_parser::alignment::names::{
    aligned_data_type, aligned_database_name, aligned_deferred_item_name, aligned_identifier,
    aligned_identifier_list, aligned_item_name, aligned_literal_int, aligned_literal_string,
    aligned_literal_uint, aligned_parenthesized_column_list, aligned_raw_name, aligned_schema_name,
};
use crate::sql_parser::alignment::options::{
    aligned_data_type_option_value, aligned_name_sequence, aligned_object_option_value,
    aligned_optional_option_value,
};
use crate::sql_parser::alignment::query::{aligned_order_by_expr_list, aligned_query};
use crate::sql_parser::alignment::show::aligned_optional_in_cluster;
use crate::sql_parser::alignment::{agrees, aligned, weakly_agrees};
use crate::sql_parser::checks::first_children;
use crate::sql_parser::create::{
    avro_schema, avro_schema_option, avro_schema_option_list, aws_connection_option,
    aws_connection_option_list, aws_privatelink_connection_option,
    aws_privatelink_connection_option_list, cluster_option, cluster_option_list, column_def,
    column_list, column_option_def, column_options, columns, create, create_cluster,
    create_cluster_replica, create_connection, create_database, create_index,
    create_materialized_view, create_role, create_schema, create_secret, create_sink,
    create_sink_connection, create_sink_option, create_sink_option_list, create_sink_option_name,
    create_sink_option_name_list, create_source, create_source_connection, create_subsource,
    create_subsource_option, create_subsource_option_list, create_subsource_option_name,
    create_table, create_type, create_type_list_option, create_type_list_option_list,
    create_type_map_option, create_type_map_option_list, create_view, csr_config_option,
    csr_config_option_list, csr_connection_avro, csr_connection_option, csr_connection_option_list,
    csr_connection_proto, csr_connection_reference, csv_header, envelope, if_exists,
    if_exists_behavior, if_not_exists, index_option, index_option_list, index_option_name,
    index_option_name_list, kafka_broker, kafka_broker_aws_private_link_option,
    kafka_broker_aws_private_link_option_list, kafka_broker_list, kafka_config_option,
    kafka_config_option_list, kafka_connection_option, kafka_connection_option_list,
    kafka_connection_reference, key_constraint, load_generator_option, load_generator_option_list,
    open_paren, optional_table_constraint, or_replace, pg_connection_option,
    pg_connection_option_list, postgres_connection_option, postgres_connection_option_list,
    protobuf_schema, raw_ident, replica_definition, replica_definition_list, replica_option,
    replica_option_list, role_attributes, schema_strategy, source_column_list, source_columns,
    source_include_metadata, source_metadata, source_metadata_list, source_option,
    source_option_list, source_option_name, source_option_name_list, ssh_connection_option,
    ssh_connection_option_list, ssl_option_name, subsource_references, subsource_references_list,
    temporary, using_arrangement, view_definition,
};
use crate::sql_parser::keywords::{Keyword, keyword_ident};
use crate::sql_parser::kind::Kind;
use crate::sql_parser::names::{
    data_type, deferred_item_name, identifier, identifier_list, item_name, literal_string,
    literal_uint, parenthesized_column_list, raw_name,
};
use crate::sql_parser::outcome::Out::{Failed, Got};
use crate::sql_parser::outcome::{FailureView, error_view};
use crate::sql_parser::parser::{
    Input, at_keyword, at_keywords2, at_keywords3, at_keywords4, at_token, expected_at, keyword,
    one_keyword, one_of, onward, past, position, token, token_at,
};
use crate::sql_parser::query::order_by_expr_list;
use crate::sql_parser::show::optional_in_cluster;
use crate::sql_parser::syntax::TreeView;
use crate::sql_parser::text::no_text;
use crate::sql_parser::token::{Token, TokenView};

verus! {

pub(crate) proof fn aligned_create(p: Input, larger: Input, ahead: int, i: int)
    requires
        aligned(p, larger, ahead),
        0 <= i <= p.toks.len(),
    ensures
        agrees(p, ahead, i + 1, create(p, i), create(larger, ahead + i)),
{
    reveal(create);
    if at_keyword(p, i, Keyword::DATABASE) {
        aligned_create_database(p, larger, ahead, i);
    } else {
        if at_keyword(p, i, Keyword::SCHEMA) {
            aligned_create_schema(p, larger, ahead, i);
        } else {
            if at_keyword(p, i, Keyword::SINK) {
                aligned_create_sink(p, larger, ahead, i);
            } else {
                if at_keyword(p, i, Keyword::TYPE) {
                    aligned_create_type(p, larger, ahead, i);
                } else {
                    if at_keyword(p, i, Keyword::ROLE) {
                        aligned_create_role(p, larger, ahead, i);
                    } else {
                        if at_keyword(p, i, Keyword::CLUSTER) {
                            let i = i + 1;
                            if at_keyword(p, i, Keyword::REPLICA) {
                                aligned_create_cluster_replica(p, larger, ahead, i);
                            } else {
                                aligned_create_cluster(p, larger, ahead, i);
                            }
                        } else {
                            if at_keyword(p, i, Keyword::INDEX) {
                                aligned_create_index(p, larger, ahead, i);
                            } else {
                                if at_keywords2(p, i, Keyword::DEFAULT, Keyword::INDEX) {
                                    aligned_create_index(p, larger, ahead, i);
                                } else {
                                    if at_keyword(p, i, Keyword::SOURCE) {
                                        aligned_create_source(p, larger, ahead, i);
                                    } else {
                                        if at_keyword(p, i, Keyword::SUBSOURCE) {
                                            aligned_create_subsource(p, larger, ahead, i);
                                        } else {
                                            if at_keyword(p, i, Keyword::TABLE) {
                                                aligned_create_table(p, larger, ahead, i);
                                            } else {
                                                if at_keywords2(p, i, Keyword::TEMP, Keyword::TABLE) {
                                                    aligned_create_table(p, larger, ahead, i);
                                                } else {
                                                    if at_keywords2(p, i, Keyword::TEMPORARY, Keyword::TABLE) {
                                                        aligned_create_table(p, larger, ahead, i);
                                                    } else {
                                                        if at_keyword(p, i, Keyword::SECRET) {
                                                            aligned_create_secret(p, larger, ahead, i);
                                                        } else {
                                                            if at_keyword(p, i, Keyword::CONNECTION) {
                                                                aligned_create_connection(p, larger, ahead, i);
                                                            } else {
                                                                if at_keywords2(p, i, Keyword::MATERIALIZED, Keyword::VIEW) {
                                                                    aligned_create_materialized_view(p, larger, ahead, i);
                                                                } else {
                                                                    if at_keywords4(p, i, Keyword::OR, Keyword::REPLACE, Keyword::MATERIALIZED, Keyword::VIEW) {
                                                                        aligned_create_materialized_view(p, larger, ahead, i);
                                                                    } else {
                                                                        if !at_keyword(p, i, Keyword::USER) {
                                                                            let start = i;
                                                                            let i = if at_keywords2(p, i, Keyword::OR, Keyword::REPLACE) { i + 2 } else { i };
                                                                            if let Some(_) = one_of(p, i, seq![Keyword::TEMP, Keyword::TEMPORARY]) {
                                                                                let i = i + 1;
                                                                                if at_keyword(p, i, Keyword::VIEW) {
                                                                                    let i = i + 1;
                                                                                    let i = start;
                                                                                    aligned_create_view(p, larger, ahead, i);
                                                                                }
                                                                            } else {
                                                                                if at_keyword(p, i, Keyword::VIEW) {
                                                                                    let i = i + 1;
                                                                                    let i = start;
                                                                                    aligned_create_view(p, larger, ahead, i);
                                                                                }
                                                                            }
                                                                        }
                                                                    }
                                                                }
                                                            }
                                                        }
                                                    }
                                                }
                                            }
                                        }
                                    }
                                }
                            }
                        }
                    }
                }
            }
        }
    }
}

pub(crate) proof fn aligned_create_database(p: Input, larger: Input, ahead: int, i: int)
    requires
        aligned(p, larger, ahead),
        0 <= i <= p.toks.len(),
    ensures
        agrees(p, ahead, i + 1, create_database(p, i), create_database(larger, ahead + i)),
{
    reveal(create_database);
    if let Got(_, i) = keyword(p, i, Keyword::DATABASE) {
        aligned_if_not_exists(p, larger, ahead, i);
        if let Got(if_not_exists, i) = if_not_exists(p, i) {
            aligned_database_name(p, larger, ahead, i);
        }
    }
}

pub(crate) proof fn aligned_create_schema(p: Input, larger: Input, ahead: int, i: int)
    requires
        aligned(p, larger, ahead),
        0 <= i <= p.toks.len(),
    ensures
        agrees(p, ahead, i + 1, create_schema(p, i), create_schema(larger, ahead + i)),
{
    reveal(create_schema);
    if let Got(_, i) = keyword(p, i, Keyword::SCHEMA) {
        aligned_if_not_exists(p, larger, ahead, i);
        if let Got(if_not_exists, i) = if_not_exists(p, i) {
            aligned_schema_name(p, larger, ahead, i);
        }
    }
}

pub(crate) proof fn aligned_if_exists(p: Input, larger: Input, ahead: int, i: int)
    requires
        aligned(p, larger, ahead),
        0 <= i <= p.toks.len(),
    ensures
        agrees(p, ahead, i, if_exists(p, i), if_exists(larger, ahead + i)),
{
    reveal(if_exists);
}

pub(crate) proof fn aligned_if_not_exists(p: Input, larger: Input, ahead: int, i: int)
    requires
        aligned(p, larger, ahead),
        0 <= i <= p.toks.len(),
    ensures
        agrees(p, ahead, i, if_not_exists(p, i), if_not_exists(larger, ahead + i)),
{
    reveal(if_not_exists);
}

pub(crate) proof fn aligned_csv_header(p: Input, larger: Input, ahead: int, i: int)
    requires
        aligned(p, larger, ahead),
        0 <= i <= p.toks.len(),
    ensures
        agrees(p, ahead, i, csv_header(p, i), csv_header(larger, ahead + i)),
{
    reveal(csv_header);
    aligned_parenthesized_column_list(p, larger, ahead, i, false);
}

pub(crate) proof fn aligned_format(p: Input, larger: Input, ahead: int, i: int)
    requires
        aligned(p, larger, ahead),
        0 <= i <= p.toks.len(),
    ensures
        agrees(p, ahead, i + 1, crate::sql_parser::create::format(p, i), crate::sql_parser::create::format(larger, ahead + i)),
{
    reveal(crate::sql_parser::create::format);
    if at_keyword(p, i, Keyword::AVRO) {
        let i = i + 1;
        if let Got(_, i) = keyword(p, i, Keyword::USING) {
            aligned_avro_schema(p, larger, ahead, i);
        }
    } else {
        if at_keyword(p, i, Keyword::PROTOBUF) {
            let i = i + 1;
            aligned_protobuf_schema(p, larger, ahead, i);
        } else {
            if at_keyword(p, i, Keyword::REGEX) {
                let i = i + 1;
                aligned_literal_string(p, larger, ahead, i);
            } else {
                if at_keyword(p, i, Keyword::CSV) {
                    let i = i + 1;
                    if let Got(_, i) = keyword(p, i, Keyword::WITH) {
                        if at_keyword(p, i, Keyword::HEADER) {
                            let i = i + 1;
                            aligned_csv_header(p, larger, ahead, i);
                        } else {
                            if at_keyword(p, i, Keyword::HEADERS) {
                                let i = i + 1;
                                aligned_csv_header(p, larger, ahead, i);
                            } else {
                                aligned_literal_uint(p, larger, ahead, i);
                            }
                        }
                        let part = {
                            if at_keyword(p, i, Keyword::HEADER) {
                                let i = i + 1;
                                csv_header(p, i)
                            } else {
                                if at_keyword(p, i, Keyword::HEADERS) {
                                    let i = i + 1;
                                    csv_header(p, i)
                                } else {
                                    match literal_uint(p, i) { Failed(e, i) => Failed(e, i), Got(n_cols, i) => {
                                    match keyword(p, i, Keyword::COLUMNS) { Failed(e, i) => Failed(e, i), Got(_, i) => {
                                    Got(TreeView::Node(Kind::CsvCount, seq![TreeView::Num(n_cols)]), i)
                                    }}
                                    }}
                                }
                            }
                        };
                        if let Got(columns, i) = part {
                            if at_keywords2(p, i, Keyword::DELIMITED, Keyword::BY) {
                                let i = i + 2;
                                aligned_literal_string(p, larger, ahead, i);
                            }
                        }
                    }
                }
            }
        }
    }
}

pub(crate) proof fn aligned_avro_schema(p: Input, larger: Input, ahead: int, i: int)
    requires
        aligned(p, larger, ahead),
        0 <= i <= p.toks.len(),
    ensures
        agrees(p, ahead, i + 1, avro_schema(p, i), avro_schema(larger, ahead + i)),
{
    reveal(avro_schema);
    if at_keywords3(p, i, Keyword::CONFLUENT, Keyword::SCHEMA, Keyword::REGISTRY) {
        let i = i + 3;
        aligned_csr_connection_avro(p, larger, ahead, i);
    } else {
        if at_keyword(p, i, Keyword::SCHEMA) {
            let i = i + 1;
            aligned_literal_string(p, larger, ahead, i);
            if let Got(schema, i) = literal_string(p, i) {
                if at_token(p, i, TokenView::LParen) {
                    let i = i + 1;
                    aligned_avro_schema_option_list(p, larger, ahead, i, Seq::<TreeView>::empty());
                }
            }
        }
    }
}

pub(crate) proof fn aligned_avro_schema_option(p: Input, larger: Input, ahead: int, i: int)
    requires
        aligned(p, larger, ahead),
        0 <= i <= p.toks.len(),
    ensures
        agrees(p, ahead, i + 1, avro_schema_option(p, i), avro_schema_option(larger, ahead + i)),
{
    reveal(avro_schema_option);
    if at_keywords3(p, i, Keyword::CONFLUENT, Keyword::WIRE, Keyword::FORMAT) {
        let i = i + 3;
        aligned_optional_option_value(p, larger, ahead, i);
    }
}

pub(crate) proof fn unfold_avro_schema_option_list(p: Input, i: int, items: Seq<TreeView>)
    ensures
        avro_schema_option_list(p, i, items) == ({
            match past(p, i, avro_schema_option(p, i)) { Failed(e, i) => Failed(e, i), Got(item, i) => {
            if at_token(p, i, TokenView::Comma) {
                let i = i + 1;
                avro_schema_option_list(p, i, items.push(item))
            } else {
                Got(items.push(item), i)
            }
            }}
        }),
{
    reveal(avro_schema_option_list);
}

pub(crate) proof fn aligned_avro_schema_option_list(p: Input, larger: Input, ahead: int, i: int, items: Seq<TreeView>)
    requires
        aligned(p, larger, ahead),
        0 <= i <= p.toks.len(),
    ensures
        agrees(p, ahead, i + 1, avro_schema_option_list(p, i, items), avro_schema_option_list(larger, ahead + i, items)),
    decreases p.toks.len() - i, 0int,
{
    unfold_avro_schema_option_list(p, i, items);
    unfold_avro_schema_option_list(larger, ahead + i, items);
    aligned_avro_schema_option(p, larger, ahead, i);
    if let Got(item, i) = past(p, i, avro_schema_option(p, i)) {
        if at_token(p, i, TokenView::Comma) {
            let i = i + 1;
            aligned_avro_schema_option_list(p, larger, ahead, i, items.push(item));
        }
    }
}

pub(crate) proof fn aligned_protobuf_schema(p: Input, larger: Input, ahead: int, i: int)
    requires
        aligned(p, larger, ahead),
        0 <= i <= p.toks.len(),
    ensures
        agrees(p, ahead, i + 1, protobuf_schema(p, i), protobuf_schema(larger, ahead + i)),
{
    reveal(protobuf_schema);
    if at_keywords4(p, i, Keyword::USING, Keyword::CONFLUENT, Keyword::SCHEMA, Keyword::REGISTRY) {
        let i = i + 4;
        aligned_csr_connection_proto(p, larger, ahead, i);
    } else {
        if at_keyword(p, i, Keyword::MESSAGE) {
            let i = i + 1;
            aligned_literal_string(p, larger, ahead, i);
            if let Got(message_name, i) = literal_string(p, i) {
                if let Got(_, i) = keyword(p, i, Keyword::USING) {
                    if let Got(_, i) = keyword(p, i, Keyword::SCHEMA) {
                        aligned_literal_string(p, larger, ahead, i);
                    }
                }
            }
        }
    }
}

pub(crate) proof fn aligned_csr_connection_reference(p: Input, larger: Input, ahead: int, i: int)
    requires
        aligned(p, larger, ahead),
        0 <= i <= p.toks.len(),
    ensures
        agrees(p, ahead, i + 1, csr_connection_reference(p, i), csr_connection_reference(larger, ahead + i)),
{
    reveal(csr_connection_reference);
    if let Got(_, i) = keyword(p, i, Keyword::CONNECTION) {
        aligned_raw_name(p, larger, ahead, i);
        if let Got(connection, i) = raw_name(p, i) {
            if at_token(p, i, TokenView::LParen) {
                let i = i + 1;
                aligned_csr_config_option_list(p, larger, ahead, i, Seq::<TreeView>::empty());
            }
        }
    }
}

pub(crate) proof fn aligned_csr_config_option(p: Input, larger: Input, ahead: int, i: int)
    requires
        aligned(p, larger, ahead),
        0 <= i <= p.toks.len(),
    ensures
        agrees(p, ahead, i + 1, csr_config_option(p, i), csr_config_option(larger, ahead + i)),
{
    reveal(csr_config_option);
    if let Got(k, i) = one_keyword(p, i, seq![Keyword::AVRO]) {
        if let Got(which, i) = one_keyword(p, i, seq![Keyword::KEY, Keyword::VALUE]) {
            if let Got(_, i) = keyword(p, i, Keyword::FULLNAME) {
                aligned_optional_option_value(p, larger, ahead, i);
            }
        }
    }
}

pub(crate) proof fn unfold_csr_config_option_list(p: Input, i: int, items: Seq<TreeView>)
    ensures
        csr_config_option_list(p, i, items) == ({
            match past(p, i, csr_config_option(p, i)) { Failed(e, i) => Failed(e, i), Got(item, i) => {
            if at_token(p, i, TokenView::Comma) {
                let i = i + 1;
                csr_config_option_list(p, i, items.push(item))
            } else {
                Got(items.push(item), i)
            }
            }}
        }),
{
    reveal(csr_config_option_list);
}

pub(crate) proof fn aligned_csr_config_option_list(p: Input, larger: Input, ahead: int, i: int, items: Seq<TreeView>)
    requires
        aligned(p, larger, ahead),
        0 <= i <= p.toks.len(),
    ensures
        agrees(p, ahead, i + 1, csr_config_option_list(p, i, items), csr_config_option_list(larger, ahead + i, items)),
    decreases p.toks.len() - i, 0int,
{
    unfold_csr_config_option_list(p, i, items);
    unfold_csr_config_option_list(larger, ahead + i, items);
    aligned_csr_config_option(p, larger, ahead, i);
    if let Got(item, i) = past(p, i, csr_config_option(p, i)) {
        if at_token(p, i, TokenView::Comma) {
            let i = i + 1;
            aligned_csr_config_option_list(p, larger, ahead, i, items.push(item));
        }
    }
}

pub(crate) proof fn aligned_schema_strategy(p: Input, larger: Input, ahead: int, i: int)
    requires
        aligned(p, larger, ahead),
        0 <= i <= p.toks.len(),
    ensures
        agrees(p, ahead, i + 1, schema_strategy(p, i), schema_strategy(larger, ahead + i)),
{
    reveal(schema_strategy);
    if let Got(k, i) = one_keyword(p, i, seq![Keyword::ID, Keyword::LATEST, Keyword::INLINE]) {
        match k {
            Keyword::ID => {
                let at = position(p, i);
                aligned_literal_int(p, larger, ahead, i);
            },
            Keyword::LATEST => {},
            _ => {
                aligned_literal_string(p, larger, ahead, i);
            },
        }
    }
}

pub(crate) proof fn aligned_csr_connection_avro(p: Input, larger: Input, ahead: int, i: int)
    requires
        aligned(p, larger, ahead),
        0 <= i <= p.toks.len(),
    ensures
        agrees(p, ahead, i + 1, csr_connection_avro(p, i), csr_connection_avro(larger, ahead + i)),
{
    reveal(csr_connection_avro);
    aligned_csr_connection_reference(p, larger, ahead, i);
    if let Got(connection, i) = csr_connection_reference(p, i) {
        if at_keyword(p, i, Keyword::SEED) {
            let i = i + 1;
            if at_keyword(p, i, Keyword::KEY) {
                let i = i + 1;
                if let Got(_, i) = keyword(p, i, Keyword::SCHEMA) {
                    aligned_literal_string(p, larger, ahead, i);
                }
            }
            let part = {
                if at_keyword(p, i, Keyword::KEY) {
                    let i = i + 1;
                    match keyword(p, i, Keyword::SCHEMA) { Failed(e, i) => Failed(e, i), Got(_, i) => {
                    match literal_string(p, i) { Failed(e, i) => Failed(e, i), Got(s, i) => {
                    Got(TreeView::Text(s), i)
                    }}
                    }}
                } else {
                    Got(TreeView::Absent, i)
                }
            };
            if let Got(key_schema, i) = part {
                if at_keywords2(p, i, Keyword::VALUE, Keyword::SCHEMA) {
                    let i = i + 2;
                    aligned_literal_string(p, larger, ahead, i);
                }
            }
        }
        let part = {
            if at_keyword(p, i, Keyword::SEED) {
                let i = i + 1;
                match {
                    if at_keyword(p, i, Keyword::KEY) {
                        let i = i + 1;
                        match keyword(p, i, Keyword::SCHEMA) { Failed(e, i) => Failed(e, i), Got(_, i) => {
                        match literal_string(p, i) { Failed(e, i) => Failed(e, i), Got(s, i) => {
                        Got(TreeView::Text(s), i)
                        }}
                        }}
                    } else {
                        Got(TreeView::Absent, i)
                    }
                } { Failed(e, i) => Failed(e, i), Got(key_schema, i) => {
                match keyword(p, i, Keyword::VALUE) { Failed(e, i) => Failed(e, i), Got(_, i) => {
                match keyword(p, i, Keyword::SCHEMA) { Failed(e, i) => Failed(e, i), Got(_, i) => {
                match literal_string(p, i) { Failed(e, i) => Failed(e, i), Got(value_schema, i) => {
                Got(TreeView::Node(Kind::CsrSeedAvro, seq![key_schema, TreeView::Text(value_schema)]), i)
                }}
                }}}}
                }}
            } else {
                Got(TreeView::Absent, i)
            }
        };
        if let Got(seed, i) = part {
            if at_keywords2(p, i, Keyword::KEY, Keyword::STRATEGY) {
                let i = i + 2;
                aligned_schema_strategy(p, larger, ahead, i);
            }
            let part = {
                if at_keywords2(p, i, Keyword::KEY, Keyword::STRATEGY) {
                    let i = i + 2;
                    schema_strategy(p, i)
                } else {
                    Got(TreeView::Absent, i)
                }
            };
            if let Got(key_strategy, i) = part {
                if at_keywords2(p, i, Keyword::VALUE, Keyword::STRATEGY) {
                    let i = i + 2;
                    aligned_schema_strategy(p, larger, ahead, i);
                }
            }
        }
    }
}

pub(crate) proof fn aligned_csr_connection_proto(p: Input, larger: Input, ahead: int, i: int)
    requires
        aligned(p, larger, ahead),
        0 <= i <= p.toks.len(),
    ensures
        agrees(p, ahead, i + 1, csr_connection_proto(p, i), csr_connection_proto(larger, ahead + i)),
{
    reveal(csr_connection_proto);
    aligned_csr_connection_reference(p, larger, ahead, i);
    if let Got(connection, i) = csr_connection_reference(p, i) {
        if at_keyword(p, i, Keyword::SEED) {
            let i = i + 1;
            if at_keyword(p, i, Keyword::KEY) {
                let i = i + 1;
                if let Got(_, i) = keyword(p, i, Keyword::SCHEMA) {
                    aligned_literal_string(p, larger, ahead, i);
                    if let Got(schema, i) = literal_string(p, i) {
                        if let Got(_, i) = keyword(p, i, Keyword::MESSAGE) {
                            aligned_literal_string(p, larger, ahead, i);
                        }
                    }
                }
            }
            let part = {
                if at_keyword(p, i, Keyword::KEY) {
                    let i = i + 1;
                    match keyword(p, i, Keyword::SCHEMA) { Failed(e, i) => Failed(e, i), Got(_, i) => {
                    match literal_string(p, i) { Failed(e, i) => Failed(e, i), Got(schema, i) => {
                    match keyword(p, i, Keyword::MESSAGE) { Failed(e, i) => Failed(e, i), Got(_, i) => {
                    match literal_string(p, i) { Failed(e, i) => Failed(e, i), Got(message_name, i) => {
                    Got(TreeView::Node(Kind::CsrSeedProtobufSchema, seq![TreeView::Text(schema), TreeView::Text(message_name)]), i)
                    }}
                    }}
                    }}
                    }}
                } else {
                    Got(TreeView::Absent, i)
                }
            };
            if let Got(key, i) = part {
                if at_keywords2(p, i, Keyword::VALUE, Keyword::SCHEMA) {
                    let i = i + 2;
                    aligned_literal_string(p, larger, ahead, i);
                    if let Got(value_schema, i) = literal_string(p, i) {
                        if let Got(_, i) = keyword(p, i, Keyword::MESSAGE) {
                            aligned_literal_string(p, larger, ahead, i);
                        }
                    }
                }
            }
        }
    }
}

pub(crate) proof fn aligned_envelope(p: Input, larger: Input, ahead: int, i: int)
    requires
        aligned(p, larger, ahead),
        0 <= i <= p.toks.len(),
    ensures
        agrees(p, ahead, i + 1, envelope(p, i), envelope(larger, ahead + i)),
{
    reveal(envelope);
}

pub(crate) proof fn aligned_open_paren(p: Input, larger: Input, ahead: int, i: int, due: bool)
    requires
        aligned(p, larger, ahead),
        0 <= i <= p.toks.len(),
    ensures
        agrees(p, ahead, i, open_paren(p, i, due), open_paren(larger, ahead + i, due)),
{
    reveal(open_paren);
}

pub(crate) proof fn aligned_create_connection(p: Input, larger: Input, ahead: int, i: int)
    requires
        aligned(p, larger, ahead),
        0 <= i <= p.toks.len(),
    ensures
        agrees(p, ahead, i + 1, create_connection(p, i), create_connection(larger, ahead + i)),
{
    reveal(create_connection);
    if let Got(_, i) = keyword(p, i, Keyword::CONNECTION) {
        aligned_if_not_exists(p, larger, ahead, i);
        if let Got(if_not_exists, i) = if_not_exists(p, i) {
            aligned_item_name(p, larger, ahead, i);
            if let Got(name, i) = item_name(p, i) {
                if let Got(k, i) = one_keyword(p, i, seq![Keyword::FOR, Keyword::TO]) {
                    let paren = k == Keyword::TO;
                    if let Got(what, i) = one_keyword(p, i, seq![Keyword::AWS, Keyword::KAFKA, Keyword::CONFLUENT, Keyword::POSTGRES, Keyword::SSH]) {
                        match what {
                            Keyword::AWS => {
                                if at_keyword(p, i, Keyword::PRIVATELINK) {
                                    let i = i + 1;
                                    aligned_open_paren(p, larger, ahead, i, paren);
                                    if let Got(_, i) = open_paren(p, i, paren) {
                                        aligned_aws_privatelink_connection_option_list(p, larger, ahead, i, Seq::<TreeView>::empty());
                                    }
                                } else {
                                    aligned_open_paren(p, larger, ahead, i, paren);
                                    if let Got(_, i) = open_paren(p, i, paren) {
                                        aligned_aws_connection_option_list(p, larger, ahead, i, Seq::<TreeView>::empty());
                                    }
                                }
                            },
                            Keyword::KAFKA => {
                                aligned_open_paren(p, larger, ahead, i, paren);
                                if let Got(_, i) = open_paren(p, i, paren) {
                                    aligned_kafka_connection_option_list(p, larger, ahead, i, Seq::<TreeView>::empty());
                                }
                            },
                            Keyword::CONFLUENT => {
                                if at_keywords2(p, i, Keyword::SCHEMA, Keyword::REGISTRY) {
                                    let i = i + 2;
                                    aligned_open_paren(p, larger, ahead, i, paren);
                                    if let Got(_, i) = open_paren(p, i, paren) {
                                        aligned_csr_connection_option_list(p, larger, ahead, i, Seq::<TreeView>::empty());
                                    }
                                }
                            },
                            Keyword::POSTGRES => {
                                aligned_open_paren(p, larger, ahead, i, paren);
                                if let Got(_, i) = open_paren(p, i, paren) {
                                    aligned_postgres_connection_option_list(p, larger, ahead, i, Seq::<TreeView>::empty());
                                }
                            },
                            _ => {
                                if let Got(_, i) = keyword(p, i, Keyword::TUNNEL) {
                                    aligned_open_paren(p, larger, ahead, i, paren);
                                    if let Got(_, i) = open_paren(p, i, paren) {
                                        aligned_ssh_connection_option_list(p, larger, ahead, i, Seq::<TreeView>::empty());
                                    }
                                }
                            },
                        }
                    }
                }
            }
        }
    }
}

pub(crate) proof fn aligned_kafka_connection_option(p: Input, larger: Input, ahead: int, i: int)
    requires
        aligned(p, larger, ahead),
        0 <= i <= p.toks.len(),
    ensures
        agrees(p, ahead, i + 1, kafka_connection_option(p, i), kafka_connection_option(larger, ahead + i)),
{
    reveal(kafka_connection_option);
    if let Got(k, i) = one_keyword(p, i, seq![Keyword::BROKER, Keyword::BROKERS, Keyword::PROGRESS, Keyword::SASL, Keyword::SSL]) {
        match k {
            Keyword::BROKER => {
                aligned_kafka_broker(p, larger, ahead, i);
            },
            Keyword::BROKERS => {
                let i = if at_token(p, i, TokenView::Eq) { i + 1 } else { i };
                if at_token(p, i, TokenView::LParen) {
                    let i = i + 1;
                    aligned_kafka_broker_list(p, larger, ahead, i, Seq::<TreeView>::empty());
                } else {
                    if at_token(p, i, TokenView::LBracket) {
                        let i = i + 1;
                        aligned_kafka_broker_list(p, larger, ahead, i, Seq::<TreeView>::empty());
                    }
                }
            },
            Keyword::PROGRESS => {
                if let Got(_, i) = keyword(p, i, Keyword::TOPIC) {
                    aligned_optional_option_value(p, larger, ahead, i);
                }
            },
            Keyword::SASL => {
                if let Got(which, i) = one_keyword(p, i, seq![Keyword::MECHANISMS, Keyword::PASSWORD, Keyword::USERNAME]) {
                    aligned_optional_option_value(p, larger, ahead, i);
                }
            },
            _ => {
                if let Got(which, i) = one_keyword(p, i, seq![Keyword::KEY, Keyword::CERTIFICATE]) {
                    let part = {
                        match which {
                            Keyword::KEY => {
                                Got(TreeView::Node(Kind::SslKey, Seq::<TreeView>::empty()), i)
                            },
                            _ => {
                                if at_keyword(p, i, Keyword::AUTHORITY) {
                                    let i = i + 1;
                                    Got(TreeView::Node(Kind::SslCertificateAuthority, Seq::<TreeView>::empty()), i)
                                } else {
                                    Got(TreeView::Node(Kind::SslCertificate, Seq::<TreeView>::empty()), i)
                                }
                            },
                        }
                    };
                    if let Got(name, i) = part {
                        aligned_optional_option_value(p, larger, ahead, i);
                    }
                }
            },
        }
    }
}

pub(crate) proof fn unfold_kafka_connection_option_list(p: Input, i: int, items: Seq<TreeView>)
    ensures
        kafka_connection_option_list(p, i, items) == ({
            match past(p, i, kafka_connection_option(p, i)) { Failed(e, i) => Failed(e, i), Got(item, i) => {
            if at_token(p, i, TokenView::Comma) {
                let i = i + 1;
                kafka_connection_option_list(p, i, items.push(item))
            } else {
                Got(items.push(item), i)
            }
            }}
        }),
{
    reveal(kafka_connection_option_list);
}

pub(crate) proof fn aligned_kafka_connection_option_list(p: Input, larger: Input, ahead: int, i: int, items: Seq<TreeView>)
    requires
        aligned(p, larger, ahead),
        0 <= i <= p.toks.len(),
    ensures
        agrees(p, ahead, i + 1, kafka_connection_option_list(p, i, items), kafka_connection_option_list(larger, ahead + i, items)),
    decreases p.toks.len() - i, 0int,
{
    unfold_kafka_connection_option_list(p, i, items);
    unfold_kafka_connection_option_list(larger, ahead + i, items);
    aligned_kafka_connection_option(p, larger, ahead, i);
    if let Got(item, i) = past(p, i, kafka_connection_option(p, i)) {
        if at_token(p, i, TokenView::Comma) {
            let i = i + 1;
            aligned_kafka_connection_option_list(p, larger, ahead, i, items.push(item));
        }
    }
}

pub(crate) proof fn aligned_kafka_broker(p: Input, larger: Input, ahead: int, i: int)
    requires
        aligned(p, larger, ahead),
        0 <= i <= p.toks.len(),
    ensures
        agrees(p, ahead, i + 1, kafka_broker(p, i), kafka_broker(larger, ahead + i)),
{
    reveal(kafka_broker);
    let i = if at_token(p, i, TokenView::Eq) { i + 1 } else { i };
    aligned_literal_string(p, larger, ahead, i);
    if let Got(address, i) = literal_string(p, i) {
        if at_keyword(p, i, Keyword::USING) {
            let i = i + 1;
            if let Got(k, i) = one_keyword(p, i, seq![Keyword::AWS, Keyword::SSH]) {
                match k {
                    Keyword::AWS => {
                        if let Got(_, i) = keyword(p, i, Keyword::PRIVATELINK) {
                            aligned_raw_name(p, larger, ahead, i);
                            if let Got(connection, i) = raw_name(p, i) {
                                if at_token(p, i, TokenView::LParen) {
                                    let i = i + 1;
                                    aligned_kafka_broker_aws_private_link_option_list(p, larger, ahead, i, Seq::<TreeView>::empty());
                                }
                            }
                        }
                    },
                    _ => {
                        if let Got(_, i) = keyword(p, i, Keyword::TUNNEL) {
                            aligned_raw_name(p, larger, ahead, i);
                        }
                    },
                }
            }
        }
    }
}

pub(crate) proof fn unfold_kafka_broker_list(p: Input, i: int, items: Seq<TreeView>)
    ensures
        kafka_broker_list(p, i, items) == ({
            match past(p, i, kafka_broker(p, i)) { Failed(e, i) => Failed(e, i), Got(item, i) => {
            if at_token(p, i, TokenView::Comma) {
                let i = i + 1;
                kafka_broker_list(p, i, items.push(item))
            } else {
                Got(items.push(item), i)
            }
            }}
        }),
{
    reveal(kafka_broker_list);
}

pub(crate) proof fn aligned_kafka_broker_list(p: Input, larger: Input, ahead: int, i: int, items: Seq<TreeView>)
    requires
        aligned(p, larger, ahead),
        0 <= i <= p.toks.len(),
    ensures
        agrees(p, ahead, i + 1, kafka_broker_list(p, i, items), kafka_broker_list(larger, ahead + i, items)),
    decreases p.toks.len() - i, 0int,
{
    unfold_kafka_broker_list(p, i, items);
    unfold_kafka_broker_list(larger, ahead + i, items);
    aligned_kafka_broker(p, larger, ahead, i);
    if let Got(item, i) = past(p, i, kafka_broker(p, i)) {
        if at_token(p, i, TokenView::Comma) {
            let i = i + 1;
            aligned_kafka_broker_list(p, larger, ahead, i, items.push(item));
        }
    }
}

pub(crate) proof fn aligned_kafka_broker_aws_private_link_option(p: Input, larger: Input, ahead: int, i: int)
    requires
        aligned(p, larger, ahead),
        0 <= i <= p.toks.len(),
    ensures
        agrees(p, ahead, i + 1, kafka_broker_aws_private_link_option(p, i), kafka_broker_aws_private_link_option(larger, ahead + i)),
{
    reveal(kafka_broker_aws_private_link_option);
    if let Got(k, i) = one_keyword(p, i, seq![Keyword::AVAILABILITY, Keyword::PORT]) {
        match k {
            Keyword::AVAILABILITY => {
                if let Got(_, i) = keyword(p, i, Keyword::ZONE) {
                    aligned_optional_option_value(p, larger, ahead, i);
                }
            },
            _ => {
                aligned_optional_option_value(p, larger, ahead, i);
            },
        }
    }
}

pub(crate) proof fn unfold_kafka_broker_aws_private_link_option_list(p: Input, i: int, items: Seq<TreeView>)
    ensures
        kafka_broker_aws_private_link_option_list(p, i, items) == ({
            match past(p, i, kafka_broker_aws_private_link_option(p, i)) { Failed(e, i) => Failed(e, i), Got(item, i) => {
            if at_token(p, i, TokenView::Comma) {
                let i = i + 1;
                kafka_broker_aws_private_link_option_list(p, i, items.push(item))
            } else {
                Got(items.push(item), i)
            }
            }}
        }),
{
    reveal(kafka_broker_aws_private_link_option_list);
}

pub(crate) proof fn aligned_kafka_broker_aws_private_link_option_list(p: Input, larger: Input, ahead: int, i: int, items: Seq<TreeView>)
    requires
        aligned(p, larger, ahead),
        0 <= i <= p.toks.len(),
    ensures
        agrees(p, ahead, i + 1, kafka_broker_aws_private_link_option_list(p, i, items), kafka_broker_aws_private_link_option_list(larger, ahead + i, items)),
    decreases p.toks.len() - i, 0int,
{
    unfold_kafka_broker_aws_private_link_option_list(p, i, items);
    unfold_kafka_broker_aws_private_link_option_list(larger, ahead + i, items);
    aligned_kafka_broker_aws_private_link_option(p, larger, ahead, i);
    if let Got(item, i) = past(p, i, kafka_broker_aws_private_link_option(p, i)) {
        if at_token(p, i, TokenView::Comma) {
            let i = i + 1;
            aligned_kafka_broker_aws_private_link_option_list(p, larger, ahead, i, items.push(item));
        }
    }
}

pub(crate) proof fn aligned_kafka_connection_reference(p: Input, larger: Input, ahead: int, i: int)
    requires
        aligned(p, larger, ahead),
        0 <= i <= p.toks.len(),
    ensures
        agrees(p, ahead, i + 1, kafka_connection_reference(p, i), kafka_connection_reference(larger, ahead + i)),
{
    reveal(kafka_connection_reference);
    aligned_raw_name(p, larger, ahead, i);
    if let Got(connection, i) = raw_name(p, i) {
        if at_token(p, i, TokenView::LParen) {
            let i = i + 1;
            aligned_kafka_config_option_list(p, larger, ahead, i, Seq::<TreeView>::empty());
        }
    }
}

pub(crate) proof fn aligned_kafka_config_option(p: Input, larger: Input, ahead: int, i: int)
    requires
        aligned(p, larger, ahead),
        0 <= i <= p.toks.len(),
    ensures
        agrees(p, ahead, i + 1, kafka_config_option(p, i), kafka_config_option(larger, ahead + i)),
{
    reveal(kafka_config_option);
    if let Got(k, i) = one_keyword(p, i, seq![Keyword::ACKS, Keyword::CLIENT, Keyword::ENABLE, Keyword::FETCH, Keyword::GROUP, Keyword::ISOLATION, Keyword::PARTITION, Keyword::REPLICATION, Keyword::RETENTION, Keyword::SNAPSHOT, Keyword::START, Keyword::TOPIC, Keyword::TRANSACTION]) {
        let part = {
            match k {
                Keyword::ACKS => {
                    Got(TreeView::Node(Kind::Acks, Seq::<TreeView>::empty()), i)
                },
                Keyword::CLIENT => {
                    match keyword(p, i, Keyword::ID) { Failed(e, i) => Failed(e, i), Got(_, i) => {
                    Got(TreeView::Node(Kind::ClientId, Seq::<TreeView>::empty()), i)
                    }}
                },
                Keyword::ENABLE => {
                    match keyword(p, i, Keyword::IDEMPOTENCE) { Failed(e, i) => Failed(e, i), Got(_, i) => {
                    Got(TreeView::Node(Kind::EnableIdempotence, Seq::<TreeView>::empty()), i)
                    }}
                },
                Keyword::FETCH => {
                    match keyword(p, i, Keyword::MESSAGE) { Failed(e, i) => Failed(e, i), Got(_, i) => {
                    match keyword(p, i, Keyword::MAX) { Failed(e, i) => Failed(e, i), Got(_, i) => {
                    match keyword(p, i, Keyword::BYTES) { Failed(e, i) => Failed(e, i), Got(_, i) => {
                    Got(TreeView::Node(Kind::FetchMessageMaxBytes, Seq::<TreeView>::empty()), i)
                    }}}}}}
                },
                Keyword::GROUP => {
                    match keyword(p, i, Keyword::ID) { Failed(e, i) => Failed(e, i), Got(_, i) => {
                    match keyword(p, i, Keyword::PREFIX) { Failed(e, i) => Failed(e, i), Got(_, i) => {
                    Got(TreeView::Node(Kind::GroupIdPrefix, Seq::<TreeView>::empty()), i)
                    }}}}
                },
                Keyword::ISOLATION => {
                    match keyword(p, i, Keyword::LEVEL) { Failed(e, i) => Failed(e, i), Got(_, i) => {
                    Got(TreeView::Node(Kind::IsolationLevel, Seq::<TreeView>::empty()), i)
                    }}
                },
                Keyword::PARTITION => {
                    match keyword(p, i, Keyword::COUNT) { Failed(e, i) => Failed(e, i), Got(_, i) => {
                    Got(TreeView::Node(Kind::PartitionCount, Seq::<TreeView>::empty()), i)
                    }}
                },
                Keyword::REPLICATION => {
                    match keyword(p, i, Keyword::FACTOR) { Failed(e, i) => Failed(e, i), Got(_, i) => {
                    Got(TreeView::Node(Kind::ReplicationFactor, Seq::<TreeView>::empty()), i)
                    }}
                },
                Keyword::RETENTION => {
                    match one_keyword(p, i, seq![Keyword::BYTES, Keyword::MS]) { Failed(e, i) => Failed(e, i), Got(which, i) => {
                    if which == Keyword::BYTES {
                        Got(TreeView::Node(Kind::RetentionBytes, Seq::<TreeView>::empty()), i)
                    } else {
                        Got(TreeView::Node(Kind::RetentionMs, Seq::<TreeView>::empty()), i)
                    }
                    }}
                },
                Keyword::TOPIC => {
                    if at_keyword(p, i, Keyword::METADATA) {
                        let i = i + 1;
                        match keyword(p, i, Keyword::REFRESH) { Failed(e, i) => Failed(e, i), Got(_, i) => {
                        match keyword(p, i, Keyword::INTERVAL) { Failed(e, i) => Failed(e, i), Got(_, i) => {
                        match keyword(p, i, Keyword::MS) { Failed(e, i) => Failed(e, i), Got(_, i) => {
                        Got(TreeView::Node(Kind::TopicMetadataRefreshIntervalMs, Seq::<TreeView>::empty()), i)
                        }}}}}}
                    } else {
                        Got(TreeView::Node(Kind::Topic, Seq::<TreeView>::empty()), i)
                    }
                },
                Keyword::TRANSACTION => {
                    match keyword(p, i, Keyword::TIMEOUT) { Failed(e, i) => Failed(e, i), Got(_, i) => {
                    match keyword(p, i, Keyword::MS) { Failed(e, i) => Failed(e, i), Got(_, i) => {
                    Got(TreeView::Node(Kind::TransactionTimeoutMs, Seq::<TreeView>::empty()), i)
                    }}}}
                },
                Keyword::START => {
                    match one_keyword(p, i, seq![Keyword::OFFSET, Keyword::TIMESTAMP]) { Failed(e, i) => Failed(e, i), Got(which, i) => {
                    if which == Keyword::OFFSET {
                        Got(TreeView::Node(Kind::StartOffset, Seq::<TreeView>::empty()), i)
                    } else {
                        Got(TreeView::Node(Kind::StartTimestamp, Seq::<TreeView>::empty()), i)
                    }
                    }}
                },
                _ => {
                    Failed(FailureView::Unhandled, i)
                },
            }
        };
        if let Got(name, i) = part {
            aligned_optional_option_value(p, larger, ahead, i);
        }
    }
}

pub(crate) proof fn unfold_kafka_config_option_list(p: Input, i: int, items: Seq<TreeView>)
    ensures
        kafka_config_option_list(p, i, items) == ({
            match past(p, i, kafka_config_option(p, i)) { Failed(e, i) => Failed(e, i), Got(item, i) => {
            if at_token(p, i, TokenView::Comma) {
                let i = i + 1;
                kafka_config_option_list(p, i, items.push(item))
            } else {
                Got(items.push(item), i)
            }
            }}
        }),
{
    reveal(kafka_config_option_list);
}

pub(crate) proof fn aligned_kafka_config_option_list(p: Input, larger: Input, ahead: int, i: int, items: Seq<TreeView>)
    requires
        aligned(p, larger, ahead),
        0 <= i <= p.toks.len(),
    ensures
        agrees(p, ahead, i + 1, kafka_config_option_list(p, i, items), kafka_config_option_list(larger, ahead + i, items)),
    decreases p.toks.len() - i, 0int,
{
    unfold_kafka_config_option_list(p, i, items);
    unfold_kafka_config_option_list(larger, ahead + i, items);
    aligned_kafka_config_option(p, larger, ahead, i);
    if let Got(item, i) = past(p, i, kafka_config_option(p, i)) {
        if at_token(p, i, TokenView::Comma) {
            let i = i + 1;
            aligned_kafka_config_option_list(p, larger, ahead, i, items.push(item));
        }
    }
}

pub(crate) proof fn aligned_ssl_option_name(p: Input, larger: Input, ahead: int, i: int)
    requires
        aligned(p, larger, ahead),
        0 <= i <= p.toks.len(),
    ensures
        agrees(p, ahead, i + 1, ssl_option_name(p, i), ssl_option_name(larger, ahead + i)),
{
    reveal(ssl_option_name);
}

pub(crate) proof fn aligned_csr_connection_option(p: Input, larger: Input, ahead: int, i: int)
    requires
        aligned(p, larger, ahead),
        0 <= i <= p.toks.len(),
    ensures
        agrees(p, ahead, i + 1, csr_connection_option(p, i), csr_connection_option(larger, ahead + i)),
{
    reveal(csr_connection_option);
    if let Got(k, i) = one_keyword(p, i, seq![Keyword::AWS, Keyword::PASSWORD, Keyword::PORT, Keyword::SSH, Keyword::SSL, Keyword::URL, Keyword::USERNAME]) {
        match k {
            Keyword::AWS => {
                if let Got(_, i) = keyword(p, i, Keyword::PRIVATELINK) {
                    aligned_object_option_value(p, larger, ahead, i);
                }
            },
            Keyword::SSH => {
                if let Got(_, i) = keyword(p, i, Keyword::TUNNEL) {
                    aligned_object_option_value(p, larger, ahead, i);
                }
            },
            _ => {
                match k {
                    Keyword::PASSWORD => {},
                    Keyword::PORT => {},
                    Keyword::SSL => {
                        aligned_ssl_option_name(p, larger, ahead, i);
                    },
                    _ => {},
                }
                let part = {
                    match k {
                        Keyword::PASSWORD => {
                            Got(TreeView::Node(Kind::Password, Seq::<TreeView>::empty()), i)
                        },
                        Keyword::PORT => {
                            Got(TreeView::Node(Kind::Port, Seq::<TreeView>::empty()), i)
                        },
                        Keyword::SSL => {
                            ssl_option_name(p, i)
                        },
                        Keyword::URL => {
                            Got(TreeView::Node(Kind::Url, Seq::<TreeView>::empty()), i)
                        },
                        _ => {
                            Got(TreeView::Node(Kind::Username, Seq::<TreeView>::empty()), i)
                        },
                    }
                };
                if let Got(name, i) = part {
                    aligned_optional_option_value(p, larger, ahead, i);
                }
            },
        }
    }
}

pub(crate) proof fn unfold_csr_connection_option_list(p: Input, i: int, items: Seq<TreeView>)
    ensures
        csr_connection_option_list(p, i, items) == ({
            match past(p, i, csr_connection_option(p, i)) { Failed(e, i) => Failed(e, i), Got(item, i) => {
            if at_token(p, i, TokenView::Comma) {
                let i = i + 1;
                csr_connection_option_list(p, i, items.push(item))
            } else {
                Got(items.push(item), i)
            }
            }}
        }),
{
    reveal(csr_connection_option_list);
}

pub(crate) proof fn aligned_csr_connection_option_list(p: Input, larger: Input, ahead: int, i: int, items: Seq<TreeView>)
    requires
        aligned(p, larger, ahead),
        0 <= i <= p.toks.len(),
    ensures
        agrees(p, ahead, i + 1, csr_connection_option_list(p, i, items), csr_connection_option_list(larger, ahead + i, items)),
    decreases p.toks.len() - i, 0int,
{
    unfold_csr_connection_option_list(p, i, items);
    unfold_csr_connection_option_list(larger, ahead + i, items);
    aligned_csr_connection_option(p, larger, ahead, i);
    if let Got(item, i) = past(p, i, csr_connection_option(p, i)) {
        if at_token(p, i, TokenView::Comma) {
            let i = i + 1;
            aligned_csr_connection_option_list(p, larger, ahead, i, items.push(item));
        }
    }
}

pub(crate) proof fn aligned_postgres_connection_option(p: Input, larger: Input, ahead: int, i: int)
    requires
        aligned(p, larger, ahead),
        0 <= i <= p.toks.len(),
    ensures
        agrees(p, ahead, i + 1, postgres_connection_option(p, i), postgres_connection_option(larger, ahead + i)),
{
    reveal(postgres_connection_option);
    if let Got(k, i) = one_keyword(p, i, seq![Keyword::AWS, Keyword::DATABASE, Keyword::HOST, Keyword::PASSWORD, Keyword::PORT, Keyword::SSH, Keyword::SSL, Keyword::USER, Keyword::USERNAME]) {
        match k {
            Keyword::AWS => {
                if let Got(_, i) = keyword(p, i, Keyword::PRIVATELINK) {
                    aligned_object_option_value(p, larger, ahead, i);
                }
            },
            Keyword::SSH => {
                if let Got(_, i) = keyword(p, i, Keyword::TUNNEL) {
                    aligned_object_option_value(p, larger, ahead, i);
                }
            },
            _ => {
                let part = {
                    match k {
                        Keyword::DATABASE => {
                            Got(TreeView::Node(Kind::Database, Seq::<TreeView>::empty()), i)
                        },
                        Keyword::HOST => {
                            Got(TreeView::Node(Kind::Host, Seq::<TreeView>::empty()), i)
                        },
                        Keyword::PASSWORD => {
                            Got(TreeView::Node(Kind::Password, Seq::<TreeView>::empty()), i)
                        },
                        Keyword::PORT => {
                            Got(TreeView::Node(Kind::Port, Seq::<TreeView>::empty()), i)
                        },
                        Keyword::SSL => {
                            match one_keyword(p, i, seq![Keyword::CERTIFICATE, Keyword::MODE, Keyword::KEY]) { Failed(e, i) => Failed(e, i), Got(which, i) => {
                            match which {
                                Keyword::CERTIFICATE => {
                                    if at_keyword(p, i, Keyword::AUTHORITY) {
                                        let i = i + 1;
                                        Got(TreeView::Node(Kind::SslCertificateAuthority, Seq::<TreeView>::empty()), i)
                                    } else {
                                        Got(TreeView::Node(Kind::SslCertificate, Seq::<TreeView>::empty()), i)
                                    }
                                },
                                Keyword::KEY => {
                                    Got(TreeView::Node(Kind::SslKey, Seq::<TreeView>::empty()), i)
                                },
                                _ => {
                                    Got(TreeView::Node(Kind::SslMode, Seq::<TreeView>::empty()), i)
                                },
                            }
                            }}
                        },
                        _ => {
                            Got(TreeView::Node(Kind::User, Seq::<TreeView>::empty()), i)
                        },
                    }
                };
                if let Got(name, i) = part {
                    aligned_optional_option_value(p, larger, ahead, i);
                }
            },
        }
    }
}

pub(crate) proof fn unfold_postgres_connection_option_list(p: Input, i: int, items: Seq<TreeView>)
    ensures
        postgres_connection_option_list(p, i, items) == ({
            match past(p, i, postgres_connection_option(p, i)) { Failed(e, i) => Failed(e, i), Got(item, i) => {
            if at_token(p, i, TokenView::Comma) {
                let i = i + 1;
                postgres_connection_option_list(p, i, items.push(item))
            } else {
                Got(items.push(item), i)
            }
            }}
        }),
{
    reveal(postgres_connection_option_list);
}

pub(crate) proof fn aligned_postgres_connection_option_list(p: Input, larger: Input, ahead: int, i: int, items: Seq<TreeView>)
    requires
        aligned(p, larger, ahead),
        0 <= i <= p.toks.len(),
    ensures
        agrees(p, ahead, i + 1, postgres_connection_option_list(p, i, items), postgres_connection_option_list(larger, ahead + i, items)),
    decreases p.toks.len() - i, 0int,
{
    unfold_postgres_connection_option_list(p, i, items);
    unfold_postgres_connection_option_list(larger, ahead + i, items);
    aligned_postgres_connection_option(p, larger, ahead, i);
    if let Got(item, i) = past(p, i, postgres_connection_option(p, i)) {
        if at_token(p, i, TokenView::Comma) {
            let i = i + 1;
            aligned_postgres_connection_option_list(p, larger, ahead, i, items.push(item));
        }
    }
}

pub(crate) proof fn aligned_aws_connection_option(p: Input, larger: Input, ahead: int, i: int)
    requires
        aligned(p, larger, ahead),
        0 <= i <= p.toks.len(),
    ensures
        agrees(p, ahead, i + 1, aws_connection_option(p, i), aws_connection_option(larger, ahead + i)),
{
    reveal(aws_connection_option);
    if let Got(k, i) = one_keyword(p, i, seq![Keyword::ACCESS, Keyword::ENDPOINT, Keyword::REGION, Keyword::ROLE, Keyword::SECRET, Keyword::TOKEN]) {
        let part = {
            match k {
                Keyword::ACCESS => {
                    match keyword(p, i, Keyword::KEY) { Failed(e, i) => Failed(e, i), Got(_, i) => {
                    match keyword(p, i, Keyword::ID) { Failed(e, i) => Failed(e, i), Got(_, i) => {
                    Got(TreeView::Node(Kind::AccessKeyId, Seq::<TreeView>::empty()), i)
                    }}}}
                },
                Keyword::ENDPOINT => {
                    Got(TreeView::Node(Kind::Endpoint, Seq::<TreeView>::empty()), i)
                },
                Keyword::REGION => {
                    Got(TreeView::Node(Kind::Region, Seq::<TreeView>::empty()), i)
                },
                Keyword::ROLE => {
                    match keyword(p, i, Keyword::ARN) { Failed(e, i) => Failed(e, i), Got(_, i) => {
                    Got(TreeView::Node(Kind::RoleArn, Seq::<TreeView>::empty()), i)
                    }}
                },
                Keyword::SECRET => {
                    match keyword(p, i, Keyword::ACCESS) { Failed(e, i) => Failed(e, i), Got(_, i) => {
                    match keyword(p, i, Keyword::KEY) { Failed(e, i) => Failed(e, i), Got(_, i) => {
                    Got(TreeView::Node(Kind::SecretAccessKey, Seq::<TreeView>::empty()), i)
                    }}}}
                },
                _ => {
                    Got(TreeView::Node(Kind::Token, Seq::<TreeView>::empty()), i)
                },
            }
        };
        if let Got(name, i) = part {
            aligned_optional_option_value(p, larger, ahead, i);
        }
    }
}

pub(crate) proof fn unfold_aws_connection_option_list(p: Input, i: int, items: Seq<TreeView>)
    ensures
        aws_connection_option_list(p, i, items) == ({
            match past(p, i, aws_connection_option(p, i)) { Failed(e, i) => Failed(e, i), Got(item, i) => {
            if at_token(p, i, TokenView::Comma) {
                let i = i + 1;
                aws_connection_option_list(p, i, items.push(item))
            } else {
                Got(items.push(item), i)
            }
            }}
        }),
{
    reveal(aws_connection_option_list);
}

pub(crate) proof fn aligned_aws_connection_option_list(p: Input, larger: Input, ahead: int, i: int, items: Seq<TreeView>)
    requires
        aligned(p, larger, ahead),
        0 <= i <= p.toks.len(),
    ensures
        agrees(p, ahead, i + 1, aws_connection_option_list(p, i, items), aws_connection_option_list(larger, ahead + i, items)),
    decreases p.toks.len() - i, 0int,
{
    unfold_aws_connection_option_list(p, i, items);
    unfold_aws_connection_option_list(larger, ahead + i, items);
    aligned_aws_connection_option(p, larger, ahead, i);
    if let Got(item, i) = past(p, i, aws_connection_option(p, i)) {
        if at_token(p, i, TokenView::Comma) {
            let i = i + 1;
            aligned_aws_connection_option_list(p, larger, ahead, i, items.push(item));
        }
    }
}

pub(crate) proof fn aligned_aws_privatelink_connection_option(p: Input, larger: Input, ahead: int, i: int)
    requires
        aligned(p, larger, ahead),
        0 <= i <= p.toks.len(),
    ensures
        agrees(p, ahead, i + 1, aws_privatelink_connection_option(p, i), aws_privatelink_connection_option(larger, ahead + i)),
{
    reveal(aws_privatelink_connection_option);
    if let Got(k, i) = one_keyword(p, i, seq![Keyword::SERVICE, Keyword::AVAILABILITY]) {
        let part = {
            match k {
                Keyword::SERVICE => {
                    match keyword(p, i, Keyword::NAME) { Failed(e, i) => Failed(e, i), Got(_, i) => {
                    Got(TreeView::Node(Kind::ServiceName, Seq::<TreeView>::empty()), i)
                    }}
                },
                _ => {
                    match keyword(p, i, Keyword::ZONES) { Failed(e, i) => Failed(e, i), Got(_, i) => {
                    Got(TreeView::Node(Kind::AvailabilityZones, Seq::<TreeView>::empty()), i)
                    }}
                },
            }
        };
        if let Got(name, i) = part {
            aligned_optional_option_value(p, larger, ahead, i);
        }
    }
}

pub(crate) proof fn unfold_aws_privatelink_connection_option_list(p: Input, i: int, items: Seq<TreeView>)
    ensures
        aws_privatelink_connection_option_list(p, i, items) == ({
            match past(p, i, aws_privatelink_connection_option(p, i)) { Failed(e, i) => Failed(e, i), Got(item, i) => {
            if at_token(p, i, TokenView::Comma) {
                let i = i + 1;
                aws_privatelink_connection_option_list(p, i, items.push(item))
            } else {
                Got(items.push(item), i)
            }
            }}
        }),
{
    reveal(aws_privatelink_connection_option_list);
}

pub(crate) proof fn aligned_aws_privatelink_connection_option_list(p: Input, larger: Input, ahead: int, i: int, items: Seq<TreeView>)
    requires
        aligned(p, larger, ahead),
        0 <= i <= p.toks.len(),
    ensures
        agrees(p, ahead, i + 1, aws_privatelink_connection_option_list(p, i, items), aws_privatelink_connection_option_list(larger, ahead + i, items)),
    decreases p.toks.len() - i, 0int,
{
    unfold_aws_privatelink_connection_option_list(p, i, items);
    unfold_aws_privatelink_connection_option_list(larger, ahead + i, items);
    aligned_aws_privatelink_connection_option(p, larger, ahead, i);
    if let Got(item, i) = past(p, i, aws_privatelink_connection_option(p, i)) {
        if at_token(p, i, TokenView::Comma) {
            let i = i + 1;
            aligned_aws_privatelink_connection_option_list(p, larger, ahead, i, items.push(item));
        }
    }
}

pub(crate) proof fn aligned_ssh_connection_option(p: Input, larger: Input, ahead: int, i: int)
    requires
        aligned(p, larger, ahead),
        0 <= i <= p.toks.len(),
    ensures
        agrees(p, ahead, i + 1, ssh_connection_option(p, i), ssh_connection_option(larger, ahead + i)),
{
    reveal(ssh_connection_option);
    if let Got(k, i) = one_keyword(p, i, seq![Keyword::HOST, Keyword::PORT, Keyword::USER]) {
        let part = {
            match k {
                Keyword::HOST => {
                    Got(TreeView::Node(Kind::Host, Seq::<TreeView>::empty()), i)
                },
                Keyword::PORT => {
                    Got(TreeView::Node(Kind::Port, Seq::<TreeView>::empty()), i)
                },
                _ => {
                    Got(TreeView::Node(Kind::User, Seq::<TreeView>::empty()), i)
                },
            }
        };
        if let Got(name, i) = part {
            aligned_optional_option_value(p, larger, ahead, i);
        }
    }
}

pub(crate) proof fn unfold_ssh_connection_option_list(p: Input, i: int, items: Seq<TreeView>)
    ensures
        ssh_connection_option_list(p, i, items) == ({
            match past(p, i, ssh_connection_option(p, i)) { Failed(e, i) => Failed(e, i), Got(item, i) => {
            if at_token(p, i, TokenView::Comma) {
                let i = i + 1;
                ssh_connection_option_list(p, i, items.push(item))
            } else {
                Got(items.push(item), i)
            }
            }}
        }),
{
    reveal(ssh_connection_option_list);
}

pub(crate) proof fn aligned_ssh_connection_option_list(p: Input, larger: Input, ahead: int, i: int, items: Seq<TreeView>)
    requires
        aligned(p, larger, ahead),
        0 <= i <= p.toks.len(),
    ensures
        agrees(p, ahead, i + 1, ssh_connection_option_list(p, i, items), ssh_connection_option_list(larger, ahead + i, items)),
    decreases p.toks.len() - i, 0int,
{
    unfold_ssh_connection_option_list(p, i, items);
    unfold_ssh_connection_option_list(larger, ahead + i, items);
    aligned_ssh_connection_option(p, larger, ahead, i);
    if let Got(item, i) = past(p, i, ssh_connection_option(p, i)) {
        if at_token(p, i, TokenView::Comma) {
            let i = i + 1;
            aligned_ssh_connection_option_list(p, larger, ahead, i, items.push(item));
        }
    }
}

pub(crate) proof fn aligned_create_subsource(p: Input, larger: Input, ahead: int, i: int)
    requires
        aligned(p, larger, ahead),
        0 <= i <= p.toks.len(),
    ensures
        agrees(p, ahead, i + 1, create_subsource(p, i), create_subsource(larger, ahead + i)),
{
    reveal(create_subsource);
    if let Got(_, i) = keyword(p, i, Keyword::SUBSOURCE) {
        aligned_if_not_exists(p, larger, ahead, i);
        if let Got(if_not_exists, i) = if_not_exists(p, i) {
            aligned_item_name(p, larger, ahead, i);
            if let Got(name, i) = item_name(p, i) {
                aligned_columns(p, larger, ahead, i);
                if let Got(columns, i) = columns(p, i) {
                    if at_keyword(p, i, Keyword::WITH) {
                        let i = i + 1;
                        if let Got(_, i) = token(p, i, TokenView::LParen) {
                            aligned_create_subsource_option_list(p, larger, ahead, i, Seq::<TreeView>::empty());
                        }
                    }
                }
            }
        }
    }
}

pub(crate) proof fn aligned_create_subsource_option_name(p: Input, larger: Input, ahead: int, i: int)
    requires
        aligned(p, larger, ahead),
        0 <= i <= p.toks.len(),
    ensures
        agrees(p, ahead, i + 1, create_subsource_option_name(p, i), create_subsource_option_name(larger, ahead + i)),
{
    reveal(create_subsource_option_name);
}

pub(crate) proof fn aligned_create_subsource_option(p: Input, larger: Input, ahead: int, i: int)
    requires
        aligned(p, larger, ahead),
        0 <= i <= p.toks.len(),
    ensures
        agrees(p, ahead, i + 1, create_subsource_option(p, i), create_subsource_option(larger, ahead + i)),
{
    reveal(create_subsource_option);
    aligned_create_subsource_option_name(p, larger, ahead, i);
    if let Got(name, i) = create_subsource_option_name(p, i) {
        aligned_optional_option_value(p, larger, ahead, i);
    }
}

pub(crate) proof fn unfold_create_subsource_option_list(p: Input, i: int, items: Seq<TreeView>)
    ensures
        create_subsource_option_list(p, i, items) == ({
            match past(p, i, create_subsource_option(p, i)) { Failed(e, i) => Failed(e, i), Got(item, i) => {
            if at_token(p, i, TokenView::Comma) {
                let i = i + 1;
                create_subsource_option_list(p, i, items.push(item))
            } else {
                Got(items.push(item), i)
            }
            }}
        }),
{
    reveal(create_subsource_option_list);
}

pub(crate) proof fn aligned_create_subsource_option_list(p: Input, larger: Input, ahead: int, i: int, items: Seq<TreeView>)
    requires
        aligned(p, larger, ahead),
        0 <= i <= p.toks.len(),
    ensures
        agrees(p, ahead, i + 1, create_subsource_option_list(p, i, items), create_subsource_option_list(larger, ahead + i, items)),
    decreases p.toks.len() - i, 0int,
{
    unfold_create_subsource_option_list(p, i, items);
    unfold_create_subsource_option_list(larger, ahead + i, items);
    aligned_create_subsource_option(p, larger, ahead, i);
    if let Got(item, i) = past(p, i, create_subsource_option(p, i)) {
        if at_token(p, i, TokenView::Comma) {
            let i = i + 1;
            aligned_create_subsource_option_list(p, larger, ahead, i, items.push(item));
        }
    }
}

#[verifier::rlimit(40)]
pub(crate) proof fn aligned_create_source(p: Input, larger: Input, ahead: int, i: int)
    requires
        aligned(p, larger, ahead),
        0 <= i <= p.toks.len(),
    ensures
        agrees(p, ahead, i + 1, create_source(p, i), create_source(larger, ahead + i)),
{
    reveal(create_source);
    if let Got(_, i) = keyword(p, i, Keyword::SOURCE) {
        aligned_if_not_exists(p, larger, ahead, i);
        if let Got(if_not_exists, i) = if_not_exists(p, i) {
            aligned_item_name(p, larger, ahead, i);
            if let Got(name, i) = item_name(p, i) {
                aligned_source_columns(p, larger, ahead, i);
                if let Got(columns, i) = source_columns(p, i) {
                    aligned_optional_in_cluster(p, larger, ahead, i);
                    if let Got(in_cluster, i) = optional_in_cluster(p, i) {
                        if let Got(_, i) = keyword(p, i, Keyword::FROM) {
                            aligned_create_source_connection(p, larger, ahead, i);
                            if let Got(connection, i) = create_source_connection(p, i) {
                                if let Some(k) = one_of(p, i, seq![Keyword::KEY, Keyword::FORMAT]) {
                                    let i = i + 1;
                                    if k == Keyword::KEY {
                                        if let Got(_, i) = keyword(p, i, Keyword::FORMAT) {
                                            aligned_format(p, larger, ahead, i);
                                            if let Got(key, i) = crate::sql_parser::create::format(p, i) {
                                                if at_keywords2(p, i, Keyword::VALUE, Keyword::FORMAT) {
                                                    let i = i + 2;
                                                    aligned_format(p, larger, ahead, i);
                                                }
                                            }
                                        }
                                    } else {
                                        aligned_format(p, larger, ahead, i);
                                    }
                                }
                                let part = {
                                    match one_of(p, i, seq![Keyword::KEY, Keyword::FORMAT]) {
                                        Some(k) => {
                                            let i = i + 1;
                                            if k == Keyword::KEY {
                                                match keyword(p, i, Keyword::FORMAT) { Failed(e, i) => Failed(e, i), Got(_, i) => {
                                                match crate::sql_parser::create::format(p, i) { Failed(e, i) => Failed(e, i), Got(key, i) => {
                                                match keyword(p, i, Keyword::VALUE) { Failed(e, i) => Failed(e, i), Got(_, i) => {
                                                match keyword(p, i, Keyword::FORMAT) { Failed(e, i) => Failed(e, i), Got(_, i) => {
                                                match crate::sql_parser::create::format(p, i) { Failed(e, i) => Failed(e, i), Got(v, i) => {
                                                Got(TreeView::Node(Kind::KeyValueSourceFormat, seq![key, v]), i)
                                                }}
                                                }}}}
                                                }}
                                                }}
                                            } else {
                                                match crate::sql_parser::create::format(p, i) { Failed(e, i) => Failed(e, i), Got(f, i) => {
                                                Got(TreeView::Node(Kind::BareSourceFormat, seq![f]), i)
                                                }}
                                            }
                                        },
                                        None => {
                                            Got(TreeView::Node(Kind::NoSourceFormat, Seq::<TreeView>::empty()), i)
                                        },
                                    }
                                };
                                if let Got(format, i) = part {
                                    aligned_source_include_metadata(p, larger, ahead, i);
                                    if let Got(include_metadata, i) = source_include_metadata(p, i) {
                                        if at_keyword(p, i, Keyword::ENVELOPE) {
                                            let i = i + 1;
                                            aligned_envelope(p, larger, ahead, i);
                                        }
                                        let part = {
                                            if at_keyword(p, i, Keyword::ENVELOPE) {
                                                let i = i + 1;
                                                envelope(p, i)
                                            } else {
                                                Got(TreeView::Absent, i)
                                            }
                                        };
                                        if let Got(envelope, i) = part {
                                            if at_keywords2(p, i, Keyword::FOR, Keyword::TABLES) {
                                                let i = i + 2;
                                                if let Got(_, i) = token(p, i, TokenView::LParen) {
                                                    aligned_subsource_references_list(p, larger, ahead, i, Seq::<TreeView>::empty());
                                                }
                                            } else {
                                                if at_keywords2(p, i, Keyword::FOR, Keyword::SCHEMAS) {
                                                    let i = i + 2;
                                                    if let Got(_, i) = token(p, i, TokenView::LParen) {
                                                        aligned_identifier_list(p, larger, ahead, i, Seq::<TreeView>::empty());
                                                    }
                                                }
                                            }
                                            let part = {
                                                if at_keywords2(p, i, Keyword::FOR, Keyword::TABLES) {
                                                    let i = i + 2;
                                                    match token(p, i, TokenView::LParen) { Failed(e, i) => Failed(e, i), Got(_, i) => {
                                                    match subsource_references_list(p, i, Seq::<TreeView>::empty()) { Failed(e, i) => Failed(e, i), Got(subsources, i) => {
                                                    match token(p, i, TokenView::RParen) { Failed(e, i) => Failed(e, i), Got(_, i) => {
                                                    Got(TreeView::Node(Kind::SubsetTables, seq![TreeView::List(subsources)]), i)
                                                    }}
                                                    }}
                                                    }}
                                                } else {
                                                    if at_keywords2(p, i, Keyword::FOR, Keyword::SCHEMAS) {
                                                        let i = i + 2;
                                                        match token(p, i, TokenView::LParen) { Failed(e, i) => Failed(e, i), Got(_, i) => {
                                                        match identifier_list(p, i, Seq::<TreeView>::empty()) { Failed(e, i) => Failed(e, i), Got(schemas, i) => {
                                                        match token(p, i, TokenView::RParen) { Failed(e, i) => Failed(e, i), Got(_, i) => {
                                                        Got(TreeView::Node(Kind::SubsetSchemas, seq![TreeView::List(schemas)]), i)
                                                        }}
                                                        }}
                                                        }}
                                                    } else {
                                                        if at_keywords3(p, i, Keyword::FOR, Keyword::ALL, Keyword::TABLES) {
                                                            let i = i + 3;
                                                            Got(TreeView::Node(Kind::AllSubsources, Seq::<TreeView>::empty()), i)
                                                        } else {
                                                            Got(TreeView::Absent, i)
                                                        }
                                                    }
                                                }
                                            };
                                            if let Got(referenced_subsources, i) = part {
                                                if at_keywords3(p, i, Keyword::EXPOSE, Keyword::PROGRESS, Keyword::AS) {
                                                    let i = i + 3;
                                                    aligned_deferred_item_name(p, larger, ahead, i);
                                                }
                                                let part = {
                                                    if at_keywords3(p, i, Keyword::EXPOSE, Keyword::PROGRESS, Keyword::AS) {
                                                        let i = i + 3;
                                                        deferred_item_name(p, i)
                                                    } else {
                                                        Got(TreeView::Absent, i)
                                                    }
                                                };
                                                if let Got(progress_subsource, i) = part {
                                                    if at_keyword(p, i, Keyword::WITH) {
                                                        let i = i + 1;
                                                        if let Got(_, i) = token(p, i, TokenView::LParen) {
                                                            aligned_source_option_list(p, larger, ahead, i, Seq::<TreeView>::empty());
                                                        }
                                                    }
                                                }
                                            }
                                        }
                                    }
                                }
                            }
                        }
                    }
                }
            }
        }
    }
}

pub(crate) proof fn aligned_subsource_references(p: Input, larger: Input, ahead: int, i: int)
    requires
        aligned(p, larger, ahead),
        0 <= i <= p.toks.len(),
    ensures
        agrees(p, ahead, i + 1, subsource_references(p, i), subsource_references(larger, ahead + i)),
{
    reveal(subsource_references);
    aligned_item_name(p, larger, ahead, i);
    if let Got(reference, i) = item_name(p, i) {
        if let Some(_) = one_of(p, i, seq![Keyword::AS, Keyword::INTO]) {
            let i = i + 1;
            aligned_deferred_item_name(p, larger, ahead, i);
        }
    }
}

pub(crate) proof fn unfold_subsource_references_list(p: Input, i: int, items: Seq<TreeView>)
    ensures
        subsource_references_list(p, i, items) == ({
            match past(p, i, subsource_references(p, i)) { Failed(e, i) => Failed(e, i), Got(item, i) => {
            if at_token(p, i, TokenView::Comma) {
                let i = i + 1;
                subsource_references_list(p, i, items.push(item))
            } else {
                Got(items.push(item), i)
            }
            }}
        }),
{
    reveal(subsource_references_list);
}

pub(crate) proof fn aligned_subsource_references_list(p: Input, larger: Input, ahead: int, i: int, items: Seq<TreeView>)
    requires
        aligned(p, larger, ahead),
        0 <= i <= p.toks.len(),
    ensures
        agrees(p, ahead, i + 1, subsource_references_list(p, i, items), subsource_references_list(larger, ahead + i, items)),
    decreases p.toks.len() - i, 0int,
{
    unfold_subsource_references_list(p, i, items);
    unfold_subsource_references_list(larger, ahead + i, items);
    aligned_subsource_references(p, larger, ahead, i);
    if let Got(item, i) = past(p, i, subsource_references(p, i)) {
        if at_token(p, i, TokenView::Comma) {
            let i = i + 1;
            aligned_subsource_references_list(p, larger, ahead, i, items.push(item));
        }
    }
}

pub(crate) proof fn aligned_source_columns(p: Input, larger: Input, ahead: int, i: int)
    requires
        aligned(p, larger, ahead),
        0 <= i <= p.toks.len(),
    ensures
        agrees(p, ahead, i, source_columns(p, i), source_columns(larger, ahead + i)),
{
    reveal(source_columns);
    if at_token(p, i, TokenView::LParen) {
        let i = i + 1;
        aligned_source_column_list(p, larger, ahead, i, Seq::<TreeView>::empty(), TreeView::Absent);
    }
}

pub(crate) proof fn unfold_source_column_list(p: Input, i: int, columns: Seq<TreeView>, key: TreeView)
    ensures
        source_column_list(p, i, columns, key) == ({
            let at = position(p, i);
            match onward(p, i, key_constraint(p, i)) { Failed(e, i) => Failed(e, i), Got(constraint, i) => {
            if constraint is Absent {
                match past(p, i, identifier(p, i)) { Failed(e, i) => Failed(e, i), Got(column, i) => {
                if at_token(p, i, TokenView::Comma) {
                    let i = i + 1;
                    source_column_list(p, i, columns.push(column), key)
                } else {
                    Got(TreeView::Node(Kind::SourceColumns, seq![TreeView::List(columns.push(column)), key]), i)
                }
                }}
            } else {
                if !(key is Absent) {
                    Failed(error_view(at as int, no_text() + "Multiple key constraints not allowed"@), i)
                } else {
                    if at_token(p, i, TokenView::Comma) {
                        let i = i + 1;
                        source_column_list(p, i, columns, constraint)
                    } else {
                        Got(TreeView::Node(Kind::SourceColumns, seq![TreeView::List(columns), constraint]), i)
                    }
                }
            }
            }}
        }),
{
    reveal(source_column_list);
}

pub(crate) proof fn aligned_source_column_list(p: Input, larger: Input, ahead: int, i: int, columns: Seq<TreeView>, key: TreeView)
    requires
        aligned(p, larger, ahead),
        0 <= i <= p.toks.len(),
    ensures
        agrees(p, ahead, i, source_column_list(p, i, columns, key), source_column_list(larger, ahead + i, columns, key)),
    decreases p.toks.len() - i, 0int,
{
    unfold_source_column_list(p, i, columns, key);
    unfold_source_column_list(larger, ahead + i, columns, key);
    let at = position(p, i);
    aligned_key_constraint(p, larger, ahead, i);
    if let Got(constraint, i) = onward(p, i, key_constraint(p, i)) {
        if constraint is Absent {
            aligned_identifier(p, larger, ahead, i);
            if let Got(column, i) = past(p, i, identifier(p, i)) {
                if at_token(p, i, TokenView::Comma) {
                    let i = i + 1;
                    aligned_source_column_list(p, larger, ahead, i, columns.push(column), key);
                }
            }
        } else {
            if !(!(key is Absent)) {
                if at_token(p, i, TokenView::Comma) {
                    let i = i + 1;
                    aligned_source_column_list(p, larger, ahead, i, columns, constraint);
                }
            }
        }
    }
}

pub(crate) proof fn aligned_key_constraint(p: Input, larger: Input, ahead: int, i: int)
    requires
        aligned(p, larger, ahead),
        0 <= i <= p.toks.len(),
    ensures
        agrees(p, ahead, i, key_constraint(p, i), key_constraint(larger, ahead + i)),
{
    reveal(key_constraint);
    if at_keywords2(p, i, Keyword::PRIMARY, Keyword::KEY) {
        let i = i + 2;
        aligned_parenthesized_column_list(p, larger, ahead, i, false);
    }
}

pub(crate) proof fn aligned_source_option_name(p: Input, larger: Input, ahead: int, i: int)
    requires
        aligned(p, larger, ahead),
        0 <= i <= p.toks.len(),
    ensures
        agrees(p, ahead, i + 1, source_option_name(p, i), source_option_name(larger, ahead + i)),
{
    reveal(source_option_name);
}

pub(crate) proof fn unfold_source_option_name_list(p: Input, i: int, items: Seq<TreeView>)
    ensures
        source_option_name_list(p, i, items) == ({
            match past(p, i, source_option_name(p, i)) { Failed(e, i) => Failed(e, i), Got(item, i) => {
            if at_token(p, i, TokenView::Comma) {
                let i = i + 1;
                source_option_name_list(p, i, items.push(item))
            } else {
                Got(items.push(item), i)
            }
            }}
        }),
{
    reveal(source_option_name_list);
}

pub(crate) proof fn aligned_source_option_name_list(p: Input, larger: Input, ahead: int, i: int, items: Seq<TreeView>)
    requires
        aligned(p, larger, ahead),
        0 <= i <= p.toks.len(),
    ensures
        agrees(p, ahead, i + 1, source_option_name_list(p, i, items), source_option_name_list(larger, ahead + i, items)),
    decreases p.toks.len() - i, 0int,
{
    unfold_source_option_name_list(p, i, items);
    unfold_source_option_name_list(larger, ahead + i, items);
    aligned_source_option_name(p, larger, ahead, i);
    if let Got(item, i) = past(p, i, source_option_name(p, i)) {
        if at_token(p, i, TokenView::Comma) {
            let i = i + 1;
            aligned_source_option_name_list(p, larger, ahead, i, items.push(item));
        }
    }
}

pub(crate) proof fn aligned_source_option(p: Input, larger: Input, ahead: int, i: int)
    requires
        aligned(p, larger, ahead),
        0 <= i <= p.toks.len(),
    ensures
        agrees(p, ahead, i + 1, source_option(p, i), source_option(larger, ahead + i)),
{
    reveal(source_option);
    aligned_source_option_name(p, larger, ahead, i);
    if let Got(name, i) = source_option_name(p, i) {
        aligned_optional_option_value(p, larger, ahead, i);
    }
}

pub(crate) proof fn unfold_source_option_list(p: Input, i: int, items: Seq<TreeView>)
    ensures
        source_option_list(p, i, items) == ({
            match past(p, i, source_option(p, i)) { Failed(e, i) => Failed(e, i), Got(item, i) => {
            if at_token(p, i, TokenView::Comma) {
                let i = i + 1;
                source_option_list(p, i, items.push(item))
            } else {
                Got(items.push(item), i)
            }
            }}
        }),
{
    reveal(source_option_list);
}

pub(crate) proof fn aligned_source_option_list(p: Input, larger: Input, ahead: int, i: int, items: Seq<TreeView>)
    requires
        aligned(p, larger, ahead),
        0 <= i <= p.toks.len(),
    ensures
        agrees(p, ahead, i + 1, source_option_list(p, i, items), source_option_list(larger, ahead + i, items)),
    decreases p.toks.len() - i, 0int,
{
    unfold_source_option_list(p, i, items);
    unfold_source_option_list(larger, ahead + i, items);
    aligned_source_option(p, larger, ahead, i);
    if let Got(item, i) = past(p, i, source_option(p, i)) {
        if at_token(p, i, TokenView::Comma) {
            let i = i + 1;
            aligned_source_option_list(p, larger, ahead, i, items.push(item));
        }
    }
}

pub(crate) proof fn aligned_create_sink(p: Input, larger: Input, ahead: int, i: int)
    requires
        aligned(p, larger, ahead),
        0 <= i <= p.toks.len(),
    ensures
        agrees(p, ahead, i + 1, create_sink(p, i), create_sink(larger, ahead + i)),
{
    reveal(create_sink);
    if let Got(_, i) = keyword(p, i, Keyword::SINK) {
        aligned_if_not_exists(p, larger, ahead, i);
        if let Got(if_not_exists, i) = if_not_exists(p, i) {
            aligned_item_name(p, larger, ahead, i);
            if let Got(name, i) = item_name(p, i) {
                aligned_optional_in_cluster(p, larger, ahead, i);
                if let Got(in_cluster, i) = optional_in_cluster(p, i) {
                    if let Got(_, i) = keyword(p, i, Keyword::FROM) {
                        aligned_raw_name(p, larger, ahead, i);
                        if let Got(from, i) = raw_name(p, i) {
                            if let Got(_, i) = keyword(p, i, Keyword::INTO) {
                                aligned_create_sink_connection(p, larger, ahead, i);
                                if let Got(connection, i) = create_sink_connection(p, i) {
                                    if at_keyword(p, i, Keyword::FORMAT) {
                                        let i = i + 1;
                                        aligned_format(p, larger, ahead, i);
                                    }
                                    let part = {
                                        if at_keyword(p, i, Keyword::FORMAT) {
                                            let i = i + 1;
                                            crate::sql_parser::create::format(p, i)
                                        } else {
                                            Got(TreeView::Absent, i)
                                        }
                                    };
                                    if let Got(format, i) = part {
                                        if at_keyword(p, i, Keyword::ENVELOPE) {
                                            let i = i + 1;
                                            aligned_envelope(p, larger, ahead, i);
                                        }
                                        let part = {
                                            if at_keyword(p, i, Keyword::ENVELOPE) {
                                                let i = i + 1;
                                                envelope(p, i)
                                            } else {
                                                Got(TreeView::Absent, i)
                                            }
                                        };
                                        if let Got(envelope, i) = part {
                                            if at_keyword(p, i, Keyword::WITH) {
                                                let i = i + 1;
                                                if let Got(_, i) = token(p, i, TokenView::LParen) {
                                                    aligned_create_sink_option_list(p, larger, ahead, i, Seq::<TreeView>::empty());
                                                }
                                            }
                                        }
                                    }
                                }
                            }
                        }
                    }
                }
            }
        }
    }
}

pub(crate) proof fn aligned_create_sink_option_name(p: Input, larger: Input, ahead: int, i: int)
    requires
        aligned(p, larger, ahead),
        0 <= i <= p.toks.len(),
    ensures
        agrees(p, ahead, i + 1, create_sink_option_name(p, i), create_sink_option_name(larger, ahead + i)),
{
    reveal(create_sink_option_name);
}

pub(crate) proof fn unfold_create_sink_option_name_list(p: Input, i: int, items: Seq<TreeView>)
    ensures
        create_sink_option_name_list(p, i, items) == ({
            match past(p, i, create_sink_option_name(p, i)) { Failed(e, i) => Failed(e, i), Got(item, i) => {
            if at_token(p, i, TokenView::Comma) {
                let i = i + 1;
                create_sink_option_name_list(p, i, items.push(item))
            } else {
                Got(items.push(item), i)
            }
            }}
        }),
{
    reveal(create_sink_option_name_list);
}

pub(crate) proof fn aligned_create_sink_option_name_list(p: Input, larger: Input, ahead: int, i: int, items: Seq<TreeView>)
    requires
        aligned(p, larger, ahead),
        0 <= i <= p.toks.len(),
    ensures
        agrees(p, ahead, i + 1, create_sink_option_name_list(p, i, items), create_sink_option_name_list(larger, ahead + i, items)),
    decreases p.toks.len() - i, 0int,
{
    unfold_create_sink_option_name_list(p, i, items);
    unfold_create_sink_option_name_list(larger, ahead + i, items);
    aligned_create_sink_option_name(p, larger, ahead, i);
    if let Got(item, i) = past(p, i, create_sink_option_name(p, i)) {
        if at_token(p, i, TokenView::Comma) {
            let i = i + 1;
            aligned_create_sink_option_name_list(p, larger, ahead, i, items.push(item));
        }
    }
}

pub(crate) proof fn aligned_create_sink_option(p: Input, larger: Input, ahead: int, i: int)
    requires
        aligned(p, larger, ahead),
        0 <= i <= p.toks.len(),
    ensures
        agrees(p, ahead, i + 1, create_sink_option(p, i), create_sink_option(larger, ahead + i)),
{
    reveal(create_sink_option);
    aligned_create_sink_option_name(p, larger, ahead, i);
    if let Got(name, i) = create_sink_option_name(p, i) {
        aligned_optional_option_value(p, larger, ahead, i);
    }
}

pub(crate) proof fn unfold_create_sink_option_list(p: Input, i: int, items: Seq<TreeView>)
    ensures
        create_sink_option_list(p, i, items) == ({
            match past(p, i, create_sink_option(p, i)) { Failed(e, i) => Failed(e, i), Got(item, i) => {
            if at_token(p, i, TokenView::Comma) {
                let i = i + 1;
                create_sink_option_list(p, i, items.push(item))
            } else {
                Got(items.push(item), i)
            }
            }}
        }),
{
    reveal(create_sink_option_list);
}

pub(crate) proof fn aligned_create_sink_option_list(p: Input, larger: Input, ahead: int, i: int, items: Seq<TreeView>)
    requires
        aligned(p, larger, ahead),
        0 <= i <= p.toks.len(),
    ensures
        agrees(p, ahead, i + 1, create_sink_option_list(p, i, items), create_sink_option_list(larger, ahead + i, items)),
    decreases p.toks.len() - i, 0int,
{
    unfold_create_sink_option_list(p, i, items);
    unfold_create_sink_option_list(larger, ahead + i, items);
    aligned_create_sink_option(p, larger, ahead, i);
    if let Got(item, i) = past(p, i, create_sink_option(p, i)) {
        if at_token(p, i, TokenView::Comma) {
            let i = i + 1;
            aligned_create_sink_option_list(p, larger, ahead, i, items.push(item));
        }
    }
}

pub(crate) proof fn aligned_create_source_connection(p: Input, larger: Input, ahead: int, i: int)
    requires
        aligned(p, larger, ahead),
        0 <= i <= p.toks.len(),
    ensures
        agrees(p, ahead, i + 1, create_source_connection(p, i), create_source_connection(larger, ahead + i)),
{
    reveal(create_source_connection);
    if let Got(k, i) = one_keyword(p, i, seq![Keyword::KAFKA, Keyword::POSTGRES, Keyword::LOAD, Keyword::TEST]) {
        match k {
            Keyword::POSTGRES => {
                if let Got(_, i) = keyword(p, i, Keyword::CONNECTION) {
                    aligned_raw_name(p, larger, ahead, i);
                    if let Got(connection, i) = raw_name(p, i) {
                        if at_token(p, i, TokenView::LParen) {
                            let i = i + 1;
                            aligned_pg_connection_option_list(p, larger, ahead, i, Seq::<TreeView>::empty());
                        }
                    }
                }
            },
            Keyword::KAFKA => {
                if let Got(_, i) = keyword(p, i, Keyword::CONNECTION) {
                    aligned_kafka_connection_reference(p, larger, ahead, i);
                    if let Got(connection, i) = kafka_connection_reference(p, i) {
                        if at_keyword(p, i, Keyword::KEY) && !at_keyword(p, i + 1, Keyword::FORMAT) {
                            if let Got(_, i) = keyword(p, i, Keyword::KEY) {
                                aligned_parenthesized_column_list(p, larger, ahead, i, false);
                            }
                        }
                    }
                }
            },
            Keyword::LOAD => {
                if let Got(_, i) = keyword(p, i, Keyword::GENERATOR) {
                    if let Got(which, i) = one_keyword(p, i, seq![Keyword::COUNTER, Keyword::MARKETING, Keyword::AUCTION, Keyword::TPCH, Keyword::DATUMS]) {
                        let part = {
                            match which {
                                Keyword::COUNTER => {
                                    Got(TreeView::Node(Kind::Counter, Seq::<TreeView>::empty()), i)
                                },
                                Keyword::AUCTION => {
                                    Got(TreeView::Node(Kind::Auction, Seq::<TreeView>::empty()), i)
                                },
                                Keyword::TPCH => {
                                    Got(TreeView::Node(Kind::Tpch, Seq::<TreeView>::empty()), i)
                                },
                                Keyword::DATUMS => {
                                    Got(TreeView::Node(Kind::Datums, Seq::<TreeView>::empty()), i)
                                },
                                _ => {
                                    Got(TreeView::Node(Kind::Marketing, Seq::<TreeView>::empty()), i)
                                },
                            }
                        };
                        if let Got(generator, i) = part {
                            if at_token(p, i, TokenView::LParen) {
                                let i = i + 1;
                                aligned_load_generator_option_list(p, larger, ahead, i, Seq::<TreeView>::empty());
                            }
                        }
                    }
                }
            },
            _ => {
                if let Got(_, i) = keyword(p, i, Keyword::SCRIPT) {
                    aligned_literal_string(p, larger, ahead, i);
                }
            },
        }
    }
}

pub(crate) proof fn aligned_pg_connection_option(p: Input, larger: Input, ahead: int, i: int)
    requires
        aligned(p, larger, ahead),
        0 <= i <= p.toks.len(),
    ensures
        agrees(p, ahead, i + 1, pg_connection_option(p, i), pg_connection_option(larger, ahead + i)),
{
    reveal(pg_connection_option);
    if let Got(k, i) = one_keyword(p, i, seq![Keyword::DETAILS, Keyword::PUBLICATION, Keyword::TEXT]) {
        match k {
            Keyword::DETAILS => {
                aligned_optional_option_value(p, larger, ahead, i);
            },
            Keyword::PUBLICATION => {
                aligned_optional_option_value(p, larger, ahead, i);
            },
            _ => {
                if let Got(_, i) = keyword(p, i, Keyword::COLUMNS) {
                    let i = if at_token(p, i, TokenView::Eq) { i + 1 } else { i };
                    aligned_name_sequence(p, larger, ahead, i);
                }
            },
        }
    }
}

pub(crate) proof fn unfold_pg_connection_option_list(p: Input, i: int, items: Seq<TreeView>)
    ensures
        pg_connection_option_list(p, i, items) == ({
            match past(p, i, pg_connection_option(p, i)) { Failed(e, i) => Failed(e, i), Got(item, i) => {
            if at_token(p, i, TokenView::Comma) {
                let i = i + 1;
                pg_connection_option_list(p, i, items.push(item))
            } else {
                Got(items.push(item), i)
            }
            }}
        }),
{
    reveal(pg_connection_option_list);
}

pub(crate) proof fn aligned_pg_connection_option_list(p: Input, larger: Input, ahead: int, i: int, items: Seq<TreeView>)
    requires
        aligned(p, larger, ahead),
        0 <= i <= p.toks.len(),
    ensures
        agrees(p, ahead, i + 1, pg_connection_option_list(p, i, items), pg_connection_option_list(larger, ahead + i, items)),
    decreases p.toks.len() - i, 0int,
{
    unfold_pg_connection_option_list(p, i, items);
    unfold_pg_connection_option_list(larger, ahead + i, items);
    aligned_pg_connection_option(p, larger, ahead, i);
    if let Got(item, i) = past(p, i, pg_connection_option(p, i)) {
        if at_token(p, i, TokenView::Comma) {
            let i = i + 1;
            aligned_pg_connection_option_list(p, larger, ahead, i, items.push(item));
        }
    }
}

pub(crate) proof fn aligned_load_generator_option(p: Input, larger: Input, ahead: int, i: int)
    requires
        aligned(p, larger, ahead),
        0 <= i <= p.toks.len(),
    ensures
        agrees(p, ahead, i + 1, load_generator_option(p, i), load_generator_option(larger, ahead + i)),
{
    reveal(load_generator_option);
    if let Got(k, i) = one_keyword(p, i, seq![Keyword::SCALE, Keyword::TICK, Keyword::MAX]) {
        let part = {
            match k {
                Keyword::SCALE => {
                    match keyword(p, i, Keyword::FACTOR) { Failed(e, i) => Failed(e, i), Got(_, i) => {
                    Got(TreeView::Node(Kind::ScaleFactor, Seq::<TreeView>::empty()), i)
                    }}
                },
                Keyword::TICK => {
                    match keyword(p, i, Keyword::INTERVAL) { Failed(e, i) => Failed(e, i), Got(_, i) => {
                    Got(TreeView::Node(Kind::TickInterval, Seq::<TreeView>::empty()), i)
                    }}
                },
                _ => {
                    match keyword(p, i, Keyword::CARDINALITY) { Failed(e, i) => Failed(e, i), Got(_, i) => {
                    Got(TreeView::Node(Kind::MaxCardinality, Seq::<TreeView>::empty()), i)
                    }}
                },
            }
        };
        if let Got(name, i) = part {
            let i = if at_token(p, i, TokenView::Eq) { i + 1 } else { i };
            aligned_optional_option_value(p, larger, ahead, i);
        }
    }
}

pub(crate) proof fn unfold_load_generator_option_list(p: Input, i: int, items: Seq<TreeView>)
    ensures
        load_generator_option_list(p, i, items) == ({
            match past(p, i, load_generator_option(p, i)) { Failed(e, i) => Failed(e, i), Got(item, i) => {
            if at_token(p, i, TokenView::Comma) {
                let i = i + 1;
                load_generator_option_list(p, i, items.push(item))
            } else {
                Got(items.push(item), i)
            }
            }}
        }),
{
    reveal(load_generator_option_list);
}

pub(crate) proof fn aligned_load_generator_option_list(p: Input, larger: Input, ahead: int, i: int, items: Seq<TreeView>)
    requires
        aligned(p, larger, ahead),
        0 <= i <= p.toks.len(),
    ensures
        agrees(p, ahead, i + 1, load_generator_option_list(p, i, items), load_generator_option_list(larger, ahead + i, items)),
    decreases p.toks.len() - i, 0int,
{
    unfold_load_generator_option_list(p, i, items);
    unfold_load_generator_option_list(larger, ahead + i, items);
    aligned_load_generator_option(p, larger, ahead, i);
    if let Got(item, i) = past(p, i, load_generator_option(p, i)) {
        if at_token(p, i, TokenView::Comma) {
            let i = i + 1;
            aligned_load_generator_option_list(p, larger, ahead, i, items.push(item));
        }
    }
}

pub(crate) proof fn aligned_create_sink_connection(p: Input, larger: Input, ahead: int, i: int)
    requires
        aligned(p, larger, ahead),
        0 <= i <= p.toks.len(),
    ensures
        agrees(p, ahead, i + 1, create_sink_connection(p, i), create_sink_connection(larger, ahead + i)),
{
    reveal(create_sink_connection);
    if let Got(_, i) = keyword(p, i, Keyword::KAFKA) {
        if let Got(_, i) = keyword(p, i, Keyword::CONNECTION) {
            aligned_kafka_connection_reference(p, larger, ahead, i);
            if let Got(connection, i) = kafka_connection_reference(p, i) {
                if at_keyword(p, i, Keyword::KEY) && !at_keyword(p, i + 1, Keyword::FORMAT) {
                    if let Got(_, i) = keyword(p, i, Keyword::KEY) {
                        aligned_parenthesized_column_list(p, larger, ahead, i, false);
                    }
                }
            }
        }
    }
}

pub(crate) proof fn aligned_or_replace(p: Input, larger: Input, ahead: int, i: int)
    requires
        aligned(p, larger, ahead),
        0 <= i <= p.toks.len(),
    ensures
        agrees(p, ahead, i, or_replace(p, i), or_replace(larger, ahead + i)),
{
    reveal(or_replace);
}

pub(crate) proof fn aligned_if_exists_behavior(p: Input, larger: Input, ahead: int, i: int, replace: bool)
    requires
        aligned(p, larger, ahead),
        0 <= i <= p.toks.len(),
    ensures
        agrees(p, ahead, i, if_exists_behavior(p, i, replace), if_exists_behavior(larger, ahead + i, replace)),
{
    reveal(if_exists_behavior);
    if !(replace) {
        aligned_if_not_exists(p, larger, ahead, i);
    }
}

pub(crate) proof fn aligned_temporary(p: Input, larger: Input, ahead: int, i: int)
    requires
        aligned(p, larger, ahead),
        0 <= i <= p.toks.len(),
    ensures
        agrees(p, ahead, i, temporary(p, i), temporary(larger, ahead + i)),
{
    reveal(temporary);
}

pub(crate) proof fn aligned_create_view(p: Input, larger: Input, ahead: int, i: int)
    requires
        aligned(p, larger, ahead),
        0 <= i <= p.toks.len(),
    ensures
        agrees(p, ahead, i + 1, create_view(p, i), create_view(larger, ahead + i)),
{
    reveal(create_view);
    aligned_or_replace(p, larger, ahead, i);
    if let Got(replace, i) = or_replace(p, i) {
        aligned_temporary(p, larger, ahead, i);
        if let Got(temporary, i) = temporary(p, i) {
            if let Got(_, i) = keyword(p, i, Keyword::VIEW) {
                aligned_if_exists_behavior(p, larger, ahead, i, replace);
                if let Got(if_exists, i) = if_exists_behavior(p, i, replace) {
                    aligned_view_definition(p, larger, ahead, i);
                }
            }
        }
    }
}

pub(crate) proof fn aligned_view_definition(p: Input, larger: Input, ahead: int, i: int)
    requires
        aligned(p, larger, ahead),
        0 <= i <= p.toks.len(),
    ensures
        agrees(p, ahead, i + 1, view_definition(p, i), view_definition(larger, ahead + i)),
{
    reveal(view_definition);
    aligned_item_name(p, larger, ahead, i);
    if let Got(name, i) = item_name(p, i) {
        aligned_parenthesized_column_list(p, larger, ahead, i, true);
        if let Got(columns, i) = parenthesized_column_list(p, i, true) {
            if let Got(_, i) = keyword(p, i, Keyword::AS) {
                aligned_query(p, larger, ahead, i);
            }
        }
    }
}

pub(crate) proof fn aligned_create_materialized_view(p: Input, larger: Input, ahead: int, i: int)
    requires
        aligned(p, larger, ahead),
        0 <= i <= p.toks.len(),
    ensures
        agrees(p, ahead, i + 1, create_materialized_view(p, i), create_materialized_view(larger, ahead + i)),
{
    reveal(create_materialized_view);
    aligned_or_replace(p, larger, ahead, i);
    if let Got(replace, i) = or_replace(p, i) {
        if at_keywords2(p, i, Keyword::MATERIALIZED, Keyword::VIEW) {
            let i = i + 2;
            aligned_if_exists_behavior(p, larger, ahead, i, replace);
            if let Got(if_exists, i) = if_exists_behavior(p, i, replace) {
                aligned_item_name(p, larger, ahead, i);
                if let Got(name, i) = item_name(p, i) {
                    aligned_parenthesized_column_list(p, larger, ahead, i, true);
                    if let Got(columns, i) = parenthesized_column_list(p, i, true) {
                        aligned_optional_in_cluster(p, larger, ahead, i);
                        if let Got(in_cluster, i) = optional_in_cluster(p, i) {
                            if let Got(_, i) = keyword(p, i, Keyword::AS) {
                                aligned_query(p, larger, ahead, i);
                            }
                        }
                    }
                }
            }
        }
    }
}

pub(crate) proof fn aligned_create_index(p: Input, larger: Input, ahead: int, i: int)
    requires
        aligned(p, larger, ahead),
        0 <= i <= p.toks.len(),
    ensures
        agrees(p, ahead, i + 1, create_index(p, i), create_index(larger, ahead + i)),
{
    reveal(create_index);
    let default_index = at_keyword(p, i, Keyword::DEFAULT);
    let i = if default_index { i + 1 } else { i };
    if let Got(_, i) = keyword(p, i, Keyword::INDEX) {
        aligned_if_not_exists(p, larger, ahead, i);
        if let Got(if_not_exists, i) = if_not_exists(p, i) {
            if !(at_keyword(p, i, Keyword::IN) || at_keyword(p, i, Keyword::ON)) {
                aligned_identifier(p, larger, ahead, i);
            }
            let part = {
                if at_keyword(p, i, Keyword::IN) || at_keyword(p, i, Keyword::ON) {
                    if if_not_exists && !default_index {
                        Failed(expected_at(p, i, "index name"@), i)
                    } else {
                        Got(TreeView::Absent, i)
                    }
                } else {
                    identifier(p, i)
                }
            };
            if let Got(name, i) = part {
                aligned_optional_in_cluster(p, larger, ahead, i);
                if let Got(in_cluster, i) = optional_in_cluster(p, i) {
                    if let Got(_, i) = keyword(p, i, Keyword::ON) {
                        aligned_raw_name(p, larger, ahead, i);
                        if let Got(on_name, i) = raw_name(p, i) {
                            aligned_using_arrangement(p, larger, ahead, i);
                            if let Got(_, i) = using_arrangement(p, i) {
                                if !(default_index) {
                                    if let Got(_, i) = token(p, i, TokenView::LParen) {
                                        if !at_token(p, i, TokenView::RParen) {
                                            aligned_order_by_expr_list(p, larger, ahead, i, Seq::<TreeView>::empty());
                                        }
                                    }
                                }
                                let part = {
                                    if default_index {
                                        Got(TreeView::Absent, i)
                                    } else {
                                        match token(p, i, TokenView::LParen) { Failed(e, i) => Failed(e, i), Got(_, i) => {
                                        if at_token(p, i, TokenView::RParen) {
                                            let i = i + 1;
                                            Got(TreeView::List(Seq::<TreeView>::empty()), i)
                                        } else {
                                            match order_by_expr_list(p, i, Seq::<TreeView>::empty()) { Failed(e, i) => Failed(e, i), Got(parts, i) => {
                                            match token(p, i, TokenView::RParen) { Failed(e, i) => Failed(e, i), Got(_, i) => {
                                            Got(TreeView::List(first_children(parts)), i)
                                            }}
                                            }}
                                        }
                                        }}
                                    }
                                };
                                if let Got(key_parts, i) = part {
                                    if at_keyword(p, i, Keyword::WITH) {
                                        let i = i + 1;
                                        if let Got(_, i) = token(p, i, TokenView::LParen) {
                                            if !at_token(p, i, TokenView::RParen) {
                                                aligned_index_option_list(p, larger, ahead, i, Seq::<TreeView>::empty());
                                            }
                                        }
                                    }
                                }
                            }
                        }
                    }
                }
            }
        }
    }
}

pub(crate) proof fn aligned_using_arrangement(p: Input, larger: Input, ahead: int, i: int)
    requires
        aligned(p, larger, ahead),
        0 <= i <= p.toks.len(),
    ensures
        agrees(p, ahead, i, using_arrangement(p, i), using_arrangement(larger, ahead + i)),
{
    reveal(using_arrangement);
}

pub(crate) proof fn aligned_index_option_name(p: Input, larger: Input, ahead: int, i: int)
    requires
        aligned(p, larger, ahead),
        0 <= i <= p.toks.len(),
    ensures
        agrees(p, ahead, i + 1, index_option_name(p, i), index_option_name(larger, ahead + i)),
{
    reveal(index_option_name);
}

pub(crate) proof fn unfold_index_option_name_list(p: Input, i: int, items: Seq<TreeView>)
    ensures
        index_option_name_list(p, i, items) == ({
            match past(p, i, index_option_name(p, i)) { Failed(e, i) => Failed(e, i), Got(item, i) => {
            if at_token(p, i, TokenView::Comma) {
                let i = i + 1;
                index_option_name_list(p, i, items.push(item))
            } else {
                Got(items.push(item), i)
            }
            }}
        }),
{
    reveal(index_option_name_list);
}

pub(crate) proof fn aligned_index_option_name_list(p: Input, larger: Input, ahead: int, i: int, items: Seq<TreeView>)
    requires
        aligned(p, larger, ahead),
        0 <= i <= p.toks.len(),
    ensures
        agrees(p, ahead, i + 1, index_option_name_list(p, i, items), index_option_name_list(larger, ahead + i, items)),
    decreases p.toks.len() - i, 0int,
{
    unfold_index_option_name_list(p, i, items);
    unfold_index_option_name_list(larger, ahead + i, items);
    aligned_index_option_name(p, larger, ahead, i);
    if let Got(item, i) = past(p, i, index_option_name(p, i)) {
        if at_token(p, i, TokenView::Comma) {
            let i = i + 1;
            aligned_index_option_name_list(p, larger, ahead, i, items.push(item));
        }
    }
}

pub(crate) proof fn aligned_index_option(p: Input, larger: Input, ahead: int, i: int)
    requires
        aligned(p, larger, ahead),
        0 <= i <= p.toks.len(),
    ensures
        agrees(p, ahead, i + 1, index_option(p, i), index_option(larger, ahead + i)),
{
    reveal(index_option);
    if at_keywords3(p, i, Keyword::LOGICAL, Keyword::COMPACTION, Keyword::WINDOW) {
        let i = i + 3;
        aligned_optional_option_value(p, larger, ahead, i);
    }
}

pub(crate) proof fn unfold_index_option_list(p: Input, i: int, items: Seq<TreeView>)
    ensures
        index_option_list(p, i, items) == ({
            match past(p, i, index_option(p, i)) { Failed(e, i) => Failed(e, i), Got(item, i) => {
            if at_token(p, i, TokenView::Comma) {
                let i = i + 1;
                index_option_list(p, i, items.push(item))
            } else {
                Got(items.push(item), i)
            }
            }}
        }),
{
    reveal(index_option_list);
}

pub(crate) proof fn aligned_index_option_list(p: Input, larger: Input, ahead: int, i: int, items: Seq<TreeView>)
    requires
        aligned(p, larger, ahead),
        0 <= i <= p.toks.len(),
    ensures
        agrees(p, ahead, i + 1, index_option_list(p, i, items), index_option_list(larger, ahead + i, items)),
    decreases p.toks.len() - i, 0int,
{
    unfold_index_option_list(p, i, items);
    unfold_index_option_list(larger, ahead + i, items);
    aligned_index_option(p, larger, ahead, i);
    if let Got(item, i) = past(p, i, index_option(p, i)) {
        if at_token(p, i, TokenView::Comma) {
            let i = i + 1;
            aligned_index_option_list(p, larger, ahead, i, items.push(item));
        }
    }
}

pub(crate) proof fn aligned_raw_ident(p: Input, larger: Input, ahead: int, i: int)
    requires
        aligned(p, larger, ahead),
        0 <= i <= p.toks.len(),
    ensures
        agrees(p, ahead, i + 1, raw_ident(p, i), raw_ident(larger, ahead + i)),
{
    reveal(raw_ident);
    if !at_token(p, i, TokenView::LBracket) {
        aligned_identifier(p, larger, ahead, i);
    }
}

pub(crate) proof fn aligned_create_role(p: Input, larger: Input, ahead: int, i: int)
    requires
        aligned(p, larger, ahead),
        0 <= i <= p.toks.len(),
    ensures
        agrees(p, ahead, i + 1, create_role(p, i), create_role(larger, ahead + i)),
{
    reveal(create_role);
    if let Got(_, i) = keyword(p, i, Keyword::ROLE) {
        aligned_identifier(p, larger, ahead, i);
        if let Got(name, i) = identifier(p, i) {
            let i = if at_keyword(p, i, Keyword::WITH) { i + 1 } else { i };
            aligned_role_attributes(p, larger, ahead, i, Seq::<TreeView>::empty());
        }
    }
}

pub(crate) proof fn unfold_role_attributes(p: Input, i: int, options: Seq<TreeView>)
    ensures
        role_attributes(p, i, options) == ({
            match one_of(p, i, seq![Keyword::SUPERUSER, Keyword::NOSUPERUSER, Keyword::LOGIN, Keyword::NOLOGIN, Keyword::INHERIT, Keyword::NOINHERIT, Keyword::CREATECLUSTER, Keyword::NOCREATECLUSTER, Keyword::CREATEDB, Keyword::NOCREATEDB, Keyword::CREATEROLE, Keyword::NOCREATEROLE]) {
                Some(k) => {
                    let i = i + 1;
                    match k {
                        Keyword::SUPERUSER => {
                            role_attributes(p, i, options.push(TreeView::Node(Kind::SuperUser, Seq::<TreeView>::empty())))
                        },
                        Keyword::NOSUPERUSER => {
                            role_attributes(p, i, options.push(TreeView::Node(Kind::NoSuperUser, Seq::<TreeView>::empty())))
                        },
                        Keyword::LOGIN => {
                            role_attributes(p, i, options.push(TreeView::Node(Kind::Login, Seq::<TreeView>::empty())))
                        },
                        Keyword::NOLOGIN => {
                            role_attributes(p, i, options.push(TreeView::Node(Kind::NoLogin, Seq::<TreeView>::empty())))
                        },
                        Keyword::INHERIT => {
                            role_attributes(p, i, options.push(TreeView::Node(Kind::Inherit, Seq::<TreeView>::empty())))
                        },
                        Keyword::NOINHERIT => {
                            role_attributes(p, i, options.push(TreeView::Node(Kind::NoInherit, Seq::<TreeView>::empty())))
                        },
                        Keyword::CREATECLUSTER => {
                            role_attributes(p, i, options.push(TreeView::Node(Kind::MayCreateCluster, Seq::<TreeView>::empty())))
                        },
                        Keyword::NOCREATECLUSTER => {
                            role_attributes(p, i, options.push(TreeView::Node(Kind::NoCreateCluster, Seq::<TreeView>::empty())))
                        },
                        Keyword::CREATEDB => {
                            role_attributes(p, i, options.push(TreeView::Node(Kind::MayCreateDb, Seq::<TreeView>::empty())))
                        },
                        Keyword::NOCREATEDB => {
                            role_attributes(p, i, options.push(TreeView::Node(Kind::NoCreateDb, Seq::<TreeView>::empty())))
                        },
                        Keyword::CREATEROLE => {
                            role_attributes(p, i, options.push(TreeView::Node(Kind::MayCreateRole, Seq::<TreeView>::empty())))
                        },
                        _ => {
                            role_attributes(p, i, options.push(TreeView::Node(Kind::NoCreateRole, Seq::<TreeView>::empty())))
                        },
                    }
                },
                None => {
                    Got(options, i)
                },
            }
        }),
{
    reveal(role_attributes);
}

pub(crate) proof fn aligned_role_attributes(p: Input, larger: Input, ahead: int, i: int, options: Seq<TreeView>)
    requires
        aligned(p, larger, ahead),
        0 <= i <= p.toks.len(),
    ensures
        agrees(p, ahead, i, role_attributes(p, i, options), role_attributes(larger, ahead + i, options)),
    decreases p.toks.len() - i, 0int,
{
    unfold_role_attributes(p, i, options);
    unfold_role_attributes(larger, ahead + i, options);
    if let Some(k) = one_of(p, i, seq![Keyword::SUPERUSER, Keyword::NOSUPERUSER, Keyword::LOGIN, Keyword::NOLOGIN, Keyword::INHERIT, Keyword::NOINHERIT, Keyword::CREATECLUSTER, Keyword::NOCREATECLUSTER, Keyword::CREATEDB, Keyword::NOCREATEDB, Keyword::CREATEROLE, Keyword::NOCREATEROLE]) {
        let i = i + 1;
        match k {
            Keyword::SUPERUSER => {
                aligned_role_attributes(p, larger, ahead, i, options.push(TreeView::Node(Kind::SuperUser, Seq::<TreeView>::empty())));
            },
            Keyword::NOSUPERUSER => {
                aligned_role_attributes(p, larger, ahead, i, options.push(TreeView::Node(Kind::NoSuperUser, Seq::<TreeView>::empty())));
            },
            Keyword::LOGIN => {
                aligned_role_attributes(p, larger, ahead, i, options.push(TreeView::Node(Kind::Login, Seq::<TreeView>::empty())));
            },
            Keyword::NOLOGIN => {
                aligned_role_attributes(p, larger, ahead, i, options.push(TreeView::Node(Kind::NoLogin, Seq::<TreeView>::empty())));
            },
            Keyword::INHERIT => {
                aligned_role_attributes(p, larger, ahead, i, options.push(TreeView::Node(Kind::Inherit, Seq::<TreeView>::empty())));
            },
            Keyword::NOINHERIT => {
                aligned_role_attributes(p, larger, ahead, i, options.push(TreeView::Node(Kind::NoInherit, Seq::<TreeView>::empty())));
            },
            Keyword::CREATECLUSTER => {
                aligned_role_attributes(p, larger, ahead, i, options.push(TreeView::Node(Kind::MayCreateCluster, Seq::<TreeView>::empty())));
            },
            Keyword::NOCREATECLUSTER => {
                aligned_role_attributes(p, larger, ahead, i, options.push(TreeView::Node(Kind::NoCreateCluster, Seq::<TreeView>::empty())));
            },
            Keyword::CREATEDB => {
                aligned_role_attributes(p, larger, ahead, i, options.push(TreeView::Node(Kind::MayCreateDb, Seq::<TreeView>::empty())));
            },
            Keyword::NOCREATEDB => {
                aligned_role_attributes(p, larger, ahead, i, options.push(TreeView::Node(Kind::NoCreateDb, Seq::<TreeView>::empty())));
            },
            Keyword::CREATEROLE => {
                aligned_role_attributes(p, larger, ahead, i, options.push(TreeView::Node(Kind::MayCreateRole, Seq::<TreeView>::empty())));
            },
            _ => {
                aligned_role_attributes(p, larger, ahead, i, options.push(TreeView::Node(Kind::NoCreateRole, Seq::<TreeView>::empty())));
            },
        }
    }
}

pub(crate) proof fn aligned_create_secret(p: Input, larger: Input, ahead: int, i: int)
    requires
        aligned(p, larger, ahead),
        0 <= i <= p.toks.len(),
    ensures
        agrees(p, ahead, i + 1, create_secret(p, i), create_secret(larger, ahead + i)),
{
    reveal(create_secret);
    if let Got(_, i) = keyword(p, i, Keyword::SECRET) {
        aligned_if_not_exists(p, larger, ahead, i);
        if let Got(if_not_exists, i) = if_not_exists(p, i) {
            aligned_item_name(p, larger, ahead, i);
            if let Got(name, i) = item_name(p, i) {
                if let Got(_, i) = keyword(p, i, Keyword::AS) {
                    aligned_expr(p, larger, ahead, i);
                }
            }
        }
    }
}

pub(crate) proof fn aligned_create_type(p: Input, larger: Input, ahead: int, i: int)
    requires
        aligned(p, larger, ahead),
        0 <= i <= p.toks.len(),
    ensures
        agrees(p, ahead, i + 1, create_type(p, i), create_type(larger, ahead + i)),
{
    reveal(create_type);
    if let Got(_, i) = keyword(p, i, Keyword::TYPE) {
        aligned_item_name(p, larger, ahead, i);
        if let Got(name, i) = item_name(p, i) {
            if let Got(_, i) = keyword(p, i, Keyword::AS) {
                if let Some(k) = one_of(p, i, seq![Keyword::LIST, Keyword::MAP]) {
                    let i = i + 1;
                    if let Got(_, i) = token(p, i, TokenView::LParen) {
                        if k == Keyword::LIST {
                            aligned_create_type_list_option_list(p, larger, ahead, i, Seq::<TreeView>::empty());
                        } else {
                            aligned_create_type_map_option_list(p, larger, ahead, i, Seq::<TreeView>::empty());
                        }
                    }
                } else {
                    aligned_composite_type_definition(p, larger, ahead, i);
                }
            }
        }
    }
}

pub(crate) proof fn aligned_create_type_list_option(p: Input, larger: Input, ahead: int, i: int)
    requires
        aligned(p, larger, ahead),
        0 <= i <= p.toks.len(),
    ensures
        agrees(p, ahead, i + 1, create_type_list_option(p, i), create_type_list_option(larger, ahead + i)),
{
    reveal(create_type_list_option);
    if at_keywords2(p, i, Keyword::ELEMENT, Keyword::TYPE) {
        let i = i + 2;
        aligned_data_type_option_value(p, larger, ahead, i);
    }
}

pub(crate) proof fn unfold_create_type_list_option_list(p: Input, i: int, items: Seq<TreeView>)
    ensures
        create_type_list_option_list(p, i, items) == ({
            match past(p, i, create_type_list_option(p, i)) { Failed(e, i) => Failed(e, i), Got(item, i) => {
            if at_token(p, i, TokenView::Comma) {
                let i = i + 1;
                create_type_list_option_list(p, i, items.push(item))
            } else {
                Got(items.push(item), i)
            }
            }}
        }),
{
    reveal(create_type_list_option_list);
}

pub(crate) proof fn aligned_create_type_list_option_list(p: Input, larger: Input, ahead: int, i: int, items: Seq<TreeView>)
    requires
        aligned(p, larger, ahead),
        0 <= i <= p.toks.len(),
    ensures
        agrees(p, ahead, i + 1, create_type_list_option_list(p, i, items), create_type_list_option_list(larger, ahead + i, items)),
    decreases p.toks.len() - i, 0int,
{
    unfold_create_type_list_option_list(p, i, items);
    unfold_create_type_list_option_list(larger, ahead + i, items);
    aligned_create_type_list_option(p, larger, ahead, i);
    if let Got(item, i) = past(p, i, create_type_list_option(p, i)) {
        if at_token(p, i, TokenView::Comma) {
            let i = i + 1;
            aligned_create_type_list_option_list(p, larger, ahead, i, items.push(item));
        }
    }
}

pub(crate) proof fn aligned_create_type_map_option(p: Input, larger: Input, ahead: int, i: int)
    requires
        aligned(p, larger, ahead),
        0 <= i <= p.toks.len(),
    ensures
        agrees(p, ahead, i + 1, create_type_map_option(p, i), create_type_map_option(larger, ahead + i)),
{
    reveal(create_type_map_option);
    if let Got(k, i) = one_keyword(p, i, seq![Keyword::KEY, Keyword::VALUE]) {
        if let Got(_, i) = keyword(p, i, Keyword::TYPE) {
            aligned_data_type_option_value(p, larger, ahead, i);
        }
    }
}

pub(crate) proof fn unfold_create_type_map_option_list(p: Input, i: int, items: Seq<TreeView>)
    ensures
        create_type_map_option_list(p, i, items) == ({
            match past(p, i, create_type_map_option(p, i)) { Failed(e, i) => Failed(e, i), Got(item, i) => {
            if at_token(p, i, TokenView::Comma) {
                let i = i + 1;
                create_type_map_option_list(p, i, items.push(item))
            } else {
                Got(items.push(item), i)
            }
            }}
        }),
{
    reveal(create_type_map_option_list);
}

pub(crate) proof fn aligned_create_type_map_option_list(p: Input, larger: Input, ahead: int, i: int, items: Seq<TreeView>)
    requires
        aligned(p, larger, ahead),
        0 <= i <= p.toks.len(),
    ensures
        agrees(p, ahead, i + 1, create_type_map_option_list(p, i, items), create_type_map_option_list(larger, ahead + i, items)),
    decreases p.toks.len() - i, 0int,
{
    unfold_create_type_map_option_list(p, i, items);
    unfold_create_type_map_option_list(larger, ahead + i, items);
    aligned_create_type_map_option(p, larger, ahead, i);
    if let Got(item, i) = past(p, i, create_type_map_option(p, i)) {
        if at_token(p, i, TokenView::Comma) {
            let i = i + 1;
            aligned_create_type_map_option_list(p, larger, ahead, i, items.push(item));
        }
    }
}

pub(crate) proof fn aligned_create_cluster(p: Input, larger: Input, ahead: int, i: int)
    requires
        aligned(p, larger, ahead),
        0 <= i <= p.toks.len(),
    ensures
        agrees(p, ahead, i + 1, create_cluster(p, i), create_cluster(larger, ahead + i)),
{
    reveal(create_cluster);
    aligned_identifier(p, larger, ahead, i);
    if let Got(name, i) = identifier(p, i) {
        aligned_cluster_option_list(p, larger, ahead, i, Seq::<TreeView>::empty());
    }
}

pub(crate) proof fn aligned_replica_definition(p: Input, larger: Input, ahead: int, i: int)
    requires
        aligned(p, larger, ahead),
        0 <= i <= p.toks.len(),
    ensures
        agrees(p, ahead, i + 1, replica_definition(p, i), replica_definition(larger, ahead + i)),
{
    reveal(replica_definition);
    aligned_identifier(p, larger, ahead, i);
    if let Got(name, i) = identifier(p, i) {
        if let Got(_, i) = token(p, i, TokenView::LParen) {
            aligned_replica_option_list(p, larger, ahead, i, Seq::<TreeView>::empty());
        }
    }
}

pub(crate) proof fn unfold_replica_definition_list(p: Input, i: int, items: Seq<TreeView>)
    ensures
        replica_definition_list(p, i, items) == ({
            match past(p, i, replica_definition(p, i)) { Failed(e, i) => Failed(e, i), Got(item, i) => {
            if at_token(p, i, TokenView::Comma) {
                let i = i + 1;
                replica_definition_list(p, i, items.push(item))
            } else {
                Got(items.push(item), i)
            }
            }}
        }),
{
    reveal(replica_definition_list);
}

pub(crate) proof fn aligned_replica_definition_list(p: Input, larger: Input, ahead: int, i: int, items: Seq<TreeView>)
    requires
        aligned(p, larger, ahead),
        0 <= i <= p.toks.len(),
    ensures
        agrees(p, ahead, i + 1, replica_definition_list(p, i, items), replica_definition_list(larger, ahead + i, items)),
    decreases p.toks.len() - i, 0int,
{
    unfold_replica_definition_list(p, i, items);
    unfold_replica_definition_list(larger, ahead + i, items);
    aligned_replica_definition(p, larger, ahead, i);
    if let Got(item, i) = past(p, i, replica_definition(p, i)) {
        if at_token(p, i, TokenView::Comma) {
            let i = i + 1;
            aligned_replica_definition_list(p, larger, ahead, i, items.push(item));
        }
    }
}

pub(crate) proof fn aligned_cluster_option(p: Input, larger: Input, ahead: int, i: int)
    requires
        aligned(p, larger, ahead),
        0 <= i <= p.toks.len(),
    ensures
        agrees(p, ahead, i + 1, cluster_option(p, i), cluster_option(larger, ahead + i)),
{
    reveal(cluster_option);
    if let Got(_, i) = keyword(p, i, Keyword::REPLICAS) {
        if let Got(_, i) = token(p, i, TokenView::LParen) {
            if !at_token(p, i, TokenView::RParen) {
                aligned_replica_definition_list(p, larger, ahead, i, Seq::<TreeView>::empty());
            }
        }
    }
}

pub(crate) proof fn unfold_cluster_option_list(p: Input, i: int, items: Seq<TreeView>)
    ensures
        cluster_option_list(p, i, items) == ({
            match past(p, i, cluster_option(p, i)) { Failed(e, i) => Failed(e, i), Got(item, i) => {
            if at_token(p, i, TokenView::Comma) {
                let i = i + 1;
                cluster_option_list(p, i, items.push(item))
            } else {
                Got(items.push(item), i)
            }
            }}
        }),
{
    reveal(cluster_option_list);
}

pub(crate) proof fn aligned_cluster_option_list(p: Input, larger: Input, ahead: int, i: int, items: Seq<TreeView>)
    requires
        aligned(p, larger, ahead),
        0 <= i <= p.toks.len(),
    ensures
        agrees(p, ahead, i + 1, cluster_option_list(p, i, items), cluster_option_list(larger, ahead + i, items)),
    decreases p.toks.len() - i, 0int,
{
    unfold_cluster_option_list(p, i, items);
    unfold_cluster_option_list(larger, ahead + i, items);
    aligned_cluster_option(p, larger, ahead, i);
    if let Got(item, i) = past(p, i, cluster_option(p, i)) {
        if at_token(p, i, TokenView::Comma) {
            let i = i + 1;
            aligned_cluster_option_list(p, larger, ahead, i, items.push(item));
        }
    }
}

pub(crate) proof fn aligned_replica_option(p: Input, larger: Input, ahead: int, i: int)
    requires
        aligned(p, larger, ahead),
        0 <= i <= p.toks.len(),
    ensures
        agrees(p, ahead, i + 1, replica_option(p, i), replica_option(larger, ahead + i)),
{
    reveal(replica_option);
    if let Got(k, i) = one_keyword(p, i, seq![Keyword::AVAILABILITY, Keyword::COMPUTE, Keyword::COMPUTECTL, Keyword::IDLE, Keyword::INTROSPECTION, Keyword::SIZE, Keyword::STORAGE, Keyword::STORAGECTL, Keyword::WORKERS]) {
        let part = {
            match k {
                Keyword::AVAILABILITY => {
                    match keyword(p, i, Keyword::ZONE) { Failed(e, i) => Failed(e, i), Got(_, i) => {
                    Got(TreeView::Node(Kind::AvailabilityZone, Seq::<TreeView>::empty()), i)
                    }}
                },
                Keyword::COMPUTE => {
                    match keyword(p, i, Keyword::ADDRESSES) { Failed(e, i) => Failed(e, i), Got(_, i) => {
                    Got(TreeView::Node(Kind::ComputeAddresses, Seq::<TreeView>::empty()), i)
                    }}
                },
                Keyword::COMPUTECTL => {
                    match keyword(p, i, Keyword::ADDRESSES) { Failed(e, i) => Failed(e, i), Got(_, i) => {
                    Got(TreeView::Node(Kind::ComputectlAddresses, Seq::<TreeView>::empty()), i)
                    }}
                },
                Keyword::IDLE => {
                    match keyword(p, i, Keyword::ARRANGEMENT) { Failed(e, i) => Failed(e, i), Got(_, i) => {
                    match keyword(p, i, Keyword::MERGE) { Failed(e, i) => Failed(e, i), Got(_, i) => {
                    match keyword(p, i, Keyword::EFFORT) { Failed(e, i) => Failed(e, i), Got(_, i) => {
                    Got(TreeView::Node(Kind::IdleArrangementMergeEffort, Seq::<TreeView>::empty()), i)
                    }}}}}}
                },
                Keyword::INTROSPECTION => {
                    match one_keyword(p, i, seq![Keyword::DEBUGGING, Keyword::INTERVAL]) { Failed(e, i) => Failed(e, i), Got(which, i) => {
                    if which == Keyword::DEBUGGING {
                        Got(TreeView::Node(Kind::IntrospectionDebugging, Seq::<TreeView>::empty()), i)
                    } else {
                        Got(TreeView::Node(Kind::IntrospectionInterval, Seq::<TreeView>::empty()), i)
                    }
                    }}
                },
                Keyword::SIZE => {
                    Got(TreeView::Node(Kind::Size, Seq::<TreeView>::empty()), i)
                },
                Keyword::STORAGE => {
                    match keyword(p, i, Keyword::ADDRESSES) { Failed(e, i) => Failed(e, i), Got(_, i) => {
                    Got(TreeView::Node(Kind::StorageAddresses, Seq::<TreeView>::empty()), i)
                    }}
                },
                Keyword::STORAGECTL => {
                    match keyword(p, i, Keyword::ADDRESSES) { Failed(e, i) => Failed(e, i), Got(_, i) => {
                    Got(TreeView::Node(Kind::StoragectlAddresses, Seq::<TreeView>::empty()), i)
                    }}
                },
                _ => {
                    Got(TreeView::Node(Kind::Workers, Seq::<TreeView>::empty()), i)
                },
            }
        };
        if let Got(name, i) = part {
            aligned_optional_option_value(p, larger, ahead, i);
        }
    }
}

pub(crate) proof fn unfold_replica_option_list(p: Input, i: int, items: Seq<TreeView>)
    ensures
        replica_option_list(p, i, items) == ({
            match past(p, i, replica_option(p, i)) { Failed(e, i) => Failed(e, i), Got(item, i) => {
            if at_token(p, i, TokenView::Comma) {
                let i = i + 1;
                replica_option_list(p, i, items.push(item))
            } else {
                Got(items.push(item), i)
            }
            }}
        }),
{
    reveal(replica_option_list);
}

pub(crate) proof fn aligned_replica_option_list(p: Input, larger: Input, ahead: int, i: int, items: Seq<TreeView>)
    requires
        aligned(p, larger, ahead),
        0 <= i <= p.toks.len(),
    ensures
        agrees(p, ahead, i + 1, replica_option_list(p, i, items), replica_option_list(larger, ahead + i, items)),
    decreases p.toks.len() - i, 0int,
{
    unfold_replica_option_list(p, i, items);
    unfold_replica_option_list(larger, ahead + i, items);
    aligned_replica_option(p, larger, ahead, i);
    if let Got(item, i) = past(p, i, replica_option(p, i)) {
        if at_token(p, i, TokenView::Comma) {
            let i = i + 1;
            aligned_replica_option_list(p, larger, ahead, i, items.push(item));
        }
    }
}

pub(crate) proof fn aligned_create_cluster_replica(p: Input, larger: Input, ahead: int, i: int)
    requires
        aligned(p, larger, ahead),
        0 <= i <= p.toks.len(),
    ensures
        agrees(p, ahead, i + 1, create_cluster_replica(p, i), create_cluster_replica(larger, ahead + i)),
{
    reveal(create_cluster_replica);
    if let Got(_, i) = keyword(p, i, Keyword::REPLICA) {
        aligned_identifier(p, larger, ahead, i);
        if let Got(of_cluster, i) = identifier(p, i) {
            if let Got(_, i) = token(p, i, TokenView::Dot) {
                aligned_identifier(p, larger, ahead, i);
                if let Got(name, i) = identifier(p, i) {
                    aligned_replica_option_list(p, larger, ahead, i, Seq::<TreeView>::empty());
                }
            }
        }
    }
}

pub(crate) proof fn aligned_source_metadata(p: Input, larger: Input, ahead: int, i: int)
    requires
        aligned(p, larger, ahead),
        0 <= i <= p.toks.len(),
    ensures
        agrees(p, ahead, i + 1, source_metadata(p, i), source_metadata(larger, ahead + i)),
{
    reveal(source_metadata);
    if let Got(k, i) = one_keyword(p, i, seq![Keyword::KEY, Keyword::TIMESTAMP, Keyword::PARTITION, Keyword::TOPIC, Keyword::OFFSET, Keyword::HEADERS]) {
        let part = {
            match k {
                Keyword::KEY => {
                    Got(TreeView::Node(Kind::KeyMetadata, Seq::<TreeView>::empty()), i)
                },
                Keyword::TIMESTAMP => {
                    Got(TreeView::Node(Kind::TimestampMetadata, Seq::<TreeView>::empty()), i)
                },
                Keyword::PARTITION => {
                    Got(TreeView::Node(Kind::PartitionMetadata, Seq::<TreeView>::empty()), i)
                },
                Keyword::TOPIC => {
                    Got(TreeView::Node(Kind::TopicMetadata, Seq::<TreeView>::empty()), i)
                },
                Keyword::OFFSET => {
                    Got(TreeView::Node(Kind::OffsetMetadata, Seq::<TreeView>::empty()), i)
                },
                _ => {
                    Got(TreeView::Node(Kind::HeadersMetadata, Seq::<TreeView>::empty()), i)
                },
            }
        };
        if let Got(ty, i) = part {
            if at_keyword(p, i, Keyword::AS) {
                let i = i + 1;
                aligned_identifier(p, larger, ahead, i);
            }
        }
    }
}

pub(crate) proof fn unfold_source_metadata_list(p: Input, i: int, items: Seq<TreeView>)
    ensures
        source_metadata_list(p, i, items) == ({
            match past(p, i, source_metadata(p, i)) { Failed(e, i) => Failed(e, i), Got(item, i) => {
            if at_token(p, i, TokenView::Comma) {
                let i = i + 1;
                source_metadata_list(p, i, items.push(item))
            } else {
                Got(items.push(item), i)
            }
            }}
        }),
{
    reveal(source_metadata_list);
}

pub(crate) proof fn aligned_source_metadata_list(p: Input, larger: Input, ahead: int, i: int, items: Seq<TreeView>)
    requires
        aligned(p, larger, ahead),
        0 <= i <= p.toks.len(),
    ensures
        agrees(p, ahead, i + 1, source_metadata_list(p, i, items), source_metadata_list(larger, ahead + i, items)),
    decreases p.toks.len() - i, 0int,
{
    unfold_source_metadata_list(p, i, items);
    unfold_source_metadata_list(larger, ahead + i, items);
    aligned_source_metadata(p, larger, ahead, i);
    if let Got(item, i) = past(p, i, source_metadata(p, i)) {
        if at_token(p, i, TokenView::Comma) {
            let i = i + 1;
            aligned_source_metadata_list(p, larger, ahead, i, items.push(item));
        }
    }
}

pub(crate) proof fn aligned_source_include_metadata(p: Input, larger: Input, ahead: int, i: int)
    requires
        aligned(p, larger, ahead),
        0 <= i <= p.toks.len(),
    ensures
        agrees(p, ahead, i, source_include_metadata(p, i), source_include_metadata(larger, ahead + i)),
{
    reveal(source_include_metadata);
    if at_keyword(p, i, Keyword::INCLUDE) {
        let i = i + 1;
        aligned_source_metadata_list(p, larger, ahead, i, Seq::<TreeView>::empty());
    }
}

pub(crate) proof fn aligned_create_table(p: Input, larger: Input, ahead: int, i: int)
    requires
        aligned(p, larger, ahead),
        0 <= i <= p.toks.len(),
    ensures
        agrees(p, ahead, i + 1, create_table(p, i), create_table(larger, ahead + i)),
{
    reveal(create_table);
    aligned_temporary(p, larger, ahead, i);
    if let Got(temporary, i) = temporary(p, i) {
        if let Got(_, i) = keyword(p, i, Keyword::TABLE) {
            aligned_if_not_exists(p, larger, ahead, i);
            if let Got(if_not_exists, i) = if_not_exists(p, i) {
                aligned_item_name(p, larger, ahead, i);
                if let Got(table_name, i) = item_name(p, i) {
                    aligned_columns(p, larger, ahead, i);
                }
            }
        }
    }
}

pub(crate) proof fn aligned_columns(p: Input, larger: Input, ahead: int, i: int)
    requires
        aligned(p, larger, ahead),
        0 <= i <= p.toks.len(),
    ensures
        agrees(p, ahead, i + 1, columns(p, i), columns(larger, ahead + i)),
{
    reveal(columns);
    if at_token(p, i, TokenView::LParen) {
        let i = i + 1;
        if !at_token(p, i, TokenView::RParen) {
            aligned_column_list(p, larger, ahead, i, Seq::<TreeView>::empty(), Seq::<TreeView>::empty());
        }
    }
}

pub(crate) proof fn unfold_column_list(p: Input, i: int, columns: Seq<TreeView>, constraints: Seq<TreeView>)
    ensures
        column_list(p, i, columns, constraints) == ({
            match onward(p, i, optional_table_constraint(p, i)) { Failed(e, i) => Failed(e, i), Got(constraint, i) => {
            if constraint is Absent {
                match past(p, i, column_def(p, i)) { Failed(e, i) => Failed(e, i), Got(column, i) => {
                if at_token(p, i, TokenView::Comma) {
                    let i = i + 1;
                    column_list(p, i, columns.push(column), constraints)
                } else {
                    if at_token(p, i, TokenView::RParen) {
                        let i = i + 1;
                        Got(TreeView::Node(Kind::Columns, seq![TreeView::List(columns.push(column)), TreeView::List(constraints)]), i)
                    } else {
                        Failed(expected_at(p, i, "',' or ')' after column definition"@), i)
                    }
                }
                }}
            } else {
                if at_token(p, i, TokenView::Comma) {
                    let i = i + 1;
                    column_list(p, i, columns, constraints.push(constraint))
                } else {
                    if at_token(p, i, TokenView::RParen) {
                        let i = i + 1;
                        Got(TreeView::Node(Kind::Columns, seq![TreeView::List(columns), TreeView::List(constraints.push(constraint))]), i)
                    } else {
                        Failed(expected_at(p, i, "',' or ')' after column definition"@), i)
                    }
                }
            }
            }}
        }),
{
    reveal(column_list);
}

pub(crate) proof fn aligned_column_list(p: Input, larger: Input, ahead: int, i: int, columns: Seq<TreeView>, constraints: Seq<TreeView>)
    requires
        aligned(p, larger, ahead),
        0 <= i <= p.toks.len(),
    ensures
        agrees(p, ahead, i + 1, column_list(p, i, columns, constraints), column_list(larger, ahead + i, columns, constraints)),
    decreases p.toks.len() - i, 0int,
{
    unfold_column_list(p, i, columns, constraints);
    unfold_column_list(larger, ahead + i, columns, constraints);
    aligned_optional_table_constraint(p, larger, ahead, i);
    if let Got(constraint, i) = onward(p, i, optional_table_constraint(p, i)) {
        if constraint is Absent {
            aligned_column_def(p, larger, ahead, i);
            if let Got(column, i) = past(p, i, column_def(p, i)) {
                if at_token(p, i, TokenView::Comma) {
                    let i = i + 1;
                    aligned_column_list(p, larger, ahead, i, columns.push(column), constraints);
                }
            }
        } else {
            if at_token(p, i, TokenView::Comma) {
                let i = i + 1;
                aligned_column_list(p, larger, ahead, i, columns, constraints.push(constraint));
            }
        }
    }
}

pub(crate) proof fn aligned_column_def(p: Input, larger: Input, ahead: int, i: int)
    requires
        aligned(p, larger, ahead),
        0 <= i <= p.toks.len(),
    ensures
        weakly_agrees(p, ahead, i + 1, column_def(p, i), column_def(larger, ahead + i)),
{
    reveal(column_def);
    let part = {
        match token_at(p, i) {
            Some(TokenView::Keyword(k)) => {
                let i = i + 1;
                Got(TreeView::Text(keyword_ident(k)), i)
            },
            Some(TokenView::Ident(s)) => {
                let i = i + 1;
                Got(TreeView::Text(s), i)
            },
            _ => {
                Failed(expected_at(p, i, "column name or constraint definition"@), i)
            },
        }
    };
    if let Got(name, i) = part {
        aligned_data_type(p, larger, ahead, i);
        if let Got(data_type, i) = data_type(p, i) {
            if at_keyword(p, i, Keyword::COLLATE) {
                let i = i + 1;
                aligned_item_name(p, larger, ahead, i);
            }
            let part = {
                if at_keyword(p, i, Keyword::COLLATE) {
                    let i = i + 1;
                    item_name(p, i)
                } else {
                    Got(TreeView::Absent, i)
                }
            };
            if let Got(collation, i) = part {
                aligned_column_options(p, larger, ahead, i, Seq::<TreeView>::empty());
            }
        }
    }
}

pub(crate) proof fn unfold_column_options(p: Input, i: int, options: Seq<TreeView>)
    ensures
        column_options(p, i, options) == ({
            match token_at(p, i) {
                None => {
                    Got(options, i)
                },
                Some(TokenView::Comma) | Some(TokenView::RParen) => {
                    Got(options, i)
                },
                _ => {
                    match past(p, i, column_option_def(p, i)) { Failed(e, i) => Failed(e, i), Got(option, i) => {
                    column_options(p, i, options.push(option))
                    }}
                },
            }
        }),
{
    reveal(column_options);
}

pub(crate) proof fn aligned_column_options(p: Input, larger: Input, ahead: int, i: int, options: Seq<TreeView>)
    requires
        aligned(p, larger, ahead),
        0 <= i <= p.toks.len(),
    ensures
        weakly_agrees(p, ahead, i, column_options(p, i, options), column_options(larger, ahead + i, options)),
    decreases p.toks.len() - i, 0int,
{
    unfold_column_options(p, i, options);
    unfold_column_options(larger, ahead + i, options);
    reveal(column_option_def);
    match token_at(p, i) {
        None => {},
        Some(TokenView::Comma) | Some(TokenView::RParen) => {},
        _ => {
            aligned_column_option_def(p, larger, ahead, i);
            if let Got(option, i) = past(p, i, column_option_def(p, i)) {
                aligned_column_options(p, larger, ahead, i, options.push(option));
            }
        },
    }
}

pub(crate) proof fn aligned_column_option_def(p: Input, larger: Input, ahead: int, i: int)
    requires
        aligned(p, larger, ahead),
        0 <= i <= p.toks.len(),
    ensures
        agrees(p, ahead, i + 1, column_option_def(p, i), column_option_def(larger, ahead + i)),
{
    reveal(column_option_def);
    if at_keyword(p, i, Keyword::CONSTRAINT) {
        let i = i + 1;
        aligned_identifier(p, larger, ahead, i);
    }
    let part = {
        if at_keyword(p, i, Keyword::CONSTRAINT) {
            let i = i + 1;
            identifier(p, i)
        } else {
            Got(TreeView::Absent, i)
        }
    };
    if let Got(name, i) = part {
        if !at_keywords2(p, i, Keyword::NOT, Keyword::NULL) {
            if !at_keyword(p, i, Keyword::NULL) {
                if at_keyword(p, i, Keyword::DEFAULT) {
                    let i = i + 1;
                    aligned_expr(p, larger, ahead, i);
                } else {
                    if !at_keywords2(p, i, Keyword::PRIMARY, Keyword::KEY) {
                        if !at_keyword(p, i, Keyword::UNIQUE) {
                            if at_keyword(p, i, Keyword::REFERENCES) {
                                let i = i + 1;
                                aligned_item_name(p, larger, ahead, i);
                                if let Got(foreign_table, i) = item_name(p, i) {
                                    aligned_parenthesized_column_list(p, larger, ahead, i, false);
                                }
                            } else {
                                if at_keyword(p, i, Keyword::CHECK) {
                                    let i = i + 1;
                                    if let Got(_, i) = token(p, i, TokenView::LParen) {
                                        aligned_expr(p, larger, ahead, i);
                                    }
                                }
                            }
                        }
                    }
                }
            }
        }
    }
}

pub(crate) proof fn aligned_optional_table_constraint(p: Input, larger: Input, ahead: int, i: int)
    requires
        aligned(p, larger, ahead),
        0 <= i <= p.toks.len(),
    ensures
        agrees(p, ahead, i, optional_table_constraint(p, i), optional_table_constraint(larger, ahead + i)),
{
    reveal(optional_table_constraint);
    if at_keyword(p, i, Keyword::CONSTRAINT) {
        let i = i + 1;
        aligned_identifier(p, larger, ahead, i);
    }
    let part = {
        if at_keyword(p, i, Keyword::CONSTRAINT) {
            let i = i + 1;
            identifier(p, i)
        } else {
            Got(TreeView::Absent, i)
        }
    };
    if let Got(name, i) = part {
        let found = token_at(p, i);
        let i = i + 1;
        match found {
            Some(TokenView::Keyword(Keyword::PRIMARY)) => {
                if let Got(_, i) = keyword(p, i, Keyword::KEY) {
                    aligned_parenthesized_column_list(p, larger, ahead, i, false);
                }
            },
            Some(TokenView::Keyword(Keyword::UNIQUE)) => {
                let part = {
                    if at_keyword(p, i, Keyword::NULLS) {
                        let i = i + 1;
                        match keyword(p, i, Keyword::NOT) { Failed(e, i) => Failed(e, i), Got(_, i) => {
                        match keyword(p, i, Keyword::DISTINCT) { Failed(e, i) => Failed(e, i), Got(_, i) => {
                        Got(true, i)
                        }}}}
                    } else {
                        Got(false, i)
                    }
                };
                if let Got(nulls_not_distinct, i) = part {
                    aligned_parenthesized_column_list(p, larger, ahead, i, false);
                }
            },
            Some(TokenView::Keyword(Keyword::FOREIGN)) => {
                if let Got(_, i) = keyword(p, i, Keyword::KEY) {
                    aligned_parenthesized_column_list(p, larger, ahead, i, false);
                    if let Got(columns, i) = parenthesized_column_list(p, i, false) {
                        if let Got(_, i) = keyword(p, i, Keyword::REFERENCES) {
                            aligned_raw_name(p, larger, ahead, i);
                            if let Got(foreign_table, i) = raw_name(p, i) {
                                aligned_parenthesized_column_list(p, larger, ahead, i, false);
                            }
                        }
                    }
                }
            },
            Some(TokenView::Keyword(Keyword::CHECK)) => {
                if let Got(_, i) = token(p, i, TokenView::LParen) {
                    aligned_expr(p, larger, ahead, i);
                }
            },
            _ => {},
        }
    }
}

} // verus!
