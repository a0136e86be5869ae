//! How `ALTER` and `DROP` statements are read inside of larger texts.

use vstd::prelude::*;

use crate::sql_parser::alignment::create::{
    aligned_create_sink_option_list, aligned_create_sink_option_name_list, aligned_if_exists,
    aligned_index_option_list, aligned_index_option_name_list, aligned_role_attributes,
    aligned_source_option_list, aligned_source_option_name_list,
};
use crate::sql_parser::alignment::expr::aligned_expr;
use crate::sql_parser::alignment::grant::{
    aligned_grant_revoke_plural_object_type, aligned_privilege_specification,
    aligned_role_specification_list,
};
use crate::sql_parser::alignment::names::{
    aligned_cluster_replica_name, aligned_database_name, aligned_database_name_list,
    aligned_identifier, aligned_identifier_list, aligned_item_name, aligned_item_name_list,
    aligned_schema_name, aligned_schema_name_list,
};
use crate::sql_parser::alignment::statement::aligned_set_variable_to;
use crate::sql_parser::alignment::{agrees, aligned};
use crate::sql_parser::alter::{
    alter, alter_cluster, alter_cluster_replica, alter_connection, alter_database,
    alter_default_privileges, alter_index, alter_object, alter_relation, alter_role, alter_schema,
    alter_secret, alter_sink, alter_source, alter_system, alter_type, drop_behavior,
    drop_cluster_replicas, drop_clusters, drop_owned, drop_statement, dropped_cluster,
    dropped_cluster_list, dropped_replica, dropped_replica_list, dropped_role, dropped_role_list,
    expect_object_type, owner_to, rename_to, skip_role_word, to_or_equals,
};
use crate::sql_parser::create::if_exists;
use crate::sql_parser::grant::{grant_revoke_plural_object_type, privilege_specification};
use crate::sql_parser::keywords::Keyword;
use crate::sql_parser::kind::Kind;
use crate::sql_parser::names::{
    cluster_replica_name, database_name, database_name_list, identifier, identifier_list,
    item_name, item_name_list, schema_name, schema_name_list,
};
use crate::sql_parser::outcome::Out::{Failed, Got};
use crate::sql_parser::parser::{
    Input, at_keyword, at_keywords2, at_token, keyword, one_keyword, past, token,
};
use crate::sql_parser::syntax::TreeView;
use crate::sql_parser::token::TokenView;

verus! {

pub(crate) proof fn aligned_expect_object_type(p: Input, larger: Input, ahead: int, i: int)
    requires
        aligned(p, larger, ahead),
        0 <= i <= p.toks.len(),
    ensures
        agrees(p, ahead, i + 1, expect_object_type(p, i), expect_object_type(larger, ahead + i)),
{
    reveal(expect_object_type);
}

pub(crate) proof fn aligned_drop_behavior(p: Input, larger: Input, ahead: int, i: int)
    requires
        aligned(p, larger, ahead),
        0 <= i <= p.toks.len(),
    ensures
        agrees(p, ahead, i, drop_behavior(p, i), drop_behavior(larger, ahead + i)),
{
    reveal(drop_behavior);
}

pub(crate) proof fn aligned_dropped_role(p: Input, larger: Input, ahead: int, i: int)
    requires
        aligned(p, larger, ahead),
        0 <= i <= p.toks.len(),
    ensures
        agrees(p, ahead, i + 1, dropped_role(p, i), dropped_role(larger, ahead + i)),
{
    reveal(dropped_role);
    aligned_identifier(p, larger, ahead, i);
}

pub(crate) proof fn unfold_dropped_role_list(p: Input, i: int, items: Seq<TreeView>)
    ensures
        dropped_role_list(p, i, items) == ({
            match past(p, i, dropped_role(p, i)) { Failed(e, i) => Failed(e, i), Got(item, i) => {
            if at_token(p, i, TokenView::Comma) {
                let i = i + 1;
                dropped_role_list(p, i, items.push(item))
            } else {
                Got(items.push(item), i)
            }
            }}
        }),
{
    reveal(dropped_role_list);
}

pub(crate) proof fn aligned_dropped_role_list(p: Input, larger: Input, ahead: int, i: int, items: Seq<TreeView>)
    requires
        aligned(p, larger, ahead),
        0 <= i <= p.toks.len(),
    ensures
        agrees(p, ahead, i + 1, dropped_role_list(p, i, items), dropped_role_list(larger, ahead + i, items)),
    decreases p.toks.len() - i, 0int,
{
    unfold_dropped_role_list(p, i, items);
    unfold_dropped_role_list(larger, ahead + i, items);
    aligned_dropped_role(p, larger, ahead, i);
    if let Got(item, i) = past(p, i, dropped_role(p, i)) {
        if at_token(p, i, TokenView::Comma) {
            let i = i + 1;
            aligned_dropped_role_list(p, larger, ahead, i, items.push(item));
        }
    }
}

pub(crate) proof fn aligned_dropped_cluster(p: Input, larger: Input, ahead: int, i: int)
    requires
        aligned(p, larger, ahead),
        0 <= i <= p.toks.len(),
    ensures
        agrees(p, ahead, i + 1, dropped_cluster(p, i), dropped_cluster(larger, ahead + i)),
{
    reveal(dropped_cluster);
    aligned_identifier(p, larger, ahead, i);
}

pub(crate) proof fn unfold_dropped_cluster_list(p: Input, i: int, items: Seq<TreeView>)
    ensures
        dropped_cluster_list(p, i, items) == ({
            match past(p, i, dropped_cluster(p, i)) { Failed(e, i) => Failed(e, i), Got(item, i) => {
            if at_token(p, i, TokenView::Comma) {
                let i = i + 1;
                dropped_cluster_list(p, i, items.push(item))
            } else {
                Got(items.push(item), i)
            }
            }}
        }),
{
    reveal(dropped_cluster_list);
}

pub(crate) proof fn aligned_dropped_cluster_list(p: Input, larger: Input, ahead: int, i: int, items: Seq<TreeView>)
    requires
        aligned(p, larger, ahead),
        0 <= i <= p.toks.len(),
    ensures
        agrees(p, ahead, i + 1, dropped_cluster_list(p, i, items), dropped_cluster_list(larger, ahead + i, items)),
    decreases p.toks.len() - i, 0int,
{
    unfold_dropped_cluster_list(p, i, items);
    unfold_dropped_cluster_list(larger, ahead + i, items);
    aligned_dropped_cluster(p, larger, ahead, i);
    if let Got(item, i) = past(p, i, dropped_cluster(p, i)) {
        if at_token(p, i, TokenView::Comma) {
            let i = i + 1;
            aligned_dropped_cluster_list(p, larger, ahead, i, items.push(item));
        }
    }
}

pub(crate) proof fn aligned_dropped_replica(p: Input, larger: Input, ahead: int, i: int)
    requires
        aligned(p, larger, ahead),
        0 <= i <= p.toks.len(),
    ensures
        agrees(p, ahead, i + 1, dropped_replica(p, i), dropped_replica(larger, ahead + i)),
{
    reveal(dropped_replica);
    aligned_cluster_replica_name(p, larger, ahead, i);
}

pub(crate) proof fn unfold_dropped_replica_list(p: Input, i: int, items: Seq<TreeView>)
    ensures
        dropped_replica_list(p, i, items) == ({
            match past(p, i, dropped_replica(p, i)) { Failed(e, i) => Failed(e, i), Got(item, i) => {
            if at_token(p, i, TokenView::Comma) {
                let i = i + 1;
                dropped_replica_list(p, i, items.push(item))
            } else {
                Got(items.push(item), i)
            }
            }}
        }),
{
    reveal(dropped_replica_list);
}

pub(crate) proof fn aligned_dropped_replica_list(p: Input, larger: Input, ahead: int, i: int, items: Seq<TreeView>)
    requires
        aligned(p, larger, ahead),
        0 <= i <= p.toks.len(),
    ensures
        agrees(p, ahead, i + 1, dropped_replica_list(p, i, items), dropped_replica_list(larger, ahead + i, items)),
    decreases p.toks.len() - i, 0int,
{
    unfold_dropped_replica_list(p, i, items);
    unfold_dropped_replica_list(larger, ahead + i, items);
    aligned_dropped_replica(p, larger, ahead, i);
    if let Got(item, i) = past(p, i, dropped_replica(p, i)) {
        if at_token(p, i, TokenView::Comma) {
            let i = i + 1;
            aligned_dropped_replica_list(p, larger, ahead, i, items.push(item));
        }
    }
}

pub(crate) proof fn aligned_drop_statement(p: Input, larger: Input, ahead: int, i: int)
    requires
        aligned(p, larger, ahead),
        0 <= i <= p.toks.len(),
    ensures
        agrees(p, ahead, i + 1, drop_statement(p, i), drop_statement(larger, ahead + i)),
{
    reveal(drop_statement);
    if at_keyword(p, i, Keyword::OWNED) {
        let i = i + 1;
        aligned_drop_owned(p, larger, ahead, i);
    } else {
        aligned_expect_object_type(p, larger, ahead, i);
        if let Got(object_type, i) = expect_object_type(p, i) {
            aligned_if_exists(p, larger, ahead, i);
            if let Got(if_exists, i) = if_exists(p, i) {
                match object_type {
                    Kind::DatabaseType => {
                        aligned_database_name(p, larger, ahead, i);
                        if let Got(name, i) = database_name(p, i) {
                            aligned_drop_behavior(p, larger, ahead, i);
                        }
                    },
                    Kind::SchemaType => {
                        aligned_schema_name(p, larger, ahead, i);
                        if let Got(name, i) = schema_name(p, i) {
                            aligned_drop_behavior(p, larger, ahead, i);
                        }
                    },
                    Kind::RoleType => {
                        aligned_dropped_role_list(p, larger, ahead, i, Seq::<TreeView>::empty());
                    },
                    Kind::ClusterType => {
                        aligned_drop_clusters(p, larger, ahead, i, if_exists);
                    },
                    Kind::ClusterReplicaType => {
                        aligned_drop_cluster_replicas(p, larger, ahead, i, if_exists);
                    },
                    Kind::FuncType => {},
                    _ => {
                        aligned_item_name_list(p, larger, ahead, i, Seq::<TreeView>::empty());
                        if let Got(names, i) = item_name_list(p, i, Seq::<TreeView>::empty()) {
                            aligned_drop_behavior(p, larger, ahead, i);
                        }
                    },
                }
            }
        }
    }
}

pub(crate) proof fn aligned_drop_clusters(p: Input, larger: Input, ahead: int, i: int, if_exists: bool)
    requires
        aligned(p, larger, ahead),
        0 <= i <= p.toks.len(),
    ensures
        agrees(p, ahead, i + 1, drop_clusters(p, i, if_exists), drop_clusters(larger, ahead + i, if_exists)),
{
    reveal(drop_clusters);
    aligned_dropped_cluster_list(p, larger, ahead, i, Seq::<TreeView>::empty());
    if let Got(names, i) = dropped_cluster_list(p, i, Seq::<TreeView>::empty()) {
        aligned_drop_behavior(p, larger, ahead, i);
    }
}

pub(crate) proof fn aligned_drop_cluster_replicas(p: Input, larger: Input, ahead: int, i: int, if_exists: bool)
    requires
        aligned(p, larger, ahead),
        0 <= i <= p.toks.len(),
    ensures
        agrees(p, ahead, i + 1, drop_cluster_replicas(p, i, if_exists), drop_cluster_replicas(larger, ahead + i, if_exists)),
{
    reveal(drop_cluster_replicas);
    aligned_dropped_replica_list(p, larger, ahead, i, Seq::<TreeView>::empty());
}

pub(crate) proof fn aligned_drop_owned(p: Input, larger: Input, ahead: int, i: int)
    requires
        aligned(p, larger, ahead),
        0 <= i <= p.toks.len(),
    ensures
        agrees(p, ahead, i + 1, drop_owned(p, i), drop_owned(larger, ahead + i)),
{
    reveal(drop_owned);
    if let Got(_, i) = keyword(p, i, Keyword::BY) {
        aligned_identifier_list(p, larger, ahead, i, Seq::<TreeView>::empty());
        if let Got(role_names, i) = identifier_list(p, i, Seq::<TreeView>::empty()) {
            aligned_drop_behavior(p, larger, ahead, i);
        }
    }
}

pub(crate) proof fn aligned_alter(p: Input, larger: Input, ahead: int, i: int)
    requires
        aligned(p, larger, ahead),
        0 <= i <= p.toks.len(),
    ensures
        agrees(p, ahead, i + 1, alter(p, i), alter(larger, ahead + i)),
{
    reveal(alter);
    if at_keyword(p, i, Keyword::SYSTEM) {
        let i = i + 1;
        aligned_alter_system(p, larger, ahead, i);
    } else {
        if at_keywords2(p, i, Keyword::DEFAULT, Keyword::PRIVILEGES) {
            let i = i + 2;
            aligned_alter_default_privileges(p, larger, ahead, i);
        } else {
            aligned_alter_object(p, larger, ahead, i);
        }
    }
}

pub(crate) proof fn aligned_rename_to(p: Input, larger: Input, ahead: int, i: int, object_type: Kind, if_exists: bool, name: TreeView)
    requires
        aligned(p, larger, ahead),
        0 <= i <= p.toks.len(),
    ensures
        agrees(p, ahead, i + 1, rename_to(p, i, object_type, if_exists, name), rename_to(larger, ahead + i, object_type, if_exists, name)),
{
    reveal(rename_to);
    aligned_identifier(p, larger, ahead, i);
}

pub(crate) proof fn aligned_owner_to(p: Input, larger: Input, ahead: int, i: int, object_type: Kind, if_exists: bool, name: TreeView)
    requires
        aligned(p, larger, ahead),
        0 <= i <= p.toks.len(),
    ensures
        agrees(p, ahead, i + 1, owner_to(p, i, object_type, if_exists, name), owner_to(larger, ahead + i, object_type, if_exists, name)),
{
    reveal(owner_to);
    aligned_identifier(p, larger, ahead, i);
}

pub(crate) proof fn aligned_alter_object(p: Input, larger: Input, ahead: int, i: int)
    requires
        aligned(p, larger, ahead),
        0 <= i <= p.toks.len(),
    ensures
        agrees(p, ahead, i + 1, alter_object(p, i), alter_object(larger, ahead + i)),
{
    reveal(alter_object);
    aligned_expect_object_type(p, larger, ahead, i);
    if let Got(object_type, i) = expect_object_type(p, i) {
        match object_type {
            Kind::RoleType => {
                aligned_alter_role(p, larger, ahead, i);
            },
            Kind::SinkType => {
                aligned_alter_sink(p, larger, ahead, i);
            },
            Kind::SourceType => {
                aligned_alter_source(p, larger, ahead, i);
            },
            Kind::IndexType => {
                aligned_alter_index(p, larger, ahead, i);
            },
            Kind::SecretType => {
                aligned_alter_secret(p, larger, ahead, i);
            },
            Kind::ConnectionType => {
                aligned_alter_connection(p, larger, ahead, i);
            },
            Kind::ViewType | Kind::MaterializedViewType | Kind::TableType => {
                aligned_alter_relation(p, larger, ahead, i, object_type);
            },
            Kind::TypeType => {
                aligned_alter_type(p, larger, ahead, i);
            },
            Kind::ClusterType => {
                aligned_alter_cluster(p, larger, ahead, i);
            },
            Kind::ClusterReplicaType => {
                aligned_alter_cluster_replica(p, larger, ahead, i);
            },
            Kind::DatabaseType => {
                aligned_alter_database(p, larger, ahead, i);
            },
            Kind::SchemaType => {
                aligned_alter_schema(p, larger, ahead, i);
            },
            _ => {},
        }
    }
}

pub(crate) proof fn aligned_alter_relation(p: Input, larger: Input, ahead: int, i: int, object_type: Kind)
    requires
        aligned(p, larger, ahead),
        0 <= i <= p.toks.len(),
    ensures
        agrees(p, ahead, i + 1, alter_relation(p, i, object_type), alter_relation(larger, ahead + i, object_type)),
{
    reveal(alter_relation);
    aligned_if_exists(p, larger, ahead, i);
    if let Got(if_exists, i) = if_exists(p, i) {
        aligned_item_name(p, larger, ahead, i);
        if let Got(name, i) = item_name(p, i) {
            if let Got(action, i) = one_keyword(p, i, seq![Keyword::RENAME, Keyword::OWNER]) {
                if let Got(_, i) = keyword(p, i, Keyword::TO) {
                    if action == Keyword::RENAME {
                        aligned_rename_to(p, larger, ahead, i, object_type, if_exists, name);
                    } else {
                        aligned_owner_to(p, larger, ahead, i, object_type, if_exists, name);
                    }
                }
            }
        }
    }
}

pub(crate) proof fn aligned_alter_type(p: Input, larger: Input, ahead: int, i: int)
    requires
        aligned(p, larger, ahead),
        0 <= i <= p.toks.len(),
    ensures
        agrees(p, ahead, i + 1, alter_type(p, i), alter_type(larger, ahead + i)),
{
    reveal(alter_type);
    aligned_if_exists(p, larger, ahead, i);
    if let Got(if_exists, i) = if_exists(p, i) {
        aligned_item_name(p, larger, ahead, i);
        if let Got(name, i) = item_name(p, i) {
            if at_keywords2(p, i, Keyword::OWNER, Keyword::TO) {
                let i = i + 2;
                aligned_owner_to(p, larger, ahead, i, Kind::TypeType, if_exists, name);
            }
        }
    }
}

pub(crate) proof fn aligned_alter_cluster(p: Input, larger: Input, ahead: int, i: int)
    requires
        aligned(p, larger, ahead),
        0 <= i <= p.toks.len(),
    ensures
        agrees(p, ahead, i + 1, alter_cluster(p, i), alter_cluster(larger, ahead + i)),
{
    reveal(alter_cluster);
    aligned_if_exists(p, larger, ahead, i);
    if let Got(if_exists, i) = if_exists(p, i) {
        aligned_identifier(p, larger, ahead, i);
        if let Got(id, i) = identifier(p, i) {
            if let Got(action, i) = one_keyword(p, i, seq![Keyword::OWNER, Keyword::RENAME]) {
                if let Got(_, i) = keyword(p, i, Keyword::TO) {
                    if action == Keyword::OWNER {
                        aligned_owner_to(p, larger, ahead, i, Kind::ClusterType, if_exists, TreeView::Node(Kind::ClusterName, seq![id]));
                    } else {
                        aligned_rename_to(p, larger, ahead, i, Kind::ClusterType, if_exists, TreeView::Node(Kind::ClusterName, seq![id]));
                    }
                }
            }
        }
    }
}

pub(crate) proof fn aligned_alter_cluster_replica(p: Input, larger: Input, ahead: int, i: int)
    requires
        aligned(p, larger, ahead),
        0 <= i <= p.toks.len(),
    ensures
        agrees(p, ahead, i + 1, alter_cluster_replica(p, i), alter_cluster_replica(larger, ahead + i)),
{
    reveal(alter_cluster_replica);
    aligned_if_exists(p, larger, ahead, i);
    if let Got(if_exists, i) = if_exists(p, i) {
        aligned_cluster_replica_name(p, larger, ahead, i);
        if let Got(name, i) = cluster_replica_name(p, i) {
            if let Got(action, i) = one_keyword(p, i, seq![Keyword::OWNER, Keyword::RENAME]) {
                if let Got(_, i) = keyword(p, i, Keyword::TO) {
                    if action == Keyword::OWNER {
                        aligned_owner_to(p, larger, ahead, i, Kind::ClusterReplicaType, if_exists, TreeView::Node(Kind::ReplicaName, seq![name]));
                    } else {
                        aligned_rename_to(p, larger, ahead, i, Kind::ClusterReplicaType, if_exists, TreeView::Node(Kind::ReplicaName, seq![name]));
                    }
                }
            }
        }
    }
}

pub(crate) proof fn aligned_alter_database(p: Input, larger: Input, ahead: int, i: int)
    requires
        aligned(p, larger, ahead),
        0 <= i <= p.toks.len(),
    ensures
        agrees(p, ahead, i + 1, alter_database(p, i), alter_database(larger, ahead + i)),
{
    reveal(alter_database);
    aligned_if_exists(p, larger, ahead, i);
    if let Got(if_exists, i) = if_exists(p, i) {
        aligned_database_name(p, larger, ahead, i);
        if let Got(name, i) = database_name(p, i) {
            if at_keywords2(p, i, Keyword::OWNER, Keyword::TO) {
                let i = i + 2;
                aligned_owner_to(p, larger, ahead, i, Kind::DatabaseType, if_exists, name);
            }
        }
    }
}

pub(crate) proof fn aligned_alter_schema(p: Input, larger: Input, ahead: int, i: int)
    requires
        aligned(p, larger, ahead),
        0 <= i <= p.toks.len(),
    ensures
        agrees(p, ahead, i + 1, alter_schema(p, i), alter_schema(larger, ahead + i)),
{
    reveal(alter_schema);
    aligned_if_exists(p, larger, ahead, i);
    if let Got(if_exists, i) = if_exists(p, i) {
        aligned_schema_name(p, larger, ahead, i);
        if let Got(name, i) = schema_name(p, i) {
            if at_keywords2(p, i, Keyword::OWNER, Keyword::TO) {
                let i = i + 2;
                aligned_owner_to(p, larger, ahead, i, Kind::SchemaType, if_exists, name);
            }
        }
    }
}

pub(crate) proof fn aligned_alter_source(p: Input, larger: Input, ahead: int, i: int)
    requires
        aligned(p, larger, ahead),
        0 <= i <= p.toks.len(),
    ensures
        agrees(p, ahead, i + 1, alter_source(p, i), alter_source(larger, ahead + i)),
{
    reveal(alter_source);
    aligned_if_exists(p, larger, ahead, i);
    if let Got(if_exists, i) = if_exists(p, i) {
        aligned_item_name(p, larger, ahead, i);
        if let Got(name, i) = item_name(p, i) {
            if let Got(k, i) = one_keyword(p, i, seq![Keyword::RESET, Keyword::SET, Keyword::RENAME, Keyword::OWNER]) {
                match k {
                    Keyword::RESET => {
                        if let Got(_, i) = token(p, i, TokenView::LParen) {
                            aligned_source_option_name_list(p, larger, ahead, i, Seq::<TreeView>::empty());
                        }
                    },
                    Keyword::SET => {
                        if let Got(_, i) = token(p, i, TokenView::LParen) {
                            aligned_source_option_list(p, larger, ahead, i, Seq::<TreeView>::empty());
                        }
                    },
                    Keyword::RENAME => {
                        if let Got(_, i) = keyword(p, i, Keyword::TO) {
                            aligned_rename_to(p, larger, ahead, i, Kind::SourceType, if_exists, name);
                        }
                    },
                    _ => {
                        if let Got(_, i) = keyword(p, i, Keyword::TO) {
                            aligned_owner_to(p, larger, ahead, i, Kind::SourceType, if_exists, name);
                        }
                    },
                }
            }
        }
    }
}

pub(crate) proof fn aligned_alter_index(p: Input, larger: Input, ahead: int, i: int)
    requires
        aligned(p, larger, ahead),
        0 <= i <= p.toks.len(),
    ensures
        agrees(p, ahead, i + 1, alter_index(p, i), alter_index(larger, ahead + i)),
{
    reveal(alter_index);
    aligned_if_exists(p, larger, ahead, i);
    if let Got(if_exists, i) = if_exists(p, i) {
        aligned_item_name(p, larger, ahead, i);
        if let Got(name, i) = item_name(p, i) {
            if let Got(k, i) = one_keyword(p, i, seq![Keyword::RESET, Keyword::SET, Keyword::RENAME, Keyword::OWNER]) {
                match k {
                    Keyword::RESET => {
                        if let Got(_, i) = token(p, i, TokenView::LParen) {
                            aligned_index_option_name_list(p, larger, ahead, i, Seq::<TreeView>::empty());
                        }
                    },
                    Keyword::SET => {
                        if let Got(_, i) = token(p, i, TokenView::LParen) {
                            aligned_index_option_list(p, larger, ahead, i, Seq::<TreeView>::empty());
                        }
                    },
                    Keyword::RENAME => {
                        if let Got(_, i) = keyword(p, i, Keyword::TO) {
                            aligned_rename_to(p, larger, ahead, i, Kind::IndexType, if_exists, name);
                        }
                    },
                    _ => {
                        if let Got(_, i) = keyword(p, i, Keyword::TO) {
                            aligned_owner_to(p, larger, ahead, i, Kind::IndexType, if_exists, name);
                        }
                    },
                }
            }
        }
    }
}

pub(crate) proof fn aligned_alter_secret(p: Input, larger: Input, ahead: int, i: int)
    requires
        aligned(p, larger, ahead),
        0 <= i <= p.toks.len(),
    ensures
        agrees(p, ahead, i + 1, alter_secret(p, i), alter_secret(larger, ahead + i)),
{
    reveal(alter_secret);
    aligned_if_exists(p, larger, ahead, i);
    if let Got(if_exists, i) = if_exists(p, i) {
        aligned_item_name(p, larger, ahead, i);
        if let Got(name, i) = item_name(p, i) {
            if let Got(k, i) = one_keyword(p, i, seq![Keyword::AS, Keyword::RENAME, Keyword::OWNER]) {
                match k {
                    Keyword::AS => {
                        aligned_expr(p, larger, ahead, i);
                    },
                    Keyword::RENAME => {
                        if let Got(_, i) = keyword(p, i, Keyword::TO) {
                            aligned_rename_to(p, larger, ahead, i, Kind::SecretType, if_exists, name);
                        }
                    },
                    _ => {
                        if let Got(_, i) = keyword(p, i, Keyword::TO) {
                            aligned_owner_to(p, larger, ahead, i, Kind::SecretType, if_exists, name);
                        }
                    },
                }
            }
        }
    }
}

pub(crate) proof fn aligned_alter_sink(p: Input, larger: Input, ahead: int, i: int)
    requires
        aligned(p, larger, ahead),
        0 <= i <= p.toks.len(),
    ensures
        agrees(p, ahead, i + 1, alter_sink(p, i), alter_sink(larger, ahead + i)),
{
    reveal(alter_sink);
    aligned_if_exists(p, larger, ahead, i);
    if let Got(if_exists, i) = if_exists(p, i) {
        aligned_item_name(p, larger, ahead, i);
        if let Got(name, i) = item_name(p, i) {
            if let Got(k, i) = one_keyword(p, i, seq![Keyword::RESET, Keyword::SET, Keyword::RENAME, Keyword::OWNER]) {
                match k {
                    Keyword::RESET => {
                        if let Got(_, i) = token(p, i, TokenView::LParen) {
                            aligned_create_sink_option_name_list(p, larger, ahead, i, Seq::<TreeView>::empty());
                        }
                    },
                    Keyword::SET => {
                        if let Got(_, i) = token(p, i, TokenView::LParen) {
                            aligned_create_sink_option_list(p, larger, ahead, i, Seq::<TreeView>::empty());
                        }
                    },
                    Keyword::RENAME => {
                        if let Got(_, i) = keyword(p, i, Keyword::TO) {
                            aligned_rename_to(p, larger, ahead, i, Kind::SinkType, if_exists, name);
                        }
                    },
                    _ => {
                        if let Got(_, i) = keyword(p, i, Keyword::TO) {
                            aligned_owner_to(p, larger, ahead, i, Kind::SinkType, if_exists, name);
                        }
                    },
                }
            }
        }
    }
}

pub(crate) proof fn aligned_alter_system(p: Input, larger: Input, ahead: int, i: int)
    requires
        aligned(p, larger, ahead),
        0 <= i <= p.toks.len(),
    ensures
        agrees(p, ahead, i + 1, alter_system(p, i), alter_system(larger, ahead + i)),
{
    reveal(alter_system);
    if let Got(k, i) = one_keyword(p, i, seq![Keyword::SET, Keyword::RESET]) {
        match k {
            Keyword::SET => {
                aligned_identifier(p, larger, ahead, i);
                if let Got(name, i) = identifier(p, i) {
                    aligned_to_or_equals(p, larger, ahead, i);
                    if let Got(_, i) = to_or_equals(p, i) {
                        aligned_set_variable_to(p, larger, ahead, i);
                    }
                }
            },
            _ => {
                if !at_keyword(p, i, Keyword::ALL) {
                    aligned_identifier(p, larger, ahead, i);
                }
            },
        }
    }
}

pub(crate) proof fn aligned_to_or_equals(p: Input, larger: Input, ahead: int, i: int)
    requires
        aligned(p, larger, ahead),
        0 <= i <= p.toks.len(),
    ensures
        agrees(p, ahead, i + 1, to_or_equals(p, i), to_or_equals(larger, ahead + i)),
{
    reveal(to_or_equals);
}

pub(crate) proof fn aligned_alter_connection(p: Input, larger: Input, ahead: int, i: int)
    requires
        aligned(p, larger, ahead),
        0 <= i <= p.toks.len(),
    ensures
        agrees(p, ahead, i + 1, alter_connection(p, i), alter_connection(larger, ahead + i)),
{
    reveal(alter_connection);
    aligned_if_exists(p, larger, ahead, i);
    if let Got(if_exists, i) = if_exists(p, i) {
        aligned_item_name(p, larger, ahead, i);
        if let Got(name, i) = item_name(p, i) {
            if let Got(k, i) = one_keyword(p, i, seq![Keyword::RENAME, Keyword::ROTATE, Keyword::OWNER]) {
                match k {
                    Keyword::RENAME => {
                        if let Got(_, i) = keyword(p, i, Keyword::TO) {
                            aligned_rename_to(p, larger, ahead, i, Kind::ConnectionType, if_exists, name);
                        }
                    },
                    Keyword::ROTATE => {},
                    _ => {
                        if let Got(_, i) = keyword(p, i, Keyword::TO) {
                            aligned_owner_to(p, larger, ahead, i, Kind::ConnectionType, if_exists, name);
                        }
                    },
                }
            }
        }
    }
}

pub(crate) proof fn aligned_alter_role(p: Input, larger: Input, ahead: int, i: int)
    requires
        aligned(p, larger, ahead),
        0 <= i <= p.toks.len(),
    ensures
        agrees(p, ahead, i + 1, alter_role(p, i), alter_role(larger, ahead + i)),
{
    reveal(alter_role);
    aligned_identifier(p, larger, ahead, i);
    if let Got(name, i) = identifier(p, i) {
        let i = if at_keyword(p, i, Keyword::WITH) { i + 1 } else { i };
        aligned_role_attributes(p, larger, ahead, i, Seq::<TreeView>::empty());
    }
}

pub(crate) proof fn aligned_alter_default_privileges(p: Input, larger: Input, ahead: int, i: int)
    requires
        aligned(p, larger, ahead),
        0 <= i <= p.toks.len(),
    ensures
        agrees(p, ahead, i + 1, alter_default_privileges(p, i), alter_default_privileges(larger, ahead + i)),
{
    reveal(alter_default_privileges);
    if at_keyword(p, i, Keyword::FOR) {
        let i = i + 1;
        aligned_skip_role_word(p, larger, ahead, i);
        if let Got(_, i) = skip_role_word(p, i) {
            aligned_identifier_list(p, larger, ahead, i, Seq::<TreeView>::empty());
        }
    }
    let part = {
        if at_keyword(p, i, Keyword::FOR) {
            let i = i + 1;
            match skip_role_word(p, i) { Failed(e, i) => Failed(e, i), Got(_, i) => {
            match identifier_list(p, i, Seq::<TreeView>::empty()) { Failed(e, i) => Failed(e, i), Got(roles, i) => {
            Got(TreeView::List(roles), i)
            }}
            }}
        } else {
            Got(TreeView::Absent, i)
        }
    };
    if let Got(target_roles, i) = part {
        if at_keyword(p, i, Keyword::IN) {
            let i = i + 1;
            if let Got(k, i) = one_keyword(p, i, seq![Keyword::SCHEMA, Keyword::DATABASE]) {
                if k == Keyword::SCHEMA {
                    aligned_schema_name_list(p, larger, ahead, i, Seq::<TreeView>::empty());
                } else {
                    aligned_database_name_list(p, larger, ahead, i, Seq::<TreeView>::empty());
                }
            }
        }
        let part = {
            if at_keyword(p, i, Keyword::IN) {
                let i = i + 1;
                match one_keyword(p, i, seq![Keyword::SCHEMA, Keyword::DATABASE]) { Failed(e, i) => Failed(e, i), Got(k, i) => {
                if k == Keyword::SCHEMA {
                    match schema_name_list(p, i, Seq::<TreeView>::empty()) { Failed(e, i) => Failed(e, i), Got(schemas, i) => {
                    Got(TreeView::Node(Kind::AllSchemas, seq![TreeView::List(schemas)]), i)
                    }}
                } else {
                    match database_name_list(p, i, Seq::<TreeView>::empty()) { Failed(e, i) => Failed(e, i), Got(databases, i) => {
                    Got(TreeView::Node(Kind::AllDatabases, seq![TreeView::List(databases)]), i)
                    }}
                }
                }}
            } else {
                Got(TreeView::Node(Kind::AllObjects, Seq::<TreeView>::empty()), i)
            }
        };
        if let Got(target_objects, i) = part {
            if let Got(k, i) = one_keyword(p, i, seq![Keyword::GRANT, Keyword::REVOKE]) {
                aligned_privilege_specification(p, larger, ahead, i);
                if let Got(privileges, i) = privilege_specification(p, i) {
                    if !(privileges is Absent) {
                        if let Got(_, i) = keyword(p, i, Keyword::ON) {
                            if k == Keyword::GRANT {
                                aligned_grant_revoke_plural_object_type(p, larger, ahead, i, "GRANT"@);
                                if let Got(object_type, i) = grant_revoke_plural_object_type(p, i, "GRANT"@) {
                                    if let Got(_, i) = keyword(p, i, Keyword::TO) {
                                        aligned_role_specification_list(p, larger, ahead, i, Seq::<TreeView>::empty());
                                    }
                                }
                            } else {
                                aligned_grant_revoke_plural_object_type(p, larger, ahead, i, "REVOKE"@);
                                if let Got(object_type, i) = grant_revoke_plural_object_type(p, i, "REVOKE"@) {
                                    if let Got(_, i) = keyword(p, i, Keyword::FROM) {
                                        aligned_role_specification_list(p, larger, ahead, i, Seq::<TreeView>::empty());
                                    }
                                }
                            }
                        }
                    }
                }
            }
        }
    }
}

pub(crate) proof fn aligned_skip_role_word(p: Input, larger: Input, ahead: int, i: int)
    requires
        aligned(p, larger, ahead),
        0 <= i <= p.toks.len(),
    ensures
        agrees(p, ahead, i, skip_role_word(p, i), skip_role_word(larger, ahead + i)),
{
    reveal(skip_role_word);
}

} // verus!
