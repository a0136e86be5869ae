//! How `SHOW` are read inside of larger texts.

use vstd::prelude::*;

use crate::sql_parser::alignment::create::aligned_raw_ident;
use crate::sql_parser::alignment::expr::aligned_expr;
use crate::sql_parser::alignment::names::{
    aligned_database_name, aligned_identifier, aligned_literal_string, aligned_raw_name,
    aligned_schema_name,
};
use crate::sql_parser::alignment::{agrees, aligned};
use crate::sql_parser::checks::{lives_in_schema, object_type_text};
use crate::sql_parser::expr::expr;
use crate::sql_parser::keywords::Keyword;
use crate::sql_parser::kind::Kind;
use crate::sql_parser::names::{database_name, identifier, literal_string, raw_name};
use crate::sql_parser::outcome::Out::{Failed, Got};
use crate::sql_parser::outcome::error_view;
use crate::sql_parser::parser::{
    Input, at_keyword, at_keywords2, at_keywords3, one_keyword, one_of, onward, past, position,
};
use crate::sql_parser::show::{
    optional_in_cluster, plural_object_type, show, show_columns, show_from_schema, show_objects,
    show_statement_filter,
};
use crate::sql_parser::syntax::TreeView;
use crate::sql_parser::text::no_text;

verus! {

pub(crate) proof fn unfold_show(p: Input, i: int)
    ensures
        show(p, i) == ({
            match one_of(p, i, seq![Keyword::COLUMNS, Keyword::FIELDS]) {
                Some(_) => {
                    let i = i + 1;
                    show_columns(p, i)
                },
                None => {
                    if at_keyword(p, i, Keyword::OBJECTS) {
                        let i = i + 1;
                        match onward(p, i, show_from_schema(p, i)) { Failed(e, i) => Failed(e, i), Got(from, i) => {
                        match show_statement_filter(p, i) { Failed(e, i) => Failed(e, i), Got(filter, i) => {
                        Got(TreeView::Node(Kind::ShowObjects, seq![TreeView::Node(Kind::ShowObject, Seq::<TreeView>::empty()), from, filter]), i)
                        }}
                        }}
                    } else {
                        match onward(p, i, plural_object_type(p, i)) { Failed(e, i) => Failed(e, i), Got(object_type, i) => {
                        if object_type != Kind::NoType {
                            show_objects(p, i, object_type)
                        } else {
                            if at_keyword(p, i, Keyword::CLUSTER) {
                                let i = i + 1;
                                Got(TreeView::Node(Kind::ShowVariable, seq![TreeView::Text("cluster"@)]), i)
                            } else {
                                if at_keywords2(p, i, Keyword::CREATE, Keyword::VIEW) {
                                    let i = i + 2;
                                    match raw_name(p, i) { Failed(e, i) => Failed(e, i), Got(name, i) => {
                                    Got(TreeView::Node(Kind::ShowCreateView, seq![name]), i)
                                    }}
                                } else {
                                    if at_keywords3(p, i, Keyword::CREATE, Keyword::MATERIALIZED, Keyword::VIEW) {
                                        let i = i + 3;
                                        match raw_name(p, i) { Failed(e, i) => Failed(e, i), Got(name, i) => {
                                        Got(TreeView::Node(Kind::ShowCreateMaterializedView, seq![name]), i)
                                        }}
                                    } else {
                                        if at_keywords2(p, i, Keyword::CREATE, Keyword::SOURCE) {
                                            let i = i + 2;
                                            match raw_name(p, i) { Failed(e, i) => Failed(e, i), Got(name, i) => {
                                            Got(TreeView::Node(Kind::ShowCreateSource, seq![name]), i)
                                            }}
                                        } else {
                                            if at_keywords2(p, i, Keyword::CREATE, Keyword::TABLE) {
                                                let i = i + 2;
                                                match raw_name(p, i) { Failed(e, i) => Failed(e, i), Got(name, i) => {
                                                Got(TreeView::Node(Kind::ShowCreateTable, seq![name]), i)
                                                }}
                                            } else {
                                                if at_keywords2(p, i, Keyword::CREATE, Keyword::SINK) {
                                                    let i = i + 2;
                                                    match raw_name(p, i) { Failed(e, i) => Failed(e, i), Got(name, i) => {
                                                    Got(TreeView::Node(Kind::ShowCreateSink, seq![name]), i)
                                                    }}
                                                } else {
                                                    if at_keywords2(p, i, Keyword::CREATE, Keyword::INDEX) {
                                                        let i = i + 2;
                                                        match raw_name(p, i) { Failed(e, i) => Failed(e, i), Got(name, i) => {
                                                        Got(TreeView::Node(Kind::ShowCreateIndex, seq![name]), i)
                                                        }}
                                                    } else {
                                                        if at_keywords2(p, i, Keyword::CREATE, Keyword::CONNECTION) {
                                                            let i = i + 2;
                                                            match raw_name(p, i) { Failed(e, i) => Failed(e, i), Got(name, i) => {
                                                            Got(TreeView::Node(Kind::ShowCreateConnection, seq![name]), i)
                                                            }}
                                                        } else {
                                                            if at_keywords3(p, i, Keyword::TRANSACTION, Keyword::ISOLATION, Keyword::LEVEL) {
                                                                let i = i + 3;
                                                                Got(TreeView::Node(Kind::ShowVariable, seq![TreeView::Text("transaction_isolation"@)]), i)
                                                            } else {
                                                                if at_keywords2(p, i, Keyword::TIME, Keyword::ZONE) {
                                                                    let i = i + 2;
                                                                    Got(TreeView::Node(Kind::ShowVariable, seq![TreeView::Text("timezone"@)]), i)
                                                                } else {
                                                                    match identifier(p, i) { Failed(e, i) => Failed(e, i), Got(variable, i) => {
                                                                    Got(TreeView::Node(Kind::ShowVariable, seq![variable]), i)
                                                                    }}
                                                                }
                                                            }
                                                        }
                                                    }
                                                }
                                            }
                                        }
                                    }
                                }
                            }
                        }
                        }}
                    }
                },
            }
        }),
{
    reveal(show);
    reveal(show_columns);
    reveal(show_objects);
    reveal(show_statement_filter);
}

pub(crate) proof fn aligned_show(p: Input, larger: Input, ahead: int, i: int)
    requires
        aligned(p, larger, ahead),
        0 <= i <= p.toks.len(),
    ensures
        agrees(p, ahead, i, show(p, i), show(larger, ahead + i)),
    decreases p.toks.len() - i, 2int,
{
    unfold_show(p, i);
    unfold_show(larger, ahead + i);
    if let Some(_) = one_of(p, i, seq![Keyword::COLUMNS, Keyword::FIELDS]) {
        let i = i + 1;
        aligned_show_columns(p, larger, ahead, i);
    } else {
        if at_keyword(p, i, Keyword::OBJECTS) {
            let i = i + 1;
            aligned_show_from_schema(p, larger, ahead, i);
            if let Got(from, i) = onward(p, i, show_from_schema(p, i)) {
                aligned_show_statement_filter(p, larger, ahead, i);
            }
        } else {
            aligned_plural_object_type(p, larger, ahead, i);
            if let Got(object_type, i) = onward(p, i, plural_object_type(p, i)) {
                if object_type != Kind::NoType {
                    aligned_show_objects(p, larger, ahead, i, object_type);
                } else {
                    if !at_keyword(p, i, Keyword::CLUSTER) {
                        if at_keywords2(p, i, Keyword::CREATE, Keyword::VIEW) {
                            let i = i + 2;
                            aligned_raw_name(p, larger, ahead, i);
                        } else {
                            if at_keywords3(p, i, Keyword::CREATE, Keyword::MATERIALIZED, Keyword::VIEW) {
                                let i = i + 3;
                                aligned_raw_name(p, larger, ahead, i);
                            } else {
                                if at_keywords2(p, i, Keyword::CREATE, Keyword::SOURCE) {
                                    let i = i + 2;
                                    aligned_raw_name(p, larger, ahead, i);
                                } else {
                                    if at_keywords2(p, i, Keyword::CREATE, Keyword::TABLE) {
                                        let i = i + 2;
                                        aligned_raw_name(p, larger, ahead, i);
                                    } else {
                                        if at_keywords2(p, i, Keyword::CREATE, Keyword::SINK) {
                                            let i = i + 2;
                                            aligned_raw_name(p, larger, ahead, i);
                                        } else {
                                            if at_keywords2(p, i, Keyword::CREATE, Keyword::INDEX) {
                                                let i = i + 2;
                                                aligned_raw_name(p, larger, ahead, i);
                                            } else {
                                                if at_keywords2(p, i, Keyword::CREATE, Keyword::CONNECTION) {
                                                    let i = i + 2;
                                                    aligned_raw_name(p, larger, ahead, i);
                                                } else {
                                                    if !at_keywords3(p, i, Keyword::TRANSACTION, Keyword::ISOLATION, Keyword::LEVEL) {
                                                        if !at_keywords2(p, i, Keyword::TIME, Keyword::ZONE) {
                                                            aligned_identifier(p, larger, ahead, i);
                                                        }
                                                    }
                                                }
                                            }
                                        }
                                    }
                                }
                            }
                        }
                    }
                }
            }
        }
    }
}

pub(crate) proof fn aligned_show_from_schema(p: Input, larger: Input, ahead: int, i: int)
    requires
        aligned(p, larger, ahead),
        0 <= i <= p.toks.len(),
    ensures
        agrees(p, ahead, i, show_from_schema(p, i), show_from_schema(larger, ahead + i)),
{
    reveal(show_from_schema);
    if at_keyword(p, i, Keyword::FROM) {
        let i = i + 1;
        aligned_schema_name(p, larger, ahead, i);
    }
}

pub(crate) proof fn unfold_show_objects(p: Input, i: int, object_type: Kind)
    ensures
        show_objects(p, i, object_type) == ({
            match onward(p, i, {
                if lives_in_schema(object_type) {
                    show_from_schema(p, i)
                } else {
                    Got(TreeView::Absent, i)
                }
            }) { Failed(e, i) => Failed(e, i), Got(from, i) => {
            match onward(p, i, {
                match object_type {
                    Kind::DatabaseType => {
                        Got(TreeView::Node(Kind::ShowDatabase, Seq::<TreeView>::empty()), i)
                    },
                    Kind::SchemaType => {
                        match onward(p, i, {
                            if at_keyword(p, i, Keyword::FROM) {
                                let i = i + 1;
                                database_name(p, i)
                            } else {
                                Got(TreeView::Absent, i)
                            }
                        }) { Failed(e, i) => Failed(e, i), Got(database, i) => {
                        Got(TreeView::Node(Kind::ShowSchema, seq![database]), i)
                        }}
                    },
                    Kind::TableType => {
                        Got(TreeView::Node(Kind::ShowTable, Seq::<TreeView>::empty()), i)
                    },
                    Kind::ViewType => {
                        Got(TreeView::Node(Kind::ShowView, Seq::<TreeView>::empty()), i)
                    },
                    Kind::SourceType => {
                        Got(TreeView::Node(Kind::ShowSource, Seq::<TreeView>::empty()), i)
                    },
                    Kind::SinkType => {
                        Got(TreeView::Node(Kind::ShowSink, Seq::<TreeView>::empty()), i)
                    },
                    Kind::TypeType => {
                        Got(TreeView::Node(Kind::ShowType, Seq::<TreeView>::empty()), i)
                    },
                    Kind::RoleType => {
                        Got(TreeView::Node(Kind::ShowRole, Seq::<TreeView>::empty()), i)
                    },
                    Kind::ClusterReplicaType => {
                        Got(TreeView::Node(Kind::ShowClusterReplica, Seq::<TreeView>::empty()), i)
                    },
                    Kind::SecretType => {
                        Got(TreeView::Node(Kind::ShowSecret, Seq::<TreeView>::empty()), i)
                    },
                    Kind::ConnectionType => {
                        Got(TreeView::Node(Kind::ShowConnection, Seq::<TreeView>::empty()), i)
                    },
                    Kind::ClusterType => {
                        Got(TreeView::Node(Kind::ShowCluster, Seq::<TreeView>::empty()), i)
                    },
                    Kind::MaterializedViewType => {
                        match onward(p, i, optional_in_cluster(p, i)) { Failed(e, i) => Failed(e, i), Got(in_cluster, i) => {
                        Got(TreeView::Node(Kind::ShowMaterializedView, seq![in_cluster]), i)
                        }}
                    },
                    Kind::IndexType => {
                        match onward(p, i, {
                            if at_keyword(p, i, Keyword::ON) {
                                let i = i + 1;
                                raw_name(p, i)
                            } else {
                                Got(TreeView::Absent, i)
                            }
                        }) { Failed(e, i) => Failed(e, i), Got(on_object, i) => {
                        if !(from is Absent) && !(on_object is Absent) {
                            Failed(error_view(position(p, i - 1), no_text() + "Cannot specify both FROM and ON"@), i)
                        } else {
                            match onward(p, i, optional_in_cluster(p, i)) { Failed(e, i) => Failed(e, i), Got(in_cluster, i) => {
                            Got(TreeView::Node(Kind::ShowIndex, seq![in_cluster, on_object]), i)
                            }}
                        }
                        }}
                    },
                    _ => {
                        Failed(error_view(position(p, i - 1), no_text() + "Unsupported SHOW on "@ + object_type_text(object_type)), i)
                    },
                }
            }) { Failed(e, i) => Failed(e, i), Got(shown, i) => {
            match show_statement_filter(p, i) { Failed(e, i) => Failed(e, i), Got(filter, i) => {
            Got(TreeView::Node(Kind::ShowObjects, seq![shown, from, filter]), i)
            }}
            }}
            }}
        }),
{
    reveal(show_objects);
    reveal(show_statement_filter);
}

pub(crate) proof fn aligned_show_objects(p: Input, larger: Input, ahead: int, i: int, object_type: Kind)
    requires
        aligned(p, larger, ahead),
        0 <= i <= p.toks.len(),
    ensures
        agrees(p, ahead, i, show_objects(p, i, object_type), show_objects(larger, ahead + i, object_type)),
    decreases p.toks.len() - i, 1int,
{
    unfold_show_objects(p, i, object_type);
    unfold_show_objects(larger, ahead + i, object_type);
    if lives_in_schema(object_type) {
        aligned_show_from_schema(p, larger, ahead, i);
    }
    let part = {
        if lives_in_schema(object_type) {
            show_from_schema(p, i)
        } else {
            Got(TreeView::Absent, i)
        }
    };
    if let Got(from, i) = onward(p, i, part) {
        match object_type {
            Kind::DatabaseType => {},
            Kind::SchemaType => {
                if at_keyword(p, i, Keyword::FROM) {
                    let i = i + 1;
                    aligned_database_name(p, larger, ahead, i);
                }
            },
            Kind::TableType => {},
            Kind::ViewType => {},
            Kind::SourceType => {},
            Kind::SinkType => {},
            Kind::TypeType => {},
            Kind::RoleType => {},
            Kind::ClusterReplicaType => {},
            Kind::SecretType => {},
            Kind::ConnectionType => {},
            Kind::ClusterType => {},
            Kind::MaterializedViewType => {
                aligned_optional_in_cluster(p, larger, ahead, i);
            },
            Kind::IndexType => {
                if at_keyword(p, i, Keyword::ON) {
                    let i = i + 1;
                    aligned_raw_name(p, larger, ahead, i);
                }
                let part = {
                    if at_keyword(p, i, Keyword::ON) {
                        let i = i + 1;
                        raw_name(p, i)
                    } else {
                        Got(TreeView::Absent, i)
                    }
                };
                if let Got(on_object, i) = onward(p, i, part) {
                    if !(!(from is Absent) && !(on_object is Absent)) {
                        aligned_optional_in_cluster(p, larger, ahead, i);
                    }
                }
            },
            _ => {},
        }
        let part = {
            match object_type {
                Kind::DatabaseType => {
                    Got(TreeView::Node(Kind::ShowDatabase, Seq::<TreeView>::empty()), i)
                },
                Kind::SchemaType => {
                    match onward(p, i, {
                        if at_keyword(p, i, Keyword::FROM) {
                            let i = i + 1;
                            database_name(p, i)
                        } else {
                            Got(TreeView::Absent, i)
                        }
                    }) { Failed(e, i) => Failed(e, i), Got(database, i) => {
                    Got(TreeView::Node(Kind::ShowSchema, seq![database]), i)
                    }}
                },
                Kind::TableType => {
                    Got(TreeView::Node(Kind::ShowTable, Seq::<TreeView>::empty()), i)
                },
                Kind::ViewType => {
                    Got(TreeView::Node(Kind::ShowView, Seq::<TreeView>::empty()), i)
                },
                Kind::SourceType => {
                    Got(TreeView::Node(Kind::ShowSource, Seq::<TreeView>::empty()), i)
                },
                Kind::SinkType => {
                    Got(TreeView::Node(Kind::ShowSink, Seq::<TreeView>::empty()), i)
                },
                Kind::TypeType => {
                    Got(TreeView::Node(Kind::ShowType, Seq::<TreeView>::empty()), i)
                },
                Kind::RoleType => {
                    Got(TreeView::Node(Kind::ShowRole, Seq::<TreeView>::empty()), i)
                },
                Kind::ClusterReplicaType => {
                    Got(TreeView::Node(Kind::ShowClusterReplica, Seq::<TreeView>::empty()), i)
                },
                Kind::SecretType => {
                    Got(TreeView::Node(Kind::ShowSecret, Seq::<TreeView>::empty()), i)
                },
                Kind::ConnectionType => {
                    Got(TreeView::Node(Kind::ShowConnection, Seq::<TreeView>::empty()), i)
                },
                Kind::ClusterType => {
                    Got(TreeView::Node(Kind::ShowCluster, Seq::<TreeView>::empty()), i)
                },
                Kind::MaterializedViewType => {
                    match onward(p, i, optional_in_cluster(p, i)) { Failed(e, i) => Failed(e, i), Got(in_cluster, i) => {
                    Got(TreeView::Node(Kind::ShowMaterializedView, seq![in_cluster]), i)
                    }}
                },
                Kind::IndexType => {
                    match onward(p, i, {
                        if at_keyword(p, i, Keyword::ON) {
                            let i = i + 1;
                            raw_name(p, i)
                        } else {
                            Got(TreeView::Absent, i)
                        }
                    }) { Failed(e, i) => Failed(e, i), Got(on_object, i) => {
                    if !(from is Absent) && !(on_object is Absent) {
                        Failed(error_view(position(p, i - 1), no_text() + "Cannot specify both FROM and ON"@), i)
                    } else {
                        match onward(p, i, optional_in_cluster(p, i)) { Failed(e, i) => Failed(e, i), Got(in_cluster, i) => {
                        Got(TreeView::Node(Kind::ShowIndex, seq![in_cluster, on_object]), i)
                        }}
                    }
                    }}
                },
                _ => {
                    Failed(error_view(position(p, i - 1), no_text() + "Unsupported SHOW on "@ + object_type_text(object_type)), i)
                },
            }
        };
        if let Got(shown, i) = onward(p, i, part) {
            aligned_show_statement_filter(p, larger, ahead, i);
        }
    }
}

pub(crate) proof fn unfold_show_columns(p: Input, i: int)
    ensures
        show_columns(p, i) == ({
            match one_keyword(p, i, seq![Keyword::FROM, Keyword::IN]) { Failed(e, i) => Failed(e, i), Got(k, i) => {
            match past(p, i, raw_name(p, i)) { Failed(e, i) => Failed(e, i), Got(table_name, i) => {
            match show_statement_filter(p, i) { Failed(e, i) => Failed(e, i), Got(filter, i) => {
            Got(TreeView::Node(Kind::ShowColumns, seq![table_name, filter]), i)
            }}
            }}
            }}
        }),
{
    reveal(show_columns);
    reveal(show_statement_filter);
}

pub(crate) proof fn aligned_show_columns(p: Input, larger: Input, ahead: int, i: int)
    requires
        aligned(p, larger, ahead),
        0 <= i <= p.toks.len(),
    ensures
        agrees(p, ahead, i + 1, show_columns(p, i), show_columns(larger, ahead + i)),
    decreases p.toks.len() - i, 0int,
{
    unfold_show_columns(p, i);
    unfold_show_columns(larger, ahead + i);
    if let Got(k, i) = one_keyword(p, i, seq![Keyword::FROM, Keyword::IN]) {
        aligned_raw_name(p, larger, ahead, i);
        if let Got(table_name, i) = past(p, i, raw_name(p, i)) {
            aligned_show_statement_filter(p, larger, ahead, i);
        }
    }
}

pub(crate) proof fn unfold_show_statement_filter(p: Input, i: int)
    ensures
        show_statement_filter(p, i) == ({
            if at_keyword(p, i, Keyword::LIKE) {
                let i = i + 1;
                match literal_string(p, i) { Failed(e, i) => Failed(e, i), Got(s, i) => {
                Got(TreeView::Node(Kind::LikeFilter, seq![TreeView::Text(s)]), i)
                }}
            } else {
                if at_keyword(p, i, Keyword::WHERE) {
                    let i = i + 1;
                    match expr(p, i) { Failed(e, i) => Failed(e, i), Got(e, i) => {
                    Got(TreeView::Node(Kind::WhereFilter, seq![e]), i)
                    }}
                } else {
                    Got(TreeView::Absent, i)
                }
            }
        }),
{
    reveal(show_statement_filter);
    reveal(expr);
}

pub(crate) proof fn aligned_show_statement_filter(p: Input, larger: Input, ahead: int, i: int)
    requires
        aligned(p, larger, ahead),
        0 <= i <= p.toks.len(),
    ensures
        agrees(p, ahead, i, show_statement_filter(p, i), show_statement_filter(larger, ahead + i)),
    decreases p.toks.len() - i, 0int,
{
    unfold_show_statement_filter(p, i);
    unfold_show_statement_filter(larger, ahead + i);
    if at_keyword(p, i, Keyword::LIKE) {
        let i = i + 1;
        aligned_literal_string(p, larger, ahead, i);
    } else {
        if at_keyword(p, i, Keyword::WHERE) {
            let i = i + 1;
            aligned_expr(p, larger, ahead, i);
        }
    }
}

pub(crate) proof fn aligned_optional_in_cluster(p: Input, larger: Input, ahead: int, i: int)
    requires
        aligned(p, larger, ahead),
        0 <= i <= p.toks.len(),
    ensures
        agrees(p, ahead, i, optional_in_cluster(p, i), optional_in_cluster(larger, ahead + i)),
{
    reveal(optional_in_cluster);
    if at_keywords2(p, i, Keyword::IN, Keyword::CLUSTER) {
        let i = i + 2;
        aligned_raw_ident(p, larger, ahead, i);
    }
}

pub(crate) proof fn aligned_plural_object_type(p: Input, larger: Input, ahead: int, i: int)
    requires
        aligned(p, larger, ahead),
        0 <= i <= p.toks.len(),
    ensures
        agrees(p, ahead, i, plural_object_type(p, i), plural_object_type(larger, ahead + i)),
{
    reveal(plural_object_type);
}

} // verus!
