//! `SHOW`.

use vstd::prelude::*;

use crate::sql_parser::checks::{lives_in_schema, is_schema_item, object_type_text, object_type_name};
use crate::sql_parser::create::{raw_ident};
use crate::sql_parser::expr::{expr};
use crate::sql_parser::keywords::{Keyword};
use crate::sql_parser::kind::{Kind};
use crate::sql_parser::names::{database_name, identifier, literal_string, raw_name, schema_name};
use crate::sql_parser::outcome::Out::{Failed, Got};
use crate::sql_parser::outcome::{Out, Failure, error_view, error};
use crate::sql_parser::parser::{Parser, Input, at_keyword, at_keywords2, at_keywords3, position, one_of, one_keyword, onward, past};
use crate::sql_parser::syntax::{group_tree_views, Tree, TreeView, node, trees0, trees1, trees2, trees3};
use crate::sql_parser::text::{no_text};

verus! {

/// What [`Parser::parse_show`] yields from the token at `i` on.
#[verifier::opaque]
pub open spec fn show(p: Input, i: int) -> Out<TreeView>
    decreases p.toks.len() - i, 2int,
{
    match one_of(p, i, seq![Keyword::COLUMNS, Keyword::FIELDS]) {
        Some(_) => {
            let i = i + 1;
            show_columns(p, i)
        },
        None => {
            if at_keyword(p, i, Keyword::OBJECTS) {
                let i = i + 1;
                match onward(p, i, show_from_schema(p, i)) { Failed(e, i) => Failed(e, i), Got(from, i) => {
                match show_statement_filter(p, i) { Failed(e, i) => Failed(e, i), Got(filter, i) => {
                Got(TreeView::Node(Kind::ShowObjects, seq![TreeView::Node(Kind::ShowObject, Seq::<TreeView>::empty()), from, filter]), i)
                }}
                }}
            } else {
                match onward(p, i, plural_object_type(p, i)) { Failed(e, i) => Failed(e, i), Got(object_type, i) => {
                if object_type != Kind::NoType {
                    show_objects(p, i, object_type)
                } else {
                    if at_keyword(p, i, Keyword::CLUSTER) {
                        let i = i + 1;
                        Got(TreeView::Node(Kind::ShowVariable, seq![TreeView::Text("cluster"@)]), i)
                    } else {
                        if at_keywords2(p, i, Keyword::CREATE, Keyword::VIEW) {
                            let i = i + 2;
                            match raw_name(p, i) { Failed(e, i) => Failed(e, i), Got(name, i) => {
                            Got(TreeView::Node(Kind::ShowCreateView, seq![name]), i)
                            }}
                        } else {
                            if at_keywords3(p, i, Keyword::CREATE, Keyword::MATERIALIZED, Keyword::VIEW) {
                                let i = i + 3;
                                match raw_name(p, i) { Failed(e, i) => Failed(e, i), Got(name, i) => {
                                Got(TreeView::Node(Kind::ShowCreateMaterializedView, seq![name]), i)
                                }}
                            } else {
                                if at_keywords2(p, i, Keyword::CREATE, Keyword::SOURCE) {
                                    let i = i + 2;
                                    match raw_name(p, i) { Failed(e, i) => Failed(e, i), Got(name, i) => {
                                    Got(TreeView::Node(Kind::ShowCreateSource, seq![name]), i)
                                    }}
                                } else {
                                    if at_keywords2(p, i, Keyword::CREATE, Keyword::TABLE) {
                                        let i = i + 2;
                                        match raw_name(p, i) { Failed(e, i) => Failed(e, i), Got(name, i) => {
                                        Got(TreeView::Node(Kind::ShowCreateTable, seq![name]), i)
                                        }}
                                    } else {
                                        if at_keywords2(p, i, Keyword::CREATE, Keyword::SINK) {
                                            let i = i + 2;
                                            match raw_name(p, i) { Failed(e, i) => Failed(e, i), Got(name, i) => {
                                            Got(TreeView::Node(Kind::ShowCreateSink, seq![name]), i)
                                            }}
                                        } else {
                                            if at_keywords2(p, i, Keyword::CREATE, Keyword::INDEX) {
                                                let i = i + 2;
                                                match raw_name(p, i) { Failed(e, i) => Failed(e, i), Got(name, i) => {
                                                Got(TreeView::Node(Kind::ShowCreateIndex, seq![name]), i)
                                                }}
                                            } else {
                                                if at_keywords2(p, i, Keyword::CREATE, Keyword::CONNECTION) {
                                                    let i = i + 2;
                                                    match raw_name(p, i) { Failed(e, i) => Failed(e, i), Got(name, i) => {
                                                    Got(TreeView::Node(Kind::ShowCreateConnection, seq![name]), i)
                                                    }}
                                                } else {
                                                    if at_keywords3(p, i, Keyword::TRANSACTION, Keyword::ISOLATION, Keyword::LEVEL) {
                                                        let i = i + 3;
                                                        Got(TreeView::Node(Kind::ShowVariable, seq![TreeView::Text("transaction_isolation"@)]), i)
                                                    } else {
                                                        if at_keywords2(p, i, Keyword::TIME, Keyword::ZONE) {
                                                            let i = i + 2;
                                                            Got(TreeView::Node(Kind::ShowVariable, seq![TreeView::Text("timezone"@)]), i)
                                                        } else {
                                                            match identifier(p, i) { Failed(e, i) => Failed(e, i), Got(variable, i) => {
                                                            Got(TreeView::Node(Kind::ShowVariable, seq![variable]), i)
                                                            }}
                                                        }
                                                    }
                                                }
                                            }
                                        }
                                    }
                                }
                            }
                        }
                    }
                }
                }}
            }
        },
    }
}

impl Parser {
    /// Parse what a `SHOW` shows.
    #[verifier::rlimit(60)]
    pub fn parse_show(&mut self) -> (r: Result<Tree, Failure>)
        requires
            old(self).ready(),
        ensures
            final(self).follows(*old(self), show(old(self).input(), old(self).index as int), r),
            r matches Err(e) ==> !(e@ is Unhandled),
        decreases old(self).tokens.len() - old(self).index, 2int,
    {
        broadcast use group_tree_views;

        proof {
            reveal(show);
            reveal(show_columns);
            reveal(show_objects);
            reveal(show_statement_filter);
        }
        let choices: [Keyword; 2] = [Keyword::COLUMNS, Keyword::FIELDS];
        assert(choices@ =~= seq![Keyword::COLUMNS, Keyword::FIELDS]);
        match self.parse_one_of_keywords(&choices) {
            Some(_) => {
                self.parse_show_columns()
            },
            None => {
                if self.parse_keyword(Keyword::OBJECTS) {
                    let from = self.parse_show_from_schema()?;
                    let filter = self.parse_show_statement_filter()?;
                    Ok(node(Kind::ShowObjects, trees3(node(Kind::ShowObject, trees0()), from, filter)))
                } else {
                    let object_type = self.parse_plural_object_type()?;
                    if object_type != Kind::NoType {
                        self.parse_show_objects(object_type)
                    } else if self.parse_keyword(Keyword::CLUSTER) {
                        Ok(node(Kind::ShowVariable, trees1(Tree::Text(String::from_str("cluster")))))
                    } else if self.parse_keywords2(Keyword::CREATE, Keyword::VIEW) {
                        let name = self.parse_raw_name()?;
                        Ok(node(Kind::ShowCreateView, trees1(name)))
                    } else if self.parse_keywords3(Keyword::CREATE, Keyword::MATERIALIZED, Keyword::VIEW) {
                        let name = self.parse_raw_name()?;
                        Ok(node(Kind::ShowCreateMaterializedView, trees1(name)))
                    } else if self.parse_keywords2(Keyword::CREATE, Keyword::SOURCE) {
                        let name = self.parse_raw_name()?;
                        Ok(node(Kind::ShowCreateSource, trees1(name)))
                    } else if self.parse_keywords2(Keyword::CREATE, Keyword::TABLE) {
                        let name = self.parse_raw_name()?;
                        Ok(node(Kind::ShowCreateTable, trees1(name)))
                    } else if self.parse_keywords2(Keyword::CREATE, Keyword::SINK) {
                        let name = self.parse_raw_name()?;
                        Ok(node(Kind::ShowCreateSink, trees1(name)))
                    } else if self.parse_keywords2(Keyword::CREATE, Keyword::INDEX) {
                        let name = self.parse_raw_name()?;
                        Ok(node(Kind::ShowCreateIndex, trees1(name)))
                    } else if self.parse_keywords2(Keyword::CREATE, Keyword::CONNECTION) {
                        let name = self.parse_raw_name()?;
                        Ok(node(Kind::ShowCreateConnection, trees1(name)))
                    } else if self.parse_keywords3(Keyword::TRANSACTION, Keyword::ISOLATION, Keyword::LEVEL) {
                        Ok(node(Kind::ShowVariable, trees1(Tree::Text(String::from_str("transaction_isolation")))))
                    } else if self.parse_keywords2(Keyword::TIME, Keyword::ZONE) {
                        Ok(node(Kind::ShowVariable, trees1(Tree::Text(String::from_str("timezone")))))
                    } else {
                        let variable = self.parse_identifier()?;
                        Ok(node(Kind::ShowVariable, trees1(variable)))
                    }
                }
            },
        }
    }
}

/// What [`Parser::parse_show_from_schema`] yields from the token at `i` on.
#[verifier::opaque]
pub open spec fn show_from_schema(p: Input, i: int) -> Out<TreeView>
{
    if at_keyword(p, i, Keyword::FROM) {
        let i = i + 1;
        schema_name(p, i)
    } else {
        Got(TreeView::Absent, i)
    }
}

impl Parser {
    /// Parse the schema that objects are shown from, if one is given.
    pub fn parse_show_from_schema(&mut self) -> (r: Result<Tree, Failure>)
        requires
            old(self).ready(),
        ensures
            final(self).follows(*old(self), show_from_schema(old(self).input(), old(self).index as int), r),
            r matches Err(e) ==> !(e@ is Unhandled),
    {
        broadcast use group_tree_views;

        proof {
            reveal(show_from_schema);
        }
        if self.parse_keyword(Keyword::FROM) {
            self.parse_schema_name()
        } else {
            Ok(Tree::Absent)
        }
    }
}

/// What [`Parser::parse_show_objects`] yields from the token at `i` on.
#[verifier::opaque]
pub open spec fn show_objects(p: Input, i: int, object_type: Kind) -> Out<TreeView>
    decreases p.toks.len() - i, 1int,
{
    match onward(p, i, {
        if lives_in_schema(object_type) {
            show_from_schema(p, i)
        } else {
            Got(TreeView::Absent, i)
        }
    }) { Failed(e, i) => Failed(e, i), Got(from, i) => {
    match onward(p, i, {
        match object_type {
            Kind::DatabaseType => {
                Got(TreeView::Node(Kind::ShowDatabase, Seq::<TreeView>::empty()), i)
            },
            Kind::SchemaType => {
                match onward(p, i, {
                    if at_keyword(p, i, Keyword::FROM) {
                        let i = i + 1;
                        database_name(p, i)
                    } else {
                        Got(TreeView::Absent, i)
                    }
                }) { Failed(e, i) => Failed(e, i), Got(database, i) => {
                Got(TreeView::Node(Kind::ShowSchema, seq![database]), i)
                }}
            },
            Kind::TableType => {
                Got(TreeView::Node(Kind::ShowTable, Seq::<TreeView>::empty()), i)
            },
            Kind::ViewType => {
                Got(TreeView::Node(Kind::ShowView, Seq::<TreeView>::empty()), i)
            },
            Kind::SourceType => {
                Got(TreeView::Node(Kind::ShowSource, Seq::<TreeView>::empty()), i)
            },
            Kind::SinkType => {
                Got(TreeView::Node(Kind::ShowSink, Seq::<TreeView>::empty()), i)
            },
            Kind::TypeType => {
                Got(TreeView::Node(Kind::ShowType, Seq::<TreeView>::empty()), i)
            },
            Kind::RoleType => {
                Got(TreeView::Node(Kind::ShowRole, Seq::<TreeView>::empty()), i)
            },
            Kind::ClusterReplicaType => {
                Got(TreeView::Node(Kind::ShowClusterReplica, Seq::<TreeView>::empty()), i)
            },
            Kind::SecretType => {
                Got(TreeView::Node(Kind::ShowSecret, Seq::<TreeView>::empty()), i)
            },
            Kind::ConnectionType => {
                Got(TreeView::Node(Kind::ShowConnection, Seq::<TreeView>::empty()), i)
            },
            Kind::ClusterType => {
                Got(TreeView::Node(Kind::ShowCluster, Seq::<TreeView>::empty()), i)
            },
            Kind::MaterializedViewType => {
                match onward(p, i, optional_in_cluster(p, i)) { Failed(e, i) => Failed(e, i), Got(in_cluster, i) => {
                Got(TreeView::Node(Kind::ShowMaterializedView, seq![in_cluster]), i)
                }}
            },
            Kind::IndexType => {
                match onward(p, i, {
                    if at_keyword(p, i, Keyword::ON) {
                        let i = i + 1;
                        raw_name(p, i)
                    } else {
                        Got(TreeView::Absent, i)
                    }
                }) { Failed(e, i) => Failed(e, i), Got(on_object, i) => {
                if !(from is Absent) && !(on_object is Absent) {
                    Failed(error_view(position(p, i - 1), no_text() + "Cannot specify both FROM and ON"@), i)
                } else {
                    match onward(p, i, optional_in_cluster(p, i)) { Failed(e, i) => Failed(e, i), Got(in_cluster, i) => {
                    Got(TreeView::Node(Kind::ShowIndex, seq![in_cluster, on_object]), i)
                    }}
                }
                }}
            },
            _ => {
                Failed(error_view(position(p, i - 1), no_text() + "Unsupported SHOW on "@ + object_type_text(object_type)), i)
            },
        }
    }) { Failed(e, i) => Failed(e, i), Got(shown, i) => {
    match show_statement_filter(p, i) { Failed(e, i) => Failed(e, i), Got(filter, i) => {
    Got(TreeView::Node(Kind::ShowObjects, seq![shown, from, filter]), i)
    }}
    }}
    }}
}

impl Parser {
    /// Parse what follows the type of the objects that are shown.
    #[verifier::rlimit(60)]
    pub fn parse_show_objects(&mut self, object_type: Kind) -> (r: Result<Tree, Failure>)
        requires
            old(self).ready(),
        ensures
            final(self).follows(*old(self), show_objects(old(self).input(), old(self).index as int, object_type), r),
            r matches Err(e) ==> !(e@ is Unhandled),
        decreases old(self).tokens.len() - old(self).index, 1int,
    {
        broadcast use group_tree_views;

        proof {
            reveal(show_objects);
            reveal(show_statement_filter);
        }
        let from = if is_schema_item(object_type) {
            self.parse_show_from_schema()?
        } else {
            Tree::Absent
        };
        let shown = match object_type {
            Kind::DatabaseType => {
                node(Kind::ShowDatabase, trees0())
            },
            Kind::SchemaType => {
                let database = if self.parse_keyword(Keyword::FROM) {
                    self.parse_database_name()?
                } else {
                    Tree::Absent
                };
                node(Kind::ShowSchema, trees1(database))
            },
            Kind::TableType => {
                node(Kind::ShowTable, trees0())
            },
            Kind::ViewType => {
                node(Kind::ShowView, trees0())
            },
            Kind::SourceType => {
                node(Kind::ShowSource, trees0())
            },
            Kind::SinkType => {
                node(Kind::ShowSink, trees0())
            },
            Kind::TypeType => {
                node(Kind::ShowType, trees0())
            },
            Kind::RoleType => {
                node(Kind::ShowRole, trees0())
            },
            Kind::ClusterReplicaType => {
                node(Kind::ShowClusterReplica, trees0())
            },
            Kind::SecretType => {
                node(Kind::ShowSecret, trees0())
            },
            Kind::ConnectionType => {
                node(Kind::ShowConnection, trees0())
            },
            Kind::ClusterType => {
                node(Kind::ShowCluster, trees0())
            },
            Kind::MaterializedViewType => {
                let in_cluster = self.parse_optional_in_cluster()?;
                node(Kind::ShowMaterializedView, trees1(in_cluster))
            },
            Kind::IndexType => {
                let on_object = if self.parse_keyword(Keyword::ON) {
                    self.parse_raw_name()?
                } else {
                    Tree::Absent
                };
                if !from.is_absent() && !on_object.is_absent() {
                    let pos: usize = self.peek_prev_pos();
                    return Err(error(pos, String::new().concat("Cannot specify both FROM and ON")));
                } else {
                    let in_cluster = self.parse_optional_in_cluster()?;
                    node(Kind::ShowIndex, trees2(in_cluster, on_object))
                }
            },
            _ => {
                let pos: usize = self.peek_prev_pos();
                return Err(error(pos, String::new().concat("Unsupported SHOW on ").concat(object_type_name(object_type).as_str())));
            },
        };
        let filter = self.parse_show_statement_filter()?;
        Ok(node(Kind::ShowObjects, trees3(shown, from, filter)))
    }
}

/// What [`Parser::parse_show_columns`] yields from the token at `i` on.
#[verifier::opaque]
pub open spec fn show_columns(p: Input, i: int) -> Out<TreeView>
    decreases p.toks.len() - i, 0int,
{
    match one_keyword(p, i, seq![Keyword::FROM, Keyword::IN]) { Failed(e, i) => Failed(e, i), Got(k, i) => {
    match past(p, i, raw_name(p, i)) { Failed(e, i) => Failed(e, i), Got(table_name, i) => {
    match show_statement_filter(p, i) { Failed(e, i) => Failed(e, i), Got(filter, i) => {
    Got(TreeView::Node(Kind::ShowColumns, seq![table_name, filter]), i)
    }}
    }}
    }}
}

impl Parser {
    /// Parse what follows `SHOW COLUMNS`.
    pub fn parse_show_columns(&mut self) -> (r: Result<Tree, Failure>)
        requires
            old(self).ready(),
        ensures
            final(self).follows(*old(self), show_columns(old(self).input(), old(self).index as int), r),
            r is Ok ==> final(self).index > old(self).index,
            r matches Err(e) ==> !(e@ is Unhandled),
        decreases old(self).tokens.len() - old(self).index, 0int,
    {
        broadcast use group_tree_views;

        proof {
            reveal(show_columns);
            reveal(show_statement_filter);
        }
        let choices: [Keyword; 2] = [Keyword::FROM, Keyword::IN];
        assert(choices@ =~= seq![Keyword::FROM, Keyword::IN]);
        let k = self.expect_one_of_keywords(&choices)?;
        let table_name = self.parse_raw_name()?;
        let filter = self.parse_show_statement_filter()?;
        Ok(node(Kind::ShowColumns, trees2(table_name, filter)))
    }
}

/// What [`Parser::parse_show_statement_filter`] yields from the token at `i` on.
#[verifier::opaque]
pub open spec fn show_statement_filter(p: Input, i: int) -> Out<TreeView>
    decreases p.toks.len() - i, 0int,
{
    if at_keyword(p, i, Keyword::LIKE) {
        let i = i + 1;
        match literal_string(p, i) { Failed(e, i) => Failed(e, i), Got(s, i) => {
        Got(TreeView::Node(Kind::LikeFilter, seq![TreeView::Text(s)]), i)
        }}
    } else {
        if at_keyword(p, i, Keyword::WHERE) {
            let i = i + 1;
            match expr(p, i) { Failed(e, i) => Failed(e, i), Got(e, i) => {
            Got(TreeView::Node(Kind::WhereFilter, seq![e]), i)
            }}
        } else {
            Got(TreeView::Absent, i)
        }
    }
}

impl Parser {
    /// Parse the filter of a `SHOW`, if there is one.
    pub fn parse_show_statement_filter(&mut self) -> (r: Result<Tree, Failure>)
        requires
            old(self).ready(),
        ensures
            final(self).follows(*old(self), show_statement_filter(old(self).input(), old(self).index as int), r),
            r matches Err(e) ==> !(e@ is Unhandled),
        decreases old(self).tokens.len() - old(self).index, 0int,
    {
        broadcast use group_tree_views;

        proof {
            reveal(show_statement_filter);
            reveal(expr);
        }
        if self.parse_keyword(Keyword::LIKE) {
            let s = self.parse_literal_string()?;
            Ok(node(Kind::LikeFilter, trees1(Tree::Text(s))))
        } else if self.parse_keyword(Keyword::WHERE) {
            let e = self.parse_expr()?;
            Ok(node(Kind::WhereFilter, trees1(e)))
        } else {
            Ok(Tree::Absent)
        }
    }
}

/// What [`Parser::parse_optional_in_cluster`] yields from the token at `i` on.
#[verifier::opaque]
pub open spec fn optional_in_cluster(p: Input, i: int) -> Out<TreeView>
{
    if at_keywords2(p, i, Keyword::IN, Keyword::CLUSTER) {
        let i = i + 2;
        raw_ident(p, i)
    } else {
        Got(TreeView::Absent, i)
    }
}

impl Parser {
    /// Parse `IN CLUSTER`, if it is there.
    pub fn parse_optional_in_cluster(&mut self) -> (r: Result<Tree, Failure>)
        requires
            old(self).ready(),
        ensures
            final(self).follows(*old(self), optional_in_cluster(old(self).input(), old(self).index as int), r),
            r matches Err(e) ==> !(e@ is Unhandled),
    {
        broadcast use group_tree_views;

        proof {
            reveal(optional_in_cluster);
        }
        if self.parse_keywords2(Keyword::IN, Keyword::CLUSTER) {
            self.parse_raw_ident()
        } else {
            Ok(Tree::Absent)
        }
    }
}

/// What [`Parser::parse_plural_object_type`] yields from the token at `i` on.
#[verifier::opaque]
pub open spec fn plural_object_type(p: Input, i: int) -> Out<Kind>
{
    match one_of(p, i, seq![Keyword::TABLES, Keyword::VIEWS, Keyword::MATERIALIZED, Keyword::SOURCES, Keyword::SINKS, Keyword::INDEXES, Keyword::TYPES, Keyword::ROLES, Keyword::USERS, Keyword::CLUSTER, Keyword::CLUSTERS, Keyword::SECRETS, Keyword::CONNECTIONS, Keyword::DATABASES, Keyword::SCHEMAS]) {
        Some(k) => {
            let i = i + 1;
            match k {
                Keyword::TABLES => {
                    Got(Kind::TableType, i)
                },
                Keyword::VIEWS => {
                    Got(Kind::ViewType, i)
                },
                Keyword::MATERIALIZED => {
                    if at_keyword(p, i, Keyword::VIEWS) {
                        let i = i + 1;
                        Got(Kind::MaterializedViewType, i)
                    } else {
                        let i = i - 1;
                        Got(Kind::NoType, i)
                    }
                },
                Keyword::SOURCES => {
                    Got(Kind::SourceType, i)
                },
                Keyword::SINKS => {
                    Got(Kind::SinkType, i)
                },
                Keyword::INDEXES => {
                    Got(Kind::IndexType, i)
                },
                Keyword::TYPES => {
                    Got(Kind::TypeType, i)
                },
                Keyword::ROLES | Keyword::USERS => {
                    Got(Kind::RoleType, i)
                },
                Keyword::CLUSTER => {
                    if at_keyword(p, i, Keyword::REPLICAS) {
                        let i = i + 1;
                        Got(Kind::ClusterReplicaType, i)
                    } else {
                        let i = i - 1;
                        Got(Kind::NoType, i)
                    }
                },
                Keyword::CLUSTERS => {
                    Got(Kind::ClusterType, i)
                },
                Keyword::SECRETS => {
                    Got(Kind::SecretType, i)
                },
                Keyword::CONNECTIONS => {
                    Got(Kind::ConnectionType, i)
                },
                Keyword::DATABASES => {
                    Got(Kind::DatabaseType, i)
                },
                _ => {
                    Got(Kind::SchemaType, i)
                },
            }
        },
        None => {
            Got(Kind::NoType, i)
        },
    }
}

impl Parser {
    /// Look for an object type in the plural form and return it if it matches.
    #[verifier::rlimit(60)]
    pub fn parse_plural_object_type(&mut self) -> (r: Result<Kind, Failure>)
        requires
            old(self).ready(),
        ensures
            final(self).follows(*old(self), plural_object_type(old(self).input(), old(self).index as int), r),
            r matches Err(e) ==> !(e@ is Unhandled),
    {
        broadcast use group_tree_views;

        proof {
            reveal(plural_object_type);
        }
        let choices: [Keyword; 15] = [Keyword::TABLES, Keyword::VIEWS, Keyword::MATERIALIZED, Keyword::SOURCES, Keyword::SINKS, Keyword::INDEXES, Keyword::TYPES, Keyword::ROLES, Keyword::USERS, Keyword::CLUSTER, Keyword::CLUSTERS, Keyword::SECRETS, Keyword::CONNECTIONS, Keyword::DATABASES, Keyword::SCHEMAS];
        assert(choices@ =~= seq![Keyword::TABLES, Keyword::VIEWS, Keyword::MATERIALIZED, Keyword::SOURCES, Keyword::SINKS, Keyword::INDEXES, Keyword::TYPES, Keyword::ROLES, Keyword::USERS, Keyword::CLUSTER, Keyword::CLUSTERS, Keyword::SECRETS, Keyword::CONNECTIONS, Keyword::DATABASES, Keyword::SCHEMAS]);
        match self.parse_one_of_keywords(&choices) {
            Some(k) => {
                match k {
                    Keyword::TABLES => {
                        Ok(Kind::TableType)
                    },
                    Keyword::VIEWS => {
                        Ok(Kind::ViewType)
                    },
                    Keyword::MATERIALIZED => {
                        if self.parse_keyword(Keyword::VIEWS) {
                            Ok(Kind::MaterializedViewType)
                        } else {
                            self.prev_token();
                            Ok(Kind::NoType)
                        }
                    },
                    Keyword::SOURCES => {
                        Ok(Kind::SourceType)
                    },
                    Keyword::SINKS => {
                        Ok(Kind::SinkType)
                    },
                    Keyword::INDEXES => {
                        Ok(Kind::IndexType)
                    },
                    Keyword::TYPES => {
                        Ok(Kind::TypeType)
                    },
                    Keyword::ROLES | Keyword::USERS => {
                        Ok(Kind::RoleType)
                    },
                    Keyword::CLUSTER => {
                        if self.parse_keyword(Keyword::REPLICAS) {
                            Ok(Kind::ClusterReplicaType)
                        } else {
                            self.prev_token();
                            Ok(Kind::NoType)
                        }
                    },
                    Keyword::CLUSTERS => {
                        Ok(Kind::ClusterType)
                    },
                    Keyword::SECRETS => {
                        Ok(Kind::SecretType)
                    },
                    Keyword::CONNECTIONS => {
                        Ok(Kind::ConnectionType)
                    },
                    Keyword::DATABASES => {
                        Ok(Kind::DatabaseType)
                    },
                    _ => {
                        Ok(Kind::SchemaType)
                    },
                }
            },
            None => {
                Ok(Kind::NoType)
            },
        }
    }
}

} // verus!
