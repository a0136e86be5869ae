//! `ALTER` and `DROP` statements.

use vstd::prelude::*;

use crate::sql_parser::checks::{object_type_text, object_type_name};
use crate::sql_parser::create::{create_sink_option_list, create_sink_option_name_list, if_exists, index_option_list, index_option_name_list, role_attributes, source_option_list, source_option_name_list};
use crate::sql_parser::expr::{expr};
use crate::sql_parser::grant::{grant_revoke_plural_object_type, privilege_specification, role_specification_list};
use crate::sql_parser::keywords::{Keyword};
use crate::sql_parser::kind::{Kind};
use crate::sql_parser::names::{cluster_replica_name, database_name, database_name_list, identifier, identifier_list, item_name, item_name_list, schema_name, schema_name_list};
use crate::sql_parser::outcome::Out::{Failed, Got};
use crate::sql_parser::outcome::{Out, Failure, error_view, error};
use crate::sql_parser::parser::{Parser, Input, at_keyword, at_keywords2, at_token, position, keyword, token, one_of, one_keyword, past, expected_at};
use crate::sql_parser::statement::{set_variable_to};
use crate::sql_parser::syntax::{group_tree_views, Tree, TreeView, Trees, node, list, trees0, trees1, trees2, trees3, trees4};
use crate::sql_parser::text::{no_text};
use crate::sql_parser::token::{Token, TokenView};

verus! {

/// What [`Parser::expect_object_type`] yields from the token at `i` on.
#[verifier::opaque]
pub open spec fn expect_object_type(p: Input, i: int) -> Out<Kind>
{
    match one_keyword(p, i, seq![Keyword::TABLE, Keyword::VIEW, Keyword::MATERIALIZED, Keyword::SOURCE, Keyword::SINK, Keyword::INDEX, Keyword::TYPE, Keyword::ROLE, Keyword::USER, Keyword::CLUSTER, Keyword::SECRET, Keyword::CONNECTION, Keyword::DATABASE, Keyword::SCHEMA, Keyword::FUNCTION]) { Failed(e, i) => Failed(e, i), Got(k, i) => {
    match k {
        Keyword::TABLE => {
            Got(Kind::TableType, i)
        },
        Keyword::VIEW => {
            Got(Kind::ViewType, i)
        },
        Keyword::MATERIALIZED => {
            match keyword(p, i, Keyword::VIEW) { Failed(e, i) => Failed(e, i - 1), Got(_, i) => {
            Got(Kind::MaterializedViewType, i)
            }}
        },
        Keyword::SOURCE => {
            Got(Kind::SourceType, i)
        },
        Keyword::SINK => {
            Got(Kind::SinkType, i)
        },
        Keyword::INDEX => {
            Got(Kind::IndexType, i)
        },
        Keyword::TYPE => {
            Got(Kind::TypeType, i)
        },
        Keyword::ROLE | Keyword::USER => {
            Got(Kind::RoleType, i)
        },
        Keyword::CLUSTER => {
            if at_keyword(p, i, Keyword::REPLICA) {
                let i = i + 1;
                Got(Kind::ClusterReplicaType, i)
            } else {
                Got(Kind::ClusterType, i)
            }
        },
        Keyword::SECRET => {
            Got(Kind::SecretType, i)
        },
        Keyword::CONNECTION => {
            Got(Kind::ConnectionType, i)
        },
        Keyword::DATABASE => {
            Got(Kind::DatabaseType, i)
        },
        Keyword::SCHEMA => {
            Got(Kind::SchemaType, i)
        },
        _ => {
            Got(Kind::FuncType, i)
        },
    }
    }}
}

impl Parser {
    /// Bail out if the current token is not an object type, or consume and return it if it is.
    #[verifier::rlimit(30)]
    pub fn expect_object_type(&mut self) -> (r: Result<Kind, Failure>)
        requires
            old(self).ready(),
        ensures
            final(self).follows(*old(self), expect_object_type(old(self).input(), old(self).index as int), r),
            r is Ok ==> final(self).index > old(self).index,
            r matches Err(e) ==> !(e@ is Unhandled),
    {
        broadcast use group_tree_views;

        proof {
            reveal(expect_object_type);
        }
        let choices: [Keyword; 15] = [Keyword::TABLE, Keyword::VIEW, Keyword::MATERIALIZED, Keyword::SOURCE, Keyword::SINK, Keyword::INDEX, Keyword::TYPE, Keyword::ROLE, Keyword::USER, Keyword::CLUSTER, Keyword::SECRET, Keyword::CONNECTION, Keyword::DATABASE, Keyword::SCHEMA, Keyword::FUNCTION];
        assert(choices@ =~= seq![Keyword::TABLE, Keyword::VIEW, Keyword::MATERIALIZED, Keyword::SOURCE, Keyword::SINK, Keyword::INDEX, Keyword::TYPE, Keyword::ROLE, Keyword::USER, Keyword::CLUSTER, Keyword::SECRET, Keyword::CONNECTION, Keyword::DATABASE, Keyword::SCHEMA, Keyword::FUNCTION]);
        let k = self.expect_one_of_keywords(&choices)?;
        match k {
            Keyword::TABLE => {
                Ok(Kind::TableType)
            },
            Keyword::VIEW => {
                Ok(Kind::ViewType)
            },
            Keyword::MATERIALIZED => {
                if let Err(e) = self.expect_keyword(Keyword::VIEW) {
                    self.prev_token();
                    return Err(e);
                }
                Ok(Kind::MaterializedViewType)
            },
            Keyword::SOURCE => {
                Ok(Kind::SourceType)
            },
            Keyword::SINK => {
                Ok(Kind::SinkType)
            },
            Keyword::INDEX => {
                Ok(Kind::IndexType)
            },
            Keyword::TYPE => {
                Ok(Kind::TypeType)
            },
            Keyword::ROLE | Keyword::USER => {
                Ok(Kind::RoleType)
            },
            Keyword::CLUSTER => {
                if self.parse_keyword(Keyword::REPLICA) {
                    Ok(Kind::ClusterReplicaType)
                } else {
                    Ok(Kind::ClusterType)
                }
            },
            Keyword::SECRET => {
                Ok(Kind::SecretType)
            },
            Keyword::CONNECTION => {
                Ok(Kind::ConnectionType)
            },
            Keyword::DATABASE => {
                Ok(Kind::DatabaseType)
            },
            Keyword::SCHEMA => {
                Ok(Kind::SchemaType)
            },
            _ => {
                Ok(Kind::FuncType)
            },
        }
    }
}

/// What [`Parser::parse_drop_behavior`] yields from the token at `i` on.
#[verifier::opaque]
pub open spec fn drop_behavior(p: Input, i: int) -> Out<Kind>
{
    if at_keyword(p, i, Keyword::CASCADE) {
        let i = i + 1;
        if at_keyword(p, i, Keyword::RESTRICT) {
            let i = i + 1;
            Failed(error_view(position(p, i - 1), no_text() + "Cannot specify both CASCADE and RESTRICT in DROP"@), i)
        } else {
            Got(Kind::Cascade, i)
        }
    } else {
        if at_keyword(p, i, Keyword::RESTRICT) {
            let i = i + 1;
            if at_keyword(p, i, Keyword::CASCADE) {
                let i = i + 1;
                Failed(error_view(position(p, i - 1), no_text() + "Cannot specify both RESTRICT and CASCADE in DROP"@), i)
            } else {
                Got(Kind::Restrict, i)
            }
        } else {
            Got(Kind::NoType, i)
        }
    }
}

impl Parser {
    /// Parse `CASCADE`, `RESTRICT` or neither; the result is which.
    pub fn parse_drop_behavior(&mut self) -> (r: Result<Kind, Failure>)
        requires
            old(self).ready(),
        ensures
            final(self).follows(*old(self), drop_behavior(old(self).input(), old(self).index as int), r),
            r matches Err(e) ==> !(e@ is Unhandled),
    {
        broadcast use group_tree_views;

        proof {
            reveal(drop_behavior);
        }
        if self.parse_keyword(Keyword::CASCADE) {
            if self.parse_keyword(Keyword::RESTRICT) {
                let pos: usize = self.peek_prev_pos();
                Err(error(pos, String::new().concat("Cannot specify both CASCADE and RESTRICT in DROP")))
            } else {
                Ok(Kind::Cascade)
            }
        } else if self.parse_keyword(Keyword::RESTRICT) {
            if self.parse_keyword(Keyword::CASCADE) {
                let pos: usize = self.peek_prev_pos();
                Err(error(pos, String::new().concat("Cannot specify both RESTRICT and CASCADE in DROP")))
            } else {
                Ok(Kind::Restrict)
            }
        } else {
            Ok(Kind::NoType)
        }
    }
}

/// What [`Parser::parse_dropped_role`] yields from the token at `i` on.
#[verifier::opaque]
pub open spec fn dropped_role(p: Input, i: int) -> Out<TreeView>
{
    match identifier(p, i) { Failed(e, i) => Failed(e, i), Got(id, i) => {
    Got(TreeView::Node(Kind::RoleName, seq![id]), i)
    }}
}

impl Parser {
    /// Parse the name of a role that is dropped.
    pub fn parse_dropped_role(&mut self) -> (r: Result<Tree, Failure>)
        requires
            old(self).ready(),
        ensures
            final(self).follows(*old(self), dropped_role(old(self).input(), old(self).index as int), r),
            r is Ok ==> final(self).index > old(self).index,
            r matches Err(e) ==> !(e@ is Unhandled),
    {
        broadcast use group_tree_views;

        proof {
            reveal(dropped_role);
        }
        let id = self.parse_identifier()?;
        Ok(node(Kind::RoleName, trees1(id)))
    }
}

/// What [`Parser::parse_dropped_role_list`] yields from the token at `i` on.
#[verifier::opaque]
pub open spec fn dropped_role_list(p: Input, i: int, items: Seq<TreeView>) -> Out<Seq<TreeView>>
    decreases p.toks.len() - i, 0int,
{
    match past(p, i, dropped_role(p, i)) { Failed(e, i) => Failed(e, i), Got(item, i) => {
    if at_token(p, i, TokenView::Comma) {
        let i = i + 1;
        dropped_role_list(p, i, items.push(item))
    } else {
        Got(items.push(item), i)
    }
    }}
}

impl Parser {
    /// Parses one or more `dropped_role`, separated by commas, after those in `items`.
    pub fn parse_dropped_role_list(&mut self, mut items: Trees) -> (r: Result<Trees, Failure>)
        requires
            old(self).ready(),
        ensures
            final(self).follows(*old(self), dropped_role_list(old(self).input(), old(self).index as int, items@), r),
            r is Ok ==> final(self).index > old(self).index,
            r matches Ok(all) ==> all@.len() > items@.len(),
            r matches Err(e) ==> !(e@ is Unhandled),
        decreases old(self).tokens.len() - old(self).index, 0int,
    {
        broadcast use group_tree_views;

        proof {
            reveal(dropped_role_list);
        }
        let ghost before = *self;
        let ghost given = items@.len();
        let ghost goal = dropped_role_list(self.input(), self.index as int, items@);
        #[verifier::loop_isolation(false)]
        loop
            invariant
                self.ready(),
                self.input() == before.input(),
                self.tokens.len() == before.tokens.len(),
                before.index <= self.index,
                before == *old(self),
                given <= items@.len(),
                dropped_role_list(self.input(), self.index as int, items@) == goal,
            decreases self.tokens.len() - self.index,
        {
            proof {
                reveal(dropped_role_list);
            }
            let item = self.parse_dropped_role()?;
            if self.consume_token(&Token::Comma) {
                items = items.with(item);
                continue;
            } else {
                return Ok(items.with(item));
            }
        }
    }
}

/// What [`Parser::parse_dropped_cluster`] yields from the token at `i` on.
#[verifier::opaque]
pub open spec fn dropped_cluster(p: Input, i: int) -> Out<TreeView>
{
    match identifier(p, i) { Failed(e, i) => Failed(e, i), Got(id, i) => {
    Got(TreeView::Node(Kind::ClusterName, seq![id]), i)
    }}
}

impl Parser {
    /// Parse the name of a cluster that is dropped.
    pub fn parse_dropped_cluster(&mut self) -> (r: Result<Tree, Failure>)
        requires
            old(self).ready(),
        ensures
            final(self).follows(*old(self), dropped_cluster(old(self).input(), old(self).index as int), r),
            r is Ok ==> final(self).index > old(self).index,
            r matches Err(e) ==> !(e@ is Unhandled),
    {
        broadcast use group_tree_views;

        proof {
            reveal(dropped_cluster);
        }
        let id = self.parse_identifier()?;
        Ok(node(Kind::ClusterName, trees1(id)))
    }
}

/// What [`Parser::parse_dropped_cluster_list`] yields from the token at `i` on.
#[verifier::opaque]
pub open spec fn dropped_cluster_list(p: Input, i: int, items: Seq<TreeView>) -> Out<Seq<TreeView>>
    decreases p.toks.len() - i, 0int,
{
    match past(p, i, dropped_cluster(p, i)) { Failed(e, i) => Failed(e, i), Got(item, i) => {
    if at_token(p, i, TokenView::Comma) {
        let i = i + 1;
        dropped_cluster_list(p, i, items.push(item))
    } else {
        Got(items.push(item), i)
    }
    }}
}

impl Parser {
    /// Parses one or more `dropped_cluster`, separated by commas, after those in `items`.
    pub fn parse_dropped_cluster_list(&mut self, mut items: Trees) -> (r: Result<Trees, Failure>)
        requires
            old(self).ready(),
        ensures
            final(self).follows(*old(self), dropped_cluster_list(old(self).input(), old(self).index as int, items@), r),
            r is Ok ==> final(self).index > old(self).index,
            r matches Ok(all) ==> all@.len() > items@.len(),
            r matches Err(e) ==> !(e@ is Unhandled),
        decreases old(self).tokens.len() - old(self).index, 0int,
    {
        broadcast use group_tree_views;

        proof {
            reveal(dropped_cluster_list);
        }
        let ghost before = *self;
        let ghost given = items@.len();
        let ghost goal = dropped_cluster_list(self.input(), self.index as int, items@);
        #[verifier::loop_isolation(false)]
        loop
            invariant
                self.ready(),
                self.input() == before.input(),
                self.tokens.len() == before.tokens.len(),
                before.index <= self.index,
                before == *old(self),
                given <= items@.len(),
                dropped_cluster_list(self.input(), self.index as int, items@) == goal,
            decreases self.tokens.len() - self.index,
        {
            proof {
                reveal(dropped_cluster_list);
            }
            let item = self.parse_dropped_cluster()?;
            if self.consume_token(&Token::Comma) {
                items = items.with(item);
                continue;
            } else {
                return Ok(items.with(item));
            }
        }
    }
}

/// What [`Parser::parse_dropped_replica`] yields from the token at `i` on.
#[verifier::opaque]
pub open spec fn dropped_replica(p: Input, i: int) -> Out<TreeView>
{
    match cluster_replica_name(p, i) { Failed(e, i) => Failed(e, i), Got(name, i) => {
    Got(TreeView::Node(Kind::ReplicaName, seq![name]), i)
    }}
}

impl Parser {
    /// Parse the name of a cluster replica that is dropped.
    pub fn parse_dropped_replica(&mut self) -> (r: Result<Tree, Failure>)
        requires
            old(self).ready(),
        ensures
            final(self).follows(*old(self), dropped_replica(old(self).input(), old(self).index as int), r),
            r is Ok ==> final(self).index > old(self).index,
            r matches Err(e) ==> !(e@ is Unhandled),
    {
        broadcast use group_tree_views;

        proof {
            reveal(dropped_replica);
        }
        let name = self.parse_cluster_replica_name()?;
        Ok(node(Kind::ReplicaName, trees1(name)))
    }
}

/// What [`Parser::parse_dropped_replica_list`] yields from the token at `i` on.
#[verifier::opaque]
pub open spec fn dropped_replica_list(p: Input, i: int, items: Seq<TreeView>) -> Out<Seq<TreeView>>
    decreases p.toks.len() - i, 0int,
{
    match past(p, i, dropped_replica(p, i)) { Failed(e, i) => Failed(e, i), Got(item, i) => {
    if at_token(p, i, TokenView::Comma) {
        let i = i + 1;
        dropped_replica_list(p, i, items.push(item))
    } else {
        Got(items.push(item), i)
    }
    }}
}

impl Parser {
    /// Parses one or more `dropped_replica`, separated by commas, after those in `items`.
    pub fn parse_dropped_replica_list(&mut self, mut items: Trees) -> (r: Result<Trees, Failure>)
        requires
            old(self).ready(),
        ensures
            final(self).follows(*old(self), dropped_replica_list(old(self).input(), old(self).index as int, items@), r),
            r is Ok ==> final(self).index > old(self).index,
            r matches Ok(all) ==> all@.len() > items@.len(),
            r matches Err(e) ==> !(e@ is Unhandled),
        decreases old(self).tokens.len() - old(self).index, 0int,
    {
        broadcast use group_tree_views;

        proof {
            reveal(dropped_replica_list);
        }
        let ghost before = *self;
        let ghost given = items@.len();
        let ghost goal = dropped_replica_list(self.input(), self.index as int, items@);
        #[verifier::loop_isolation(false)]
        loop
            invariant
                self.ready(),
                self.input() == before.input(),
                self.tokens.len() == before.tokens.len(),
                before.index <= self.index,
                before == *old(self),
                given <= items@.len(),
                dropped_replica_list(self.input(), self.index as int, items@) == goal,
            decreases self.tokens.len() - self.index,
        {
            proof {
                reveal(dropped_replica_list);
            }
            let item = self.parse_dropped_replica()?;
            if self.consume_token(&Token::Comma) {
                items = items.with(item);
                continue;
            } else {
                return Ok(items.with(item));
            }
        }
    }
}

/// What [`Parser::parse_drop`] yields from the token at `i` on.
#[verifier::opaque]
pub open spec fn drop_statement(p: Input, i: int) -> Out<TreeView>
{
    if at_keyword(p, i, Keyword::OWNED) {
        let i = i + 1;
        drop_owned(p, i)
    } else {
        match expect_object_type(p, i) { Failed(e, i) => Failed(e, i), Got(object_type, i) => {
        match if_exists(p, i) { Failed(e, i) => Failed(e, i), Got(if_exists, i) => {
        match object_type {
            Kind::DatabaseType => {
                match database_name(p, i) { Failed(e, i) => Failed(e, i), Got(name, i) => {
                match drop_behavior(p, i) { Failed(e, i) => Failed(e, i), Got(behavior, i) => {
                Got(TreeView::Node(Kind::DropObjects, seq![TreeView::Node(object_type, Seq::<TreeView>::empty()), TreeView::Flag(if_exists), TreeView::List(seq![name]), TreeView::Flag(behavior != Kind::Restrict)]), i)
                }}
                }}
            },
            Kind::SchemaType => {
                match schema_name(p, i) { Failed(e, i) => Failed(e, i), Got(name, i) => {
                match drop_behavior(p, i) { Failed(e, i) => Failed(e, i), Got(behavior, i) => {
                Got(TreeView::Node(Kind::DropObjects, seq![TreeView::Node(object_type, Seq::<TreeView>::empty()), TreeView::Flag(if_exists), TreeView::List(seq![name]), TreeView::Flag(behavior == Kind::Cascade)]), i)
                }}
                }}
            },
            Kind::RoleType => {
                match dropped_role_list(p, i, Seq::<TreeView>::empty()) { Failed(e, i) => Failed(e, i), Got(names, i) => {
                Got(TreeView::Node(Kind::DropObjects, seq![TreeView::Node(object_type, Seq::<TreeView>::empty()), TreeView::Flag(if_exists), TreeView::List(names), TreeView::Flag(false)]), i)
                }}
            },
            Kind::ClusterType => {
                drop_clusters(p, i, if_exists)
            },
            Kind::ClusterReplicaType => {
                drop_cluster_replicas(p, i, if_exists)
            },
            Kind::FuncType => {
                Failed(error_view(position(p, i - 1), no_text() + "Unsupported DROP on "@ + object_type_text(object_type)), i)
            },
            _ => {
                match item_name_list(p, i, Seq::<TreeView>::empty()) { Failed(e, i) => Failed(e, i), Got(names, i) => {
                match drop_behavior(p, i) { Failed(e, i) => Failed(e, i), Got(behavior, i) => {
                Got(TreeView::Node(Kind::DropObjects, seq![TreeView::Node(object_type, Seq::<TreeView>::empty()), TreeView::Flag(if_exists), TreeView::List(names), TreeView::Flag(behavior == Kind::Cascade)]), i)
                }}
                }}
            },
        }
        }}
        }}
    }
}

impl Parser {
    /// Parse a `DROP` statement.
    #[verifier::rlimit(30)]
    pub fn parse_drop(&mut self) -> (r: Result<Tree, Failure>)
        requires
            old(self).ready(),
        ensures
            final(self).follows(*old(self), drop_statement(old(self).input(), old(self).index as int), r),
            r is Ok ==> final(self).index > old(self).index,
            r matches Err(e) ==> !(e@ is Unhandled),
    {
        broadcast use group_tree_views;

        proof {
            reveal(drop_statement);
        }
        if self.parse_keyword(Keyword::OWNED) {
            self.parse_drop_owned()
        } else {
            let object_type = self.expect_object_type()?;
            let if_exists = self.parse_if_exists()?;
            match object_type {
                Kind::DatabaseType => {
                    let name = self.parse_database_name()?;
                    let behavior = self.parse_drop_behavior()?;
                    Ok(node(Kind::DropObjects, trees4(node(object_type, trees0()), Tree::Flag(if_exists), list(trees1(name)), Tree::Flag(behavior != Kind::Restrict))))
                },
                Kind::SchemaType => {
                    let name = self.parse_schema_name()?;
                    let behavior = self.parse_drop_behavior()?;
                    Ok(node(Kind::DropObjects, trees4(node(object_type, trees0()), Tree::Flag(if_exists), list(trees1(name)), Tree::Flag(behavior == Kind::Cascade))))
                },
                Kind::RoleType => {
                    let names = self.parse_dropped_role_list(trees0())?;
                    Ok(node(Kind::DropObjects, trees4(node(object_type, trees0()), Tree::Flag(if_exists), list(names), Tree::Flag(false))))
                },
                Kind::ClusterType => {
                    self.parse_drop_clusters(if_exists)
                },
                Kind::ClusterReplicaType => {
                    self.parse_drop_cluster_replicas(if_exists)
                },
                Kind::FuncType => {
                    let pos: usize = self.peek_prev_pos();
                    Err(error(pos, String::new().concat("Unsupported DROP on ").concat(object_type_name(object_type).as_str())))
                },
                _ => {
                    let names = self.parse_item_name_list(trees0())?;
                    let behavior = self.parse_drop_behavior()?;
                    Ok(node(Kind::DropObjects, trees4(node(object_type, trees0()), Tree::Flag(if_exists), list(names), Tree::Flag(behavior == Kind::Cascade))))
                },
            }
        }
    }
}

/// What [`Parser::parse_drop_clusters`] yields from the token at `i` on.
#[verifier::opaque]
pub open spec fn drop_clusters(p: Input, i: int, if_exists: bool) -> Out<TreeView>
{
    match dropped_cluster_list(p, i, Seq::<TreeView>::empty()) { Failed(e, i) => Failed(e, i), Got(names, i) => {
    match drop_behavior(p, i) { Failed(e, i) => Failed(e, i), Got(behavior, i) => {
    Got(TreeView::Node(Kind::DropObjects, seq![TreeView::Node(Kind::ClusterType, Seq::<TreeView>::empty()), TreeView::Flag(if_exists), TreeView::List(names), TreeView::Flag(behavior == Kind::Cascade)]), i)
    }}
    }}
}

impl Parser {
    /// Parse the clusters that are dropped.
    pub fn parse_drop_clusters(&mut self, if_exists: bool) -> (r: Result<Tree, Failure>)
        requires
            old(self).ready(),
        ensures
            final(self).follows(*old(self), drop_clusters(old(self).input(), old(self).index as int, if_exists), r),
            r is Ok ==> final(self).index > old(self).index,
            r matches Err(e) ==> !(e@ is Unhandled),
    {
        broadcast use group_tree_views;

        proof {
            reveal(drop_clusters);
        }
        let names = self.parse_dropped_cluster_list(trees0())?;
        let behavior = self.parse_drop_behavior()?;
        Ok(node(Kind::DropObjects, trees4(node(Kind::ClusterType, trees0()), Tree::Flag(if_exists), list(names), Tree::Flag(behavior == Kind::Cascade))))
    }
}

/// What [`Parser::parse_drop_cluster_replicas`] yields from the token at `i` on.
#[verifier::opaque]
pub open spec fn drop_cluster_replicas(p: Input, i: int, if_exists: bool) -> Out<TreeView>
{
    match dropped_replica_list(p, i, Seq::<TreeView>::empty()) { Failed(e, i) => Failed(e, i), Got(names, i) => {
    Got(TreeView::Node(Kind::DropObjects, seq![TreeView::Node(Kind::ClusterReplicaType, Seq::<TreeView>::empty()), TreeView::Flag(if_exists), TreeView::List(names), TreeView::Flag(false)]), i)
    }}
}

impl Parser {
    /// Parse the cluster replicas that are dropped.
    pub fn parse_drop_cluster_replicas(&mut self, if_exists: bool) -> (r: Result<Tree, Failure>)
        requires
            old(self).ready(),
        ensures
            final(self).follows(*old(self), drop_cluster_replicas(old(self).input(), old(self).index as int, if_exists), r),
            r is Ok ==> final(self).index > old(self).index,
            r matches Err(e) ==> !(e@ is Unhandled),
    {
        broadcast use group_tree_views;

        proof {
            reveal(drop_cluster_replicas);
        }
        let names = self.parse_dropped_replica_list(trees0())?;
        Ok(node(Kind::DropObjects, trees4(node(Kind::ClusterReplicaType, trees0()), Tree::Flag(if_exists), list(names), Tree::Flag(false))))
    }
}

/// What [`Parser::parse_drop_owned`] yields from the token at `i` on.
#[verifier::opaque]
pub open spec fn drop_owned(p: Input, i: int) -> Out<TreeView>
{
    match keyword(p, i, Keyword::BY) { Failed(e, i) => Failed(e, i), Got(_, i) => {
    match identifier_list(p, i, Seq::<TreeView>::empty()) { Failed(e, i) => Failed(e, i), Got(role_names, i) => {
    match drop_behavior(p, i) { Failed(e, i) => Failed(e, i), Got(behavior, i) => {
    Got(TreeView::Node(Kind::DropOwned, seq![TreeView::List(role_names), TreeView::Flag(behavior == Kind::Cascade)]), i)
    }}
    }}
    }}
}

impl Parser {
    /// Parse a `DROP OWNED` statement.
    pub fn parse_drop_owned(&mut self) -> (r: Result<Tree, Failure>)
        requires
            old(self).ready(),
        ensures
            final(self).follows(*old(self), drop_owned(old(self).input(), old(self).index as int), r),
            r is Ok ==> final(self).index > old(self).index,
            r matches Err(e) ==> !(e@ is Unhandled),
    {
        broadcast use group_tree_views;

        proof {
            reveal(drop_owned);
        }
        self.expect_keyword(Keyword::BY)?;
        let role_names = self.parse_identifier_list(trees0())?;
        let behavior = self.parse_drop_behavior()?;
        Ok(node(Kind::DropOwned, trees2(list(role_names), Tree::Flag(behavior == Kind::Cascade))))
    }
}

/// What [`Parser::parse_alter`] yields from the token at `i` on.
#[verifier::opaque]
pub open spec fn alter(p: Input, i: int) -> Out<TreeView>
{
    if at_keyword(p, i, Keyword::SYSTEM) {
        let i = i + 1;
        alter_system(p, i)
    } else {
        if at_keywords2(p, i, Keyword::DEFAULT, Keyword::PRIVILEGES) {
            let i = i + 2;
            alter_default_privileges(p, i)
        } else {
            alter_object(p, i)
        }
    }
}

impl Parser {
    /// Parse an `ALTER` statement.
    pub fn parse_alter(&mut self) -> (r: Result<Tree, Failure>)
        requires
            old(self).ready(),
        ensures
            final(self).follows(*old(self), alter(old(self).input(), old(self).index as int), r),
            r is Ok ==> final(self).index > old(self).index,
            r matches Err(e) ==> !(e@ is Unhandled),
    {
        broadcast use group_tree_views;

        proof {
            reveal(alter);
        }
        if self.parse_keyword(Keyword::SYSTEM) {
            self.parse_alter_system()
        } else if self.parse_keywords2(Keyword::DEFAULT, Keyword::PRIVILEGES) {
            self.parse_alter_default_privileges()
        } else {
            self.parse_alter_object()
        }
    }
}

/// What [`Parser::parse_rename_to`] yields from the token at `i` on.
#[verifier::opaque]
pub open spec fn rename_to(p: Input, i: int, object_type: Kind, if_exists: bool, name: TreeView) -> Out<TreeView>
{
    match identifier(p, i) { Failed(e, i) => Failed(e, i), Got(to_item_name, i) => {
    Got(TreeView::Node(Kind::AlterObjectRename, seq![TreeView::Node(object_type, Seq::<TreeView>::empty()), TreeView::Flag(if_exists), name, to_item_name]), i)
    }}
}

impl Parser {
    /// Parse the new name of an object.
    pub fn parse_rename_to(&mut self, object_type: Kind, if_exists: bool, name: Tree) -> (r: Result<Tree, Failure>)
        requires
            old(self).ready(),
        ensures
            final(self).follows(*old(self), rename_to(old(self).input(), old(self).index as int, object_type, if_exists, name@), r),
            r is Ok ==> final(self).index > old(self).index,
            r matches Err(e) ==> !(e@ is Unhandled),
    {
        broadcast use group_tree_views;

        proof {
            reveal(rename_to);
        }
        let to_item_name = self.parse_identifier()?;
        Ok(node(Kind::AlterObjectRename, trees4(node(object_type, trees0()), Tree::Flag(if_exists), name, to_item_name)))
    }
}

/// What [`Parser::parse_owner_to`] yields from the token at `i` on.
#[verifier::opaque]
pub open spec fn owner_to(p: Input, i: int, object_type: Kind, if_exists: bool, name: TreeView) -> Out<TreeView>
{
    match identifier(p, i) { Failed(e, i) => Failed(e, i), Got(new_owner, i) => {
    Got(TreeView::Node(Kind::AlterOwner, seq![TreeView::Node(object_type, Seq::<TreeView>::empty()), TreeView::Flag(if_exists), name, new_owner]), i)
    }}
}

impl Parser {
    /// Parse the new owner of an object.
    pub fn parse_owner_to(&mut self, object_type: Kind, if_exists: bool, name: Tree) -> (r: Result<Tree, Failure>)
        requires
            old(self).ready(),
        ensures
            final(self).follows(*old(self), owner_to(old(self).input(), old(self).index as int, object_type, if_exists, name@), r),
            r is Ok ==> final(self).index > old(self).index,
            r matches Err(e) ==> !(e@ is Unhandled),
    {
        broadcast use group_tree_views;

        proof {
            reveal(owner_to);
        }
        let new_owner = self.parse_identifier()?;
        Ok(node(Kind::AlterOwner, trees4(node(object_type, trees0()), Tree::Flag(if_exists), name, new_owner)))
    }
}

/// What [`Parser::parse_alter_object`] yields from the token at `i` on.
#[verifier::opaque]
pub open spec fn alter_object(p: Input, i: int) -> Out<TreeView>
{
    match expect_object_type(p, i) { Failed(e, i) => Failed(e, i), Got(object_type, i) => {
    match object_type {
        Kind::RoleType => {
            alter_role(p, i)
        },
        Kind::SinkType => {
            alter_sink(p, i)
        },
        Kind::SourceType => {
            alter_source(p, i)
        },
        Kind::IndexType => {
            alter_index(p, i)
        },
        Kind::SecretType => {
            alter_secret(p, i)
        },
        Kind::ConnectionType => {
            alter_connection(p, i)
        },
        Kind::ViewType | Kind::MaterializedViewType | Kind::TableType => {
            alter_relation(p, i, object_type)
        },
        Kind::TypeType => {
            alter_type(p, i)
        },
        Kind::ClusterType => {
            alter_cluster(p, i)
        },
        Kind::ClusterReplicaType => {
            alter_cluster_replica(p, i)
        },
        Kind::DatabaseType => {
            alter_database(p, i)
        },
        Kind::SchemaType => {
            alter_schema(p, i)
        },
        _ => {
            Failed(error_view(position(p, i - 1), no_text() + "Unsupported ALTER on "@ + object_type_text(object_type)), i)
        },
    }
    }}
}

impl Parser {
    /// Parse what follows the type of the object that is altered.
    #[verifier::rlimit(30)]
    pub fn parse_alter_object(&mut self) -> (r: Result<Tree, Failure>)
        requires
            old(self).ready(),
        ensures
            final(self).follows(*old(self), alter_object(old(self).input(), old(self).index as int), r),
            r is Ok ==> final(self).index > old(self).index,
            r matches Err(e) ==> !(e@ is Unhandled),
    {
        broadcast use group_tree_views;

        proof {
            reveal(alter_object);
        }
        let object_type = self.expect_object_type()?;
        match object_type {
            Kind::RoleType => {
                self.parse_alter_role()
            },
            Kind::SinkType => {
                self.parse_alter_sink()
            },
            Kind::SourceType => {
                self.parse_alter_source()
            },
            Kind::IndexType => {
                self.parse_alter_index()
            },
            Kind::SecretType => {
                self.parse_alter_secret()
            },
            Kind::ConnectionType => {
                self.parse_alter_connection()
            },
            Kind::ViewType | Kind::MaterializedViewType | Kind::TableType => {
                self.parse_alter_relation(object_type)
            },
            Kind::TypeType => {
                self.parse_alter_type()
            },
            Kind::ClusterType => {
                self.parse_alter_cluster()
            },
            Kind::ClusterReplicaType => {
                self.parse_alter_cluster_replica()
            },
            Kind::DatabaseType => {
                self.parse_alter_database()
            },
            Kind::SchemaType => {
                self.parse_alter_schema()
            },
            _ => {
                let pos: usize = self.peek_prev_pos();
                Err(error(pos, String::new().concat("Unsupported ALTER on ").concat(object_type_name(object_type).as_str())))
            },
        }
    }
}

/// What [`Parser::parse_alter_relation`] yields from the token at `i` on.
#[verifier::opaque]
pub open spec fn alter_relation(p: Input, i: int, object_type: Kind) -> Out<TreeView>
{
    match if_exists(p, i) { Failed(e, i) => Failed(e, i), Got(if_exists, i) => {
    match item_name(p, i) { Failed(e, i) => Failed(e, i), Got(name, i) => {
    match one_keyword(p, i, seq![Keyword::RENAME, Keyword::OWNER]) { Failed(e, i) => Failed(e, i), Got(action, i) => {
    match keyword(p, i, Keyword::TO) { Failed(e, i) => Failed(e, i), Got(_, i) => {
    if action == Keyword::RENAME {
        rename_to(p, i, object_type, if_exists, name)
    } else {
        owner_to(p, i, object_type, if_exists, name)
    }
    }}
    }}
    }}
    }}
}

impl Parser {
    /// Parse what follows the type of a view or table that is altered.
    pub fn parse_alter_relation(&mut self, object_type: Kind) -> (r: Result<Tree, Failure>)
        requires
            old(self).ready(),
        ensures
            final(self).follows(*old(self), alter_relation(old(self).input(), old(self).index as int, object_type), r),
            r is Ok ==> final(self).index > old(self).index,
            r matches Err(e) ==> !(e@ is Unhandled),
    {
        broadcast use group_tree_views;

        proof {
            reveal(alter_relation);
        }
        let if_exists = self.parse_if_exists()?;
        let name = self.parse_item_name()?;
        let choices: [Keyword; 2] = [Keyword::RENAME, Keyword::OWNER];
        assert(choices@ =~= seq![Keyword::RENAME, Keyword::OWNER]);
        let action = self.expect_one_of_keywords(&choices)?;
        self.expect_keyword(Keyword::TO)?;
        if action == Keyword::RENAME {
            self.parse_rename_to(object_type, if_exists, name)
        } else {
            self.parse_owner_to(object_type, if_exists, name)
        }
    }
}

/// What [`Parser::parse_alter_type`] yields from the token at `i` on.
#[verifier::opaque]
pub open spec fn alter_type(p: Input, i: int) -> Out<TreeView>
{
    match if_exists(p, i) { Failed(e, i) => Failed(e, i), Got(if_exists, i) => {
    match item_name(p, i) { Failed(e, i) => Failed(e, i), Got(name, i) => {
    match keyword(p, i, Keyword::OWNER) { Failed(e, i) => Failed(e, i), Got(_, i) => {
    match keyword(p, i, Keyword::TO) { Failed(e, i) => Failed(e, i), Got(_, i) => {
    owner_to(p, i, Kind::TypeType, if_exists, name)
    }}}}
    }}
    }}
}

impl Parser {
    /// Parse an ALTER TYPE statement.
    pub fn parse_alter_type(&mut self) -> (r: Result<Tree, Failure>)
        requires
            old(self).ready(),
        ensures
            final(self).follows(*old(self), alter_type(old(self).input(), old(self).index as int), r),
            r is Ok ==> final(self).index > old(self).index,
            r matches Err(e) ==> !(e@ is Unhandled),
    {
        broadcast use group_tree_views;

        proof {
            reveal(alter_type);
        }
        let if_exists = self.parse_if_exists()?;
        let name = self.parse_item_name()?;
        self.expect_keyword(Keyword::OWNER)?;
        self.expect_keyword(Keyword::TO)?;
        self.parse_owner_to(Kind::TypeType, if_exists, name)
    }
}

/// What [`Parser::parse_alter_cluster`] yields from the token at `i` on.
#[verifier::opaque]
pub open spec fn alter_cluster(p: Input, i: int) -> Out<TreeView>
{
    match if_exists(p, i) { Failed(e, i) => Failed(e, i), Got(if_exists, i) => {
    match identifier(p, i) { Failed(e, i) => Failed(e, i), Got(id, i) => {
    match one_keyword(p, i, seq![Keyword::OWNER, Keyword::RENAME]) { Failed(e, i) => Failed(e, i), Got(action, i) => {
    match keyword(p, i, Keyword::TO) { Failed(e, i) => Failed(e, i), Got(_, i) => {
    if action == Keyword::OWNER {
        owner_to(p, i, Kind::ClusterType, if_exists, TreeView::Node(Kind::ClusterName, seq![id]))
    } else {
        rename_to(p, i, Kind::ClusterType, if_exists, TreeView::Node(Kind::ClusterName, seq![id]))
    }
    }}
    }}
    }}
    }}
}

impl Parser {
    /// Parse an ALTER CLUSTER statement.
    pub fn parse_alter_cluster(&mut self) -> (r: Result<Tree, Failure>)
        requires
            old(self).ready(),
        ensures
            final(self).follows(*old(self), alter_cluster(old(self).input(), old(self).index as int), r),
            r is Ok ==> final(self).index > old(self).index,
            r matches Err(e) ==> !(e@ is Unhandled),
    {
        broadcast use group_tree_views;

        proof {
            reveal(alter_cluster);
        }
        let if_exists = self.parse_if_exists()?;
        let id = self.parse_identifier()?;
        let choices: [Keyword; 2] = [Keyword::OWNER, Keyword::RENAME];
        assert(choices@ =~= seq![Keyword::OWNER, Keyword::RENAME]);
        let action = self.expect_one_of_keywords(&choices)?;
        self.expect_keyword(Keyword::TO)?;
        if action == Keyword::OWNER {
            self.parse_owner_to(Kind::ClusterType, if_exists, node(Kind::ClusterName, trees1(id)))
        } else {
            self.parse_rename_to(Kind::ClusterType, if_exists, node(Kind::ClusterName, trees1(id)))
        }
    }
}

/// What [`Parser::parse_alter_cluster_replica`] yields from the token at `i` on.
#[verifier::opaque]
pub open spec fn alter_cluster_replica(p: Input, i: int) -> Out<TreeView>
{
    match if_exists(p, i) { Failed(e, i) => Failed(e, i), Got(if_exists, i) => {
    match cluster_replica_name(p, i) { Failed(e, i) => Failed(e, i), Got(name, i) => {
    match one_keyword(p, i, seq![Keyword::OWNER, Keyword::RENAME]) { Failed(e, i) => Failed(e, i), Got(action, i) => {
    match keyword(p, i, Keyword::TO) { Failed(e, i) => Failed(e, i), Got(_, i) => {
    if action == Keyword::OWNER {
        owner_to(p, i, Kind::ClusterReplicaType, if_exists, TreeView::Node(Kind::ReplicaName, seq![name]))
    } else {
        rename_to(p, i, Kind::ClusterReplicaType, if_exists, TreeView::Node(Kind::ReplicaName, seq![name]))
    }
    }}
    }}
    }}
    }}
}

impl Parser {
    /// Parse an ALTER CLUSTER REPLICA statement.
    pub fn parse_alter_cluster_replica(&mut self) -> (r: Result<Tree, Failure>)
        requires
            old(self).ready(),
        ensures
            final(self).follows(*old(self), alter_cluster_replica(old(self).input(), old(self).index as int), r),
            r is Ok ==> final(self).index > old(self).index,
            r matches Err(e) ==> !(e@ is Unhandled),
    {
        broadcast use group_tree_views;

        proof {
            reveal(alter_cluster_replica);
        }
        let if_exists = self.parse_if_exists()?;
        let name = self.parse_cluster_replica_name()?;
        let choices: [Keyword; 2] = [Keyword::OWNER, Keyword::RENAME];
        assert(choices@ =~= seq![Keyword::OWNER, Keyword::RENAME]);
        let action = self.expect_one_of_keywords(&choices)?;
        self.expect_keyword(Keyword::TO)?;
        if action == Keyword::OWNER {
            self.parse_owner_to(Kind::ClusterReplicaType, if_exists, node(Kind::ReplicaName, trees1(name)))
        } else {
            self.parse_rename_to(Kind::ClusterReplicaType, if_exists, node(Kind::ReplicaName, trees1(name)))
        }
    }
}

/// What [`Parser::parse_alter_database`] yields from the token at `i` on.
#[verifier::opaque]
pub open spec fn alter_database(p: Input, i: int) -> Out<TreeView>
{
    match if_exists(p, i) { Failed(e, i) => Failed(e, i), Got(if_exists, i) => {
    match database_name(p, i) { Failed(e, i) => Failed(e, i), Got(name, i) => {
    match keyword(p, i, Keyword::OWNER) { Failed(e, i) => Failed(e, i), Got(_, i) => {
    match keyword(p, i, Keyword::TO) { Failed(e, i) => Failed(e, i), Got(_, i) => {
    owner_to(p, i, Kind::DatabaseType, if_exists, name)
    }}}}
    }}
    }}
}

impl Parser {
    /// Parse an ALTER DATABASE statement.
    pub fn parse_alter_database(&mut self) -> (r: Result<Tree, Failure>)
        requires
            old(self).ready(),
        ensures
            final(self).follows(*old(self), alter_database(old(self).input(), old(self).index as int), r),
            r is Ok ==> final(self).index > old(self).index,
            r matches Err(e) ==> !(e@ is Unhandled),
    {
        broadcast use group_tree_views;

        proof {
            reveal(alter_database);
        }
        let if_exists = self.parse_if_exists()?;
        let name = self.parse_database_name()?;
        self.expect_keyword(Keyword::OWNER)?;
        self.expect_keyword(Keyword::TO)?;
        self.parse_owner_to(Kind::DatabaseType, if_exists, name)
    }
}

/// What [`Parser::parse_alter_schema`] yields from the token at `i` on.
#[verifier::opaque]
pub open spec fn alter_schema(p: Input, i: int) -> Out<TreeView>
{
    match if_exists(p, i) { Failed(e, i) => Failed(e, i), Got(if_exists, i) => {
    match schema_name(p, i) { Failed(e, i) => Failed(e, i), Got(name, i) => {
    match keyword(p, i, Keyword::OWNER) { Failed(e, i) => Failed(e, i), Got(_, i) => {
    match keyword(p, i, Keyword::TO) { Failed(e, i) => Failed(e, i), Got(_, i) => {
    owner_to(p, i, Kind::SchemaType, if_exists, name)
    }}}}
    }}
    }}
}

impl Parser {
    /// Parse an ALTER SCHEMA statement.
    pub fn parse_alter_schema(&mut self) -> (r: Result<Tree, Failure>)
        requires
            old(self).ready(),
        ensures
            final(self).follows(*old(self), alter_schema(old(self).input(), old(self).index as int), r),
            r is Ok ==> final(self).index > old(self).index,
            r matches Err(e) ==> !(e@ is Unhandled),
    {
        broadcast use group_tree_views;

        proof {
            reveal(alter_schema);
        }
        let if_exists = self.parse_if_exists()?;
        let name = self.parse_schema_name()?;
        self.expect_keyword(Keyword::OWNER)?;
        self.expect_keyword(Keyword::TO)?;
        self.parse_owner_to(Kind::SchemaType, if_exists, name)
    }
}

/// What [`Parser::parse_alter_source`] yields from the token at `i` on.
#[verifier::opaque]
pub open spec fn alter_source(p: Input, i: int) -> Out<TreeView>
{
    match if_exists(p, i) { Failed(e, i) => Failed(e, i), Got(if_exists, i) => {
    match item_name(p, i) { Failed(e, i) => Failed(e, i), Got(name, i) => {
    match one_keyword(p, i, seq![Keyword::RESET, Keyword::SET, Keyword::RENAME, Keyword::OWNER]) { Failed(e, i) => Failed(e, i), Got(k, i) => {
    match k {
        Keyword::RESET => {
            match token(p, i, TokenView::LParen) { Failed(e, i) => Failed(e, i), Got(_, i) => {
            match source_option_name_list(p, i, Seq::<TreeView>::empty()) { Failed(e, i) => Failed(e, i), Got(os, i) => {
            match token(p, i, TokenView::RParen) { Failed(e, i) => Failed(e, i), Got(_, i) => {
            Got(TreeView::Node(Kind::AlterSource, seq![name, TreeView::Flag(if_exists), TreeView::Node(Kind::ResetOptions, seq![TreeView::List(os)])]), i)
            }}
            }}
            }}
        },
        Keyword::SET => {
            match token(p, i, TokenView::LParen) { Failed(e, i) => Failed(e, i), Got(_, i) => {
            match source_option_list(p, i, Seq::<TreeView>::empty()) { Failed(e, i) => Failed(e, i), Got(os, i) => {
            match token(p, i, TokenView::RParen) { Failed(e, i) => Failed(e, i), Got(_, i) => {
            Got(TreeView::Node(Kind::AlterSource, seq![name, TreeView::Flag(if_exists), TreeView::Node(Kind::SetOptions, seq![TreeView::List(os)])]), i)
            }}
            }}
            }}
        },
        Keyword::RENAME => {
            match keyword(p, i, Keyword::TO) { Failed(e, i) => Failed(e, i), Got(_, i) => {
            rename_to(p, i, Kind::SourceType, if_exists, name)
            }}
        },
        _ => {
            match keyword(p, i, Keyword::TO) { Failed(e, i) => Failed(e, i), Got(_, i) => {
            owner_to(p, i, Kind::SourceType, if_exists, name)
            }}
        },
    }
    }}
    }}
    }}
}

impl Parser {
    /// Parse an ALTER SOURCE statement.
    pub fn parse_alter_source(&mut self) -> (r: Result<Tree, Failure>)
        requires
            old(self).ready(),
        ensures
            final(self).follows(*old(self), alter_source(old(self).input(), old(self).index as int), r),
            r is Ok ==> final(self).index > old(self).index,
            r matches Err(e) ==> !(e@ is Unhandled),
    {
        broadcast use group_tree_views;

        proof {
            reveal(alter_source);
        }
        let if_exists = self.parse_if_exists()?;
        let name = self.parse_item_name()?;
        let choices: [Keyword; 4] = [Keyword::RESET, Keyword::SET, Keyword::RENAME, Keyword::OWNER];
        assert(choices@ =~= seq![Keyword::RESET, Keyword::SET, Keyword::RENAME, Keyword::OWNER]);
        let k = self.expect_one_of_keywords(&choices)?;
        match k {
            Keyword::RESET => {
                self.expect_token(&Token::LParen)?;
                let os = self.parse_source_option_name_list(trees0())?;
                self.expect_token(&Token::RParen)?;
                Ok(node(Kind::AlterSource, trees3(name, Tree::Flag(if_exists), node(Kind::ResetOptions, trees1(list(os))))))
            },
            Keyword::SET => {
                self.expect_token(&Token::LParen)?;
                let os = self.parse_source_option_list(trees0())?;
                self.expect_token(&Token::RParen)?;
                Ok(node(Kind::AlterSource, trees3(name, Tree::Flag(if_exists), node(Kind::SetOptions, trees1(list(os))))))
            },
            Keyword::RENAME => {
                self.expect_keyword(Keyword::TO)?;
                self.parse_rename_to(Kind::SourceType, if_exists, name)
            },
            _ => {
                self.expect_keyword(Keyword::TO)?;
                self.parse_owner_to(Kind::SourceType, if_exists, name)
            },
        }
    }
}

/// What [`Parser::parse_alter_index`] yields from the token at `i` on.
#[verifier::opaque]
pub open spec fn alter_index(p: Input, i: int) -> Out<TreeView>
{
    match if_exists(p, i) { Failed(e, i) => Failed(e, i), Got(if_exists, i) => {
    match item_name(p, i) { Failed(e, i) => Failed(e, i), Got(name, i) => {
    match one_keyword(p, i, seq![Keyword::RESET, Keyword::SET, Keyword::RENAME, Keyword::OWNER]) { Failed(e, i) => Failed(e, i), Got(k, i) => {
    match k {
        Keyword::RESET => {
            match token(p, i, TokenView::LParen) { Failed(e, i) => Failed(e, i), Got(_, i) => {
            match index_option_name_list(p, i, Seq::<TreeView>::empty()) { Failed(e, i) => Failed(e, i), Got(os, i) => {
            match token(p, i, TokenView::RParen) { Failed(e, i) => Failed(e, i), Got(_, i) => {
            Got(TreeView::Node(Kind::AlterIndex, seq![name, TreeView::Flag(if_exists), TreeView::Node(Kind::ResetOptions, seq![TreeView::List(os)])]), i)
            }}
            }}
            }}
        },
        Keyword::SET => {
            match token(p, i, TokenView::LParen) { Failed(e, i) => Failed(e, i), Got(_, i) => {
            match index_option_list(p, i, Seq::<TreeView>::empty()) { Failed(e, i) => Failed(e, i), Got(os, i) => {
            match token(p, i, TokenView::RParen) { Failed(e, i) => Failed(e, i), Got(_, i) => {
            Got(TreeView::Node(Kind::AlterIndex, seq![name, TreeView::Flag(if_exists), TreeView::Node(Kind::SetOptions, seq![TreeView::List(os)])]), i)
            }}
            }}
            }}
        },
        Keyword::RENAME => {
            match keyword(p, i, Keyword::TO) { Failed(e, i) => Failed(e, i), Got(_, i) => {
            rename_to(p, i, Kind::IndexType, if_exists, name)
            }}
        },
        _ => {
            match keyword(p, i, Keyword::TO) { Failed(e, i) => Failed(e, i), Got(_, i) => {
            owner_to(p, i, Kind::IndexType, if_exists, name)
            }}
        },
    }
    }}
    }}
    }}
}

impl Parser {
    /// Parse an ALTER INDEX statement.
    pub fn parse_alter_index(&mut self) -> (r: Result<Tree, Failure>)
        requires
            old(self).ready(),
        ensures
            final(self).follows(*old(self), alter_index(old(self).input(), old(self).index as int), r),
            r is Ok ==> final(self).index > old(self).index,
            r matches Err(e) ==> !(e@ is Unhandled),
    {
        broadcast use group_tree_views;

        proof {
            reveal(alter_index);
        }
        let if_exists = self.parse_if_exists()?;
        let name = self.parse_item_name()?;
        let choices: [Keyword; 4] = [Keyword::RESET, Keyword::SET, Keyword::RENAME, Keyword::OWNER];
        assert(choices@ =~= seq![Keyword::RESET, Keyword::SET, Keyword::RENAME, Keyword::OWNER]);
        let k = self.expect_one_of_keywords(&choices)?;
        match k {
            Keyword::RESET => {
                self.expect_token(&Token::LParen)?;
                let os = self.parse_index_option_name_list(trees0())?;
                self.expect_token(&Token::RParen)?;
                Ok(node(Kind::AlterIndex, trees3(name, Tree::Flag(if_exists), node(Kind::ResetOptions, trees1(list(os))))))
            },
            Keyword::SET => {
                self.expect_token(&Token::LParen)?;
                let os = self.parse_index_option_list(trees0())?;
                self.expect_token(&Token::RParen)?;
                Ok(node(Kind::AlterIndex, trees3(name, Tree::Flag(if_exists), node(Kind::SetOptions, trees1(list(os))))))
            },
            Keyword::RENAME => {
                self.expect_keyword(Keyword::TO)?;
                self.parse_rename_to(Kind::IndexType, if_exists, name)
            },
            _ => {
                self.expect_keyword(Keyword::TO)?;
                self.parse_owner_to(Kind::IndexType, if_exists, name)
            },
        }
    }
}

/// What [`Parser::parse_alter_secret`] yields from the token at `i` on.
#[verifier::opaque]
pub open spec fn alter_secret(p: Input, i: int) -> Out<TreeView>
{
    match if_exists(p, i) { Failed(e, i) => Failed(e, i), Got(if_exists, i) => {
    match item_name(p, i) { Failed(e, i) => Failed(e, i), Got(name, i) => {
    match one_keyword(p, i, seq![Keyword::AS, Keyword::RENAME, Keyword::OWNER]) { Failed(e, i) => Failed(e, i), Got(k, i) => {
    match k {
        Keyword::AS => {
            match expr(p, i) { Failed(e, i) => Failed(e, i), Got(v, i) => {
            Got(TreeView::Node(Kind::AlterSecret, seq![name, TreeView::Flag(if_exists), v]), i)
            }}
        },
        Keyword::RENAME => {
            match keyword(p, i, Keyword::TO) { Failed(e, i) => Failed(e, i), Got(_, i) => {
            rename_to(p, i, Kind::SecretType, if_exists, name)
            }}
        },
        _ => {
            match keyword(p, i, Keyword::TO) { Failed(e, i) => Failed(e, i), Got(_, i) => {
            owner_to(p, i, Kind::SecretType, if_exists, name)
            }}
        },
    }
    }}
    }}
    }}
}

impl Parser {
    /// Parse an ALTER SECRET statement.
    pub fn parse_alter_secret(&mut self) -> (r: Result<Tree, Failure>)
        requires
            old(self).ready(),
        ensures
            final(self).follows(*old(self), alter_secret(old(self).input(), old(self).index as int), r),
            r is Ok ==> final(self).index > old(self).index,
            r matches Err(e) ==> !(e@ is Unhandled),
    {
        broadcast use group_tree_views;

        proof {
            reveal(alter_secret);
        }
        let if_exists = self.parse_if_exists()?;
        let name = self.parse_item_name()?;
        let choices: [Keyword; 3] = [Keyword::AS, Keyword::RENAME, Keyword::OWNER];
        assert(choices@ =~= seq![Keyword::AS, Keyword::RENAME, Keyword::OWNER]);
        let k = self.expect_one_of_keywords(&choices)?;
        match k {
            Keyword::AS => {
                let v = self.parse_expr()?;
                Ok(node(Kind::AlterSecret, trees3(name, Tree::Flag(if_exists), v)))
            },
            Keyword::RENAME => {
                self.expect_keyword(Keyword::TO)?;
                self.parse_rename_to(Kind::SecretType, if_exists, name)
            },
            _ => {
                self.expect_keyword(Keyword::TO)?;
                self.parse_owner_to(Kind::SecretType, if_exists, name)
            },
        }
    }
}

/// What [`Parser::parse_alter_sink`] yields from the token at `i` on.
#[verifier::opaque]
pub open spec fn alter_sink(p: Input, i: int) -> Out<TreeView>
{
    match if_exists(p, i) { Failed(e, i) => Failed(e, i), Got(if_exists, i) => {
    match item_name(p, i) { Failed(e, i) => Failed(e, i), Got(name, i) => {
    match one_keyword(p, i, seq![Keyword::RESET, Keyword::SET, Keyword::RENAME, Keyword::OWNER]) { Failed(e, i) => Failed(e, i), Got(k, i) => {
    match k {
        Keyword::RESET => {
            match token(p, i, TokenView::LParen) { Failed(e, i) => Failed(e, i), Got(_, i) => {
            match create_sink_option_name_list(p, i, Seq::<TreeView>::empty()) { Failed(e, i) => Failed(e, i), Got(os, i) => {
            match token(p, i, TokenView::RParen) { Failed(e, i) => Failed(e, i), Got(_, i) => {
            Got(TreeView::Node(Kind::AlterSink, seq![name, TreeView::Flag(if_exists), TreeView::Node(Kind::ResetOptions, seq![TreeView::List(os)])]), i)
            }}
            }}
            }}
        },
        Keyword::SET => {
            match token(p, i, TokenView::LParen) { Failed(e, i) => Failed(e, i), Got(_, i) => {
            match create_sink_option_list(p, i, Seq::<TreeView>::empty()) { Failed(e, i) => Failed(e, i), Got(os, i) => {
            match token(p, i, TokenView::RParen) { Failed(e, i) => Failed(e, i), Got(_, i) => {
            Got(TreeView::Node(Kind::AlterSink, seq![name, TreeView::Flag(if_exists), TreeView::Node(Kind::SetOptions, seq![TreeView::List(os)])]), i)
            }}
            }}
            }}
        },
        Keyword::RENAME => {
            match keyword(p, i, Keyword::TO) { Failed(e, i) => Failed(e, i), Got(_, i) => {
            rename_to(p, i, Kind::SinkType, if_exists, name)
            }}
        },
        _ => {
            match keyword(p, i, Keyword::TO) { Failed(e, i) => Failed(e, i), Got(_, i) => {
            owner_to(p, i, Kind::SinkType, if_exists, name)
            }}
        },
    }
    }}
    }}
    }}
}

impl Parser {
    /// Parse an ALTER SINK statement.
    pub fn parse_alter_sink(&mut self) -> (r: Result<Tree, Failure>)
        requires
            old(self).ready(),
        ensures
            final(self).follows(*old(self), alter_sink(old(self).input(), old(self).index as int), r),
            r is Ok ==> final(self).index > old(self).index,
            r matches Err(e) ==> !(e@ is Unhandled),
    {
        broadcast use group_tree_views;

        proof {
            reveal(alter_sink);
        }
        let if_exists = self.parse_if_exists()?;
        let name = self.parse_item_name()?;
        let choices: [Keyword; 4] = [Keyword::RESET, Keyword::SET, Keyword::RENAME, Keyword::OWNER];
        assert(choices@ =~= seq![Keyword::RESET, Keyword::SET, Keyword::RENAME, Keyword::OWNER]);
        let k = self.expect_one_of_keywords(&choices)?;
        match k {
            Keyword::RESET => {
                self.expect_token(&Token::LParen)?;
                let os = self.parse_create_sink_option_name_list(trees0())?;
                self.expect_token(&Token::RParen)?;
                Ok(node(Kind::AlterSink, trees3(name, Tree::Flag(if_exists), node(Kind::ResetOptions, trees1(list(os))))))
            },
            Keyword::SET => {
                self.expect_token(&Token::LParen)?;
                let os = self.parse_create_sink_option_list(trees0())?;
                self.expect_token(&Token::RParen)?;
                Ok(node(Kind::AlterSink, trees3(name, Tree::Flag(if_exists), node(Kind::SetOptions, trees1(list(os))))))
            },
            Keyword::RENAME => {
                self.expect_keyword(Keyword::TO)?;
                self.parse_rename_to(Kind::SinkType, if_exists, name)
            },
            _ => {
                self.expect_keyword(Keyword::TO)?;
                self.parse_owner_to(Kind::SinkType, if_exists, name)
            },
        }
    }
}

/// What [`Parser::parse_alter_system`] yields from the token at `i` on.
#[verifier::opaque]
pub open spec fn alter_system(p: Input, i: int) -> Out<TreeView>
{
    match one_keyword(p, i, seq![Keyword::SET, Keyword::RESET]) { Failed(e, i) => Failed(e, i), Got(k, i) => {
    match k {
        Keyword::SET => {
            match identifier(p, i) { Failed(e, i) => Failed(e, i), Got(name, i) => {
            match to_or_equals(p, i) { Failed(e, i) => Failed(e, i), Got(_, i) => {
            match set_variable_to(p, i) { Failed(e, i) => Failed(e, i), Got(to, i) => {
            Got(TreeView::Node(Kind::AlterSystemSet, seq![name, to]), i)
            }}
            }}
            }}
        },
        _ => {
            if at_keyword(p, i, Keyword::ALL) {
                let i = i + 1;
                Got(TreeView::Node(Kind::AlterSystemResetAll, Seq::<TreeView>::empty()), i)
            } else {
                match identifier(p, i) { Failed(e, i) => Failed(e, i), Got(name, i) => {
                Got(TreeView::Node(Kind::AlterSystemReset, seq![name]), i)
                }}
            }
        },
    }
    }}
}

impl Parser {
    /// Parse an ALTER SYSTEM statement.
    pub fn parse_alter_system(&mut self) -> (r: Result<Tree, Failure>)
        requires
            old(self).ready(),
        ensures
            final(self).follows(*old(self), alter_system(old(self).input(), old(self).index as int), r),
            r is Ok ==> final(self).index > old(self).index,
            r matches Err(e) ==> !(e@ is Unhandled),
    {
        broadcast use group_tree_views;

        proof {
            reveal(alter_system);
        }
        let choices: [Keyword; 2] = [Keyword::SET, Keyword::RESET];
        assert(choices@ =~= seq![Keyword::SET, Keyword::RESET]);
        let k = self.expect_one_of_keywords(&choices)?;
        match k {
            Keyword::SET => {
                let name = self.parse_identifier()?;
                self.parse_to_or_equals()?;
                let to = self.parse_set_variable_to()?;
                Ok(node(Kind::AlterSystemSet, trees2(name, to)))
            },
            _ => {
                if self.parse_keyword(Keyword::ALL) {
                    Ok(node(Kind::AlterSystemResetAll, trees0()))
                } else {
                    let name = self.parse_identifier()?;
                    Ok(node(Kind::AlterSystemReset, trees1(name)))
                }
            },
        }
    }
}

/// What [`Parser::parse_to_or_equals`] yields from the token at `i` on.
#[verifier::opaque]
pub open spec fn to_or_equals(p: Input, i: int) -> Out<()>
{
    if at_keyword(p, i, Keyword::TO) {
        let i = i + 1;
        Got((), i)
    } else {
        if at_token(p, i, TokenView::Eq) {
            let i = i + 1;
            Got((), i)
        } else {
            Failed(expected_at(p, i, "TO or equals sign"@), i)
        }
    }
}

impl Parser {
    /// Bail out if the current token is neither `TO` nor an equals sign, or consume
    /// it if it is.
    pub fn parse_to_or_equals(&mut self) -> (r: Result<(), Failure>)
        requires
            old(self).ready(),
        ensures
            final(self).follows(*old(self), to_or_equals(old(self).input(), old(self).index as int), r),
            r is Ok ==> final(self).index > old(self).index,
            r matches Err(e) ==> !(e@ is Unhandled),
    {
        broadcast use group_tree_views;

        proof {
            reveal(to_or_equals);
        }
        if self.parse_keyword(Keyword::TO) {
            Ok(())
        } else if self.consume_token(&Token::Eq) {
            Ok(())
        } else {
            Err(self.expected_here("TO or equals sign"))
        }
    }
}

/// What [`Parser::parse_alter_connection`] yields from the token at `i` on.
#[verifier::opaque]
pub open spec fn alter_connection(p: Input, i: int) -> Out<TreeView>
{
    match if_exists(p, i) { Failed(e, i) => Failed(e, i), Got(if_exists, i) => {
    match item_name(p, i) { Failed(e, i) => Failed(e, i), Got(name, i) => {
    match one_keyword(p, i, seq![Keyword::RENAME, Keyword::ROTATE, Keyword::OWNER]) { Failed(e, i) => Failed(e, i), Got(k, i) => {
    match k {
        Keyword::RENAME => {
            match keyword(p, i, Keyword::TO) { Failed(e, i) => Failed(e, i), Got(_, i) => {
            rename_to(p, i, Kind::ConnectionType, if_exists, name)
            }}
        },
        Keyword::ROTATE => {
            match keyword(p, i, Keyword::KEYS) { Failed(e, i) => Failed(e, i), Got(_, i) => {
            Got(TreeView::Node(Kind::AlterConnection, seq![name, TreeView::Flag(if_exists)]), i)
            }}
        },
        _ => {
            match keyword(p, i, Keyword::TO) { Failed(e, i) => Failed(e, i), Got(_, i) => {
            owner_to(p, i, Kind::ConnectionType, if_exists, name)
            }}
        },
    }
    }}
    }}
    }}
}

impl Parser {
    /// Parse an ALTER CONNECTION statement.
    pub fn parse_alter_connection(&mut self) -> (r: Result<Tree, Failure>)
        requires
            old(self).ready(),
        ensures
            final(self).follows(*old(self), alter_connection(old(self).input(), old(self).index as int), r),
            r is Ok ==> final(self).index > old(self).index,
            r matches Err(e) ==> !(e@ is Unhandled),
    {
        broadcast use group_tree_views;

        proof {
            reveal(alter_connection);
        }
        let if_exists = self.parse_if_exists()?;
        let name = self.parse_item_name()?;
        let choices: [Keyword; 3] = [Keyword::RENAME, Keyword::ROTATE, Keyword::OWNER];
        assert(choices@ =~= seq![Keyword::RENAME, Keyword::ROTATE, Keyword::OWNER]);
        let k = self.expect_one_of_keywords(&choices)?;
        match k {
            Keyword::RENAME => {
                self.expect_keyword(Keyword::TO)?;
                self.parse_rename_to(Kind::ConnectionType, if_exists, name)
            },
            Keyword::ROTATE => {
                self.expect_keyword(Keyword::KEYS)?;
                Ok(node(Kind::AlterConnection, trees2(name, Tree::Flag(if_exists))))
            },
            _ => {
                self.expect_keyword(Keyword::TO)?;
                self.parse_owner_to(Kind::ConnectionType, if_exists, name)
            },
        }
    }
}

/// What [`Parser::parse_alter_role`] yields from the token at `i` on.
#[verifier::opaque]
pub open spec fn alter_role(p: Input, i: int) -> Out<TreeView>
{
    match identifier(p, i) { Failed(e, i) => Failed(e, i), Got(name, i) => {
    let i = if at_keyword(p, i, Keyword::WITH) { i + 1 } else { i };
    match role_attributes(p, i, Seq::<TreeView>::empty()) { Failed(e, i) => Failed(e, i), Got(options, i) => {
    Got(TreeView::Node(Kind::AlterRole, seq![name, TreeView::List(options)]), i)
    }}
    }}
}

impl Parser {
    /// Parse an ALTER ROLE statement.
    pub fn parse_alter_role(&mut self) -> (r: Result<Tree, Failure>)
        requires
            old(self).ready(),
        ensures
            final(self).follows(*old(self), alter_role(old(self).input(), old(self).index as int), r),
            r is Ok ==> final(self).index > old(self).index,
            r matches Err(e) ==> !(e@ is Unhandled),
    {
        broadcast use group_tree_views;

        proof {
            reveal(alter_role);
        }
        let name = self.parse_identifier()?;
        let _ = self.parse_keyword(Keyword::WITH);
        let options = self.parse_role_attributes(trees0())?;
        Ok(node(Kind::AlterRole, trees2(name, list(options))))
    }
}

/// What [`Parser::parse_alter_default_privileges`] yields from the token at `i` on.
#[verifier::opaque]
pub open spec fn alter_default_privileges(p: Input, i: int) -> Out<TreeView>
{
    match {
        if at_keyword(p, i, Keyword::FOR) {
            let i = i + 1;
            match skip_role_word(p, i) { Failed(e, i) => Failed(e, i), Got(_, i) => {
            match identifier_list(p, i, Seq::<TreeView>::empty()) { Failed(e, i) => Failed(e, i), Got(roles, i) => {
            Got(TreeView::List(roles), i)
            }}
            }}
        } else {
            Got(TreeView::Absent, i)
        }
    } { Failed(e, i) => Failed(e, i), Got(target_roles, i) => {
    match {
        if at_keyword(p, i, Keyword::IN) {
            let i = i + 1;
            match one_keyword(p, i, seq![Keyword::SCHEMA, Keyword::DATABASE]) { Failed(e, i) => Failed(e, i), Got(k, i) => {
            if k == Keyword::SCHEMA {
                match schema_name_list(p, i, Seq::<TreeView>::empty()) { Failed(e, i) => Failed(e, i), Got(schemas, i) => {
                Got(TreeView::Node(Kind::AllSchemas, seq![TreeView::List(schemas)]), i)
                }}
            } else {
                match database_name_list(p, i, Seq::<TreeView>::empty()) { Failed(e, i) => Failed(e, i), Got(databases, i) => {
                Got(TreeView::Node(Kind::AllDatabases, seq![TreeView::List(databases)]), i)
                }}
            }
            }}
        } else {
            Got(TreeView::Node(Kind::AllObjects, Seq::<TreeView>::empty()), i)
        }
    } { Failed(e, i) => Failed(e, i), Got(target_objects, i) => {
    match one_keyword(p, i, seq![Keyword::GRANT, Keyword::REVOKE]) { Failed(e, i) => Failed(e, i), Got(k, i) => {
    match privilege_specification(p, i) { Failed(e, i) => Failed(e, i), Got(privileges, i) => {
    if privileges is Absent {
        Failed(expected_at(p, i, "ALL or INSERT or SELECT or UPDATE or DELETE or USAGE or CREATE"@), i)
    } else {
        match keyword(p, i, Keyword::ON) { Failed(e, i) => Failed(e, i), Got(_, i) => {
        if k == Keyword::GRANT {
            match grant_revoke_plural_object_type(p, i, "GRANT"@) { Failed(e, i) => Failed(e, i), Got(object_type, i) => {
            match keyword(p, i, Keyword::TO) { Failed(e, i) => Failed(e, i), Got(_, i) => {
            match role_specification_list(p, i, Seq::<TreeView>::empty()) { Failed(e, i) => Failed(e, i), Got(grantees, i) => {
            Got(TreeView::Node(Kind::AlterDefaultPrivileges, seq![target_roles, target_objects, TreeView::Node(Kind::AbbreviatedGrant, seq![privileges, TreeView::Node(object_type, Seq::<TreeView>::empty()), TreeView::List(grantees)])]), i)
            }}
            }}
            }}
        } else {
            match grant_revoke_plural_object_type(p, i, "REVOKE"@) { Failed(e, i) => Failed(e, i), Got(object_type, i) => {
            match keyword(p, i, Keyword::FROM) { Failed(e, i) => Failed(e, i), Got(_, i) => {
            match role_specification_list(p, i, Seq::<TreeView>::empty()) { Failed(e, i) => Failed(e, i), Got(grantees, i) => {
            Got(TreeView::Node(Kind::AlterDefaultPrivileges, seq![target_roles, target_objects, TreeView::Node(Kind::AbbreviatedRevoke, seq![privileges, TreeView::Node(object_type, Seq::<TreeView>::empty()), TreeView::List(grantees)])]), i)
            }}
            }}
            }}
        }
        }}
    }
    }}
    }}
    }}
    }}
}

impl Parser {
    /// Parse an ALTER DEFAULT PRIVILEGES statement.
    #[verifier::rlimit(30)]
    pub fn parse_alter_default_privileges(&mut self) -> (r: Result<Tree, Failure>)
        requires
            old(self).ready(),
        ensures
            final(self).follows(*old(self), alter_default_privileges(old(self).input(), old(self).index as int), r),
            r is Ok ==> final(self).index > old(self).index,
            r matches Err(e) ==> !(e@ is Unhandled),
    {
        broadcast use group_tree_views;

        proof {
            reveal(alter_default_privileges);
        }
        let target_roles = if self.parse_keyword(Keyword::FOR) {
            self.parse_skip_role_word()?;
            let roles = self.parse_identifier_list(trees0())?;
            list(roles)
        } else {
            Tree::Absent
        };
        let target_objects = if self.parse_keyword(Keyword::IN) {
            let choices: [Keyword; 2] = [Keyword::SCHEMA, Keyword::DATABASE];
            assert(choices@ =~= seq![Keyword::SCHEMA, Keyword::DATABASE]);
            let k = self.expect_one_of_keywords(&choices)?;
            if k == Keyword::SCHEMA {
                let schemas = self.parse_schema_name_list(trees0())?;
                node(Kind::AllSchemas, trees1(list(schemas)))
            } else {
                let databases = self.parse_database_name_list(trees0())?;
                node(Kind::AllDatabases, trees1(list(databases)))
            }
        } else {
            node(Kind::AllObjects, trees0())
        };
        let choices: [Keyword; 2] = [Keyword::GRANT, Keyword::REVOKE];
        assert(choices@ =~= seq![Keyword::GRANT, Keyword::REVOKE]);
        let k = self.expect_one_of_keywords(&choices)?;
        let privileges = self.parse_privilege_specification()?;
        if privileges.is_absent() {
            Err(self.expected_here("ALL or INSERT or SELECT or UPDATE or DELETE or USAGE or CREATE"))
        } else {
            self.expect_keyword(Keyword::ON)?;
            if k == Keyword::GRANT {
                let object_type = self.expect_grant_revoke_plural_object_type(String::from_str("GRANT"))?;
                self.expect_keyword(Keyword::TO)?;
                let grantees = self.parse_role_specification_list(trees0())?;
                Ok(node(Kind::AlterDefaultPrivileges, trees3(target_roles, target_objects, node(Kind::AbbreviatedGrant, trees3(privileges, node(object_type, trees0()), list(grantees))))))
            } else {
                let object_type = self.expect_grant_revoke_plural_object_type(String::from_str("REVOKE"))?;
                self.expect_keyword(Keyword::FROM)?;
                let grantees = self.parse_role_specification_list(trees0())?;
                Ok(node(Kind::AlterDefaultPrivileges, trees3(target_roles, target_objects, node(Kind::AbbreviatedRevoke, trees3(privileges, node(object_type, trees0()), list(grantees))))))
            }
        }
    }
}

/// What [`Parser::parse_skip_role_word`] yields from the token at `i` on.
#[verifier::opaque]
pub open spec fn skip_role_word(p: Input, i: int) -> Out<()>
{
    match one_of(p, i, seq![Keyword::ROLE, Keyword::USER]) {
        Some(_) => {
            let i = i + 1;
            Got((), i)
        },
        None => {
            Got((), i)
        },
    }
}

impl Parser {
    /// Parse `ROLE` or `USER`, if it is there.
    pub fn parse_skip_role_word(&mut self) -> (r: Result<(), Failure>)
        requires
            old(self).ready(),
        ensures
            final(self).follows(*old(self), skip_role_word(old(self).input(), old(self).index as int), r),
            r matches Err(e) ==> !(e@ is Unhandled),
    {
        broadcast use group_tree_views;

        proof {
            reveal(skip_role_word);
        }
        let choices: [Keyword; 2] = [Keyword::ROLE, Keyword::USER];
        assert(choices@ =~= seq![Keyword::ROLE, Keyword::USER]);
        match self.parse_one_of_keywords(&choices) {
            Some(_) => {
                Ok(())
            },
            None => {
                Ok(())
            },
        }
    }
}

} // verus!
