//! Privileges: `GRANT`, `REVOKE` and `REASSIGN OWNED`.

use vstd::prelude::*;

use crate::sql_parser::checks::{lives_in_schema, is_schema_item, object_type_text, object_type_name};
use crate::sql_parser::keywords::{Keyword};
use crate::sql_parser::kind::{Kind};
use crate::sql_parser::names::{database_name_list, identifier, identifier_list, object_name, schema_name_list};
use crate::sql_parser::outcome::Out::{Failed, Got};
use crate::sql_parser::outcome::{Out, Failure, error_view, error};
use crate::sql_parser::parser::{Parser, Input, at_keyword, at_token, position, keyword, one_of, one_keyword, onward, past, expected_at};
use crate::sql_parser::show::{plural_object_type};
use crate::sql_parser::syntax::{group_tree_views, Tree, TreeView, Trees, node, list, trees0, trees1, trees2, trees3};
use crate::sql_parser::text::{no_text};
use crate::sql_parser::token::{Token, TokenView};

verus! {

/// What [`Parser::parse_grant`] yields from the token at `i` on.
#[verifier::opaque]
pub open spec fn grant(p: Input, i: int) -> Out<TreeView>
{
    match privilege_specification(p, i) { Failed(e, i) => Failed(e, i), Got(privileges, i) => {
    if privileges is Absent {
        grant_role(p, i)
    } else {
        grant_privilege(p, i, privileges)
    }
    }}
}

impl Parser {
    /// Parse a `GRANT` statement, assuming that the `GRANT` token
    /// has already been consumed.
    pub fn parse_grant(&mut self) -> (r: Result<Tree, Failure>)
        requires
            old(self).ready(),
        ensures
            final(self).follows(*old(self), grant(old(self).input(), old(self).index as int), r),
            r is Ok ==> final(self).index > old(self).index,
            r matches Err(e) ==> !(e@ is Unhandled),
    {
        broadcast use group_tree_views;

        proof {
            reveal(grant);
        }
        let privileges = self.parse_privilege_specification()?;
        if privileges.is_absent() {
            self.parse_grant_role()
        } else {
            self.parse_grant_privilege(privileges)
        }
    }
}

/// What [`Parser::parse_grant_privilege`] yields from the token at `i` on.
#[verifier::opaque]
pub open spec fn grant_privilege(p: Input, i: int, privileges: TreeView) -> Out<TreeView>
{
    match keyword(p, i, Keyword::ON) { Failed(e, i) => Failed(e, i), Got(_, i) => {
    match grant_target_specification(p, i, "GRANT"@) { Failed(e, i) => Failed(e, i), Got(target, i) => {
    match keyword(p, i, Keyword::TO) { Failed(e, i) => Failed(e, i), Got(_, i) => {
    match role_specification_list(p, i, Seq::<TreeView>::empty()) { Failed(e, i) => Failed(e, i), Got(roles, i) => {
    Got(TreeView::Node(Kind::GrantPrivileges, seq![privileges, target, TreeView::List(roles)]), i)
    }}
    }}
    }}
    }}
}

impl Parser {
    /// Parse a `GRANT PRIVILEGE` statement, assuming that the `GRANT` token
    /// and all privileges have already been consumed.
    pub fn parse_grant_privilege(&mut self, privileges: Tree) -> (r: Result<Tree, Failure>)
        requires
            old(self).ready(),
        ensures
            final(self).follows(*old(self), grant_privilege(old(self).input(), old(self).index as int, privileges@), r),
            r is Ok ==> final(self).index > old(self).index,
            r matches Err(e) ==> !(e@ is Unhandled),
    {
        broadcast use group_tree_views;

        proof {
            reveal(grant_privilege);
        }
        self.expect_keyword(Keyword::ON)?;
        let target = self.expect_grant_target_specification(String::from_str("GRANT"))?;
        self.expect_keyword(Keyword::TO)?;
        let roles = self.parse_role_specification_list(trees0())?;
        Ok(node(Kind::GrantPrivileges, trees3(privileges, target, list(roles))))
    }
}

/// What [`Parser::parse_grant_role`] yields from the token at `i` on.
#[verifier::opaque]
pub open spec fn grant_role(p: Input, i: int) -> Out<TreeView>
{
    match identifier(p, i) { Failed(e, i) => Failed(e, i), Got(role_name, i) => {
    match keyword(p, i, Keyword::TO) { Failed(e, i) => Failed(e, i), Got(_, i) => {
    match role_specification_list(p, i, Seq::<TreeView>::empty()) { Failed(e, i) => Failed(e, i), Got(member_names, i) => {
    Got(TreeView::Node(Kind::GrantRole, seq![role_name, TreeView::List(member_names)]), i)
    }}
    }}
    }}
}

impl Parser {
    /// Parse a `GRANT ROLE` statement, assuming that the `GRANT` token
    /// has already been consumed.
    pub fn parse_grant_role(&mut self) -> (r: Result<Tree, Failure>)
        requires
            old(self).ready(),
        ensures
            final(self).follows(*old(self), grant_role(old(self).input(), old(self).index as int), r),
            r is Ok ==> final(self).index > old(self).index,
            r matches Err(e) ==> !(e@ is Unhandled),
    {
        broadcast use group_tree_views;

        proof {
            reveal(grant_role);
        }
        let role_name = self.parse_identifier()?;
        self.expect_keyword(Keyword::TO)?;
        let member_names = self.parse_role_specification_list(trees0())?;
        Ok(node(Kind::GrantRole, trees2(role_name, list(member_names))))
    }
}

/// What [`Parser::parse_revoke`] yields from the token at `i` on.
#[verifier::opaque]
pub open spec fn revoke(p: Input, i: int) -> Out<TreeView>
{
    match privilege_specification(p, i) { Failed(e, i) => Failed(e, i), Got(privileges, i) => {
    if privileges is Absent {
        revoke_role(p, i)
    } else {
        revoke_privilege(p, i, privileges)
    }
    }}
}

impl Parser {
    /// Parse a `REVOKE` statement, assuming that the `REVOKE` token
    /// has already been consumed.
    pub fn parse_revoke(&mut self) -> (r: Result<Tree, Failure>)
        requires
            old(self).ready(),
        ensures
            final(self).follows(*old(self), revoke(old(self).input(), old(self).index as int), r),
            r is Ok ==> final(self).index > old(self).index,
            r matches Err(e) ==> !(e@ is Unhandled),
    {
        broadcast use group_tree_views;

        proof {
            reveal(revoke);
        }
        let privileges = self.parse_privilege_specification()?;
        if privileges.is_absent() {
            self.parse_revoke_role()
        } else {
            self.parse_revoke_privilege(privileges)
        }
    }
}

/// What [`Parser::parse_revoke_privilege`] yields from the token at `i` on.
#[verifier::opaque]
pub open spec fn revoke_privilege(p: Input, i: int, privileges: TreeView) -> Out<TreeView>
{
    match keyword(p, i, Keyword::ON) { Failed(e, i) => Failed(e, i), Got(_, i) => {
    match grant_target_specification(p, i, "REVOKE"@) { Failed(e, i) => Failed(e, i), Got(target, i) => {
    match keyword(p, i, Keyword::FROM) { Failed(e, i) => Failed(e, i), Got(_, i) => {
    match role_specification_list(p, i, Seq::<TreeView>::empty()) { Failed(e, i) => Failed(e, i), Got(roles, i) => {
    Got(TreeView::Node(Kind::RevokePrivileges, seq![privileges, target, TreeView::List(roles)]), i)
    }}
    }}
    }}
    }}
}

impl Parser {
    /// Parse a `REVOKE PRIVILEGE` statement, assuming that the `REVOKE` token
    /// and all privileges have already been consumed.
    pub fn parse_revoke_privilege(&mut self, privileges: Tree) -> (r: Result<Tree, Failure>)
        requires
            old(self).ready(),
        ensures
            final(self).follows(*old(self), revoke_privilege(old(self).input(), old(self).index as int, privileges@), r),
            r is Ok ==> final(self).index > old(self).index,
            r matches Err(e) ==> !(e@ is Unhandled),
    {
        broadcast use group_tree_views;

        proof {
            reveal(revoke_privilege);
        }
        self.expect_keyword(Keyword::ON)?;
        let target = self.expect_grant_target_specification(String::from_str("REVOKE"))?;
        self.expect_keyword(Keyword::FROM)?;
        let roles = self.parse_role_specification_list(trees0())?;
        Ok(node(Kind::RevokePrivileges, trees3(privileges, target, list(roles))))
    }
}

/// What [`Parser::parse_revoke_role`] yields from the token at `i` on.
#[verifier::opaque]
pub open spec fn revoke_role(p: Input, i: int) -> Out<TreeView>
{
    match identifier(p, i) { Failed(e, i) => Failed(e, i), Got(role_name, i) => {
    match keyword(p, i, Keyword::FROM) { Failed(e, i) => Failed(e, i), Got(_, i) => {
    match role_specification_list(p, i, Seq::<TreeView>::empty()) { Failed(e, i) => Failed(e, i), Got(member_names, i) => {
    Got(TreeView::Node(Kind::RevokeRole, seq![role_name, TreeView::List(member_names)]), i)
    }}
    }}
    }}
}

impl Parser {
    /// Parse a `REVOKE ROLE` statement, assuming that the `REVOKE` token
    /// has already been consumed.
    pub fn parse_revoke_role(&mut self) -> (r: Result<Tree, Failure>)
        requires
            old(self).ready(),
        ensures
            final(self).follows(*old(self), revoke_role(old(self).input(), old(self).index as int), r),
            r is Ok ==> final(self).index > old(self).index,
            r matches Err(e) ==> !(e@ is Unhandled),
    {
        broadcast use group_tree_views;

        proof {
            reveal(revoke_role);
        }
        let role_name = self.parse_identifier()?;
        self.expect_keyword(Keyword::FROM)?;
        let member_names = self.parse_role_specification_list(trees0())?;
        Ok(node(Kind::RevokeRole, trees2(role_name, list(member_names))))
    }
}

/// What [`Parser::expect_grant_target_specification`] yields from the token at `i` on.
#[verifier::opaque]
pub open spec fn grant_target_specification(p: Input, i: int, statement_type: Seq<char>) -> Out<TreeView>
{
    if at_keyword(p, i, Keyword::ALL) {
        let i = i + 1;
        match grant_revoke_plural_object_type(p, i, statement_type) { Failed(e, i) => Failed(e, i), Got(object_type, i) => {
        let named = TreeView::Node(object_type, Seq::<TreeView>::empty());
        if at_keyword(p, i, Keyword::IN) {
            let i = i + 1;
            if !lives_in_schema(object_type) && object_type != Kind::SchemaType {
                Failed(error_view(position(p, i - 1), no_text() + "IN invalid for "@ + object_type_text(object_type) + "S"@), i)
            } else {
                match one_keyword(p, i, seq![Keyword::DATABASE, Keyword::SCHEMA]) { Failed(e, i) => Failed(e, i), Got(k, i) => {
                if k == Keyword::DATABASE {
                    match database_name_list(p, i, Seq::<TreeView>::empty()) { Failed(e, i) => Failed(e, i), Got(databases, i) => {
                    Got(TreeView::Node(Kind::GrantTarget, seq![named, TreeView::Node(Kind::AllDatabases, seq![TreeView::List(databases)])]), i)
                    }}
                } else {
                    if object_type == Kind::SchemaType {
                        let i = i - 1;
                        Failed(expected_at(p, i, "DATABASE"@), i)
                    } else {
                        match schema_name_list(p, i, Seq::<TreeView>::empty()) { Failed(e, i) => Failed(e, i), Got(schemas, i) => {
                        Got(TreeView::Node(Kind::GrantTarget, seq![named, TreeView::Node(Kind::AllSchemas, seq![TreeView::List(schemas)])]), i)
                        }}
                    }
                }
                }}
            }
        } else {
            Got(TreeView::Node(Kind::GrantTarget, seq![named, TreeView::Node(Kind::AllObjects, Seq::<TreeView>::empty())]), i)
        }
        }}
    } else {
        match grant_revoke_object_type(p, i, statement_type) { Failed(e, i) => Failed(e, i), Got(object_type, i) => {
        match object_names(p, i, object_type, Seq::<TreeView>::empty()) { Failed(e, i) => Failed(e, i), Got(names, i) => {
        Got(TreeView::Node(Kind::GrantTarget, seq![TreeView::Node(object_type, Seq::<TreeView>::empty()), TreeView::Node(Kind::GrantObjects, seq![TreeView::List(names)])]), i)
        }}
        }}
    }
}

impl Parser {
    /// Parse what privileges are granted on or revoked from.
    pub fn expect_grant_target_specification(&mut self, statement_type: String) -> (r: Result<Tree, Failure>)
        requires
            old(self).ready(),
        ensures
            final(self).follows(*old(self), grant_target_specification(old(self).input(), old(self).index as int, statement_type@), r),
            r is Ok ==> final(self).index > old(self).index,
            r matches Err(e) ==> !(e@ is Unhandled),
    {
        broadcast use group_tree_views;

        proof {
            reveal(grant_target_specification);
        }
        if self.parse_keyword(Keyword::ALL) {
            let object_type = self.expect_grant_revoke_plural_object_type(statement_type)?;
            let named = node(object_type, trees0());
            if self.parse_keyword(Keyword::IN) {
                if !is_schema_item(object_type) && object_type != Kind::SchemaType {
                    let pos: usize = self.peek_prev_pos();
                    Err(error(pos, String::new().concat("IN invalid for ").concat(object_type_name(object_type).as_str()).concat("S")))
                } else {
                    let choices: [Keyword; 2] = [Keyword::DATABASE, Keyword::SCHEMA];
                    assert(choices@ =~= seq![Keyword::DATABASE, Keyword::SCHEMA]);
                    let k = self.expect_one_of_keywords(&choices)?;
                    if k == Keyword::DATABASE {
                        let databases = self.parse_database_name_list(trees0())?;
                        Ok(node(Kind::GrantTarget, trees2(named, node(Kind::AllDatabases, trees1(list(databases))))))
                    } else if object_type == Kind::SchemaType {
                        self.prev_token();
                        Err(self.expected_here("DATABASE"))
                    } else {
                        let schemas = self.parse_schema_name_list(trees0())?;
                        Ok(node(Kind::GrantTarget, trees2(named, node(Kind::AllSchemas, trees1(list(schemas))))))
                    }
                }
            } else {
                Ok(node(Kind::GrantTarget, trees2(named, node(Kind::AllObjects, trees0()))))
            }
        } else {
            let object_type = self.expect_grant_revoke_object_type(statement_type)?;
            let names = self.parse_object_names(object_type, trees0())?;
            Ok(node(Kind::GrantTarget, trees2(node(object_type, trees0()), node(Kind::GrantObjects, trees1(list(names))))))
        }
    }
}

/// What [`Parser::parse_object_names`] yields from the token at `i` on.
#[verifier::opaque]
pub open spec fn object_names(p: Input, i: int, object_type: Kind, names: Seq<TreeView>) -> Out<Seq<TreeView>>
    decreases p.toks.len() - i, 0int,
{
    match past(p, i, object_name(p, i, object_type)) { Failed(e, i) => Failed(e, i), Got(name, i) => {
    if at_token(p, i, TokenView::Comma) {
        let i = i + 1;
        object_names(p, i, object_type, names.push(name))
    } else {
        Got(names.push(name), i)
    }
    }}
}

impl Parser {
    /// Parse one or more names of objects of the given type, separated by commas,
    /// after those in `names`.
    pub fn parse_object_names(&mut self, mut object_type: Kind, mut names: Trees) -> (r: Result<Trees, Failure>)
        requires
            old(self).ready(),
        ensures
            final(self).follows(*old(self), object_names(old(self).input(), old(self).index as int, object_type, names@), r),
            r is Ok ==> final(self).index > old(self).index,
            r matches Err(e) ==> !(e@ is Unhandled),
        decreases old(self).tokens.len() - old(self).index, 0int,
    {
        broadcast use group_tree_views;

        proof {
            reveal(object_names);
        }
        let ghost before = *self;
        let ghost goal = object_names(self.input(), self.index as int, object_type, names@);
        #[verifier::loop_isolation(false)]
        loop
            invariant
                self.ready(),
                self.input() == before.input(),
                self.tokens.len() == before.tokens.len(),
                before.index <= self.index,
                before == *old(self),
                object_names(self.input(), self.index as int, object_type, names@) == goal,
            decreases self.tokens.len() - self.index,
        {
            proof {
                reveal(object_names);
            }
            let name = self.parse_object_name(object_type)?;
            if self.consume_token(&Token::Comma) {
                names = names.with(name);
                continue;
            } else {
                return Ok(names.with(name));
            }
        }
    }
}

/// What [`Parser::expect_grant_revoke_object_type`] yields from the token at `i` on.
#[verifier::opaque]
pub open spec fn grant_revoke_object_type(p: Input, i: int, statement_type: Seq<char>) -> Out<Kind>
{
    match object_type(p, i) { Failed(e, i) => Failed(e, i), Got(object_type, i) => {
    if object_type == Kind::NoType {
        Got(Kind::TableType, i)
    } else {
        grant_revoke_object_type_inner(p, i, statement_type, object_type)
    }
    }}
}

impl Parser {
    /// Bail out if the current token is not an object type suitable for a GRANT/REVOKE, or consume
    /// and return it if it is. If the object type is omitted, then it is assumed to be a table.
    pub fn expect_grant_revoke_object_type(&mut self, statement_type: String) -> (r: Result<Kind, Failure>)
        requires
            old(self).ready(),
        ensures
            final(self).follows(*old(self), grant_revoke_object_type(old(self).input(), old(self).index as int, statement_type@), r),
            r matches Err(e) ==> !(e@ is Unhandled),
    {
        broadcast use group_tree_views;

        proof {
            reveal(grant_revoke_object_type);
        }
        let object_type = self.parse_object_type()?;
        if object_type == Kind::NoType {
            Ok(Kind::TableType)
        } else {
            self.expect_grant_revoke_object_type_inner(statement_type, object_type)
        }
    }
}

/// What [`Parser::expect_grant_revoke_plural_object_type`] yields from the token at `i` on.
#[verifier::opaque]
pub open spec fn grant_revoke_plural_object_type(p: Input, i: int, statement_type: Seq<char>) -> Out<Kind>
{
    match plural_object_type(p, i) { Failed(e, i) => Failed(e, i), Got(object_type, i) => {
    if object_type == Kind::NoType {
        Failed(expected_at(p, i, "one of TABLES or TYPES or SECRETS or CONNECTIONS or SCHEMAS or DATABASES or CLUSTERS"@), i)
    } else {
        grant_revoke_object_type_inner(p, i, statement_type, object_type)
    }
    }}
}

impl Parser {
    /// Bail out if the current token is not a plural object type suitable for a GRANT/REVOKE, or consume
    /// and return it if it is.
    pub fn expect_grant_revoke_plural_object_type(&mut self, statement_type: String) -> (r: Result<Kind, Failure>)
        requires
            old(self).ready(),
        ensures
            final(self).follows(*old(self), grant_revoke_plural_object_type(old(self).input(), old(self).index as int, statement_type@), r),
            r matches Err(e) ==> !(e@ is Unhandled),
    {
        broadcast use group_tree_views;

        proof {
            reveal(grant_revoke_plural_object_type);
        }
        let object_type = self.parse_plural_object_type()?;
        if object_type == Kind::NoType {
            Err(self.expected_here("one of TABLES or TYPES or SECRETS or CONNECTIONS or SCHEMAS or DATABASES or CLUSTERS"))
        } else {
            self.expect_grant_revoke_object_type_inner(statement_type, object_type)
        }
    }
}

/// What [`Parser::expect_grant_revoke_object_type_inner`] yields from the token at `i` on.
#[verifier::opaque]
pub open spec fn grant_revoke_object_type_inner(p: Input, i: int, statement_type: Seq<char>, object_type: Kind) -> Out<Kind>
{
    match object_type {
        Kind::ViewType | Kind::MaterializedViewType | Kind::SourceType => {
            Failed(error_view(position(p, i - 1), no_text() + "For object type "@ + object_type_text(object_type) + ", you must specify 'TABLE' or omit the object type"@), i)
        },
        Kind::SinkType | Kind::IndexType | Kind::ClusterReplicaType | Kind::RoleType | Kind::FuncType => {
            Failed(error_view(position(p, i - 1), no_text() + "Unsupported "@ + statement_type + " on "@ + object_type_text(object_type)), i)
        },
        _ => {
            Got(object_type, i)
        },
    }
}

impl Parser {
    /// Bail out if privileges on objects of the given type cannot be granted or
    /// revoked.
    pub fn expect_grant_revoke_object_type_inner(&mut self, statement_type: String, object_type: Kind) -> (r: Result<Kind, Failure>)
        requires
            old(self).ready(),
        ensures
            final(self).follows(*old(self), grant_revoke_object_type_inner(old(self).input(), old(self).index as int, statement_type@, object_type), r),
            r matches Err(e) ==> !(e@ is Unhandled),
    {
        broadcast use group_tree_views;

        proof {
            reveal(grant_revoke_object_type_inner);
        }
        match object_type {
            Kind::ViewType | Kind::MaterializedViewType | Kind::SourceType => {
                let pos: usize = self.peek_prev_pos();
                Err(error(pos, String::new().concat("For object type ").concat(object_type_name(object_type).as_str()).concat(", you must specify 'TABLE' or omit the object type")))
            },
            Kind::SinkType | Kind::IndexType | Kind::ClusterReplicaType | Kind::RoleType | Kind::FuncType => {
                let pos: usize = self.peek_prev_pos();
                Err(error(pos, String::new().concat("Unsupported ").concat(statement_type.as_str()).concat(" on ").concat(object_type_name(object_type).as_str())))
            },
            _ => {
                Ok(object_type)
            },
        }
    }
}

/// What [`Parser::parse_object_type`] yields from the token at `i` on.
#[verifier::opaque]
pub open spec fn object_type(p: Input, i: int) -> Out<Kind>
{
    match one_of(p, i, seq![Keyword::TABLE, Keyword::VIEW, Keyword::MATERIALIZED, Keyword::SOURCE, Keyword::SINK, Keyword::INDEX, Keyword::TYPE, Keyword::ROLE, Keyword::USER, Keyword::CLUSTER, Keyword::SECRET, Keyword::CONNECTION, Keyword::DATABASE, Keyword::SCHEMA, Keyword::FUNCTION]) {
        Some(k) => {
            let i = i + 1;
            match k {
                Keyword::TABLE => {
                    Got(Kind::TableType, i)
                },
                Keyword::VIEW => {
                    Got(Kind::ViewType, i)
                },
                Keyword::MATERIALIZED => {
                    if at_keyword(p, i, Keyword::VIEW) {
                        let i = i + 1;
                        Got(Kind::MaterializedViewType, i)
                    } else {
                        let i = i - 1;
                        Got(Kind::NoType, i)
                    }
                },
                Keyword::SOURCE => {
                    Got(Kind::SourceType, i)
                },
                Keyword::SINK => {
                    Got(Kind::SinkType, i)
                },
                Keyword::INDEX => {
                    Got(Kind::IndexType, i)
                },
                Keyword::TYPE => {
                    Got(Kind::TypeType, i)
                },
                Keyword::ROLE | Keyword::USER => {
                    Got(Kind::RoleType, i)
                },
                Keyword::CLUSTER => {
                    if at_keyword(p, i, Keyword::REPLICA) {
                        let i = i + 1;
                        Got(Kind::ClusterReplicaType, i)
                    } else {
                        Got(Kind::ClusterType, i)
                    }
                },
                Keyword::SECRET => {
                    Got(Kind::SecretType, i)
                },
                Keyword::CONNECTION => {
                    Got(Kind::ConnectionType, i)
                },
                Keyword::DATABASE => {
                    Got(Kind::DatabaseType, i)
                },
                Keyword::SCHEMA => {
                    Got(Kind::SchemaType, i)
                },
                _ => {
                    Got(Kind::FuncType, i)
                },
            }
        },
        None => {
            Got(Kind::NoType, i)
        },
    }
}

impl Parser {
    /// Look for an object type and return it if it matches.
    #[verifier::rlimit(60)]
    pub fn parse_object_type(&mut self) -> (r: Result<Kind, Failure>)
        requires
            old(self).ready(),
        ensures
            final(self).follows(*old(self), object_type(old(self).input(), old(self).index as int), r),
            r matches Err(e) ==> !(e@ is Unhandled),
    {
        broadcast use group_tree_views;

        proof {
            reveal(object_type);
        }
        let choices: [Keyword; 15] = [Keyword::TABLE, Keyword::VIEW, Keyword::MATERIALIZED, Keyword::SOURCE, Keyword::SINK, Keyword::INDEX, Keyword::TYPE, Keyword::ROLE, Keyword::USER, Keyword::CLUSTER, Keyword::SECRET, Keyword::CONNECTION, Keyword::DATABASE, Keyword::SCHEMA, Keyword::FUNCTION];
        assert(choices@ =~= seq![Keyword::TABLE, Keyword::VIEW, Keyword::MATERIALIZED, Keyword::SOURCE, Keyword::SINK, Keyword::INDEX, Keyword::TYPE, Keyword::ROLE, Keyword::USER, Keyword::CLUSTER, Keyword::SECRET, Keyword::CONNECTION, Keyword::DATABASE, Keyword::SCHEMA, Keyword::FUNCTION]);
        match self.parse_one_of_keywords(&choices) {
            Some(k) => {
                match k {
                    Keyword::TABLE => {
                        Ok(Kind::TableType)
                    },
                    Keyword::VIEW => {
                        Ok(Kind::ViewType)
                    },
                    Keyword::MATERIALIZED => {
                        if self.parse_keyword(Keyword::VIEW) {
                            Ok(Kind::MaterializedViewType)
                        } else {
                            self.prev_token();
                            Ok(Kind::NoType)
                        }
                    },
                    Keyword::SOURCE => {
                        Ok(Kind::SourceType)
                    },
                    Keyword::SINK => {
                        Ok(Kind::SinkType)
                    },
                    Keyword::INDEX => {
                        Ok(Kind::IndexType)
                    },
                    Keyword::TYPE => {
                        Ok(Kind::TypeType)
                    },
                    Keyword::ROLE | Keyword::USER => {
                        Ok(Kind::RoleType)
                    },
                    Keyword::CLUSTER => {
                        if self.parse_keyword(Keyword::REPLICA) {
                            Ok(Kind::ClusterReplicaType)
                        } else {
                            Ok(Kind::ClusterType)
                        }
                    },
                    Keyword::SECRET => {
                        Ok(Kind::SecretType)
                    },
                    Keyword::CONNECTION => {
                        Ok(Kind::ConnectionType)
                    },
                    Keyword::DATABASE => {
                        Ok(Kind::DatabaseType)
                    },
                    Keyword::SCHEMA => {
                        Ok(Kind::SchemaType)
                    },
                    _ => {
                        Ok(Kind::FuncType)
                    },
                }
            },
            None => {
                Ok(Kind::NoType)
            },
        }
    }
}

/// What [`Parser::parse_privilege_specification`] yields from the token at `i` on.
#[verifier::opaque]
pub open spec fn privilege_specification(p: Input, i: int) -> Out<TreeView>
{
    if at_keyword(p, i, Keyword::ALL) {
        let i = i + 1;
        let i = if at_keyword(p, i, Keyword::PRIVILEGES) { i + 1 } else { i };
        Got(TreeView::Node(Kind::AllPrivileges, Seq::<TreeView>::empty()), i)
    } else {
        match privileges(p, i, Seq::<TreeView>::empty()) { Failed(e, i) => Failed(e, i), Got(ps, i) => {
        if ps.len() == 0 {
            Got(TreeView::Absent, i)
        } else {
            Got(TreeView::Node(Kind::Privileges, seq![TreeView::List(ps)]), i)
        }
        }}
    }
}

impl Parser {
    /// Parse one or more privileges separated by a ',', or `ALL`, if there are any.
    pub fn parse_privilege_specification(&mut self) -> (r: Result<Tree, Failure>)
        requires
            old(self).ready(),
        ensures
            final(self).follows(*old(self), privilege_specification(old(self).input(), old(self).index as int), r),
            r matches Err(e) ==> !(e@ is Unhandled),
    {
        broadcast use group_tree_views;

        proof {
            reveal(privilege_specification);
        }
        if self.parse_keyword(Keyword::ALL) {
            let _ = self.parse_keyword(Keyword::PRIVILEGES);
            Ok(node(Kind::AllPrivileges, trees0()))
        } else {
            let ps = self.parse_privileges(trees0())?;
            if ps.len() == 0 {
                Ok(Tree::Absent)
            } else {
                Ok(node(Kind::Privileges, trees1(list(ps))))
            }
        }
    }
}

/// What [`Parser::parse_privileges`] yields from the token at `i` on.
#[verifier::opaque]
pub open spec fn privileges(p: Input, i: int, ps: Seq<TreeView>) -> Out<Seq<TreeView>>
    decreases p.toks.len() - i, 0int,
{
    match one_of(p, i, seq![Keyword::INSERT, Keyword::SELECT, Keyword::UPDATE, Keyword::DELETE, Keyword::USAGE, Keyword::CREATE]) {
        Some(k) => {
            let i = i + 1;
            match onward(p, i, {
                match k {
                    Keyword::INSERT => {
                        Got(TreeView::Node(Kind::InsertPrivilege, Seq::<TreeView>::empty()), i)
                    },
                    Keyword::SELECT => {
                        Got(TreeView::Node(Kind::SelectPrivilege, Seq::<TreeView>::empty()), i)
                    },
                    Keyword::UPDATE => {
                        Got(TreeView::Node(Kind::UpdatePrivilege, Seq::<TreeView>::empty()), i)
                    },
                    Keyword::DELETE => {
                        Got(TreeView::Node(Kind::DeletePrivilege, Seq::<TreeView>::empty()), i)
                    },
                    Keyword::USAGE => {
                        Got(TreeView::Node(Kind::UsagePrivilege, Seq::<TreeView>::empty()), i)
                    },
                    _ => {
                        Got(TreeView::Node(Kind::CreatePrivilege, Seq::<TreeView>::empty()), i)
                    },
                }
            }) { Failed(e, i) => Failed(e, i), Got(privilege, i) => {
            if at_token(p, i, TokenView::Comma) {
                let i = i + 1;
                privileges(p, i, ps.push(privilege))
            } else {
                Got(ps.push(privilege), i)
            }
            }}
        },
        None => {
            Got(ps, i)
        },
    }
}

impl Parser {
    /// Parse the privileges that follow those in `ps`.
    pub fn parse_privileges(&mut self, mut ps: Trees) -> (r: Result<Trees, Failure>)
        requires
            old(self).ready(),
        ensures
            final(self).follows(*old(self), privileges(old(self).input(), old(self).index as int, ps@), r),
            r matches Err(e) ==> !(e@ is Unhandled),
        decreases old(self).tokens.len() - old(self).index, 0int,
    {
        broadcast use group_tree_views;

        proof {
            reveal(privileges);
        }
        let ghost before = *self;
        let ghost goal = privileges(self.input(), self.index as int, ps@);
        #[verifier::loop_isolation(false)]
        loop
            invariant
                self.ready(),
                self.input() == before.input(),
                self.tokens.len() == before.tokens.len(),
                before.index <= self.index,
                before == *old(self),
                privileges(self.input(), self.index as int, ps@) == goal,
            decreases self.tokens.len() - self.index,
        {
            proof {
                reveal(privileges);
            }
            let choices: [Keyword; 6] = [Keyword::INSERT, Keyword::SELECT, Keyword::UPDATE, Keyword::DELETE, Keyword::USAGE, Keyword::CREATE];
            assert(choices@ =~= seq![Keyword::INSERT, Keyword::SELECT, Keyword::UPDATE, Keyword::DELETE, Keyword::USAGE, Keyword::CREATE]);
            match self.parse_one_of_keywords(&choices) {
                Some(k) => {
                    let privilege = match k {
                        Keyword::INSERT => {
                            node(Kind::InsertPrivilege, trees0())
                        },
                        Keyword::SELECT => {
                            node(Kind::SelectPrivilege, trees0())
                        },
                        Keyword::UPDATE => {
                            node(Kind::UpdatePrivilege, trees0())
                        },
                        Keyword::DELETE => {
                            node(Kind::DeletePrivilege, trees0())
                        },
                        Keyword::USAGE => {
                            node(Kind::UsagePrivilege, trees0())
                        },
                        _ => {
                            node(Kind::CreatePrivilege, trees0())
                        },
                    };
                    if self.consume_token(&Token::Comma) {
                        ps = ps.with(privilege);
                        continue;
                    } else {
                        return Ok(ps.with(privilege));
                    }
                },
                None => {
                    return Ok(ps);
                },
            }
        }
    }
}

/// What [`Parser::expect_role_specification`] yields from the token at `i` on.
#[verifier::opaque]
pub open spec fn role_specification(p: Input, i: int) -> Out<TreeView>
{
    let i = if at_keyword(p, i, Keyword::GROUP) { i + 1 } else { i };
    identifier(p, i)
}

impl Parser {
    /// Bail out if the current token is not a role specification, or consume and return it if it is.
    pub fn expect_role_specification(&mut self) -> (r: Result<Tree, Failure>)
        requires
            old(self).ready(),
        ensures
            final(self).follows(*old(self), role_specification(old(self).input(), old(self).index as int), r),
            r is Ok ==> final(self).index > old(self).index,
            r matches Err(e) ==> !(e@ is Unhandled),
    {
        broadcast use group_tree_views;

        proof {
            reveal(role_specification);
        }
        let _ = self.parse_keyword(Keyword::GROUP);
        self.parse_identifier()
    }
}

/// What [`Parser::parse_role_specification_list`] yields from the token at `i` on.
#[verifier::opaque]
pub open spec fn role_specification_list(p: Input, i: int, items: Seq<TreeView>) -> Out<Seq<TreeView>>
    decreases p.toks.len() - i, 0int,
{
    match past(p, i, role_specification(p, i)) { Failed(e, i) => Failed(e, i), Got(item, i) => {
    if at_token(p, i, TokenView::Comma) {
        let i = i + 1;
        role_specification_list(p, i, items.push(item))
    } else {
        Got(items.push(item), i)
    }
    }}
}

impl Parser {
    /// Parses one or more `role_specification`, separated by commas, after those in `items`.
    pub fn parse_role_specification_list(&mut self, mut items: Trees) -> (r: Result<Trees, Failure>)
        requires
            old(self).ready(),
        ensures
            final(self).follows(*old(self), role_specification_list(old(self).input(), old(self).index as int, items@), r),
            r is Ok ==> final(self).index > old(self).index,
            r matches Ok(all) ==> all@.len() > items@.len(),
            r matches Err(e) ==> !(e@ is Unhandled),
        decreases old(self).tokens.len() - old(self).index, 0int,
    {
        broadcast use group_tree_views;

        proof {
            reveal(role_specification_list);
        }
        let ghost before = *self;
        let ghost given = items@.len();
        let ghost goal = role_specification_list(self.input(), self.index as int, items@);
        #[verifier::loop_isolation(false)]
        loop
            invariant
                self.ready(),
                self.input() == before.input(),
                self.tokens.len() == before.tokens.len(),
                before.index <= self.index,
                before == *old(self),
                given <= items@.len(),
                role_specification_list(self.input(), self.index as int, items@) == goal,
            decreases self.tokens.len() - self.index,
        {
            proof {
                reveal(role_specification_list);
            }
            let item = self.expect_role_specification()?;
            if self.consume_token(&Token::Comma) {
                items = items.with(item);
                continue;
            } else {
                return Ok(items.with(item));
            }
        }
    }
}

/// What [`Parser::parse_reassign_owned`] yields from the token at `i` on.
#[verifier::opaque]
pub open spec fn reassign_owned(p: Input, i: int) -> Out<TreeView>
{
    match keyword(p, i, Keyword::OWNED) { Failed(e, i) => Failed(e, i), Got(_, i) => {
    match keyword(p, i, Keyword::BY) { Failed(e, i) => Failed(e, i), Got(_, i) => {
    match identifier_list(p, i, Seq::<TreeView>::empty()) { Failed(e, i) => Failed(e, i), Got(old_roles, i) => {
    match keyword(p, i, Keyword::TO) { Failed(e, i) => Failed(e, i), Got(_, i) => {
    match identifier(p, i) { Failed(e, i) => Failed(e, i), Got(new_role, i) => {
    Got(TreeView::Node(Kind::ReassignOwned, seq![TreeView::List(old_roles), new_role]), i)
    }}
    }}
    }}
    }}}}
}

impl Parser {
    /// Parse a `REASSIGN OWNED` statement, assuming that the `REASSIGN` token
    /// has already been consumed.
    pub fn parse_reassign_owned(&mut self) -> (r: Result<Tree, Failure>)
        requires
            old(self).ready(),
        ensures
            final(self).follows(*old(self), reassign_owned(old(self).input(), old(self).index as int), r),
            r is Ok ==> final(self).index > old(self).index,
            r matches Err(e) ==> !(e@ is Unhandled),
    {
        broadcast use group_tree_views;

        proof {
            reveal(reassign_owned);
        }
        self.expect_keyword(Keyword::OWNED)?;
        self.expect_keyword(Keyword::BY)?;
        let old_roles = self.parse_identifier_list(trees0())?;
        self.expect_keyword(Keyword::TO)?;
        let new_role = self.parse_identifier()?;
        Ok(node(Kind::ReassignOwned, trees2(list(old_roles), new_role)))
    }
}

} // verus!
