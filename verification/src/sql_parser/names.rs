//! Identifiers, names, literals and data types.

use vstd::prelude::*;

use crate::sql_parser::checks::{is_node, alias_reserved, is_alias_reserved, token_debug, float_bits, float_precision};
use crate::sql_parser::expr::{expr, function, interval_value};
use crate::sql_parser::keywords::{Keyword, keyword_text, keyword_ident};
use crate::sql_parser::kind::{Kind};
use crate::sql_parser::number::{parse_int, parse_uint, parse_int_text, parse_uint_text};
use crate::sql_parser::outcome::Out::{Failed, Got};
use crate::sql_parser::outcome::{Out, Failure, FailureView, error_view, error};
use crate::sql_parser::parser::{Parser, Input, at_keyword, at_token, token_at, position, keyword, token, onward, past, expected_at};
use crate::sql_parser::query::{query};
use crate::sql_parser::syntax::{group_tree_views, Tree, TreeView, Trees, node, list, trees0, trees1, trees2, trees3};
use crate::sql_parser::text::{text_eq, no_text};
use crate::sql_parser::token::{Token, TokenView};

verus! {

/// What [`Parser::parse_identifier`] yields from the token at `i` on.
#[verifier::opaque]
pub open spec fn identifier(p: Input, i: int) -> Out<TreeView>
{
    match token_at(p, i) {
        Some(TokenView::Keyword(k)) => {
            let i = i + 1;
            Got(TreeView::Text(keyword_ident(k)), i)
        },
        Some(TokenView::Ident(s)) => {
            let i = i + 1;
            if s.len() == 0 {
                Failed(error_view(position(p, i - 1), no_text() + "zero-length delimited identifier"@), i)
            } else {
                Got(TreeView::Text(s), i)
            }
        },
        _ => {
            Failed(expected_at(p, i, "identifier"@), i)
        },
    }
}

impl Parser {
    /// Parse a simple one-word identifier (possibly quoted, possibly a keyword).
    pub fn parse_identifier(&mut self) -> (r: Result<Tree, Failure>)
        requires
            old(self).ready(),
        ensures
            final(self).follows(*old(self), identifier(old(self).input(), old(self).index as int), r),
            r is Ok ==> final(self).index > old(self).index,
            r matches Err(e) ==> !(e@ is Unhandled),
    {
        broadcast use group_tree_views;

        proof {
            reveal(identifier);
        }
        match self.peek_token() {
            Some(Token::Keyword(k)) => {
                let _ = self.next_token();
                Ok(Tree::Text(k.into_ident()))
            },
            Some(Token::Ident(s)) => {
                let _ = self.next_token();
                if s.as_str().is_empty() {
                    let pos: usize = self.peek_prev_pos();
                    Err(error(pos, String::new().concat("zero-length delimited identifier")))
                } else {
                    Ok(Tree::Text(s))
                }
            },
            _ => {
                Err(self.expected_here("identifier"))
            },
        }
    }
}

/// What [`Parser::parse_identifier_list`] yields from the token at `i` on.
#[verifier::opaque]
pub open spec fn identifier_list(p: Input, i: int, items: Seq<TreeView>) -> Out<Seq<TreeView>>
    decreases p.toks.len() - i, 0int,
{
    match past(p, i, identifier(p, i)) { Failed(e, i) => Failed(e, i), Got(item, i) => {
    if at_token(p, i, TokenView::Comma) {
        let i = i + 1;
        identifier_list(p, i, items.push(item))
    } else {
        Got(items.push(item), i)
    }
    }}
}

impl Parser {
    /// Parses one or more `identifier`, separated by commas, after those in `items`.
    pub fn parse_identifier_list(&mut self, mut items: Trees) -> (r: Result<Trees, Failure>)
        requires
            old(self).ready(),
        ensures
            final(self).follows(*old(self), identifier_list(old(self).input(), old(self).index as int, items@), r),
            r is Ok ==> final(self).index > old(self).index,
            r matches Ok(all) ==> all@.len() > items@.len(),
            r matches Err(e) ==> !(e@ is Unhandled),
        decreases old(self).tokens.len() - old(self).index, 0int,
    {
        broadcast use group_tree_views;

        proof {
            reveal(identifier_list);
        }
        let ghost before = *self;
        let ghost given = items@.len();
        let ghost goal = identifier_list(self.input(), self.index as int, items@);
        #[verifier::loop_isolation(false)]
        loop
            invariant
                self.ready(),
                self.input() == before.input(),
                self.tokens.len() == before.tokens.len(),
                before.index <= self.index,
                before == *old(self),
                given <= items@.len(),
                identifier_list(self.input(), self.index as int, items@) == goal,
            decreases self.tokens.len() - self.index,
        {
            proof {
                reveal(identifier_list);
            }
            let item = self.parse_identifier()?;
            if self.consume_token(&Token::Comma) {
                items = items.with(item);
                continue;
            } else {
                return Ok(items.with(item));
            }
        }
    }
}

/// What [`Parser::parse_identifiers`] yields from the token at `i` on.
#[verifier::opaque]
pub open spec fn identifiers(p: Input, i: int, idents: Seq<TreeView>) -> Out<Seq<TreeView>>
    decreases p.toks.len() - i, 0int,
{
    match past(p, i, identifier(p, i)) { Failed(e, i) => Failed(e, i), Got(id, i) => {
    if at_token(p, i, TokenView::Dot) {
        let i = i + 1;
        identifiers(p, i, idents.push(id))
    } else {
        Got(idents.push(id), i)
    }
    }}
}

impl Parser {
    /// Parse one or more simple one-word identifiers separated by a '.', after those
    /// in `idents`.
    pub fn parse_identifiers(&mut self, mut idents: Trees) -> (r: Result<Trees, Failure>)
        requires
            old(self).ready(),
        ensures
            final(self).follows(*old(self), identifiers(old(self).input(), old(self).index as int, idents@), r),
            r is Ok ==> final(self).index > old(self).index,
            r matches Err(e) ==> !(e@ is Unhandled),
        decreases old(self).tokens.len() - old(self).index, 0int,
    {
        broadcast use group_tree_views;

        proof {
            reveal(identifiers);
        }
        let ghost before = *self;
        let ghost goal = identifiers(self.input(), self.index as int, idents@);
        #[verifier::loop_isolation(false)]
        loop
            invariant
                self.ready(),
                self.input() == before.input(),
                self.tokens.len() == before.tokens.len(),
                before.index <= self.index,
                before == *old(self),
                identifiers(self.input(), self.index as int, idents@) == goal,
            decreases self.tokens.len() - self.index,
        {
            proof {
                reveal(identifiers);
            }
            let id = self.parse_identifier()?;
            if self.consume_token(&Token::Dot) {
                idents = idents.with(id);
                continue;
            } else {
                return Ok(idents.with(id));
            }
        }
    }
}

/// What [`Parser::parse_database_name`] yields from the token at `i` on.
#[verifier::opaque]
pub open spec fn database_name(p: Input, i: int) -> Out<TreeView>
{
    match identifier(p, i) { Failed(e, i) => Failed(e, i), Got(id, i) => {
    Got(TreeView::Node(Kind::DatabaseName, seq![id]), i)
    }}
}

impl Parser {
    /// Parse a possibly quoted database identifier, e.g.
    /// `foo` or `"mydatabase"`.
    pub fn parse_database_name(&mut self) -> (r: Result<Tree, Failure>)
        requires
            old(self).ready(),
        ensures
            final(self).follows(*old(self), database_name(old(self).input(), old(self).index as int), r),
            r is Ok ==> final(self).index > old(self).index,
            r matches Err(e) ==> !(e@ is Unhandled),
    {
        broadcast use group_tree_views;

        proof {
            reveal(database_name);
        }
        let id = self.parse_identifier()?;
        Ok(node(Kind::DatabaseName, trees1(id)))
    }
}

/// What [`Parser::parse_database_name_list`] yields from the token at `i` on.
#[verifier::opaque]
pub open spec fn database_name_list(p: Input, i: int, items: Seq<TreeView>) -> Out<Seq<TreeView>>
    decreases p.toks.len() - i, 0int,
{
    match past(p, i, database_name(p, i)) { Failed(e, i) => Failed(e, i), Got(item, i) => {
    if at_token(p, i, TokenView::Comma) {
        let i = i + 1;
        database_name_list(p, i, items.push(item))
    } else {
        Got(items.push(item), i)
    }
    }}
}

impl Parser {
    /// Parses one or more `database_name`, separated by commas, after those in `items`.
    pub fn parse_database_name_list(&mut self, mut items: Trees) -> (r: Result<Trees, Failure>)
        requires
            old(self).ready(),
        ensures
            final(self).follows(*old(self), database_name_list(old(self).input(), old(self).index as int, items@), r),
            r is Ok ==> final(self).index > old(self).index,
            r matches Ok(all) ==> all@.len() > items@.len(),
            r matches Err(e) ==> !(e@ is Unhandled),
        decreases old(self).tokens.len() - old(self).index, 0int,
    {
        broadcast use group_tree_views;

        proof {
            reveal(database_name_list);
        }
        let ghost before = *self;
        let ghost given = items@.len();
        let ghost goal = database_name_list(self.input(), self.index as int, items@);
        #[verifier::loop_isolation(false)]
        loop
            invariant
                self.ready(),
                self.input() == before.input(),
                self.tokens.len() == before.tokens.len(),
                before.index <= self.index,
                before == *old(self),
                given <= items@.len(),
                database_name_list(self.input(), self.index as int, items@) == goal,
            decreases self.tokens.len() - self.index,
        {
            proof {
                reveal(database_name_list);
            }
            let item = self.parse_database_name()?;
            if self.consume_token(&Token::Comma) {
                items = items.with(item);
                continue;
            } else {
                return Ok(items.with(item));
            }
        }
    }
}

/// What [`Parser::parse_schema_name`] yields from the token at `i` on.
#[verifier::opaque]
pub open spec fn schema_name(p: Input, i: int) -> Out<TreeView>
{
    match identifiers(p, i, Seq::<TreeView>::empty()) { Failed(e, i) => Failed(e, i), Got(ids, i) => {
    Got(TreeView::Node(Kind::SchemaName, seq![TreeView::List(ids)]), i)
    }}
}

impl Parser {
    /// Parse a possibly qualified, possibly quoted schema identifier, e.g.
    /// `foo` or `mydatabase."schema"`.
    pub fn parse_schema_name(&mut self) -> (r: Result<Tree, Failure>)
        requires
            old(self).ready(),
        ensures
            final(self).follows(*old(self), schema_name(old(self).input(), old(self).index as int), r),
            r is Ok ==> final(self).index > old(self).index,
            r matches Err(e) ==> !(e@ is Unhandled),
    {
        broadcast use group_tree_views;

        proof {
            reveal(schema_name);
        }
        let ids = self.parse_identifiers(trees0())?;
        Ok(node(Kind::SchemaName, trees1(list(ids))))
    }
}

/// What [`Parser::parse_schema_name_list`] yields from the token at `i` on.
#[verifier::opaque]
pub open spec fn schema_name_list(p: Input, i: int, items: Seq<TreeView>) -> Out<Seq<TreeView>>
    decreases p.toks.len() - i, 0int,
{
    match past(p, i, schema_name(p, i)) { Failed(e, i) => Failed(e, i), Got(item, i) => {
    if at_token(p, i, TokenView::Comma) {
        let i = i + 1;
        schema_name_list(p, i, items.push(item))
    } else {
        Got(items.push(item), i)
    }
    }}
}

impl Parser {
    /// Parses one or more `schema_name`, separated by commas, after those in `items`.
    pub fn parse_schema_name_list(&mut self, mut items: Trees) -> (r: Result<Trees, Failure>)
        requires
            old(self).ready(),
        ensures
            final(self).follows(*old(self), schema_name_list(old(self).input(), old(self).index as int, items@), r),
            r is Ok ==> final(self).index > old(self).index,
            r matches Ok(all) ==> all@.len() > items@.len(),
            r matches Err(e) ==> !(e@ is Unhandled),
        decreases old(self).tokens.len() - old(self).index, 0int,
    {
        broadcast use group_tree_views;

        proof {
            reveal(schema_name_list);
        }
        let ghost before = *self;
        let ghost given = items@.len();
        let ghost goal = schema_name_list(self.input(), self.index as int, items@);
        #[verifier::loop_isolation(false)]
        loop
            invariant
                self.ready(),
                self.input() == before.input(),
                self.tokens.len() == before.tokens.len(),
                before.index <= self.index,
                before == *old(self),
                given <= items@.len(),
                schema_name_list(self.input(), self.index as int, items@) == goal,
            decreases self.tokens.len() - self.index,
        {
            proof {
                reveal(schema_name_list);
            }
            let item = self.parse_schema_name()?;
            if self.consume_token(&Token::Comma) {
                items = items.with(item);
                continue;
            } else {
                return Ok(items.with(item));
            }
        }
    }
}

/// What [`Parser::parse_item_name`] yields from the token at `i` on.
#[verifier::opaque]
pub open spec fn item_name(p: Input, i: int) -> Out<TreeView>
{
    match identifiers(p, i, Seq::<TreeView>::empty()) { Failed(e, i) => Failed(e, i), Got(ids, i) => {
    Got(TreeView::Node(Kind::ItemName, seq![TreeView::List(ids)]), i)
    }}
}

impl Parser {
    /// Parse a possibly qualified, possibly quoted object identifier, e.g.
    /// `foo` or `myschema."table"`.
    pub fn parse_item_name(&mut self) -> (r: Result<Tree, Failure>)
        requires
            old(self).ready(),
        ensures
            final(self).follows(*old(self), item_name(old(self).input(), old(self).index as int), r),
            r is Ok ==> final(self).index > old(self).index,
            r matches Err(e) ==> !(e@ is Unhandled),
    {
        broadcast use group_tree_views;

        proof {
            reveal(item_name);
        }
        let ids = self.parse_identifiers(trees0())?;
        Ok(node(Kind::ItemName, trees1(list(ids))))
    }
}

/// What [`Parser::parse_item_name_list`] yields from the token at `i` on.
#[verifier::opaque]
pub open spec fn item_name_list(p: Input, i: int, items: Seq<TreeView>) -> Out<Seq<TreeView>>
    decreases p.toks.len() - i, 0int,
{
    match past(p, i, item_name(p, i)) { Failed(e, i) => Failed(e, i), Got(item, i) => {
    if at_token(p, i, TokenView::Comma) {
        let i = i + 1;
        item_name_list(p, i, items.push(item))
    } else {
        Got(items.push(item), i)
    }
    }}
}

impl Parser {
    /// Parses one or more `item_name`, separated by commas, after those in `items`.
    pub fn parse_item_name_list(&mut self, mut items: Trees) -> (r: Result<Trees, Failure>)
        requires
            old(self).ready(),
        ensures
            final(self).follows(*old(self), item_name_list(old(self).input(), old(self).index as int, items@), r),
            r is Ok ==> final(self).index > old(self).index,
            r matches Ok(all) ==> all@.len() > items@.len(),
            r matches Err(e) ==> !(e@ is Unhandled),
        decreases old(self).tokens.len() - old(self).index, 0int,
    {
        broadcast use group_tree_views;

        proof {
            reveal(item_name_list);
        }
        let ghost before = *self;
        let ghost given = items@.len();
        let ghost goal = item_name_list(self.input(), self.index as int, items@);
        #[verifier::loop_isolation(false)]
        loop
            invariant
                self.ready(),
                self.input() == before.input(),
                self.tokens.len() == before.tokens.len(),
                before.index <= self.index,
                before == *old(self),
                given <= items@.len(),
                item_name_list(self.input(), self.index as int, items@) == goal,
            decreases self.tokens.len() - self.index,
        {
            proof {
                reveal(item_name_list);
            }
            let item = self.parse_item_name()?;
            if self.consume_token(&Token::Comma) {
                items = items.with(item);
                continue;
            } else {
                return Ok(items.with(item));
            }
        }
    }
}

/// What [`Parser::parse_cluster_replica_name`] yields from the token at `i` on.
#[verifier::opaque]
pub open spec fn cluster_replica_name(p: Input, i: int) -> Out<TreeView>
{
    match identifier(p, i) { Failed(e, i) => Failed(e, i), Got(cluster, i) => {
    match token(p, i, TokenView::Dot) { Failed(e, i) => Failed(e, i), Got(_, i) => {
    match identifier(p, i) { Failed(e, i) => Failed(e, i), Got(replica, i) => {
    Got(TreeView::Node(Kind::QualifiedReplica, seq![cluster, replica]), i)
    }}
    }}
    }}
}

impl Parser {
    /// Parse the name of a cluster replica, e.g. `cluster.replica`.
    pub fn parse_cluster_replica_name(&mut self) -> (r: Result<Tree, Failure>)
        requires
            old(self).ready(),
        ensures
            final(self).follows(*old(self), cluster_replica_name(old(self).input(), old(self).index as int), r),
            r is Ok ==> final(self).index > old(self).index,
            r matches Err(e) ==> !(e@ is Unhandled),
    {
        broadcast use group_tree_views;

        proof {
            reveal(cluster_replica_name);
        }
        let cluster = self.parse_identifier()?;
        self.expect_token(&Token::Dot)?;
        let replica = self.parse_identifier()?;
        Ok(node(Kind::QualifiedReplica, trees2(cluster, replica)))
    }
}

/// What [`Parser::parse_raw_name`] yields from the token at `i` on.
#[verifier::opaque]
pub open spec fn raw_name(p: Input, i: int) -> Out<TreeView>
{
    if at_token(p, i, TokenView::LBracket) {
        let i = i + 1;
        match {
            let found = token_at(p, i);
            let i = i + 1;
            match found {
                Some(TokenView::Ident(s)) => {
                    Got(s, i)
                },
                _ => {
                    Failed(error_view(position(p, i - 1), no_text() + "expected id"@), i)
                },
            }
        } { Failed(e, i) => Failed(e, i), Got(id, i) => {
        match keyword(p, i, Keyword::AS) { Failed(e, i) => Failed(e, i), Got(_, i) => {
        match identifiers(p, i, Seq::<TreeView>::empty()) { Failed(e, i) => Failed(e, i), Got(ids, i) => {
        if ids.len() < 2 {
            Failed(error_view(position(p, i - 1), no_text() + "table name in square brackets must be fully qualified"@), i)
        } else {
            match token(p, i, TokenView::RBracket) { Failed(e, i) => Failed(e, i), Got(_, i) => {
            Got(TreeView::Node(Kind::IdName, seq![TreeView::Text(id), TreeView::Node(Kind::ItemName, seq![TreeView::List(ids)])]), i)
            }}
        }
        }}
        }}
        }}
    } else {
        item_name(p, i)
    }
}

impl Parser {
    /// Parse an item name, or an item's id with its name as in `[u1 AS db.schema.item]`.
    pub fn parse_raw_name(&mut self) -> (r: Result<Tree, Failure>)
        requires
            old(self).ready(),
        ensures
            final(self).follows(*old(self), raw_name(old(self).input(), old(self).index as int), r),
            r is Ok ==> final(self).index > old(self).index,
            r matches Err(e) ==> !(e@ is Unhandled),
    {
        broadcast use group_tree_views;

        proof {
            reveal(raw_name);
        }
        if self.consume_token(&Token::LBracket) {
            let id = match self.next_token() {
                Some(Token::Ident(s)) => {
                    s
                },
                _ => {
                    let pos: usize = self.peek_prev_pos();
                    return Err(error(pos, String::new().concat("expected id")));
                },
            };
            self.expect_keyword(Keyword::AS)?;
            let ids = self.parse_identifiers(trees0())?;
            if ids.len() < 2 {
                let pos: usize = self.peek_prev_pos();
                Err(error(pos, String::new().concat("table name in square brackets must be fully qualified")))
            } else {
                self.expect_token(&Token::RBracket)?;
                Ok(node(Kind::IdName, trees2(Tree::Text(id), node(Kind::ItemName, trees1(list(ids))))))
            }
        } else {
            self.parse_item_name()
        }
    }
}

/// What [`Parser::parse_deferred_item_name`] yields from the token at `i` on.
#[verifier::opaque]
pub open spec fn deferred_item_name(p: Input, i: int) -> Out<TreeView>
{
    match raw_name(p, i) { Failed(e, i) => Failed(e, i), Got(name, i) => {
    if is_node(name, Kind::IdName) {
        Got(TreeView::Node(Kind::NamedItem, seq![name]), i)
    } else {
        Got(TreeView::Node(Kind::DeferredItem, seq![name]), i)
    }
    }}
}

impl Parser {
    /// Parse an item name that is to be looked up later, or an item's id with its name.
    pub fn parse_deferred_item_name(&mut self) -> (r: Result<Tree, Failure>)
        requires
            old(self).ready(),
        ensures
            final(self).follows(*old(self), deferred_item_name(old(self).input(), old(self).index as int), r),
            r is Ok ==> final(self).index > old(self).index,
            r matches Err(e) ==> !(e@ is Unhandled),
    {
        broadcast use group_tree_views;

        proof {
            reveal(deferred_item_name);
        }
        let name = self.parse_raw_name()?;
        if name.is_node(Kind::IdName) {
            Ok(node(Kind::NamedItem, trees1(name)))
        } else {
            Ok(node(Kind::DeferredItem, trees1(name)))
        }
    }
}

/// What [`Parser::parse_object_name`] yields from the token at `i` on.
#[verifier::opaque]
pub open spec fn object_name(p: Input, i: int, object_type: Kind) -> Out<TreeView>
{
    match object_type {
        Kind::RoleType => {
            match identifier(p, i) { Failed(e, i) => Failed(e, i), Got(id, i) => {
            Got(TreeView::Node(Kind::RoleName, seq![id]), i)
            }}
        },
        Kind::ClusterType => {
            match identifier(p, i) { Failed(e, i) => Failed(e, i), Got(id, i) => {
            Got(TreeView::Node(Kind::ClusterName, seq![id]), i)
            }}
        },
        Kind::ClusterReplicaType => {
            match cluster_replica_name(p, i) { Failed(e, i) => Failed(e, i), Got(name, i) => {
            Got(TreeView::Node(Kind::ReplicaName, seq![name]), i)
            }}
        },
        Kind::DatabaseType => {
            database_name(p, i)
        },
        Kind::SchemaType => {
            schema_name(p, i)
        },
        _ => {
            item_name(p, i)
        },
    }
}

impl Parser {
    /// Parse an object name.
    pub fn parse_object_name(&mut self, object_type: Kind) -> (r: Result<Tree, Failure>)
        requires
            old(self).ready(),
        ensures
            final(self).follows(*old(self), object_name(old(self).input(), old(self).index as int, object_type), r),
            r is Ok ==> final(self).index > old(self).index,
            r matches Err(e) ==> !(e@ is Unhandled),
    {
        broadcast use group_tree_views;

        proof {
            reveal(object_name);
        }
        match object_type {
            Kind::RoleType => {
                let id = self.parse_identifier()?;
                Ok(node(Kind::RoleName, trees1(id)))
            },
            Kind::ClusterType => {
                let id = self.parse_identifier()?;
                Ok(node(Kind::ClusterName, trees1(id)))
            },
            Kind::ClusterReplicaType => {
                let name = self.parse_cluster_replica_name()?;
                Ok(node(Kind::ReplicaName, trees1(name)))
            },
            Kind::DatabaseType => {
                self.parse_database_name()
            },
            Kind::SchemaType => {
                self.parse_schema_name()
            },
            _ => {
                self.parse_item_name()
            },
        }
    }
}

/// What [`Parser::parse_qualified_identifier`] yields from the token at `i` on.
#[verifier::opaque]
pub open spec fn qualified_identifier(p: Input, i: int, id: TreeView) -> Out<TreeView>
    decreases p.toks.len() - i, 2int,
{
    if at_token(p, i, TokenView::LParen) || at_token(p, i, TokenView::Dot) {
        identifier_parts(p, i, seq![id])
    } else {
        Got(TreeView::Node(Kind::Identifier, seq![TreeView::List(seq![id])]), i)
    }
}

impl Parser {
    /// Parse an identifier that may be qualified, may end in a `*`, or may be the
    /// name of a function that is called; its first word `id` is consumed.
    pub fn parse_qualified_identifier(&mut self, id: Tree) -> (r: Result<Tree, Failure>)
        requires
            old(self).ready(),
        ensures
            final(self).follows(*old(self), qualified_identifier(old(self).input(), old(self).index as int, id@), r),
            r matches Err(e) ==> !(e@ is Unhandled),
        decreases old(self).tokens.len() - old(self).index, 2int,
    {
        broadcast use group_tree_views;

        proof {
            reveal(qualified_identifier);
            reveal(identifier_parts);
        }
        if self.peek_is(&Token::LParen) || self.peek_is(&Token::Dot) {
            self.parse_identifier_parts(trees1(id))
        } else {
            Ok(node(Kind::Identifier, trees1(list(trees1(id)))))
        }
    }
}

/// What [`Parser::parse_identifier_parts`] yields from the token at `i` on.
#[verifier::opaque]
pub open spec fn identifier_parts(p: Input, i: int, parts: Seq<TreeView>) -> Out<TreeView>
    decreases p.toks.len() - i, 1int,
{
    if at_token(p, i, TokenView::Dot) {
        let i = i + 1;
        let found = token_at(p, i);
        let i = i + 1;
        match found {
            Some(TokenView::Keyword(k)) => {
                identifier_parts(p, i, parts.push(TreeView::Text(keyword_ident(k))))
            },
            Some(TokenView::Ident(s)) => {
                identifier_parts(p, i, parts.push(TreeView::Text(s)))
            },
            Some(TokenView::Star) => {
                Got(TreeView::Node(Kind::QualifiedWildcard, seq![TreeView::List(parts)]), i)
            },
            _ => {
                Failed(expected_at(p, i - 1, "an identifier or a '*' after '.'"@), i)
            },
        }
    } else {
        if at_token(p, i, TokenView::LParen) {
            function(p, i, TreeView::Node(Kind::ItemName, seq![TreeView::List(parts)]))
        } else {
            Got(TreeView::Node(Kind::Identifier, seq![TreeView::List(parts)]), i)
        }
    }
}

impl Parser {
    /// Parse the words that follow those in `parts`.
    pub fn parse_identifier_parts(&mut self, mut parts: Trees) -> (r: Result<Tree, Failure>)
        requires
            old(self).ready(),
        ensures
            final(self).follows(*old(self), identifier_parts(old(self).input(), old(self).index as int, parts@), r),
            r matches Err(e) ==> !(e@ is Unhandled),
        decreases old(self).tokens.len() - old(self).index, 1int,
    {
        broadcast use group_tree_views;

        proof {
            reveal(identifier_parts);
            reveal(function);
        }
        let ghost before = *self;
        let ghost goal = identifier_parts(self.input(), self.index as int, parts@);
        #[verifier::loop_isolation(false)]
        loop
            invariant
                self.ready(),
                self.input() == before.input(),
                self.tokens.len() == before.tokens.len(),
                before.index <= self.index,
                before == *old(self),
                identifier_parts(self.input(), self.index as int, parts@) == goal,
            decreases self.tokens.len() - self.index,
        {
            proof {
                reveal(identifier_parts);
                reveal(function);
            }
            if self.consume_token(&Token::Dot) {
                match self.next_token() {
                    Some(Token::Keyword(k)) => {
                        parts = parts.with(Tree::Text(k.into_ident()));
                        continue;
                    },
                    Some(Token::Ident(s)) => {
                        parts = parts.with(Tree::Text(s));
                        continue;
                    },
                    Some(Token::Star) => {
                        return Ok(node(Kind::QualifiedWildcard, trees1(list(parts))));
                    },
                    _ => {
                        return Err(self.expected_prev("an identifier or a '*' after '.'"));
                    },
                }
            } else if self.peek_is(&Token::LParen) {
                return self.parse_function(node(Kind::ItemName, trees1(list(parts))));
            } else {
                return Ok(node(Kind::Identifier, trees1(list(parts))));
            }
        }
    }
}

/// What [`Parser::parse_parenthesized_column_list`] yields from the token at `i` on.
#[verifier::opaque]
pub open spec fn parenthesized_column_list(p: Input, i: int, optional: bool) -> Out<TreeView>
{
    if at_token(p, i, TokenView::LParen) {
        let i = i + 1;
        match identifier_list(p, i, Seq::<TreeView>::empty()) { Failed(e, i) => Failed(e, i), Got(cols, i) => {
        match token(p, i, TokenView::RParen) { Failed(e, i) => Failed(e, i), Got(_, i) => {
        Got(TreeView::List(cols), i)
        }}
        }}
    } else {
        if optional {
            Got(TreeView::List(Seq::<TreeView>::empty()), i)
        } else {
            Failed(expected_at(p, i, "a list of columns in parentheses"@), i)
        }
    }
}

impl Parser {
    /// Parse a parenthesized comma-separated list of unqualified, possibly quoted
    /// identifiers.
    pub fn parse_parenthesized_column_list(&mut self, optional: bool) -> (r: Result<Tree, Failure>)
        requires
            old(self).ready(),
        ensures
            final(self).follows(*old(self), parenthesized_column_list(old(self).input(), old(self).index as int, optional), r),
            r matches Err(e) ==> !(e@ is Unhandled),
    {
        broadcast use group_tree_views;

        proof {
            reveal(parenthesized_column_list);
        }
        if self.consume_token(&Token::LParen) {
            let cols = self.parse_identifier_list(trees0())?;
            self.expect_token(&Token::RParen)?;
            Ok(list(cols))
        } else if optional {
            Ok(list(trees0()))
        } else {
            Err(self.expected_here("a list of columns in parentheses"))
        }
    }
}

/// What [`Parser::parse_optional_precision`] yields from the token at `i` on.
#[verifier::opaque]
pub open spec fn optional_precision(p: Input, i: int) -> Out<TreeView>
{
    if at_token(p, i, TokenView::LParen) {
        let i = i + 1;
        match literal_uint(p, i) { Failed(e, i) => Failed(e, i), Got(n, i) => {
        match token(p, i, TokenView::RParen) { Failed(e, i) => Failed(e, i), Got(_, i) => {
        Got(TreeView::Num(n), i)
        }}
        }}
    } else {
        Got(TreeView::Absent, i)
    }
}

impl Parser {
    /// Parse a precision in parentheses, if there is one.
    pub fn parse_optional_precision(&mut self) -> (r: Result<Tree, Failure>)
        requires
            old(self).ready(),
        ensures
            final(self).follows(*old(self), optional_precision(old(self).input(), old(self).index as int), r),
            r matches Err(e) ==> !(e@ is Unhandled),
    {
        broadcast use group_tree_views;

        proof {
            reveal(optional_precision);
        }
        if self.consume_token(&Token::LParen) {
            let n = self.parse_literal_uint()?;
            self.expect_token(&Token::RParen)?;
            Ok(Tree::Num(n))
        } else {
            Ok(Tree::Absent)
        }
    }
}

/// What [`Parser::parse_optional_alias`] yields from the token at `i` on.
#[verifier::opaque]
pub open spec fn optional_alias(p: Input, i: int, table: bool) -> Out<TreeView>
{
    let after_as = at_keyword(p, i, Keyword::AS);
    let i = if after_as { i + 1 } else { i };
    let found = token_at(p, i);
    let i = i + 1;
    match found {
        Some(TokenView::Keyword(Keyword::OF)) => {
            if i < 2 {
                Failed(FailureView::Unhandled, i)
            } else {
                let i = i - 1;
                let i = i - 1;
                Got(TreeView::Absent, i)
            }
        },
        Some(TokenView::Keyword(k)) => {
            if after_as || !alias_reserved(table, k) {
                Got(TreeView::Text(keyword_ident(k)), i)
            } else {
                if after_as {
                    Failed(expected_at(p, i - 1, "an identifier after AS"@), i)
                } else {
                    let i = i - 1;
                    Got(TreeView::Absent, i)
                }
            }
        },
        Some(TokenView::Ident(s)) => {
            Got(TreeView::Text(s), i)
        },
        _ => {
            if after_as {
                Failed(expected_at(p, i - 1, "an identifier after AS"@), i)
            } else {
                let i = i - 1;
                Got(TreeView::Absent, i)
            }
        },
    }
}

impl Parser {
    /// Parse `AS identifier` (or simply `identifier` if it's not a reserved keyword).
    /// Some examples with aliases: `SELECT 1 foo`, `SELECT COUNT(*) AS cnt`,
    /// `SELECT ... FROM t1 foo, t2 bar`, `SELECT ... FROM (...) AS bar`.
    ///
    /// `AS OF` is not accepted, which is reserved for providing timestamp
    /// information to queries. At an `OF`, the parser steps back over the word before
    /// it.
    pub fn parse_optional_alias(&mut self, table: bool) -> (r: Result<Tree, Failure>)
        requires
            old(self).ready(),
            old(self).index > 0,
        ensures
            final(self).retreats(*old(self), optional_alias(old(self).input(), old(self).index as int, table), r),
            r matches Err(e) ==> !(e@ is Unhandled),
    {
        broadcast use group_tree_views;

        proof {
            reveal(optional_alias);
        }
        let after_as = self.parse_keyword(Keyword::AS);
        match self.next_token() {
            Some(Token::Keyword(Keyword::OF)) => {
                if self.index < 2 {
                    Err(Failure::Unhandled)
                } else {
                    self.prev_token();
                    self.prev_token();
                    Ok(Tree::Absent)
                }
            },
            Some(Token::Keyword(k)) => {
                if after_as || !is_alias_reserved(table, k) {
                    Ok(Tree::Text(k.into_ident()))
                } else if after_as {
                    Err(self.expected_prev("an identifier after AS"))
                } else {
                    self.prev_token();
                    Ok(Tree::Absent)
                }
            },
            Some(Token::Ident(s)) => {
                Ok(Tree::Text(s))
            },
            _ => {
                if after_as {
                    Err(self.expected_prev("an identifier after AS"))
                } else {
                    self.prev_token();
                    Ok(Tree::Absent)
                }
            },
        }
    }
}

/// What [`Parser::parse_optional_table_alias`] yields from the token at `i` on.
#[verifier::opaque]
pub open spec fn optional_table_alias(p: Input, i: int) -> Out<TreeView>
{
    match optional_alias(p, i, true) { Failed(e, i) => Failed(e, i), Got(name, i) => {
    if name is Absent {
        Got(TreeView::Absent, i)
    } else {
        match parenthesized_column_list(p, i, true) { Failed(e, i) => Failed(e, i), Got(columns, i) => {
        Got(TreeView::Node(Kind::TableAlias, seq![name, columns, TreeView::Flag(false)]), i)
        }}
    }
    }}
}

impl Parser {
    /// Parse `AS identifier` when the AS is describing a table-valued object,
    /// like in `... FROM generate_series(1, 10) AS t (col)`. In this case
    /// the alias is allowed to optionally name the columns in the table, in
    /// addition to the table itself.
    #[verifier::rlimit(30)]
    pub fn parse_optional_table_alias(&mut self) -> (r: Result<Tree, Failure>)
        requires
            old(self).ready(),
            old(self).index > 0,
        ensures
            final(self).retreats(*old(self), optional_table_alias(old(self).input(), old(self).index as int), r),
            r matches Err(e) ==> !(e@ is Unhandled),
    {
        broadcast use group_tree_views;

        proof {
            reveal(optional_table_alias);
        }
        let name = self.parse_optional_alias(true)?;
        if name.is_absent() {
            Ok(Tree::Absent)
        } else {
            let columns = self.parse_parenthesized_column_list(true)?;
            Ok(node(Kind::TableAlias, trees3(name, columns, Tree::Flag(false))))
        }
    }
}

/// What [`Parser::parse_value`] yields from the token at `i` on.
#[verifier::opaque]
pub open spec fn value(p: Input, i: int) -> Out<TreeView>
{
    let found = token_at(p, i);
    let i = i + 1;
    match found {
        Some(TokenView::Keyword(Keyword::TRUE)) => {
            Got(TreeView::Node(Kind::BooleanValue, seq![TreeView::Flag(true)]), i)
        },
        Some(TokenView::Keyword(Keyword::FALSE)) => {
            Got(TreeView::Node(Kind::BooleanValue, seq![TreeView::Flag(false)]), i)
        },
        Some(TokenView::Keyword(Keyword::NULL)) => {
            Got(TreeView::Node(Kind::NullValue, Seq::<TreeView>::empty()), i)
        },
        Some(TokenView::Keyword(Keyword::INTERVAL)) => {
            interval_value(p, i)
        },
        Some(TokenView::Keyword(k)) => {
            Failed(error_view(position(p, i - 1), no_text() + "No value parser for keyword "@ + keyword_text(k)), i)
        },
        Some(TokenView::Op(s)) => {
            if s == "-"@ {
                let found = token_at(p, i);
                let i = i + 1;
                match found {
                    Some(TokenView::Number(n)) => {
                        Got(TreeView::Node(Kind::NumberValue, seq![TreeView::Text(no_text() + "-"@ + n)]), i)
                    },
                    _ => {
                        Failed(expected_at(p, i - 1, "literal int"@), i)
                    },
                }
            } else {
                Failed(error_view(position(p, i - 1), no_text() + "Unsupported value: "@ + token_debug(TokenView::Op(s))), i)
            }
        },
        Some(TokenView::Number(n)) => {
            Got(TreeView::Node(Kind::NumberValue, seq![TreeView::Text(n)]), i)
        },
        Some(TokenView::String(s)) => {
            Got(TreeView::Node(Kind::StringValue, seq![TreeView::Text(s)]), i)
        },
        Some(TokenView::HexString(s)) => {
            Got(TreeView::Node(Kind::HexStringValue, seq![TreeView::Text(s)]), i)
        },
        None => {
            Failed(error_view(position(p, i - 1), no_text() + "Expecting a value, but found EOF"@), i)
        },
        Some(t) => {
            Failed(error_view(position(p, i - 1), no_text() + "Unsupported value: "@ + token_debug(t)), i)
        },
    }
}

impl Parser {
    /// Parse a literal value (numbers, strings, date/time, booleans).
    #[verifier::rlimit(30)]
    pub fn parse_value(&mut self) -> (r: Result<Tree, Failure>)
        requires
            old(self).ready(),
        ensures
            final(self).follows(*old(self), value(old(self).input(), old(self).index as int), r),
            r is Ok ==> final(self).index > old(self).index,
            r matches Err(e) ==> !(e@ is Unhandled),
    {
        broadcast use group_tree_views;

        proof {
            reveal(value);
        }
        match self.next_token() {
            Some(Token::Keyword(Keyword::TRUE)) => {
                Ok(node(Kind::BooleanValue, trees1(Tree::Flag(true))))
            },
            Some(Token::Keyword(Keyword::FALSE)) => {
                Ok(node(Kind::BooleanValue, trees1(Tree::Flag(false))))
            },
            Some(Token::Keyword(Keyword::NULL)) => {
                Ok(node(Kind::NullValue, trees0()))
            },
            Some(Token::Keyword(Keyword::INTERVAL)) => {
                self.parse_interval_value()
            },
            Some(Token::Keyword(k)) => {
                let pos: usize = self.peek_prev_pos();
                Err(error(pos, String::new().concat("No value parser for keyword ").concat(k.as_str())))
            },
            Some(Token::Op(s)) => {
                if text_eq(s.as_str(), "-") {
                    match self.next_token() {
                        Some(Token::Number(n)) => {
                            Ok(node(Kind::NumberValue, trees1(Tree::Text(String::new().concat("-").concat(n.as_str())))))
                        },
                        _ => {
                            Err(self.expected_prev("literal int"))
                        },
                    }
                } else {
                    let pos: usize = self.peek_prev_pos();
                    Err(error(pos, String::new().concat("Unsupported value: ").concat(Token::Op(s).debug().as_str())))
                }
            },
            Some(Token::Number(n)) => {
                Ok(node(Kind::NumberValue, trees1(Tree::Text(n))))
            },
            Some(Token::String(s)) => {
                Ok(node(Kind::StringValue, trees1(Tree::Text(s))))
            },
            Some(Token::HexString(s)) => {
                Ok(node(Kind::HexStringValue, trees1(Tree::Text(s))))
            },
            None => {
                let pos: usize = self.peek_prev_pos();
                Err(error(pos, String::new().concat("Expecting a value, but found EOF")))
            },
            Some(t) => {
                let pos: usize = self.peek_prev_pos();
                Err(error(pos, String::new().concat("Unsupported value: ").concat(t.debug().as_str())))
            },
        }
    }
}

/// What [`Parser::parse_number_value`] yields from the token at `i` on.
#[verifier::opaque]
pub open spec fn number_value(p: Input, i: int) -> Out<TreeView>
{
    match value(p, i) { Failed(e, i) => Failed(e, i), Got(v, i) => {
    if is_node(v, Kind::NumberValue) {
        Got(v, i)
    } else {
        let i = i - 1;
        Failed(expected_at(p, i, "literal number"@), i)
    }
    }}
}

impl Parser {
    /// Parse a literal number.
    pub fn parse_number_value(&mut self) -> (r: Result<Tree, Failure>)
        requires
            old(self).ready(),
        ensures
            final(self).follows(*old(self), number_value(old(self).input(), old(self).index as int), r),
            r is Ok ==> final(self).index > old(self).index,
            r matches Err(e) ==> !(e@ is Unhandled),
    {
        broadcast use group_tree_views;

        proof {
            reveal(number_value);
        }
        let v = self.parse_value()?;
        if v.is_node(Kind::NumberValue) {
            Ok(v)
        } else {
            self.prev_token();
            Err(self.expected_here("literal number"))
        }
    }
}

/// What [`Parser::parse_literal_int`] yields from the token at `i` on.
#[verifier::opaque]
pub open spec fn literal_int(p: Input, i: int) -> Out<TreeView>
{
    let found = token_at(p, i);
    let i = i + 1;
    match found {
        Some(TokenView::Number(s)) => {
            match parse_int(s) {
                Ok(n) => {
                    Got(TreeView::Int(n), i)
                },
                Err(why) => {
                    Failed(error_view(position(p, i - 1), no_text() + "Could not parse '"@ + s + "' as i64: "@ + why), i)
                },
            }
        },
        _ => {
            Failed(expected_at(p, i - 1, "literal integer"@), i)
        },
    }
}

impl Parser {
    /// Parse a signed literal integer.
    pub fn parse_literal_int(&mut self) -> (r: Result<Tree, Failure>)
        requires
            old(self).ready(),
        ensures
            final(self).follows(*old(self), literal_int(old(self).input(), old(self).index as int), r),
            r is Ok ==> final(self).index > old(self).index,
            r matches Err(e) ==> !(e@ is Unhandled),
    {
        broadcast use group_tree_views;

        proof {
            reveal(literal_int);
        }
        match self.next_token() {
            Some(Token::Number(s)) => {
                match parse_int_text(s.as_str()) {
                    Ok(n) => {
                        Ok(Tree::Int(n))
                    },
                    Err(why) => {
                        let pos: usize = self.peek_prev_pos();
                        Err(error(pos, String::new().concat("Could not parse '").concat(s.as_str()).concat("' as i64: ").concat(why.as_str())))
                    },
                }
            },
            _ => {
                Err(self.expected_prev("literal integer"))
            },
        }
    }
}

/// What [`Parser::parse_literal_int_list`] yields from the token at `i` on.
#[verifier::opaque]
pub open spec fn literal_int_list(p: Input, i: int, items: Seq<TreeView>) -> Out<Seq<TreeView>>
    decreases p.toks.len() - i, 0int,
{
    match past(p, i, literal_int(p, i)) { Failed(e, i) => Failed(e, i), Got(item, i) => {
    if at_token(p, i, TokenView::Comma) {
        let i = i + 1;
        literal_int_list(p, i, items.push(item))
    } else {
        Got(items.push(item), i)
    }
    }}
}

impl Parser {
    /// Parses one or more `literal_int`, separated by commas, after those in `items`.
    pub fn parse_literal_int_list(&mut self, mut items: Trees) -> (r: Result<Trees, Failure>)
        requires
            old(self).ready(),
        ensures
            final(self).follows(*old(self), literal_int_list(old(self).input(), old(self).index as int, items@), r),
            r is Ok ==> final(self).index > old(self).index,
            r matches Ok(all) ==> all@.len() > items@.len(),
            r matches Err(e) ==> !(e@ is Unhandled),
        decreases old(self).tokens.len() - old(self).index, 0int,
    {
        broadcast use group_tree_views;

        proof {
            reveal(literal_int_list);
        }
        let ghost before = *self;
        let ghost given = items@.len();
        let ghost goal = literal_int_list(self.input(), self.index as int, items@);
        #[verifier::loop_isolation(false)]
        loop
            invariant
                self.ready(),
                self.input() == before.input(),
                self.tokens.len() == before.tokens.len(),
                before.index <= self.index,
                before == *old(self),
                given <= items@.len(),
                literal_int_list(self.input(), self.index as int, items@) == goal,
            decreases self.tokens.len() - self.index,
        {
            proof {
                reveal(literal_int_list);
            }
            let item = self.parse_literal_int()?;
            if self.consume_token(&Token::Comma) {
                items = items.with(item);
                continue;
            } else {
                return Ok(items.with(item));
            }
        }
    }
}

/// What [`Parser::parse_literal_uint`] yields from the token at `i` on.
#[verifier::opaque]
pub open spec fn literal_uint(p: Input, i: int) -> Out<u64>
{
    let found = token_at(p, i);
    let i = i + 1;
    match found {
        Some(TokenView::Number(s)) => {
            match parse_uint(s) {
                Ok(n) => {
                    Got(n, i)
                },
                Err(why) => {
                    Failed(error_view(position(p, i - 1), no_text() + "Could not parse '"@ + s + "' as u64: "@ + why), i)
                },
            }
        },
        _ => {
            Failed(expected_at(p, i - 1, "literal unsigned integer"@), i)
        },
    }
}

impl Parser {
    /// Parse an unsigned literal integer.
    pub fn parse_literal_uint(&mut self) -> (r: Result<u64, Failure>)
        requires
            old(self).ready(),
        ensures
            final(self).follows(*old(self), literal_uint(old(self).input(), old(self).index as int), r),
            r is Ok ==> final(self).index > old(self).index,
            r matches Err(e) ==> !(e@ is Unhandled),
    {
        broadcast use group_tree_views;

        proof {
            reveal(literal_uint);
        }
        match self.next_token() {
            Some(Token::Number(s)) => {
                match parse_uint_text(s.as_str()) {
                    Ok(n) => {
                        Ok(n)
                    },
                    Err(why) => {
                        let pos: usize = self.peek_prev_pos();
                        Err(error(pos, String::new().concat("Could not parse '").concat(s.as_str()).concat("' as u64: ").concat(why.as_str())))
                    },
                }
            },
            _ => {
                Err(self.expected_prev("literal unsigned integer"))
            },
        }
    }
}

/// What [`Parser::parse_literal_string`] yields from the token at `i` on.
#[verifier::opaque]
pub open spec fn literal_string(p: Input, i: int) -> Out<Seq<char>>
{
    let found = token_at(p, i);
    let i = i + 1;
    match found {
        Some(TokenView::String(s)) => {
            Got(s, i)
        },
        _ => {
            Failed(expected_at(p, i - 1, "literal string"@), i)
        },
    }
}

impl Parser {
    /// Parse a literal string.
    pub fn parse_literal_string(&mut self) -> (r: Result<String, Failure>)
        requires
            old(self).ready(),
        ensures
            final(self).follows(*old(self), literal_string(old(self).input(), old(self).index as int), r),
            r is Ok ==> final(self).index > old(self).index,
            r matches Err(e) ==> !(e@ is Unhandled),
    {
        broadcast use group_tree_views;

        proof {
            reveal(literal_string);
        }
        match self.next_token() {
            Some(Token::String(s)) => {
                Ok(s)
            },
            _ => {
                Err(self.expected_prev("literal string"))
            },
        }
    }
}

/// What [`Parser::parse_typ_mod`] yields from the token at `i` on.
#[verifier::opaque]
pub open spec fn typ_mod(p: Input, i: int) -> Out<TreeView>
{
    if at_token(p, i, TokenView::LParen) {
        let i = i + 1;
        match literal_int_list(p, i, Seq::<TreeView>::empty()) { Failed(e, i) => Failed(e, i), Got(mods, i) => {
        match token(p, i, TokenView::RParen) { Failed(e, i) => Failed(e, i), Got(_, i) => {
        Got(TreeView::List(mods), i)
        }}
        }}
    } else {
        Got(TreeView::List(Seq::<TreeView>::empty()), i)
    }
}

impl Parser {
    /// Parse a data type's modifiers, if there are any.
    pub fn parse_typ_mod(&mut self) -> (r: Result<Tree, Failure>)
        requires
            old(self).ready(),
        ensures
            final(self).follows(*old(self), typ_mod(old(self).input(), old(self).index as int), r),
            r matches Err(e) ==> !(e@ is Unhandled),
    {
        broadcast use group_tree_views;

        proof {
            reveal(typ_mod);
        }
        if self.consume_token(&Token::LParen) {
            let mods = self.parse_literal_int_list(trees0())?;
            self.expect_token(&Token::RParen)?;
            Ok(list(mods))
        } else {
            Ok(list(trees0()))
        }
    }
}

/// What [`Parser::parse_modified_type`] yields from the token at `i` on.
#[verifier::opaque]
pub open spec fn modified_type(p: Input, i: int, name: Seq<char>) -> Out<TreeView>
{
    match typ_mod(p, i) { Failed(e, i) => Failed(e, i), Got(mods, i) => {
    Got(TreeView::Node(Kind::OtherType, seq![TreeView::Node(Kind::ItemName, seq![TreeView::List(seq![TreeView::Text(name)])]), mods]), i)
    }}
}

impl Parser {
    /// Parse the modifiers of the type that is called `name`.
    pub fn parse_modified_type(&mut self, name: String) -> (r: Result<Tree, Failure>)
        requires
            old(self).ready(),
        ensures
            final(self).follows(*old(self), modified_type(old(self).input(), old(self).index as int, name@), r),
            r matches Err(e) ==> !(e@ is Unhandled),
    {
        broadcast use group_tree_views;

        proof {
            reveal(modified_type);
        }
        let mods = self.parse_typ_mod()?;
        Ok(node(Kind::OtherType, trees2(node(Kind::ItemName, trees1(list(trees1(Tree::Text(name))))), mods)))
    }
}

/// What [`Parser::parse_with_time_zone`] yields from the token at `i` on.
#[verifier::opaque]
pub open spec fn with_time_zone(p: Input, i: int) -> Out<bool>
{
    if at_keyword(p, i, Keyword::WITH) {
        let i = i + 1;
        match keyword(p, i, Keyword::TIME) { Failed(e, i) => Failed(e, i), Got(_, i) => {
        match keyword(p, i, Keyword::ZONE) { Failed(e, i) => Failed(e, i), Got(_, i) => {
        Got(true, i)
        }}}}
    } else {
        if at_keyword(p, i, Keyword::WITHOUT) {
            let i = i + 1;
            match keyword(p, i, Keyword::TIME) { Failed(e, i) => Failed(e, i), Got(_, i) => {
            match keyword(p, i, Keyword::ZONE) { Failed(e, i) => Failed(e, i), Got(_, i) => {
            Got(false, i)
            }}}}
        } else {
            Got(false, i)
        }
    }
}

impl Parser {
    /// Parse `WITH TIME ZONE`, `WITHOUT TIME ZONE` or neither; tell whether it is the
    /// first.
    pub fn parse_with_time_zone(&mut self) -> (r: Result<bool, Failure>)
        requires
            old(self).ready(),
        ensures
            final(self).follows(*old(self), with_time_zone(old(self).input(), old(self).index as int), r),
            r matches Err(e) ==> !(e@ is Unhandled),
    {
        broadcast use group_tree_views;

        proof {
            reveal(with_time_zone);
        }
        if self.parse_keyword(Keyword::WITH) {
            self.expect_keyword(Keyword::TIME)?;
            self.expect_keyword(Keyword::ZONE)?;
            Ok(true)
        } else if self.parse_keyword(Keyword::WITHOUT) {
            self.expect_keyword(Keyword::TIME)?;
            self.expect_keyword(Keyword::ZONE)?;
            Ok(false)
        } else {
            Ok(false)
        }
    }
}

/// What [`Parser::parse_base_type`] yields from the token at `i` on.
#[verifier::opaque]
pub open spec fn base_type(p: Input, i: int) -> Out<TreeView>
{
    let found = token_at(p, i);
    let i = i + 1;
    match found {
        Some(TokenView::Keyword(Keyword::CHAR)) | Some(TokenView::Keyword(Keyword::CHARACTER)) => {
            if at_keyword(p, i, Keyword::VARYING) {
                let i = i + 1;
                modified_type(p, i, "varchar"@)
            } else {
                modified_type(p, i, "bpchar"@)
            }
        },
        Some(TokenView::Keyword(Keyword::BPCHAR)) => {
            modified_type(p, i, "bpchar"@)
        },
        Some(TokenView::Keyword(Keyword::VARCHAR)) => {
            modified_type(p, i, "varchar"@)
        },
        Some(TokenView::Keyword(Keyword::STRING)) => {
            Got(TreeView::Node(Kind::OtherType, seq![TreeView::Node(Kind::ItemName, seq![TreeView::List(seq![TreeView::Text("text"@)])]), TreeView::List(Seq::<TreeView>::empty())]), i)
        },
        Some(TokenView::Keyword(Keyword::BIGINT)) => {
            Got(TreeView::Node(Kind::OtherType, seq![TreeView::Node(Kind::ItemName, seq![TreeView::List(seq![TreeView::Text("int8"@)])]), TreeView::List(Seq::<TreeView>::empty())]), i)
        },
        Some(TokenView::Keyword(Keyword::SMALLINT)) => {
            Got(TreeView::Node(Kind::OtherType, seq![TreeView::Node(Kind::ItemName, seq![TreeView::List(seq![TreeView::Text("int2"@)])]), TreeView::List(Seq::<TreeView>::empty())]), i)
        },
        Some(TokenView::Keyword(Keyword::DEC)) | Some(TokenView::Keyword(Keyword::DECIMAL)) => {
            modified_type(p, i, "numeric"@)
        },
        Some(TokenView::Keyword(Keyword::DOUBLE)) => {
            let i = if at_keyword(p, i, Keyword::PRECISION) { i + 1 } else { i };
            Got(TreeView::Node(Kind::OtherType, seq![TreeView::Node(Kind::ItemName, seq![TreeView::List(seq![TreeView::Text("float8"@)])]), TreeView::List(Seq::<TreeView>::empty())]), i)
        },
        Some(TokenView::Keyword(Keyword::FLOAT)) => {
            match optional_precision(p, i) { Failed(e, i) => Failed(e, i), Got(precision, i) => {
            let bits = float_bits(precision);
            if bits == 0 || bits > 53 {
                Failed(error_view(position(p, i - 1), no_text() + "precision for type float must be within ([1-53])"@), i)
            } else {
                if bits < 25 {
                    Got(TreeView::Node(Kind::OtherType, seq![TreeView::Node(Kind::ItemName, seq![TreeView::List(seq![TreeView::Text("float4"@)])]), TreeView::List(Seq::<TreeView>::empty())]), i)
                } else {
                    Got(TreeView::Node(Kind::OtherType, seq![TreeView::Node(Kind::ItemName, seq![TreeView::List(seq![TreeView::Text("float8"@)])]), TreeView::List(Seq::<TreeView>::empty())]), i)
                }
            }
            }}
        },
        Some(TokenView::Keyword(Keyword::INT)) | Some(TokenView::Keyword(Keyword::INTEGER)) => {
            Got(TreeView::Node(Kind::OtherType, seq![TreeView::Node(Kind::ItemName, seq![TreeView::List(seq![TreeView::Text("int4"@)])]), TreeView::List(Seq::<TreeView>::empty())]), i)
        },
        Some(TokenView::Keyword(Keyword::REAL)) => {
            Got(TreeView::Node(Kind::OtherType, seq![TreeView::Node(Kind::ItemName, seq![TreeView::List(seq![TreeView::Text("float4"@)])]), TreeView::List(Seq::<TreeView>::empty())]), i)
        },
        Some(TokenView::Keyword(Keyword::TIME)) => {
            match with_time_zone(p, i) { Failed(e, i) => Failed(e, i), Got(zoned, i) => {
            if zoned {
                Got(TreeView::Node(Kind::OtherType, seq![TreeView::Node(Kind::ItemName, seq![TreeView::List(seq![TreeView::Text("timetz"@)])]), TreeView::List(Seq::<TreeView>::empty())]), i)
            } else {
                Got(TreeView::Node(Kind::OtherType, seq![TreeView::Node(Kind::ItemName, seq![TreeView::List(seq![TreeView::Text("time"@)])]), TreeView::List(Seq::<TreeView>::empty())]), i)
            }
            }}
        },
        Some(TokenView::Keyword(Keyword::TIMESTAMP)) => {
            match with_time_zone(p, i) { Failed(e, i) => Failed(e, i), Got(zoned, i) => {
            if zoned {
                Got(TreeView::Node(Kind::OtherType, seq![TreeView::Node(Kind::ItemName, seq![TreeView::List(seq![TreeView::Text("timestamptz"@)])]), TreeView::List(Seq::<TreeView>::empty())]), i)
            } else {
                Got(TreeView::Node(Kind::OtherType, seq![TreeView::Node(Kind::ItemName, seq![TreeView::List(seq![TreeView::Text("timestamp"@)])]), TreeView::List(Seq::<TreeView>::empty())]), i)
            }
            }}
        },
        Some(TokenView::Keyword(Keyword::BOOLEAN)) => {
            Got(TreeView::Node(Kind::OtherType, seq![TreeView::Node(Kind::ItemName, seq![TreeView::List(seq![TreeView::Text("bool"@)])]), TreeView::List(Seq::<TreeView>::empty())]), i)
        },
        Some(TokenView::Keyword(Keyword::BYTES)) => {
            Got(TreeView::Node(Kind::OtherType, seq![TreeView::Node(Kind::ItemName, seq![TreeView::List(seq![TreeView::Text("bytea"@)])]), TreeView::List(Seq::<TreeView>::empty())]), i)
        },
        Some(TokenView::Keyword(Keyword::JSON)) => {
            Got(TreeView::Node(Kind::OtherType, seq![TreeView::Node(Kind::ItemName, seq![TreeView::List(seq![TreeView::Text("jsonb"@)])]), TreeView::List(Seq::<TreeView>::empty())]), i)
        },
        Some(TokenView::Keyword(k)) => {
            let i = i - 1;
            match item_name(p, i) { Failed(e, i) => Failed(e, i), Got(name, i) => {
            match typ_mod(p, i) { Failed(e, i) => Failed(e, i), Got(mods, i) => {
            Got(TreeView::Node(Kind::OtherType, seq![name, mods]), i)
            }}
            }}
        },
        Some(TokenView::Ident(_)) | Some(TokenView::LBracket) => {
            let i = i - 1;
            match raw_name(p, i) { Failed(e, i) => Failed(e, i), Got(name, i) => {
            match typ_mod(p, i) { Failed(e, i) => Failed(e, i), Got(mods, i) => {
            Got(TreeView::Node(Kind::OtherType, seq![name, mods]), i)
            }}
            }}
        },
        _ => {
            Failed(expected_at(p, i - 1, "a data type name"@), i)
        },
    }
}

impl Parser {
    /// Parse a SQL datatype (in the context of a CREATE TABLE statement for example),
    /// without the suffixes that make a list or an array of it.
    #[verifier::rlimit(60)]
    pub fn parse_base_type(&mut self) -> (r: Result<Tree, Failure>)
        requires
            old(self).ready(),
        ensures
            final(self).follows(*old(self), base_type(old(self).input(), old(self).index as int), r),
            r is Ok ==> final(self).index > old(self).index,
            r matches Err(e) ==> !(e@ is Unhandled),
    {
        broadcast use group_tree_views;

        proof {
            reveal(base_type);
        }
        match self.next_token() {
            Some(Token::Keyword(Keyword::CHAR)) | Some(Token::Keyword(Keyword::CHARACTER)) => {
                if self.parse_keyword(Keyword::VARYING) {
                    self.parse_modified_type(String::from_str("varchar"))
                } else {
                    self.parse_modified_type(String::from_str("bpchar"))
                }
            },
            Some(Token::Keyword(Keyword::BPCHAR)) => {
                self.parse_modified_type(String::from_str("bpchar"))
            },
            Some(Token::Keyword(Keyword::VARCHAR)) => {
                self.parse_modified_type(String::from_str("varchar"))
            },
            Some(Token::Keyword(Keyword::STRING)) => {
                Ok(node(Kind::OtherType, trees2(node(Kind::ItemName, trees1(list(trees1(Tree::Text(String::from_str("text")))))), list(trees0()))))
            },
            Some(Token::Keyword(Keyword::BIGINT)) => {
                Ok(node(Kind::OtherType, trees2(node(Kind::ItemName, trees1(list(trees1(Tree::Text(String::from_str("int8")))))), list(trees0()))))
            },
            Some(Token::Keyword(Keyword::SMALLINT)) => {
                Ok(node(Kind::OtherType, trees2(node(Kind::ItemName, trees1(list(trees1(Tree::Text(String::from_str("int2")))))), list(trees0()))))
            },
            Some(Token::Keyword(Keyword::DEC)) | Some(Token::Keyword(Keyword::DECIMAL)) => {
                self.parse_modified_type(String::from_str("numeric"))
            },
            Some(Token::Keyword(Keyword::DOUBLE)) => {
                let _ = self.parse_keyword(Keyword::PRECISION);
                Ok(node(Kind::OtherType, trees2(node(Kind::ItemName, trees1(list(trees1(Tree::Text(String::from_str("float8")))))), list(trees0()))))
            },
            Some(Token::Keyword(Keyword::FLOAT)) => {
                let precision = self.parse_optional_precision()?;
                let bits: u64 = float_precision(&precision);
                if bits == 0 || bits > 53 {
                    let pos: usize = self.peek_prev_pos();
                    Err(error(pos, String::new().concat("precision for type float must be within ([1-53])")))
                } else if bits < 25 {
                    Ok(node(Kind::OtherType, trees2(node(Kind::ItemName, trees1(list(trees1(Tree::Text(String::from_str("float4")))))), list(trees0()))))
                } else {
                    Ok(node(Kind::OtherType, trees2(node(Kind::ItemName, trees1(list(trees1(Tree::Text(String::from_str("float8")))))), list(trees0()))))
                }
            },
            Some(Token::Keyword(Keyword::INT)) | Some(Token::Keyword(Keyword::INTEGER)) => {
                Ok(node(Kind::OtherType, trees2(node(Kind::ItemName, trees1(list(trees1(Tree::Text(String::from_str("int4")))))), list(trees0()))))
            },
            Some(Token::Keyword(Keyword::REAL)) => {
                Ok(node(Kind::OtherType, trees2(node(Kind::ItemName, trees1(list(trees1(Tree::Text(String::from_str("float4")))))), list(trees0()))))
            },
            Some(Token::Keyword(Keyword::TIME)) => {
                let zoned = self.parse_with_time_zone()?;
                if zoned {
                    Ok(node(Kind::OtherType, trees2(node(Kind::ItemName, trees1(list(trees1(Tree::Text(String::from_str("timetz")))))), list(trees0()))))
                } else {
                    Ok(node(Kind::OtherType, trees2(node(Kind::ItemName, trees1(list(trees1(Tree::Text(String::from_str("time")))))), list(trees0()))))
                }
            },
            Some(Token::Keyword(Keyword::TIMESTAMP)) => {
                let zoned = self.parse_with_time_zone()?;
                if zoned {
                    Ok(node(Kind::OtherType, trees2(node(Kind::ItemName, trees1(list(trees1(Tree::Text(String::from_str("timestamptz")))))), list(trees0()))))
                } else {
                    Ok(node(Kind::OtherType, trees2(node(Kind::ItemName, trees1(list(trees1(Tree::Text(String::from_str("timestamp")))))), list(trees0()))))
                }
            },
            Some(Token::Keyword(Keyword::BOOLEAN)) => {
                Ok(node(Kind::OtherType, trees2(node(Kind::ItemName, trees1(list(trees1(Tree::Text(String::from_str("bool")))))), list(trees0()))))
            },
            Some(Token::Keyword(Keyword::BYTES)) => {
                Ok(node(Kind::OtherType, trees2(node(Kind::ItemName, trees1(list(trees1(Tree::Text(String::from_str("bytea")))))), list(trees0()))))
            },
            Some(Token::Keyword(Keyword::JSON)) => {
                Ok(node(Kind::OtherType, trees2(node(Kind::ItemName, trees1(list(trees1(Tree::Text(String::from_str("jsonb")))))), list(trees0()))))
            },
            Some(Token::Keyword(k)) => {
                self.prev_token();
                let name = self.parse_item_name()?;
                let mods = self.parse_typ_mod()?;
                Ok(node(Kind::OtherType, trees2(name, mods)))
            },
            Some(Token::Ident(_)) | Some(Token::LBracket) => {
                self.prev_token();
                let name = self.parse_raw_name()?;
                let mods = self.parse_typ_mod()?;
                Ok(node(Kind::OtherType, trees2(name, mods)))
            },
            _ => {
                Err(self.expected_prev("a data type name"))
            },
        }
    }
}

/// What [`Parser::parse_data_type`] yields from the token at `i` on.
#[verifier::opaque]
pub open spec fn data_type(p: Input, i: int) -> Out<TreeView>
    decreases p.toks.len() - i, 0int,
{
    if at_keyword(p, i, Keyword::MAP) {
        let i = i + 1;
        map_type(p, i)
    } else {
        match base_type(p, i) { Failed(e, i) => Failed(e, i), Got(base, i) => {
        type_suffixes(p, i, base)
        }}
    }
}

impl Parser {
    /// Parse a SQL datatype (in the context of a CREATE TABLE statement for example).
    pub fn parse_data_type(&mut self) -> (r: Result<Tree, Failure>)
        requires
            old(self).ready(),
        ensures
            final(self).follows(*old(self), data_type(old(self).input(), old(self).index as int), r),
            r is Ok ==> final(self).index > old(self).index,
            r matches Err(e) ==> !(e@ is Unhandled),
        decreases old(self).tokens.len() - old(self).index, 0int,
    {
        broadcast use group_tree_views;

        proof {
            reveal(data_type);
            reveal(map_type);
        }
        if self.parse_keyword(Keyword::MAP) {
            self.parse_map()
        } else {
            let base = self.parse_base_type()?;
            self.parse_type_suffixes(base)
        }
    }
}

/// What [`Parser::parse_type_suffixes`] yields from the token at `i` on.
#[verifier::opaque]
pub open spec fn type_suffixes(p: Input, i: int, t: TreeView) -> Out<TreeView>
    decreases p.toks.len() - i, 0int,
{
    if at_keyword(p, i, Keyword::LIST) {
        let i = i + 1;
        type_suffixes(p, i, TreeView::Node(Kind::ListType, seq![t]))
    } else {
        if at_token(p, i, TokenView::LBracket) {
            let i = i + 1;
            match onward(p, i, array_bound(p, i)) { Failed(e, i) => Failed(e, i), Got(_, i) => {
            match token(p, i, TokenView::RBracket) { Failed(e, i) => Failed(e, i), Got(_, i) => {
            if is_node(t, Kind::ArrayType) {
                type_suffixes(p, i, t)
            } else {
                type_suffixes(p, i, TreeView::Node(Kind::ArrayType, seq![t]))
            }
            }}
            }}
        } else {
            Got(t, i)
        }
    }
}

impl Parser {
    /// Parse the suffixes that make a list or an array of the type `t`. Note that
    /// `int[]`, `int[][][]`, and `int[2][2]` all parse to the same "int array" type.
    pub fn parse_type_suffixes(&mut self, mut t: Tree) -> (r: Result<Tree, Failure>)
        requires
            old(self).ready(),
        ensures
            final(self).follows(*old(self), type_suffixes(old(self).input(), old(self).index as int, t@), r),
            r matches Err(e) ==> !(e@ is Unhandled),
        decreases old(self).tokens.len() - old(self).index, 0int,
    {
        broadcast use group_tree_views;

        proof {
            reveal(type_suffixes);
        }
        let ghost before = *self;
        let ghost goal = type_suffixes(self.input(), self.index as int, t@);
        #[verifier::loop_isolation(false)]
        loop
            invariant
                self.ready(),
                self.input() == before.input(),
                self.tokens.len() == before.tokens.len(),
                before.index <= self.index,
                before == *old(self),
                type_suffixes(self.input(), self.index as int, t@) == goal,
            decreases self.tokens.len() - self.index,
        {
            proof {
                reveal(type_suffixes);
            }
            if self.parse_keyword(Keyword::LIST) {
                t = node(Kind::ListType, trees1(t));
                continue;
            } else if self.consume_token(&Token::LBracket) {
                self.parse_array_bound()?;
                self.expect_token(&Token::RBracket)?;
                if t.is_node(Kind::ArrayType) {
                    continue;
                } else {
                    t = node(Kind::ArrayType, trees1(t));
                    continue;
                }
            } else {
                return Ok(t);
            }
        }
    }
}

/// What [`Parser::parse_array_bound`] yields from the token at `i` on.
#[verifier::opaque]
pub open spec fn array_bound(p: Input, i: int) -> Out<()>
{
    match number_value(p, i) {
        Got(n, i) => {
            Got((), i)
        },
        Failed(_, _) => {
            Got((), i)
        },
    }
}

impl Parser {
    /// Parse the bound of an array type, if there is one.
    pub fn parse_array_bound(&mut self) -> (r: Result<(), Failure>)
        requires
            old(self).ready(),
        ensures
            final(self).follows(*old(self), array_bound(old(self).input(), old(self).index as int), r),
            r matches Err(e) ==> !(e@ is Unhandled),
    {
        broadcast use group_tree_views;

        proof {
            reveal(array_bound);
        }
        let mark: usize = self.index;
        match self.parse_number_value() {
            Ok(n) => {
                Ok(())
            },
            Err(_) => {
                self.index = mark;
                Ok(())
            },
        }
    }
}

/// What [`Parser::parse_map`] yields from the token at `i` on.
#[verifier::opaque]
pub open spec fn map_type(p: Input, i: int) -> Out<TreeView>
    decreases p.toks.len() - i, 0int,
{
    match token(p, i, TokenView::LBracket) { Failed(e, i) => Failed(e, i), Got(_, i) => {
    match past(p, i, data_type(p, i)) { Failed(e, i) => Failed(e, i), Got(key_type, i) => {
    match token(p, i, TokenView::Op("=>"@)) { Failed(e, i) => Failed(e, i), Got(_, i) => {
    match data_type(p, i) { Failed(e, i) => Failed(e, i), Got(value_type, i) => {
    match token(p, i, TokenView::RBracket) { Failed(e, i) => Failed(e, i), Got(_, i) => {
    Got(TreeView::Node(Kind::MapType, seq![key_type, value_type]), i)
    }}
    }}
    }}
    }}
    }}
}

impl Parser {
    /// Parse the key and value types of a map.
    pub fn parse_map(&mut self) -> (r: Result<Tree, Failure>)
        requires
            old(self).ready(),
        ensures
            final(self).follows(*old(self), map_type(old(self).input(), old(self).index as int), r),
            r is Ok ==> final(self).index > old(self).index,
            r matches Err(e) ==> !(e@ is Unhandled),
        decreases old(self).tokens.len() - old(self).index, 0int,
    {
        broadcast use group_tree_views;

        proof {
            reveal(map_type);
            reveal(data_type);
        }
        self.expect_token(&Token::LBracket)?;
        let key_type = self.parse_data_type()?;
        self.expect_token(&Token::Op(String::from_str("=>")))?;
        let value_type = self.parse_data_type()?;
        self.expect_token(&Token::RBracket)?;
        Ok(node(Kind::MapType, trees2(key_type, value_type)))
    }
}

/// What [`Parser::parse_array`] yields from the token at `i` on.
#[verifier::opaque]
pub open spec fn array_expr(p: Input, i: int) -> Out<TreeView>
    decreases p.toks.len() - i, 0int,
{
    if at_token(p, i, TokenView::LParen) {
        let i = i + 1;
        match query(p, i) { Failed(e, i) => Failed(e, i), Got(subquery, i) => {
        match token(p, i, TokenView::RParen) { Failed(e, i) => Failed(e, i), Got(_, i) => {
        Got(TreeView::Node(Kind::ArraySubquery, seq![subquery]), i)
        }}
        }}
    } else {
        match token(p, i, TokenView::LBracket) { Failed(e, i) => Failed(e, i), Got(_, i) => {
        match array_elements(p, i, Seq::<TreeView>::empty()) { Failed(e, i) => Failed(e, i), Got(es, i) => {
        match token(p, i, TokenView::RBracket) { Failed(e, i) => Failed(e, i), Got(_, i) => {
        Got(TreeView::Node(Kind::Array, seq![TreeView::List(es)]), i)
        }}
        }}
        }}
    }
}

impl Parser {
    /// Parse what follows `ARRAY`: a subquery or the elements.
    pub fn parse_array(&mut self) -> (r: Result<Tree, Failure>)
        requires
            old(self).ready(),
        ensures
            final(self).follows(*old(self), array_expr(old(self).input(), old(self).index as int), r),
            r is Ok ==> final(self).index > old(self).index,
            r matches Err(e) ==> !(e@ is Unhandled),
        decreases old(self).tokens.len() - old(self).index, 0int,
    {
        broadcast use group_tree_views;

        proof {
            reveal(array_expr);
            reveal(array_elements);
            reveal(query);
        }
        if self.consume_token(&Token::LParen) {
            let subquery = self.parse_query()?;
            self.expect_token(&Token::RParen)?;
            Ok(node(Kind::ArraySubquery, trees1(subquery)))
        } else {
            self.expect_token(&Token::LBracket)?;
            let es = self.parse_array_elements(trees0())?;
            self.expect_token(&Token::RBracket)?;
            Ok(node(Kind::Array, trees1(list(es))))
        }
    }
}

/// What [`Parser::parse_array_elements`] yields from the token at `i` on.
#[verifier::opaque]
pub open spec fn array_elements(p: Input, i: int, es: Seq<TreeView>) -> Out<Seq<TreeView>>
    decreases p.toks.len() - i, 4int,
{
    if at_token(p, i, TokenView::RBracket) {
        Got(es, i)
    } else {
        match onward(p, i, {
            if at_token(p, i, TokenView::LBracket) {
                array_expr(p, i)
            } else {
                expr(p, i)
            }
        }) { Failed(e, i) => Failed(e, i), Got(e, i) => {
        if at_token(p, i, TokenView::Comma) {
            let i = i + 1;
            array_elements(p, i, es.push(e))
        } else {
            Got(es.push(e), i)
        }
        }}
    }
}

impl Parser {
    /// Parse the elements of an array after those in `es`; an element in square
    /// brackets is an array.
    pub fn parse_array_elements(&mut self, mut es: Trees) -> (r: Result<Trees, Failure>)
        requires
            old(self).ready(),
        ensures
            final(self).follows(*old(self), array_elements(old(self).input(), old(self).index as int, es@), r),
            r matches Err(e) ==> !(e@ is Unhandled),
        decreases old(self).tokens.len() - old(self).index, 4int,
    {
        broadcast use group_tree_views;

        proof {
            reveal(array_elements);
            reveal(array_expr);
            reveal(expr);
        }
        let ghost before = *self;
        let ghost goal = array_elements(self.input(), self.index as int, es@);
        #[verifier::loop_isolation(false)]
        loop
            invariant
                self.ready(),
                self.input() == before.input(),
                self.tokens.len() == before.tokens.len(),
                before.index <= self.index,
                before == *old(self),
                array_elements(self.input(), self.index as int, es@) == goal,
            decreases self.tokens.len() - self.index,
        {
            proof {
                reveal(array_elements);
                reveal(array_expr);
                reveal(expr);
            }
            if self.peek_is(&Token::RBracket) {
                return Ok(es);
            } else {
                let e = if self.peek_is(&Token::LBracket) {
                    self.parse_array()?
                } else {
                    self.parse_expr()?
                };
                if self.consume_token(&Token::Comma) {
                    es = es.with(e);
                    continue;
                } else {
                    return Ok(es.with(e));
                }
            }
        }
    }
}

/// What [`Parser::parse_list`] yields from the token at `i` on.
#[verifier::opaque]
pub open spec fn list_expr(p: Input, i: int) -> Out<TreeView>
    decreases p.toks.len() - i, 0int,
{
    if at_token(p, i, TokenView::LParen) {
        let i = i + 1;
        match query(p, i) { Failed(e, i) => Failed(e, i), Got(subquery, i) => {
        match token(p, i, TokenView::RParen) { Failed(e, i) => Failed(e, i), Got(_, i) => {
        Got(TreeView::Node(Kind::ListSubquery, seq![subquery]), i)
        }}
        }}
    } else {
        match token(p, i, TokenView::LBracket) { Failed(e, i) => Failed(e, i), Got(_, i) => {
        match list_elements(p, i, Seq::<TreeView>::empty()) { Failed(e, i) => Failed(e, i), Got(es, i) => {
        match token(p, i, TokenView::RBracket) { Failed(e, i) => Failed(e, i), Got(_, i) => {
        Got(TreeView::Node(Kind::List, seq![TreeView::List(es)]), i)
        }}
        }}
        }}
    }
}

impl Parser {
    /// Parse what follows `LIST`: a subquery or the elements.
    pub fn parse_list(&mut self) -> (r: Result<Tree, Failure>)
        requires
            old(self).ready(),
        ensures
            final(self).follows(*old(self), list_expr(old(self).input(), old(self).index as int), r),
            r is Ok ==> final(self).index > old(self).index,
            r matches Err(e) ==> !(e@ is Unhandled),
        decreases old(self).tokens.len() - old(self).index, 0int,
    {
        broadcast use group_tree_views;

        proof {
            reveal(list_expr);
            reveal(list_elements);
            reveal(query);
        }
        if self.consume_token(&Token::LParen) {
            let subquery = self.parse_query()?;
            self.expect_token(&Token::RParen)?;
            Ok(node(Kind::ListSubquery, trees1(subquery)))
        } else {
            self.expect_token(&Token::LBracket)?;
            let es = self.parse_list_elements(trees0())?;
            self.expect_token(&Token::RBracket)?;
            Ok(node(Kind::List, trees1(list(es))))
        }
    }
}

/// What [`Parser::parse_list_elements`] yields from the token at `i` on.
#[verifier::opaque]
pub open spec fn list_elements(p: Input, i: int, es: Seq<TreeView>) -> Out<Seq<TreeView>>
    decreases p.toks.len() - i, 4int,
{
    if at_token(p, i, TokenView::RBracket) {
        Got(es, i)
    } else {
        match onward(p, i, {
            if at_token(p, i, TokenView::LBracket) {
                list_expr(p, i)
            } else {
                expr(p, i)
            }
        }) { Failed(e, i) => Failed(e, i), Got(e, i) => {
        if at_token(p, i, TokenView::Comma) {
            let i = i + 1;
            list_elements(p, i, es.push(e))
        } else {
            Got(es.push(e), i)
        }
        }}
    }
}

impl Parser {
    /// Parse the elements of a list after those in `es`; an element in square
    /// brackets is a list.
    pub fn parse_list_elements(&mut self, mut es: Trees) -> (r: Result<Trees, Failure>)
        requires
            old(self).ready(),
        ensures
            final(self).follows(*old(self), list_elements(old(self).input(), old(self).index as int, es@), r),
            r matches Err(e) ==> !(e@ is Unhandled),
        decreases old(self).tokens.len() - old(self).index, 4int,
    {
        broadcast use group_tree_views;

        proof {
            reveal(list_elements);
            reveal(expr);
            reveal(list_expr);
        }
        let ghost before = *self;
        let ghost goal = list_elements(self.input(), self.index as int, es@);
        #[verifier::loop_isolation(false)]
        loop
            invariant
                self.ready(),
                self.input() == before.input(),
                self.tokens.len() == before.tokens.len(),
                before.index <= self.index,
                before == *old(self),
                list_elements(self.input(), self.index as int, es@) == goal,
            decreases self.tokens.len() - self.index,
        {
            proof {
                reveal(list_elements);
                reveal(expr);
                reveal(list_expr);
            }
            if self.peek_is(&Token::RBracket) {
                return Ok(es);
            } else {
                let e = if self.peek_is(&Token::LBracket) {
                    self.parse_list()?
                } else {
                    self.parse_expr()?
                };
                if self.consume_token(&Token::Comma) {
                    es = es.with(e);
                    continue;
                } else {
                    return Ok(es.with(e));
                }
            }
        }
    }
}

} // verus!
