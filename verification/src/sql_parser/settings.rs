//! What statements on objects, variables and cursors come to.

use vstd::prelude::*;

use crate::sql_parser::alignment::create::unfold_role_attributes;
use crate::sql_parser::alignment::show::{unfold_show_columns, unfold_show_statement_filter};
use crate::sql_parser::alignment::statement::{unfold_declare, unfold_prepare};
use crate::sql_parser::alter::{
    alter, alter_database, alter_index, alter_object, alter_relation, alter_role, alter_schema, alter_secret,
    alter_system, drop_behavior, drop_owned, expect_object_type, owner_to, rename_to, to_or_equals,
};
use crate::sql_parser::checks::{first_children, is_node};
use crate::sql_parser::commands::{bare, lemma_one_of};
use crate::sql_parser::constructs::reads;
use crate::sql_parser::create::{
    create_database, create_index, create_materialized_view, create_role, create_schema, create_secret, if_exists,
    if_exists_behavior, if_not_exists, or_replace, role_attributes, using_arrangement,
};
use crate::sql_parser::grant::reassign_owned;
use crate::sql_parser::keywords::Keyword;
use crate::sql_parser::kind::Kind;
use crate::sql_parser::names::{
    database_name, identifier, identifier_list, item_name, literal_string, literal_uint, parenthesized_column_list,
    raw_name, schema_name, value,
};
use crate::sql_parser::outcome::Out::{Failed, Got};
use crate::sql_parser::parser::{at_keyword, at_token, one_of, Input};
use crate::sql_parser::query::{order_by_expr_list, query};
use crate::sql_parser::show::{optional_in_cluster, show_columns, show_statement_filter};
use crate::sql_parser::statement::{declare, explain, explain_stage, fetch, optional_up_to, prepare, raise, set_schema_to, set_variable_to, set_variable_value, statement};
use crate::sql_parser::syntax::TreeView;
use crate::sql_parser::token::TokenView;

verus! {

/// A renaming of an object.
pub open spec fn renamed(t: Kind, conditional: bool, name: TreeView, to: TreeView) -> TreeView {
    TreeView::Node(Kind::AlterObjectRename, seq![bare(t), TreeView::Flag(conditional), name, to])
}

/// A change of the owner of an object.
pub open spec fn handed_over(t: Kind, conditional: bool, name: TreeView, to: TreeView) -> TreeView {
    TreeView::Node(Kind::AlterOwner, seq![bare(t), TreeView::Flag(conditional), name, to])
}

/// `ALTER t n RENAME TO m` and `ALTER t n OWNER TO m` are about the object `n` of type `t`: the
/// first gives it the name `m`, the second the owner `m`.
pub proof fn law_relation_altered(
    p: Input,
    i: int,
    t: Kind,
    conditional: bool,
    j: int,
    n: TreeView,
    k: int,
    m: TreeView,
    l: int,
    e: int,
)
    requires
        t == Kind::ViewType || t == Kind::MaterializedViewType || t == Kind::TableType,
        !at_keyword(p, i, Keyword::SYSTEM),
        !at_keyword(p, i, Keyword::DEFAULT),
        expect_object_type(p, i) == Got::<Kind>(t, j),
        if_exists(p, j) == Got::<bool>(conditional, k),
        item_name(p, k) == Got::<TreeView>(n, l),
        at_keyword(p, l + 1, Keyword::TO),
        identifier(p, l + 2) == Got::<TreeView>(m, e),
    ensures
        at_keyword(p, l, Keyword::RENAME) ==> alter(p, i) == Got::<TreeView>(renamed(t, conditional, n, m), e),
        at_keyword(p, l, Keyword::OWNER) ==> alter(p, i) == Got::<TreeView>(
            handed_over(t, conditional, n, m),
            e,
        ),
{
    let ks = seq![Keyword::RENAME, Keyword::OWNER];
    assert(ks[0] == Keyword::RENAME && ks[1] == Keyword::OWNER);
    if at_keyword(p, l, Keyword::RENAME) {
        lemma_one_of(p, l, ks, 0);
    }
    if at_keyword(p, l, Keyword::OWNER) {
        lemma_one_of(p, l, ks, 1);
    }
    reveal(alter);
    reveal(alter_object);
    reveal(alter_relation);
    reveal(rename_to);
    reveal(owner_to);
}

/// An index, and a secret, are renamed and handed over like a relation; a secret is given its
/// value by `AS`.
pub proof fn law_index_or_secret_altered(
    p: Input,
    i: int,
    conditional: bool,
    k: int,
    n: TreeView,
    l: int,
    m: TreeView,
    e: int,
)
    requires
        if_exists(p, i) == Got::<bool>(conditional, k),
        item_name(p, k) == Got::<TreeView>(n, l),
    ensures
        at_keyword(p, l, Keyword::RENAME) && at_keyword(p, l + 1, Keyword::TO) && identifier(p, l + 2) == Got::<
            TreeView,
        >(m, e) ==> alter_index(p, i) == Got::<TreeView>(renamed(Kind::IndexType, conditional, n, m), e)
            && alter_secret(p, i) == Got::<TreeView>(renamed(Kind::SecretType, conditional, n, m), e),
        at_keyword(p, l, Keyword::OWNER) && at_keyword(p, l + 1, Keyword::TO) && identifier(p, l + 2) == Got::<
            TreeView,
        >(m, e) ==> alter_index(p, i) == Got::<TreeView>(handed_over(Kind::IndexType, conditional, n, m), e)
            && alter_secret(p, i) == Got::<TreeView>(handed_over(Kind::SecretType, conditional, n, m), e),
        at_keyword(p, l, Keyword::AS) && reads(p, l + 1, m, e) ==> alter_secret(p, i) == Got::<TreeView>(
            TreeView::Node(Kind::AlterSecret, seq![n, TreeView::Flag(conditional), m]),
            e,
        ),
{
    let ks = seq![Keyword::RESET, Keyword::SET, Keyword::RENAME, Keyword::OWNER];
    assert(ks[2] == Keyword::RENAME && ks[3] == Keyword::OWNER);
    let ss = seq![Keyword::AS, Keyword::RENAME, Keyword::OWNER];
    assert(ss[0] == Keyword::AS && ss[1] == Keyword::RENAME && ss[2] == Keyword::OWNER);
    if at_keyword(p, l, Keyword::RENAME) {
        lemma_one_of(p, l, ks, 2);
        lemma_one_of(p, l, ss, 1);
    }
    if at_keyword(p, l, Keyword::OWNER) {
        lemma_one_of(p, l, ks, 3);
        lemma_one_of(p, l, ss, 2);
    }
    if at_keyword(p, l, Keyword::AS) {
        lemma_one_of(p, l, ss, 0);
    }
    reveal(alter_index);
    reveal(alter_secret);
    reveal(rename_to);
    reveal(owner_to);
}

/// A database, and a schema, are handed over to the owner that is named.
pub proof fn law_container_handed_over(
    p: Input,
    i: int,
    conditional: bool,
    k: int,
    n: TreeView,
    l: int,
    m: TreeView,
    e: int,
)
    requires
        if_exists(p, i) == Got::<bool>(conditional, k),
        at_keyword(p, l, Keyword::OWNER),
        at_keyword(p, l + 1, Keyword::TO),
        identifier(p, l + 2) == Got::<TreeView>(m, e),
    ensures
        database_name(p, k) == Got::<TreeView>(n, l) ==> alter_database(p, i) == Got::<TreeView>(
            handed_over(Kind::DatabaseType, conditional, n, m),
            e,
        ),
        schema_name(p, k) == Got::<TreeView>(n, l) ==> alter_schema(p, i) == Got::<TreeView>(
            handed_over(Kind::SchemaType, conditional, n, m),
            e,
        ),
{
    reveal(alter_database);
    reveal(alter_schema);
    reveal(owner_to);
}

/// `ALTER SYSTEM SET n TO v` sets a variable of the system, `RESET n` gives it its default back,
/// and `RESET ALL` does so for all of them.
pub proof fn law_system_altered(p: Input, i: int, n: TreeView, j: int, v: TreeView, k: int)
    requires
        at_keyword(p, i, Keyword::SYSTEM),
    ensures
        at_keyword(p, i + 1, Keyword::SET) && identifier(p, i + 2) == Got::<TreeView>(n, j) && (at_keyword(
            p,
            j,
            Keyword::TO,
        ) || at_token(p, j, TokenView::Eq)) && set_variable_to(p, j + 1) == Got::<TreeView>(v, k) ==> alter(p, i)
            == Got::<TreeView>(TreeView::Node(Kind::AlterSystemSet, seq![n, v]), k),
        at_keyword(p, i + 1, Keyword::RESET) && at_keyword(p, i + 2, Keyword::ALL) ==> alter(p, i) == Got::<
            TreeView,
        >(bare(Kind::AlterSystemResetAll), i + 3),
        at_keyword(p, i + 1, Keyword::RESET) && !at_keyword(p, i + 2, Keyword::ALL) && identifier(p, i + 2)
            == Got::<TreeView>(n, j) ==> alter(p, i) == Got::<TreeView>(
            TreeView::Node(Kind::AlterSystemReset, seq![n]),
            j,
        ),
{
    let ks = seq![Keyword::SET, Keyword::RESET];
    assert(ks[0] == Keyword::SET && ks[1] == Keyword::RESET);
    if at_keyword(p, i + 1, Keyword::SET) {
        lemma_one_of(p, i + 1, ks, 0);
    }
    if at_keyword(p, i + 1, Keyword::RESET) {
        lemma_one_of(p, i + 1, ks, 1);
    }
    reveal(alter);
    reveal(alter_system);
    reveal(to_or_equals);
}

/// A variable is set to its default, to a literal, or to a name.
pub proof fn law_variable_set(p: Input, i: int, v: TreeView, j: int)
    ensures
        at_keyword(p, i, Keyword::DEFAULT) ==> set_variable_to(p, i) == Got::<TreeView>(
            bare(Kind::SetToDefault),
            i + 1,
        ) && set_schema_to(p, i) == Got::<TreeView>(bare(Kind::SetToDefault), i + 1),
        value(p, i) == Got::<TreeView>(v, j) ==> set_variable_value(p, i) == Got::<TreeView>(
            TreeView::Node(Kind::LiteralVariable, seq![v]),
            j,
        ),
        value(p, i) is Failed && identifier(p, i) == Got::<TreeView>(v, j) ==> set_variable_value(p, i) == Got::<
            TreeView,
        >(TreeView::Node(Kind::IdentVariable, seq![v]), j),
        value(p, i) is Failed && identifier(p, i) is Failed ==> set_variable_value(p, i) is Failed,
{
    reveal(set_variable_to);
    reveal(set_schema_to);
    reveal(set_variable_value);
}

/// What an attribute says of a role.
pub open spec fn attribute(k: Keyword) -> Option<Kind> {
    match k {
        Keyword::SUPERUSER => Some(Kind::SuperUser),
        Keyword::NOSUPERUSER => Some(Kind::NoSuperUser),
        Keyword::LOGIN => Some(Kind::Login),
        Keyword::NOLOGIN => Some(Kind::NoLogin),
        Keyword::INHERIT => Some(Kind::Inherit),
        Keyword::NOINHERIT => Some(Kind::NoInherit),
        Keyword::CREATECLUSTER => Some(Kind::MayCreateCluster),
        Keyword::NOCREATECLUSTER => Some(Kind::NoCreateCluster),
        Keyword::CREATEDB => Some(Kind::MayCreateDb),
        Keyword::NOCREATEDB => Some(Kind::NoCreateDb),
        Keyword::CREATEROLE => Some(Kind::MayCreateRole),
        Keyword::NOCREATEROLE => Some(Kind::NoCreateRole),
        _ => None,
    }
}

/// A role has the attributes that are named behind it, in their order.
pub proof fn law_role_attributes_read(p: Input, i: int, words: Seq<Keyword>, so_far: Seq<TreeView>)
    requires
        0 <= i,
        i + words.len() <= p.toks.len(),
        forall|n: int| 0 <= n < words.len() ==> at_keyword(p, i + n, #[trigger] words[n]),
        forall|n: int| 0 <= n < words.len() ==> attribute(#[trigger] words[n]) is Some,
        forall|k: Keyword| attribute(k) is Some ==> !#[trigger] at_keyword(p, i + words.len(), k),
    ensures
        role_attributes(p, i, so_far) == Got::<Seq<TreeView>>(
            so_far + words.map_values(|k: Keyword| bare(attribute(k)->0)),
            i + words.len(),
        ),
    decreases words.len(),
{
    let ks = seq![
        Keyword::SUPERUSER,
        Keyword::NOSUPERUSER,
        Keyword::LOGIN,
        Keyword::NOLOGIN,
        Keyword::INHERIT,
        Keyword::NOINHERIT,
        Keyword::CREATECLUSTER,
        Keyword::NOCREATECLUSTER,
        Keyword::CREATEDB,
        Keyword::NOCREATEDB,
        Keyword::CREATEROLE,
        Keyword::NOCREATEROLE,
    ];
    assert(ks[0] == Keyword::SUPERUSER && ks[1] == Keyword::NOSUPERUSER && ks[2] == Keyword::LOGIN && ks[3]
        == Keyword::NOLOGIN && ks[4] == Keyword::INHERIT && ks[5] == Keyword::NOINHERIT && ks[6]
        == Keyword::CREATECLUSTER && ks[7] == Keyword::NOCREATECLUSTER && ks[8] == Keyword::CREATEDB && ks[9]
        == Keyword::NOCREATEDB && ks[10] == Keyword::CREATEROLE && ks[11] == Keyword::NOCREATEROLE);
    assert forall|k: Keyword| ks.contains(k) == (attribute(k) is Some) by {}
    unfold_role_attributes(p, i, so_far);
    if words.len() > 0 {
        let k = words[0];
        let rest = words.drop_first();
        let next = so_far.push(bare(attribute(k)->0));
        assert(at_keyword(p, i + 0, words[0]));
        assert(ks.contains(k));
        assert(one_of(p, i, ks) == Some(k));
        assert forall|n: int| 0 <= n < rest.len() implies at_keyword(p, i + 1 + n, #[trigger] rest[n]) by {
            assert(at_keyword(p, i + (n + 1), words[n + 1]));
        }
        assert forall|n: int| 0 <= n < rest.len() implies attribute(#[trigger] rest[n]) is Some by {
            assert(attribute(words[n + 1]) is Some);
        }
        assert(i + 1 + rest.len() == i + words.len());
        law_role_attributes_read(p, i + 1, rest, next);
        assert(next + rest.map_values(|k: Keyword| bare(attribute(k)->0)) =~= so_far + words.map_values(
            |k: Keyword| bare(attribute(k)->0),
        ));
    } else {
        assert(one_of(p, i, ks) is None) by {
            if one_of(p, i, ks) is Some {
                let k = one_of(p, i, ks)->0;
                assert(ks.contains(k) && at_keyword(p, i + words.len(), k));
            }
        }
        assert(so_far + words.map_values(|k: Keyword| bare(attribute(k)->0)) =~= so_far);
    }
}

/// A role is created, or altered, with its attributes, with or without `WITH`.
pub proof fn law_role_read(p: Input, i: int, n: TreeView, j: int, os: Seq<TreeView>, k: int)
    requires
        identifier(p, i + 1) == Got::<TreeView>(n, j),
        role_attributes(
            p,
            if at_keyword(p, j, Keyword::WITH) {
                j + 1
            } else {
                j
            },
            Seq::<TreeView>::empty(),
        ) == Got::<Seq<TreeView>>(os, k),
    ensures
        at_keyword(p, i, Keyword::ROLE) ==> create_role(p, i) == Got::<TreeView>(
            TreeView::Node(Kind::CreateRole, seq![n, TreeView::List(os)]),
            k,
        ),
        alter_role(p, i + 1) == Got::<TreeView>(TreeView::Node(Kind::AlterRole, seq![n, TreeView::List(os)]), k),
{
    reveal(create_role);
    reveal(alter_role);
}

/// A database, a schema and a secret are created under the name that is given, and it is no
/// error that they exist exactly where `IF NOT EXISTS` stands.
pub proof fn law_containers_created(
    p: Input,
    i: int,
    conditional: bool,
    j: int,
    n: TreeView,
    k: int,
    v: TreeView,
    e: int,
)
    requires
        if_not_exists(p, i + 1) == Got::<bool>(conditional, j),
    ensures
        at_keyword(p, i, Keyword::DATABASE) && database_name(p, j) == Got::<TreeView>(n, k) ==> create_database(p, i)
            == Got::<TreeView>(TreeView::Node(Kind::CreateDatabase, seq![n, TreeView::Flag(conditional)]), k),
        at_keyword(p, i, Keyword::SCHEMA) && schema_name(p, j) == Got::<TreeView>(n, k) ==> create_schema(p, i)
            == Got::<TreeView>(TreeView::Node(Kind::CreateSchema, seq![n, TreeView::Flag(conditional)]), k),
        at_keyword(p, i, Keyword::SECRET) && item_name(p, j) == Got::<TreeView>(n, k) && at_keyword(
            p,
            k,
            Keyword::AS,
        ) && reads(p, k + 1, v, e) ==> create_secret(p, i) == Got::<TreeView>(
            TreeView::Node(Kind::CreateSecret, seq![n, TreeView::Flag(conditional), v]),
            e,
        ),
{
    reveal(create_database);
    reveal(create_schema);
    reveal(create_secret);
}

/// A materialized view is the query that stands behind `AS`.
pub proof fn law_materialized_view_read(
    p: Input,
    i: int,
    replace: bool,
    j: int,
    conflict: TreeView,
    k: int,
    n: TreeView,
    l: int,
    cs: TreeView,
    m: int,
    c: TreeView,
    o: int,
    q: TreeView,
    e: int,
)
    requires
        or_replace(p, i) == Got::<bool>(replace, j),
        at_keyword(p, j, Keyword::MATERIALIZED),
        at_keyword(p, j + 1, Keyword::VIEW),
        if_exists_behavior(p, j + 2, replace) == Got::<TreeView>(conflict, k),
        item_name(p, k) == Got::<TreeView>(n, l),
        parenthesized_column_list(p, l, true) == Got::<TreeView>(cs, m),
        optional_in_cluster(p, m) == Got::<TreeView>(c, o),
        at_keyword(p, o, Keyword::AS),
        query(p, o + 1) == Got::<TreeView>(q, e),
    ensures
        create_materialized_view(p, i) == Got::<TreeView>(
            TreeView::Node(Kind::CreateMaterializedView, seq![conflict, n, cs, c, q]),
            e,
        ),
{
    reveal(create_materialized_view);
}

/// An index on columns has the columns that are listed as its key; a default index has none of
/// its own.
pub proof fn law_index_read(
    p: Input,
    i: int,
    conditional: bool,
    j: int,
    n: TreeView,
    k: int,
    t: TreeView,
    l: int,
    parts: Seq<TreeView>,
    e: int,
)
    requires
        if_not_exists(p, i + 1) == Got::<bool>(conditional, j),
        at_keyword(p, i, Keyword::INDEX),
        !at_keyword(p, j, Keyword::IN),
        !at_keyword(p, j, Keyword::ON),
        identifier(p, j) == Got::<TreeView>(n, k),
        at_keyword(p, k, Keyword::ON),
        raw_name(p, k + 1) == Got::<TreeView>(t, l),
        at_token(p, l, TokenView::LParen),
        order_by_expr_list(p, l + 1, Seq::<TreeView>::empty()) == Got::<Seq<TreeView>>(parts, e),
        at_token(p, e, TokenView::RParen),
        !at_token(p, l + 1, TokenView::RParen),
        !at_keyword(p, e + 1, Keyword::WITH),
    ensures
        create_index(p, i) == Got::<TreeView>(
            TreeView::Node(
                Kind::CreateIndex,
                seq![
                    n,
                    TreeView::Absent,
                    t,
                    TreeView::List(first_children(parts)),
                    TreeView::List(Seq::<TreeView>::empty()),
                    TreeView::Flag(conditional),
                ],
            ),
            e + 1,
        ),
{
    reveal(create_index);
    reveal(optional_in_cluster);
    reveal(using_arrangement);
}

/// What is to be explained is the stage that is named, and the optimized plan where none is.
pub proof fn law_explained_stages(p: Input, i: int)
    ensures
        at_keyword(p, i, Keyword::RAW) && at_keyword(p, i + 1, Keyword::PLAN) ==> explain_stage(p, i) == Got::<
            TreeView,
        >(bare(Kind::RawPlan), i + 2),
        at_keyword(p, i, Keyword::DECORRELATED) && at_keyword(p, i + 1, Keyword::PLAN) ==> explain_stage(p, i)
            == Got::<TreeView>(bare(Kind::DecorrelatedPlan), i + 2),
        at_keyword(p, i, Keyword::OPTIMIZED) && at_keyword(p, i + 1, Keyword::PLAN) ==> explain_stage(p, i)
            == Got::<TreeView>(bare(Kind::OptimizedPlan), i + 2),
        at_keyword(p, i, Keyword::PHYSICAL) && at_keyword(p, i + 1, Keyword::PLAN) ==> explain_stage(p, i)
            == Got::<TreeView>(bare(Kind::PhysicalPlan), i + 2),
        at_keyword(p, i, Keyword::PLAN) ==> explain_stage(p, i) == Got::<TreeView>(
            bare(Kind::OptimizedPlan),
            i + 1,
        ),
        at_keyword(p, i, Keyword::OPTIMIZER) && at_keyword(p, i + 1, Keyword::TRACE) ==> explain_stage(p, i)
            == Got::<TreeView>(bare(Kind::Trace), i + 2),
        at_keyword(p, i, Keyword::TIMESTAMP) ==> explain_stage(p, i) == Got::<TreeView>(
            bare(Kind::TimestampStage),
            i + 1,
        ),
{
    let ks = seq![
        Keyword::RAW,
        Keyword::DECORRELATED,
        Keyword::OPTIMIZED,
        Keyword::PHYSICAL,
        Keyword::PLAN,
        Keyword::OPTIMIZER,
        Keyword::QUERY,
        Keyword::TIMESTAMP,
    ];
    assert(ks[0] == Keyword::RAW && ks[1] == Keyword::DECORRELATED && ks[2] == Keyword::OPTIMIZED && ks[3]
        == Keyword::PHYSICAL && ks[4] == Keyword::PLAN && ks[5] == Keyword::OPTIMIZER && ks[7]
        == Keyword::TIMESTAMP);
    assert(ks.contains(Keyword::RAW) && ks.contains(Keyword::DECORRELATED) && ks.contains(Keyword::OPTIMIZED)
        && ks.contains(Keyword::PHYSICAL) && ks.contains(Keyword::PLAN) && ks.contains(Keyword::OPTIMIZER)
        && ks.contains(Keyword::TIMESTAMP));
    reveal(explain_stage);
}

/// `EXPLAIN .. AS f FOR q` explains `q` in the format `f`, and in text where none is named;
/// errors are left out exactly where `BROKEN` stands.
pub proof fn law_explain_read(p: Input, i: int, stage: TreeView, j: int, f: Option<Keyword>, broken: bool, q: TreeView, e: int)
    requires
        f is None || f == Some(Keyword::TEXT) || f == Some(Keyword::JSON) || f == Some(Keyword::DOT),
        explain_stage(p, i) == Got::<TreeView>(stage, j),
        !(stage is Absent),
        !at_keyword(p, j, Keyword::WITH),
        at_keyword(p, j, Keyword::AS) == (f is Some),
        f is Some ==> at_keyword(p, j + 1, f->0),
        ({
            let at = if f is Some {
                j + 2
            } else {
                j
            };
            let from = if broken {
                at + 2
            } else {
                at + 1
            };
            &&& at_keyword(p, at, Keyword::FOR)
            &&& at_keyword(p, at + 1, Keyword::BROKEN) == broken
            &&& !at_keyword(p, from, Keyword::VIEW)
            &&& !at_keyword(p, from, Keyword::MATERIALIZED)
            &&& query(p, from) == Got::<TreeView>(q, e)
        }),
    ensures
        explain(p, i) == Got::<TreeView>(
            TreeView::Node(
                Kind::Explain,
                seq![
                    stage,
                    TreeView::List(Seq::<TreeView>::empty()),
                    bare(
                        match f {
                            Some(Keyword::JSON) => Kind::ExplainJson,
                            Some(Keyword::DOT) => Kind::ExplainDot,
                            _ => Kind::ExplainText,
                        },
                    ),
                    TreeView::Flag(broken),
                    TreeView::Node(Kind::ExplainQuery, seq![q]),
                ],
            ),
            e,
        ),
{
    let ks = seq![Keyword::TEXT, Keyword::JSON, Keyword::DOT];
    assert(ks[0] == Keyword::TEXT && ks[1] == Keyword::JSON && ks[2] == Keyword::DOT);
    assert(ks.contains(Keyword::TEXT) && ks.contains(Keyword::JSON) && ks.contains(Keyword::DOT));
    if f is Some {
        assert(one_of(p, j + 1, ks) == f);
    }
    reveal(explain);
}

/// A cursor is declared for the statement behind `FOR`.
pub proof fn law_cursor_read(p: Input, i: int, n: TreeView, j: int, without_hold: bool, s: TreeView, e: int)
    requires
        0 <= i < j <= p.toks.len(),
        identifier(p, i) == Got::<TreeView>(n, j),
        at_keyword(p, j, Keyword::CURSOR),
        at_keyword(p, j + 1, Keyword::WITHOUT) == without_hold,
        without_hold ==> at_keyword(p, j + 2, Keyword::HOLD),
        ({
            let at = if without_hold {
                j + 3
            } else {
                j + 1
            };
            &&& at_keyword(p, at, Keyword::FOR)
            &&& statement(p, at + 1) == Got::<TreeView>(s, e)
        }),
    ensures
        declare(p, i) == Got::<TreeView>(TreeView::Node(Kind::Declare, seq![n, s]), e),
{
    unfold_declare(p, i);
}

/// Only a query, an insertion, a deletion or an update can be prepared.
pub proof fn law_prepare_read(p: Input, i: int, n: TreeView, j: int, s: TreeView, e: int)
    requires
        0 <= i < j <= p.toks.len(),
        identifier(p, i) == Got::<TreeView>(n, j),
        at_keyword(p, j, Keyword::AS),
        statement(p, j + 1) == Got::<TreeView>(s, e),
    ensures
        is_node(s, Kind::SelectStatement) || is_node(s, Kind::Insert) || is_node(s, Kind::Delete) || is_node(
            s,
            Kind::Update,
        ) ==> prepare(p, i) == Got::<TreeView>(TreeView::Node(Kind::Prepare, seq![n, s]), e),
        !is_node(s, Kind::SelectStatement) && !is_node(s, Kind::Insert) && !is_node(s, Kind::Delete) && !is_node(
            s,
            Kind::Update,
        ) ==> prepare(p, i) is Failed,
{
    unfold_prepare(p, i);
}

/// `FETCH n FROM c` fetches `n` rows from the cursor `c`, `FETCH ALL FROM c` all of them, and
/// `FETCH c` as many as there are to be had at once.
pub proof fn law_fetch_rows_read(p: Input, i: int, n: u64, j: int, c: TreeView, e: int)
    requires
        !at_keyword(p, i, Keyword::FORWARD),
        !at_keyword(p, e, Keyword::WITH),
    ensures
        literal_uint(p, i) == Got::<u64>(n, j) && at_keyword(p, j, Keyword::FROM) && identifier(p, j + 1) == Got::<
            TreeView,
        >(c, e) ==> fetch(p, i) == Got::<TreeView>(
            TreeView::Node(
                Kind::Fetch,
                seq![
                    c,
                    TreeView::Node(Kind::ForwardCount, seq![TreeView::Num(n)]),
                    TreeView::List(Seq::<TreeView>::empty()),
                ],
            ),
            e,
        ),
        literal_uint(p, i) is Failed && at_keyword(p, i, Keyword::ALL) && at_keyword(p, i + 1, Keyword::FROM)
            && identifier(p, i + 2) == Got::<TreeView>(c, e) ==> fetch(p, i) == Got::<TreeView>(
            TreeView::Node(
                Kind::Fetch,
                seq![c, bare(Kind::ForwardAll), TreeView::List(Seq::<TreeView>::empty())],
            ),
            e,
        ),
        literal_uint(p, i) is Failed && !at_keyword(p, i, Keyword::ALL) && !at_keyword(p, i, Keyword::FROM)
            && identifier(p, i) == Got::<TreeView>(c, e) ==> fetch(p, i) == Got::<TreeView>(
            TreeView::Node(
                Kind::Fetch,
                seq![c, TreeView::Absent, TreeView::List(Seq::<TreeView>::empty())],
            ),
            e,
        ),
{
    reveal(fetch);
}

/// A message is raised with the severity that is named.
pub proof fn law_raise_read(p: Input, i: int)
    ensures
        at_keyword(p, i, Keyword::DEBUG) ==> raise(p, i) == Got::<TreeView>(
            TreeView::Node(Kind::Raise, seq![bare(Kind::DebugSeverity)]),
            i + 1,
        ),
        at_keyword(p, i, Keyword::INFO) ==> raise(p, i) == Got::<TreeView>(
            TreeView::Node(Kind::Raise, seq![bare(Kind::InfoSeverity)]),
            i + 1,
        ),
        at_keyword(p, i, Keyword::LOG) ==> raise(p, i) == Got::<TreeView>(
            TreeView::Node(Kind::Raise, seq![bare(Kind::LogSeverity)]),
            i + 1,
        ),
        at_keyword(p, i, Keyword::NOTICE) ==> raise(p, i) == Got::<TreeView>(
            TreeView::Node(Kind::Raise, seq![bare(Kind::NoticeSeverity)]),
            i + 1,
        ),
        at_keyword(p, i, Keyword::WARNING) ==> raise(p, i) == Got::<TreeView>(
            TreeView::Node(Kind::Raise, seq![bare(Kind::WarningSeverity)]),
            i + 1,
        ),
{
    let ks = seq![Keyword::DEBUG, Keyword::INFO, Keyword::LOG, Keyword::NOTICE, Keyword::WARNING];
    assert(ks[0] == Keyword::DEBUG && ks[1] == Keyword::INFO && ks[2] == Keyword::LOG && ks[3] == Keyword::NOTICE
        && ks[4] == Keyword::WARNING);
    assert(ks.contains(Keyword::DEBUG) && ks.contains(Keyword::INFO) && ks.contains(Keyword::LOG) && ks.contains(
        Keyword::NOTICE,
    ) && ks.contains(Keyword::WARNING));
    reveal(raise);
}

/// What is shown is filtered by a pattern, by a condition, or not at all.
pub proof fn law_show_filters_read(p: Input, i: int, s: Seq<char>, c: TreeView, e: int)
    requires
        0 <= i,
    ensures
        at_keyword(p, i, Keyword::LIKE) && at_token(p, i + 1, TokenView::String(s)) ==> show_statement_filter(p, i)
            == Got::<TreeView>(TreeView::Node(Kind::LikeFilter, seq![TreeView::Text(s)]), i + 2),
        at_keyword(p, i, Keyword::WHERE) && reads(p, i + 1, c, e) ==> show_statement_filter(p, i) == Got::<
            TreeView,
        >(TreeView::Node(Kind::WhereFilter, seq![c]), e),
        !at_keyword(p, i, Keyword::LIKE) && !at_keyword(p, i, Keyword::WHERE) ==> show_statement_filter(p, i)
            == Got::<TreeView>(TreeView::Absent, i),
{
    reveal(literal_string);
    unfold_show_statement_filter(p, i);
}

/// `SHOW COLUMNS FROM t` shows the columns of `t` that pass the filter.
pub proof fn law_show_columns_read(p: Input, i: int, t: TreeView, j: int, f: TreeView, e: int)
    requires
        0 <= i,
        at_keyword(p, i, Keyword::FROM) || at_keyword(p, i, Keyword::IN),
        raw_name(p, i + 1) == Got::<TreeView>(t, j),
        i + 1 < j <= p.toks.len(),
        show_statement_filter(p, j) == Got::<TreeView>(f, e),
    ensures
        show_columns(p, i) == Got::<TreeView>(TreeView::Node(Kind::ShowColumns, seq![t, f]), e),
{
    let ks = seq![Keyword::FROM, Keyword::IN];
    assert(ks[0] == Keyword::FROM && ks[1] == Keyword::IN);
    assert(ks.contains(Keyword::FROM) && ks.contains(Keyword::IN));
    unfold_show_columns(p, i);
}

/// What the listed roles own goes to another role, or is dropped.
pub proof fn law_owned_read(p: Input, i: int, rs: Seq<TreeView>, j: int, r: TreeView, e: int, behavior: Kind)
    ensures
        at_keyword(p, i, Keyword::OWNED) && at_keyword(p, i + 1, Keyword::BY) && identifier_list(
            p,
            i + 2,
            Seq::<TreeView>::empty(),
        ) == Got::<Seq<TreeView>>(rs, j) && at_keyword(p, j, Keyword::TO) && identifier(p, j + 1) == Got::<
            TreeView,
        >(r, e) ==> reassign_owned(p, i) == Got::<TreeView>(
            TreeView::Node(Kind::ReassignOwned, seq![TreeView::List(rs), r]),
            e,
        ),
        at_keyword(p, i, Keyword::BY) && identifier_list(p, i + 1, Seq::<TreeView>::empty()) == Got::<
            Seq<TreeView>,
        >(rs, j) && drop_behavior(p, j) == Got::<Kind>(behavior, e) ==> drop_owned(p, i) == Got::<TreeView>(
            TreeView::Node(Kind::DropOwned, seq![TreeView::List(rs), TreeView::Flag(behavior == Kind::Cascade)]),
            e,
        ),
{
    reveal(reassign_owned);
    reveal(drop_owned);
}

/// `UP TO t` ends a subscription at `t`.
pub proof fn law_up_to_read(p: Input, i: int, t: TreeView, e: int)
    ensures
        at_keyword(p, i, Keyword::UP) && at_keyword(p, i + 1, Keyword::TO) && reads(p, i + 2, t, e)
            ==> optional_up_to(p, i) == Got::<TreeView>(t, e),
        !at_keyword(p, i, Keyword::UP) ==> optional_up_to(p, i) == Got::<TreeView>(TreeView::Absent, i),
{
    reveal(optional_up_to);
}

} // verus!
