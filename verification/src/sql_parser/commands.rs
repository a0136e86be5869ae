//! What statements come to.

use vstd::prelude::*;

use crate::sql_parser::alignment::create::unfold_column_list;
use crate::sql_parser::alignment::grant::unfold_privileges;
use crate::sql_parser::alignment::statement::{unfold_copy, unfold_statement, unfold_transaction_modes};
use crate::sql_parser::alter::{drop_behavior, drop_statement, expect_object_type};
use crate::sql_parser::as_of::optional_as_of;
use crate::sql_parser::clauses::{fine_query, query_tree, written_query, QueryTerm};
use crate::sql_parser::constructs::reads;
use crate::sql_parser::create::{column_def, column_list, column_option_def, columns, create_table, if_exists, if_exists_behavior, if_not_exists, optional_table_constraint, or_replace, temporary, view_definition};
use crate::sql_parser::grant::{grant, grant_privilege, grant_role, grant_target_specification, object_type, privileges, revoke, revoke_privilege, revoke_role, role_specification_list};
use crate::sql_parser::keywords::Keyword;
use crate::sql_parser::kind::Kind;
use crate::sql_parser::names::{
    identifier, item_name, item_name_list, optional_alias, optional_table_alias, parenthesized_column_list, raw_name,
};
use crate::sql_parser::outcome::Out::{Failed, Got};
use crate::sql_parser::parse::{input_of, statements_of};
use crate::sql_parser::outcome::FailureView;
use crate::sql_parser::parser::{at_keyword, at_keywords2, at_token, one_of, token_at, Input};
use crate::sql_parser::query::query;
use crate::sql_parser::query_reading::law_query_read;
use crate::sql_parser::select::where_clause;
use crate::sql_parser::statement::{assignment, assignment_list, begin, close, commit, commit_rollback_chain, copy, deallocate, delete, discard, execute, insert, isolation_level, returning, rollback, skip_transaction_word, start_transaction, statement, statements, transaction_modes, update};
use crate::sql_parser::syntax::TreeView;
use crate::sql_parser::token::TokenView;

verus! {

/// A construct without parts.
pub open spec fn bare(k: Kind) -> TreeView {
    TreeView::Node(k, Seq::<TreeView>::empty())
}

pub(crate) proof fn lemma_one_of(p: Input, i: int, ks: Seq<Keyword>, n: int)
    requires
        0 <= n < ks.len(),
        at_keyword(p, i, ks[n]),
    ensures
        one_of(p, i, ks) == Some(ks[n]),
{
    assert(ks.contains(ks[n]));
}

/// A query that is a text of its own is the only statement of the text.
pub proof fn law_query_statement(sql: Seq<char>, toks: Seq<(TokenView, int)>, x: QueryTerm)
    requires
        crate::sql_parser::lexer::tokens_of(sql) == Ok::<
            Seq<(TokenView, int)>,
            crate::sql_parser::lexer::Blame,
        >(toks),
        toks.map_values(|t: (TokenView, int)| t.0) == written_query(x),
        fine_query(x, 1),
        toks.len() > 0,
        toks[0].0 == TokenView::Keyword(Keyword::SELECT) || toks[0].0 == TokenView::Keyword(Keyword::VALUES),
    ensures
        statements_of(sql) == Ok::<Seq<TreeView>, FailureView>(
            seq![TreeView::Node(Kind::SelectStatement, seq![query_tree(x), TreeView::Absent])],
        ),
{
    let p = input_of(sql, toks);
    let ts = toks.map_values(|t: (TokenView, int)| t.0);
    assert forall|k: int| 0 <= k < ts.len() implies #[trigger] token_at(p, 0 + k) == Some(ts[k]) by {}
    law_query_read(p, 0, x);
    let end = toks.len() as int;
    let s = TreeView::Node(Kind::SelectStatement, seq![query_tree(x), TreeView::Absent]);
    reveal(optional_as_of);
    unfold_statement(p, 0);
    assert(statement(p, 0) == Got::<TreeView>(s, end));
    reveal(statements);
    let none = Seq::<TreeView>::empty();
    assert(statements(p, end, true, none.push(s)) == Got::<Seq<TreeView>>(none.push(s), end));
    assert(none.push(s) =~= seq![s]);
}

/// The first keyword of a statement says what kind of statement it is.
pub proof fn law_statement_kinds(p: Input, i: int)
    ensures
        at_keyword(p, i, Keyword::DELETE) ==> statement(p, i) == delete(p, i + 1),
        at_keyword(p, i, Keyword::INSERT) ==> statement(p, i) == insert(p, i + 1),
        at_keyword(p, i, Keyword::UPDATE) ==> statement(p, i) == update(p, i + 1),
        at_keyword(p, i, Keyword::DROP) ==> statement(p, i) == drop_statement(p, i + 1),
        at_keyword(p, i, Keyword::COPY) ==> statement(p, i) == copy(p, i + 1),
        at_keyword(p, i, Keyword::GRANT) ==> statement(p, i) == grant(p, i + 1),
        at_keyword(p, i, Keyword::REVOKE) ==> statement(p, i) == revoke(p, i + 1),
        at_keyword(p, i, Keyword::COMMIT) ==> statement(p, i) == commit(p, i + 1),
        at_keyword(p, i, Keyword::ROLLBACK) ==> statement(p, i) == rollback(p, i + 1),
        at_keyword(p, i, Keyword::BEGIN) ==> statement(p, i) == begin(p, i + 1),
        at_keyword(p, i, Keyword::START) ==> statement(p, i) == start_transaction(p, i + 1),
        at_keyword(p, i, Keyword::CLOSE) ==> statement(p, i) == close(p, i + 1),
        at_keyword(p, i, Keyword::EXECUTE) ==> statement(p, i) == execute(p, i + 1),
        at_keyword(p, i, Keyword::DEALLOCATE) ==> statement(p, i) == deallocate(p, i + 1),
        at_keyword(p, i, Keyword::DISCARD) ==> statement(p, i) == discard(p, i + 1),
        token_at(p, i) is None ==> statement(p, i) is Failed,
{
    unfold_statement(p, i);
}

/// `DELETE FROM t WHERE c` deletes from `t` where `c`.
pub proof fn law_delete_read(p: Input, i: int, t: TreeView, j: int, alias: TreeView, k: int, c: TreeView, l: int)
    requires
        at_keyword(p, i, Keyword::FROM),
        item_name(p, i + 1) == Got::<TreeView>(t, j),
        optional_table_alias(p, j) == Got::<TreeView>(alias, k),
        !at_keyword(p, k, Keyword::USING),
        where_clause(p, k) == Got::<TreeView>(c, l),
    ensures
        delete(p, i) == Got::<TreeView>(
            TreeView::Node(
                Kind::Delete,
                seq![t, alias, TreeView::List(Seq::<TreeView>::empty()), c],
            ),
            l,
        ),
{
    reveal(delete);
}

/// `INSERT INTO t (..) q` inserts the rows of `q` into the columns that are listed.
pub proof fn law_insert_read(p: Input, i: int, t: TreeView, j: int, cs: TreeView, k: int, q: TreeView, l: int)
    requires
        at_keyword(p, i, Keyword::INTO),
        raw_name(p, i + 1) == Got::<TreeView>(t, j),
        parenthesized_column_list(p, j, true) == Got::<TreeView>(cs, k),
    ensures
        !at_keyword(p, k, Keyword::DEFAULT) && query(p, k) == Got::<TreeView>(q, l) && !at_keyword(
            p,
            l,
            Keyword::RETURNING,
        ) ==> insert(p, i) == Got::<TreeView>(
            TreeView::Node(Kind::Insert, seq![t, cs, q, TreeView::List(Seq::<TreeView>::empty())]),
            l,
        ),
        at_keyword(p, k, Keyword::DEFAULT) && at_keyword(p, k + 1, Keyword::VALUES) && !at_keyword(
            p,
            k + 2,
            Keyword::RETURNING,
        ) ==> insert(p, i) == Got::<TreeView>(
            TreeView::Node(
                Kind::Insert,
                seq![t, cs, bare(Kind::DefaultValues), TreeView::List(Seq::<TreeView>::empty())],
            ),
            k + 2,
        ),
{
    reveal(insert);
    reveal(returning);
}

/// `UPDATE t SET .. WHERE c` makes the assignments where `c`.
pub proof fn law_update_read(p: Input, i: int, t: TreeView, j: int, xs: Seq<TreeView>, k: int, c: TreeView, l: int)
    requires
        item_name(p, i) == Got::<TreeView>(t, j),
        optional_alias(p, j, true) == Got::<TreeView>(TreeView::Absent, j),
        at_keyword(p, j, Keyword::SET),
        assignment_list(p, j + 1, Seq::empty()) == Got::<Seq<TreeView>>(xs, k),
        where_clause(p, k) == Got::<TreeView>(c, l),
    ensures
        update(p, i) == Got::<TreeView>(
            TreeView::Node(Kind::Update, seq![t, TreeView::Absent, TreeView::List(xs), c]),
            l,
        ),
{
    reveal(update);
}

/// `a = e` assigns `e` to `a`.
pub proof fn law_assignment_read(p: Input, i: int, a: Seq<char>, e: TreeView, j: int)
    requires
        at_token(p, i, TokenView::Ident(a)),
        a.len() > 0,
        at_token(p, i + 1, TokenView::Eq),
        reads(p, i + 2, e, j),
    ensures
        assignment(p, i) == Got::<TreeView>(
            TreeView::Node(Kind::Assignment, seq![TreeView::Text(a), e]),
            j,
        ),
{
    reveal(assignment);
    reveal(identifier);
}

/// `COPY t TO STDOUT` copies out of a table, `COPY t FROM STDIN` into it.
pub proof fn law_copy_read(p: Input, i: int, t: TreeView, j: int, cs: TreeView, k: int)
    requires
        !at_token(p, i, TokenView::LParen),
        raw_name(p, i) == Got::<TreeView>(t, j),
        i < j <= p.toks.len(),
        parenthesized_column_list(p, j, true) == Got::<TreeView>(cs, k),
        j <= k <= p.toks.len(),
        !at_keyword(p, k + 2, Keyword::WITH),
        !at_token(p, k + 2, TokenView::LParen),
    ensures
        ({
            let table = TreeView::Node(Kind::CopyTable, seq![t, cs]);
            let none = TreeView::List(Seq::<TreeView>::empty());
            &&& at_keyword(p, k, Keyword::TO) && at_keyword(p, k + 1, Keyword::STDOUT) ==> copy(p, i) == Got::<
                TreeView,
            >(TreeView::Node(Kind::Copy, seq![table, bare(Kind::CopyTo), none]), k + 2)
            &&& at_keyword(p, k, Keyword::FROM) && at_keyword(p, k + 1, Keyword::STDIN) ==> copy(p, i)
                == Got::<TreeView>(
                TreeView::Node(Kind::Copy, seq![table, bare(Kind::CopyFrom), none]),
                k + 2,
            )
        }),
{
    let ks = seq![Keyword::FROM, Keyword::TO];
    assert(ks[0] == Keyword::FROM && ks[1] == Keyword::TO);
    if at_keyword(p, k, Keyword::TO) {
        lemma_one_of(p, k, ks, 1);
    }
    if at_keyword(p, k, Keyword::FROM) {
        lemma_one_of(p, k, ks, 0);
    }
    unfold_copy(p, i);
}

/// A transaction is followed by another exactly where `AND CHAIN` is written, without a `NO`.
pub proof fn law_chain_read(p: Input, i: int)
    requires
        !at_keyword(p, i, Keyword::TRANSACTION),
        !at_keyword(p, i, Keyword::WORK),
    ensures
        at_keyword(p, i, Keyword::AND) && at_keyword(p, i + 1, Keyword::CHAIN) ==> commit(p, i) == Got::<
            TreeView,
        >(TreeView::Node(Kind::Commit, seq![TreeView::Flag(true)]), i + 2) && rollback(p, i) == Got::<
            TreeView,
        >(TreeView::Node(Kind::Rollback, seq![TreeView::Flag(true)]), i + 2),
        at_keyword(p, i, Keyword::AND) && at_keyword(p, i + 1, Keyword::NO) && at_keyword(
            p,
            i + 2,
            Keyword::CHAIN,
        ) ==> commit(p, i) == Got::<TreeView>(
            TreeView::Node(Kind::Commit, seq![TreeView::Flag(false)]),
            i + 3,
        ) && rollback(p, i) == Got::<TreeView>(
            TreeView::Node(Kind::Rollback, seq![TreeView::Flag(false)]),
            i + 3,
        ),
        !at_keyword(p, i, Keyword::AND) ==> commit(p, i) == Got::<TreeView>(
            TreeView::Node(Kind::Commit, seq![TreeView::Flag(false)]),
            i,
        ) && rollback(p, i) == Got::<TreeView>(
            TreeView::Node(Kind::Rollback, seq![TreeView::Flag(false)]),
            i,
        ),
{
    let ks = seq![Keyword::TRANSACTION, Keyword::WORK];
    if let Some(TokenView::Keyword(x)) = token_at(p, i) {
        if ks.contains(x) {
            let n = ks.index_of(x);
            assert(ks[n] == x);
        }
    }
    reveal(commit);
    reveal(rollback);
    reveal(commit_rollback_chain);
    reveal(skip_transaction_word);
}

/// Isolation levels are those that are named.
pub proof fn law_isolation_read(p: Input, i: int)
    ensures
        at_keywords2(p, i, Keyword::READ, Keyword::UNCOMMITTED) ==> isolation_level(p, i) == Got::<TreeView>(
            bare(Kind::ReadUncommitted),
            i + 2,
        ),
        at_keywords2(p, i, Keyword::READ, Keyword::COMMITTED) ==> isolation_level(p, i) == Got::<TreeView>(
            bare(Kind::ReadCommitted),
            i + 2,
        ),
        at_keywords2(p, i, Keyword::REPEATABLE, Keyword::READ) ==> isolation_level(p, i) == Got::<TreeView>(
            bare(Kind::RepeatableRead),
            i + 2,
        ),
        at_keyword(p, i, Keyword::SERIALIZABLE) ==> isolation_level(p, i) == Got::<TreeView>(
            bare(Kind::Serializable),
            i + 1,
        ),
        at_keywords2(p, i, Keyword::STRICT, Keyword::SERIALIZABLE) ==> isolation_level(p, i) == Got::<
            TreeView,
        >(bare(Kind::StrictSerializable), i + 2),
{
    reveal(isolation_level);
}

/// Transactions that only read and those that write are told apart.
pub proof fn law_access_read(p: Input, i: int, required: bool, modes: Seq<TreeView>)
    requires
        !at_token(p, i + 2, TokenView::Comma),
    ensures
        at_keywords2(p, i, Keyword::READ, Keyword::ONLY) ==> transaction_modes(p, i, required, modes)
            == transaction_modes(p, i + 2, false, modes.push(bare(Kind::ReadOnlyMode))),
        at_keywords2(p, i, Keyword::READ, Keyword::WRITE) ==> transaction_modes(p, i, required, modes)
            == transaction_modes(p, i + 2, false, modes.push(bare(Kind::ReadWriteMode))),
{
    unfold_transaction_modes(p, i, required, modes);
}

/// Whether something may exist already, or has to, is said by `IF`.
pub proof fn law_if_exists_read(p: Input, i: int)
    ensures
        at_keyword(p, i, Keyword::IF) && at_keyword(p, i + 1, Keyword::EXISTS) ==> if_exists(p, i) == Got::<
            bool,
        >(true, i + 2),
        !at_keyword(p, i, Keyword::IF) ==> if_exists(p, i) == Got::<bool>(false, i) && if_not_exists(p, i)
            == Got::<bool>(false, i),
        at_keyword(p, i, Keyword::IF) && at_keyword(p, i + 1, Keyword::NOT) && at_keyword(
            p,
            i + 2,
            Keyword::EXISTS,
        ) ==> if_not_exists(p, i) == Got::<bool>(true, i + 3),
{
    reveal(if_exists);
    reveal(if_not_exists);
}

/// What is dropped with an object is said by `CASCADE` and `RESTRICT`; both at once are refused.
pub proof fn law_drop_behavior_read(p: Input, i: int)
    ensures
        at_keyword(p, i, Keyword::CASCADE) && !at_keyword(p, i + 1, Keyword::RESTRICT) ==> drop_behavior(p, i)
            == Got::<Kind>(Kind::Cascade, i + 1),
        at_keyword(p, i, Keyword::RESTRICT) && !at_keyword(p, i + 1, Keyword::CASCADE) ==> drop_behavior(p, i)
            == Got::<Kind>(Kind::Restrict, i + 1),
        at_keyword(p, i, Keyword::CASCADE) && at_keyword(p, i + 1, Keyword::RESTRICT) ==> drop_behavior(p, i)
            is Failed,
        !at_keyword(p, i, Keyword::CASCADE) && !at_keyword(p, i, Keyword::RESTRICT) ==> drop_behavior(p, i)
            == Got::<Kind>(Kind::NoType, i),
{
    reveal(drop_behavior);
}

/// The type of an object that a keyword names.
pub open spec fn type_named(k: Keyword) -> Kind {
    match k {
        Keyword::TABLE => Kind::TableType,
        Keyword::VIEW => Kind::ViewType,
        Keyword::SOURCE => Kind::SourceType,
        Keyword::SINK => Kind::SinkType,
        Keyword::INDEX => Kind::IndexType,
        Keyword::TYPE => Kind::TypeType,
        Keyword::ROLE => Kind::RoleType,
        Keyword::USER => Kind::RoleType,
        Keyword::SECRET => Kind::SecretType,
        Keyword::CONNECTION => Kind::ConnectionType,
        Keyword::DATABASE => Kind::DatabaseType,
        Keyword::SCHEMA => Kind::SchemaType,
        _ => Kind::FuncType,
    }
}

/// Whether a keyword alone names a type of objects.
pub open spec fn names_type(k: Keyword) -> bool {
    k == Keyword::TABLE || k == Keyword::VIEW || k == Keyword::SOURCE || k == Keyword::SINK || k
        == Keyword::INDEX || k == Keyword::TYPE || k == Keyword::ROLE || k == Keyword::USER || k
        == Keyword::SECRET || k == Keyword::CONNECTION || k == Keyword::DATABASE || k == Keyword::SCHEMA
}

/// Types of objects are named by keywords, the same in each statement; materialized views and
/// cluster replicas by two.
pub proof fn law_object_types_read(p: Input, i: int, k: Keyword)
    ensures
        names_type(k) && at_keyword(p, i, k) ==> object_type(p, i) == Got::<Kind>(type_named(k), i + 1)
            && expect_object_type(p, i) == Got::<Kind>(type_named(k), i + 1),
        at_keywords2(p, i, Keyword::MATERIALIZED, Keyword::VIEW) ==> object_type(p, i) == Got::<Kind>(
            Kind::MaterializedViewType,
            i + 2,
        ) && expect_object_type(p, i) == Got::<Kind>(Kind::MaterializedViewType, i + 2),
        at_keywords2(p, i, Keyword::CLUSTER, Keyword::REPLICA) ==> object_type(p, i) == Got::<Kind>(
            Kind::ClusterReplicaType,
            i + 2,
        ) && expect_object_type(p, i) == Got::<Kind>(Kind::ClusterReplicaType, i + 2),
        at_keyword(p, i, Keyword::CLUSTER) && !at_keyword(p, i + 1, Keyword::REPLICA) ==> object_type(p, i)
            == Got::<Kind>(Kind::ClusterType, i + 1) && expect_object_type(p, i) == Got::<Kind>(
            Kind::ClusterType,
            i + 1,
        ),
{
    let ks = seq![
        Keyword::TABLE,
        Keyword::VIEW,
        Keyword::MATERIALIZED,
        Keyword::SOURCE,
        Keyword::SINK,
        Keyword::INDEX,
        Keyword::TYPE,
        Keyword::ROLE,
        Keyword::USER,
        Keyword::CLUSTER,
        Keyword::SECRET,
        Keyword::CONNECTION,
        Keyword::DATABASE,
        Keyword::SCHEMA,
        Keyword::FUNCTION,
    ];
    assert(ks[0] == Keyword::TABLE && ks[1] == Keyword::VIEW && ks[2] == Keyword::MATERIALIZED && ks[3]
        == Keyword::SOURCE && ks[4] == Keyword::SINK && ks[5] == Keyword::INDEX && ks[6] == Keyword::TYPE && ks[7]
        == Keyword::ROLE && ks[8] == Keyword::USER && ks[9] == Keyword::CLUSTER && ks[10] == Keyword::SECRET
        && ks[11] == Keyword::CONNECTION && ks[12] == Keyword::DATABASE && ks[13] == Keyword::SCHEMA);
    assert(ks.contains(Keyword::MATERIALIZED) && ks.contains(Keyword::CLUSTER));
    if names_type(k) {
        assert(ks.contains(k));
    }
    reveal(object_type);
    reveal(expect_object_type);
}

/// Dropping objects names their type and them, in order; what depends on them goes too exactly
/// where that is said, and that they may be missing is said by `IF EXISTS`.
pub proof fn law_drop_read(p: Input, i: int, k: Keyword, exists: bool, j: int, names: Seq<TreeView>, l: int, behavior: Kind, m: int)
    requires
        k == Keyword::TABLE || k == Keyword::VIEW || k == Keyword::SOURCE || k == Keyword::SINK || k
            == Keyword::INDEX || k == Keyword::TYPE || k == Keyword::SECRET || k == Keyword::CONNECTION,
        at_keyword(p, i, k),
        if_exists(p, i + 1) == Got::<bool>(exists, j),
        item_name_list(p, j, Seq::empty()) == Got::<Seq<TreeView>>(names, l),
        drop_behavior(p, l) == Got::<Kind>(behavior, m),
    ensures
        drop_statement(p, i) == Got::<TreeView>(
            TreeView::Node(
                Kind::DropObjects,
                seq![
                    bare(type_named(k)),
                    TreeView::Flag(exists),
                    TreeView::List(names),
                    TreeView::Flag(behavior == Kind::Cascade),
                ],
            ),
            m,
        ),
{
    law_object_types_read(p, i, k);
    reveal(drop_statement);
}

/// The privilege that a keyword names.
pub open spec fn privilege_named(k: Keyword) -> Kind {
    match k {
        Keyword::INSERT => Kind::InsertPrivilege,
        Keyword::SELECT => Kind::SelectPrivilege,
        Keyword::UPDATE => Kind::UpdatePrivilege,
        Keyword::DELETE => Kind::DeletePrivilege,
        Keyword::USAGE => Kind::UsagePrivilege,
        _ => Kind::CreatePrivilege,
    }
}

/// Privileges are named by keywords, and come in the order in which they are named.
pub proof fn law_privileges_read(p: Input, i: int, ps: Seq<TreeView>, k: Keyword)
    requires
        k == Keyword::INSERT || k == Keyword::SELECT || k == Keyword::UPDATE || k == Keyword::DELETE || k
            == Keyword::USAGE || k == Keyword::CREATE,
        at_keyword(p, i, k),
    ensures
        at_token(p, i + 1, TokenView::Comma) ==> privileges(p, i, ps) == privileges(
            p,
            i + 2,
            ps.push(bare(privilege_named(k))),
        ),
        !at_token(p, i + 1, TokenView::Comma) ==> privileges(p, i, ps) == Got::<Seq<TreeView>>(
            ps.push(bare(privilege_named(k))),
            i + 1,
        ),
{
    let ks = seq![
        Keyword::INSERT,
        Keyword::SELECT,
        Keyword::UPDATE,
        Keyword::DELETE,
        Keyword::USAGE,
        Keyword::CREATE,
    ];
    assert(ks[0] == Keyword::INSERT && ks[1] == Keyword::SELECT && ks[2] == Keyword::UPDATE && ks[3]
        == Keyword::DELETE && ks[4] == Keyword::USAGE && ks[5] == Keyword::CREATE);
    assert(ks.contains(k));
    unfold_privileges(p, i, ps);
}

/// `GRANT .. ON .. TO ..` grants privileges and `REVOKE .. ON .. FROM ..` takes them back, on the
/// same target and of the same roles as they are named.
pub proof fn law_grants_read(p: Input, i: int, ps: TreeView, t: TreeView, j: int, roles: Seq<TreeView>, k: int)
    requires
        at_keyword(p, i, Keyword::ON),
    ensures
        grant_target_specification(p, i + 1, "GRANT"@) == Got::<TreeView>(t, j) && at_keyword(
            p,
            j,
            Keyword::TO,
        ) && role_specification_list(p, j + 1, Seq::empty()) == Got::<Seq<TreeView>>(roles, k)
            ==> grant_privilege(p, i, ps) == Got::<TreeView>(
            TreeView::Node(Kind::GrantPrivileges, seq![ps, t, TreeView::List(roles)]),
            k,
        ),
        grant_target_specification(p, i + 1, "REVOKE"@) == Got::<TreeView>(t, j) && at_keyword(
            p,
            j,
            Keyword::FROM,
        ) && role_specification_list(p, j + 1, Seq::empty()) == Got::<Seq<TreeView>>(roles, k)
            ==> revoke_privilege(p, i, ps) == Got::<TreeView>(
            TreeView::Node(Kind::RevokePrivileges, seq![ps, t, TreeView::List(roles)]),
            k,
        ),
{
    reveal(grant_privilege);
    reveal(revoke_privilege);
}

/// A role is granted to others, and taken back from them.
pub proof fn law_roles_read(p: Input, i: int, r: Seq<char>, roles: Seq<TreeView>, k: int)
    requires
        at_token(p, i, TokenView::Ident(r)),
        r.len() > 0,
        role_specification_list(p, i + 2, Seq::empty()) == Got::<Seq<TreeView>>(roles, k),
    ensures
        at_keyword(p, i + 1, Keyword::TO) ==> grant_role(p, i) == Got::<TreeView>(
            TreeView::Node(Kind::GrantRole, seq![TreeView::Text(r), TreeView::List(roles)]),
            k,
        ),
        at_keyword(p, i + 1, Keyword::FROM) ==> revoke_role(p, i) == Got::<TreeView>(
            TreeView::Node(Kind::RevokeRole, seq![TreeView::Text(r), TreeView::List(roles)]),
            k,
        ),
{
    reveal(grant_role);
    reveal(revoke_role);
    reveal(identifier);
}

/// A table is temporary exactly where that is written.
pub proof fn law_create_table_read(p: Input, i: int, short: bool, exists: bool, j: int, t: TreeView, k: int, cs: TreeView, l: int)
    requires
        at_keyword(p, i, Keyword::TABLE) || (at_keyword(
            p,
            i,
            if short {
                Keyword::TEMP
            } else {
                Keyword::TEMPORARY
            },
        ) && at_keyword(p, i + 1, Keyword::TABLE)),
        ({
            let at = if at_keyword(p, i, Keyword::TABLE) {
                i + 1
            } else {
                i + 2
            };
            if_not_exists(p, at) == Got::<bool>(exists, j)
        }),
        item_name(p, j) == Got::<TreeView>(t, k),
        columns(p, k) == Got::<TreeView>(cs, l),
    ensures
        create_table(p, i) == Got::<TreeView>(
            TreeView::Node(
                Kind::CreateTable,
                seq![
                    t,
                    cs,
                    TreeView::Flag(exists),
                    TreeView::Flag(!at_keyword(p, i, Keyword::TABLE)),
                ],
            ),
            l,
        ),
{
    reveal(temporary);
    reveal(create_table);
}

/// Columns of a table come in the order in which they are written, apart from constraints.
pub proof fn law_columns_read(p: Input, i: int, cs: Seq<TreeView>, ks: Seq<TreeView>, c: TreeView, j: int)
    requires
        optional_table_constraint(p, i) == Got::<TreeView>(TreeView::Absent, i),
        0 <= i,
        column_def(p, i) == Got::<TreeView>(c, j),
        i < j <= p.toks.len(),
    ensures
        at_token(p, j, TokenView::Comma) ==> column_list(p, i, cs, ks) == column_list(
            p,
            j + 1,
            cs.push(c),
            ks,
        ),
        at_token(p, j, TokenView::RParen) ==> column_list(p, i, cs, ks) == Got::<TreeView>(
            TreeView::Node(Kind::Columns, seq![TreeView::List(cs.push(c)), TreeView::List(ks)]),
            j + 1,
        ),
{
    unfold_column_list(p, i, cs, ks);
}

/// What may be said of a column: that it may be missing or not, that it is unique, and that it is
/// the key.
pub proof fn law_column_options_read(p: Input, i: int, e: TreeView, j: int)
    requires
        !at_keyword(p, i, Keyword::CONSTRAINT),
    ensures
        at_keywords2(p, i, Keyword::NOT, Keyword::NULL) ==> column_option_def(p, i) == Got::<TreeView>(
            TreeView::Node(Kind::ColumnOptionDef, seq![TreeView::Absent, bare(Kind::NotNull)]),
            i + 2,
        ),
        at_keyword(p, i, Keyword::NULL) ==> column_option_def(p, i) == Got::<TreeView>(
            TreeView::Node(Kind::ColumnOptionDef, seq![TreeView::Absent, bare(Kind::Null)]),
            i + 1,
        ),
        at_keywords2(p, i, Keyword::PRIMARY, Keyword::KEY) ==> column_option_def(p, i) == Got::<TreeView>(
            TreeView::Node(
                Kind::ColumnOptionDef,
                seq![
                    TreeView::Absent,
                    TreeView::Node(Kind::UniqueColumn, seq![TreeView::Flag(true)]),
                ],
            ),
            i + 2,
        ),
        at_keyword(p, i, Keyword::UNIQUE) ==> column_option_def(p, i) == Got::<TreeView>(
            TreeView::Node(
                Kind::ColumnOptionDef,
                seq![
                    TreeView::Absent,
                    TreeView::Node(Kind::UniqueColumn, seq![TreeView::Flag(false)]),
                ],
            ),
            i + 1,
        ),
        at_keyword(p, i, Keyword::DEFAULT) && reads(p, i + 1, e, j) ==> column_option_def(p, i) == Got::<
            TreeView,
        >(
            TreeView::Node(
                Kind::ColumnOptionDef,
                seq![TreeView::Absent, TreeView::Node(Kind::DefaultValue, seq![e])],
            ),
            j,
        ),
{
    reveal(column_option_def);
}

/// What becomes of a view that exists: it is replaced where `OR REPLACE` is written, kept where
/// `IF NOT EXISTS` is, and otherwise in the way.
pub proof fn law_view_conflicts_read(p: Input, i: int)
    ensures
        if_exists_behavior(p, i, true) == Got::<TreeView>(bare(Kind::ReplaceExisting), i),
        at_keyword(p, i, Keyword::IF) && at_keyword(p, i + 1, Keyword::NOT) && at_keyword(
            p,
            i + 2,
            Keyword::EXISTS,
        ) ==> if_exists_behavior(p, i, false) == Got::<TreeView>(bare(Kind::SkipExisting), i + 3),
        !at_keyword(p, i, Keyword::IF) ==> if_exists_behavior(p, i, false) == Got::<TreeView>(
            bare(Kind::ErrorIfExists),
            i,
        ),
        at_keyword(p, i, Keyword::OR) && at_keyword(p, i + 1, Keyword::REPLACE) ==> or_replace(p, i)
            == Got::<bool>(true, i + 2),
        !at_keyword(p, i, Keyword::OR) ==> or_replace(p, i) == Got::<bool>(false, i),
{
    reveal(if_exists_behavior);
    law_if_exists_read(p, i);
    reveal(or_replace);
}

/// A view has a name, maybe names for its columns, and a query.
pub proof fn law_view_read(p: Input, i: int, n: TreeView, j: int, cs: TreeView, k: int, q: TreeView, l: int)
    requires
        item_name(p, i) == Got::<TreeView>(n, j),
        parenthesized_column_list(p, j, true) == Got::<TreeView>(cs, k),
        at_keyword(p, k, Keyword::AS),
        query(p, k + 1) == Got::<TreeView>(q, l),
    ensures
        view_definition(p, i) == Got::<TreeView>(
            TreeView::Node(Kind::ViewDefinition, seq![n, cs, q]),
            l,
        ),
{
    reveal(view_definition);
}

} // verus!
