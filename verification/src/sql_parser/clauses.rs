//! Queries as they are written, and what they mean.

use vstd::prelude::*;

use crate::sql_parser::keywords::Keyword;
use crate::sql_parser::kind::Kind;
use crate::sql_parser::parser::RECURSION_LIMIT;
use crate::sql_parser::syntax::TreeView;
use crate::sql_parser::terms::{
    all_legible, height, is_legible, list_height, meaning, meanings, plain_name, written, written_list, Term,
};
use crate::sql_parser::token::TokenView;

verus! {

/// What is selected: an expression, maybe with a name, or all columns.
pub struct ItemTerm {
    pub e: Option<Term>,
    pub alias: Option<Seq<char>>,
}

/// What results are ordered by: in which direction, and where missing values go.
pub struct OrderTerm {
    pub e: Term,
    pub ascending: Option<bool>,
    pub nulls_last: Option<bool>,
}

/// A table, maybe with another name.
pub struct TableTerm {
    pub name: Seq<char>,
    pub alias: Option<Seq<char>>,
}

/// Of which tables all rows are kept in a join.
pub enum Side {
    Inner,
    Left,
    Right,
    Full,
}

/// Which rows are joined.
pub enum Rule {
    /// All with all.
    Cross,
    /// Those that agree in the columns that they have in common.
    Natural(Side),
    /// Those of which a condition holds.
    On(Side, Term),
}

/// A table that is joined.
pub struct JoinTerm {
    pub rule: Rule,
    /// Whether the words `INNER` and `OUTER` are written.
    pub wordy: bool,
    pub table: TableTerm,
}

/// A table with those that are joined to it.
pub struct FromTerm {
    pub table: TableTerm,
    pub joins: Seq<JoinTerm>,
}

/// A `SELECT`.
pub struct SelectTerm {
    pub distinct: bool,
    pub items: Seq<ItemTerm>,
    pub from: Seq<FromTerm>,
    pub filter: Option<Term>,
    pub group_by: Seq<Term>,
    pub having: Option<Term>,
}

/// The body of a query.
pub enum BodyTerm {
    Select(SelectTerm),
    Values(Seq<Seq<Term>>),
    /// A set operator, maybe with an `ALL`, between two bodies.
    Combined(Box<BodyTerm>, Keyword, bool, Box<BodyTerm>),
}

/// A query.
pub struct QueryTerm {
    pub body: BodyTerm,
    pub order_by: Seq<OrderTerm>,
    pub limit: Option<Term>,
    pub offset: Option<Term>,
}

/// A keyword by itself.
pub open spec fn word(k: Keyword) -> Seq<TokenView> {
    seq![TokenView::Keyword(k)]
}

/// The first `n` of several parts, with commas between them.
pub open spec fn commas(parts: Seq<Seq<TokenView>>, n: int) -> Seq<TokenView>
    decreases n,
{
    if n <= 0 || n > parts.len() {
        Seq::empty()
    } else if n == 1 {
        parts[0]
    } else {
        commas(parts, n - 1) + seq![TokenView::Comma] + parts[n - 1]
    }
}

/// A name that is given with `AS`, if there is one.
pub open spec fn written_alias(alias: Option<Seq<char>>) -> Seq<TokenView> {
    match alias {
        Some(s) => seq![TokenView::Keyword(Keyword::AS), TokenView::Ident(s)],
        None => Seq::empty(),
    }
}

/// A name that may be missing.
pub open spec fn name_tree(alias: Option<Seq<char>>) -> TreeView {
    match alias {
        Some(s) => TreeView::Text(s),
        None => TreeView::Absent,
    }
}

pub open spec fn written_item(x: ItemTerm) -> Seq<TokenView> {
    match x.e {
        Some(e) => written(e) + written_alias(x.alias),
        None => seq![TokenView::Star],
    }
}

pub open spec fn item_tree(x: ItemTerm) -> TreeView {
    match x.e {
        Some(e) => TreeView::Node(Kind::SelectExpr, seq![meaning(e), name_tree(x.alias)]),
        None => TreeView::Node(Kind::Wildcard, Seq::empty()),
    }
}

pub open spec fn written_order(x: OrderTerm) -> Seq<TokenView> {
    let direction = match x.ascending {
        Some(true) => word(Keyword::ASC),
        Some(false) => word(Keyword::DESC),
        None => Seq::empty(),
    };
    let nulls = match x.nulls_last {
        Some(true) => word(Keyword::NULLS) + word(Keyword::LAST),
        Some(false) => word(Keyword::NULLS) + word(Keyword::FIRST),
        None => Seq::empty(),
    };
    written(x.e) + (direction + nulls)
}

/// A choice that may be missing.
pub open spec fn choice_tree(b: Option<bool>) -> TreeView {
    match b {
        Some(b) => TreeView::Flag(b),
        None => TreeView::Absent,
    }
}

pub open spec fn order_tree(x: OrderTerm) -> TreeView {
    TreeView::Node(
        Kind::OrderByExpr,
        seq![meaning(x.e), choice_tree(x.ascending), choice_tree(x.nulls_last)],
    )
}

pub open spec fn written_table(x: TableTerm) -> Seq<TokenView> {
    seq![TokenView::Ident(x.name)] + written_alias(x.alias)
}

/// Another name of a table, if it has one.
pub open spec fn alias_tree(alias: Option<Seq<char>>) -> TreeView {
    match alias {
        Some(s) => TreeView::Node(
            Kind::TableAlias,
            seq![TreeView::Text(s), TreeView::List(Seq::<TreeView>::empty()), TreeView::Flag(false)],
        ),
        None => TreeView::Absent,
    }
}

pub open spec fn table_tree(x: TableTerm) -> TreeView {
    TreeView::Node(Kind::Table, seq![plain_name(x.name), alias_tree(x.alias)])
}

/// The words that name a side of a join.
pub open spec fn side_words(s: Side, wordy: bool) -> Seq<TokenView> {
    match s {
        Side::Inner => if wordy {
            word(Keyword::INNER)
        } else {
            Seq::empty()
        },
        Side::Left => word(Keyword::LEFT) + outer_word(wordy),
        Side::Right => word(Keyword::RIGHT) + outer_word(wordy),
        Side::Full => word(Keyword::FULL) + outer_word(wordy),
    }
}

pub open spec fn outer_word(wordy: bool) -> Seq<TokenView> {
    if wordy {
        word(Keyword::OUTER)
    } else {
        Seq::empty()
    }
}

pub open spec fn side_kind(s: Side) -> Kind {
    match s {
        Side::Inner => Kind::InnerJoin,
        Side::Left => Kind::LeftOuterJoin,
        Side::Right => Kind::RightOuterJoin,
        Side::Full => Kind::FullOuterJoin,
    }
}

pub open spec fn written_join(x: JoinTerm) -> Seq<TokenView> {
    match x.rule {
        Rule::Cross => (word(Keyword::CROSS) + word(Keyword::JOIN)) + written_table(x.table),
        Rule::Natural(s) => (word(Keyword::NATURAL) + side_words(s, x.wordy) + word(Keyword::JOIN))
            + written_table(x.table),
        Rule::On(s, e) => (side_words(s, x.wordy) + word(Keyword::JOIN)) + (written_table(x.table) + (word(
            Keyword::ON,
        ) + written(e))),
    }
}

pub open spec fn join_tree(x: JoinTerm) -> TreeView {
    let how = match x.rule {
        Rule::Cross => TreeView::Node(Kind::CrossJoin, Seq::empty()),
        Rule::Natural(s) => TreeView::Node(
            side_kind(s),
            seq![TreeView::Node(Kind::NaturalConstraint, Seq::empty())],
        ),
        Rule::On(s, e) => TreeView::Node(
            side_kind(s),
            seq![TreeView::Node(Kind::OnConstraint, seq![meaning(e)])],
        ),
    };
    TreeView::Node(Kind::Join, seq![table_tree(x.table), how])
}

pub open spec fn written_joins(xs: Seq<JoinTerm>) -> Seq<TokenView>
    decreases xs.len(),
{
    if xs.len() == 0 {
        Seq::empty()
    } else {
        written_join(xs[0]) + written_joins(xs.drop_first())
    }
}

pub open spec fn join_trees(xs: Seq<JoinTerm>) -> Seq<TreeView> {
    Seq::new(xs.len(), |k: int| join_tree(xs[k]))
}

pub open spec fn written_from(x: FromTerm) -> Seq<TokenView> {
    written_table(x.table) + written_joins(x.joins)
}

pub open spec fn from_tree(x: FromTerm) -> TreeView {
    TreeView::Node(
        Kind::TableWithJoins,
        seq![table_tree(x.table), TreeView::List(join_trees(x.joins))],
    )
}

pub open spec fn item_parts(xs: Seq<ItemTerm>) -> Seq<Seq<TokenView>> {
    Seq::new(xs.len(), |k: int| written_item(xs[k]))
}

pub open spec fn item_trees(xs: Seq<ItemTerm>) -> Seq<TreeView> {
    Seq::new(xs.len(), |k: int| item_tree(xs[k]))
}

pub open spec fn order_parts(xs: Seq<OrderTerm>) -> Seq<Seq<TokenView>> {
    Seq::new(xs.len(), |k: int| written_order(xs[k]))
}

pub open spec fn order_trees(xs: Seq<OrderTerm>) -> Seq<TreeView> {
    Seq::new(xs.len(), |k: int| order_tree(xs[k]))
}

pub open spec fn from_parts(xs: Seq<FromTerm>) -> Seq<Seq<TokenView>> {
    Seq::new(xs.len(), |k: int| written_from(xs[k]))
}

pub open spec fn from_trees(xs: Seq<FromTerm>) -> Seq<TreeView> {
    Seq::new(xs.len(), |k: int| from_tree(xs[k]))
}

pub open spec fn written_row(es: Seq<Term>) -> Seq<TokenView> {
    seq![TokenView::LParen] + (written_list(es, es.len() as int) + seq![TokenView::RParen])
}

pub open spec fn row_parts(xs: Seq<Seq<Term>>) -> Seq<Seq<TokenView>> {
    Seq::new(xs.len(), |k: int| written_row(xs[k]))
}

pub open spec fn row_trees(xs: Seq<Seq<Term>>) -> Seq<TreeView> {
    Seq::new(xs.len(), |k: int| TreeView::List(meanings(xs[k], xs[k].len() as int)))
}

/// A clause with its keyword, if there is one.
pub open spec fn written_clause(k: Keyword, e: Option<Term>) -> Seq<TokenView> {
    match e {
        Some(e) => word(k) + written(e),
        None => Seq::empty(),
    }
}

pub open spec fn clause_tree(e: Option<Term>) -> TreeView {
    match e {
        Some(e) => meaning(e),
        None => TreeView::Absent,
    }
}

pub open spec fn written_from_clause(xs: Seq<FromTerm>) -> Seq<TokenView> {
    if xs.len() == 0 {
        Seq::empty()
    } else {
        word(Keyword::FROM) + commas(from_parts(xs), xs.len() as int)
    }
}

pub open spec fn written_group_by(es: Seq<Term>) -> Seq<TokenView> {
    if es.len() == 0 {
        Seq::empty()
    } else {
        (word(Keyword::GROUP) + word(Keyword::BY)) + written_list(es, es.len() as int)
    }
}

/// What follows the `SELECT` and the `DISTINCT`.
pub open spec fn written_rest(x: SelectTerm) -> Seq<TokenView> {
    commas(item_parts(x.items), x.items.len() as int) + (written_from_clause(x.from) + (written_clause(
        Keyword::WHERE,
        x.filter,
    ) + (written_group_by(x.group_by) + written_clause(Keyword::HAVING, x.having))))
}

pub open spec fn written_distinct(b: bool) -> Seq<TokenView> {
    if b {
        word(Keyword::DISTINCT)
    } else {
        Seq::empty()
    }
}

pub open spec fn written_select(x: SelectTerm) -> Seq<TokenView> {
    word(Keyword::SELECT) + (written_distinct(x.distinct) + written_rest(x))
}

pub open spec fn select_tree(x: SelectTerm) -> TreeView {
    TreeView::Node(
        Kind::Select,
        seq![
            if x.distinct {
                TreeView::Node(Kind::DistinctRow, Seq::empty())
            } else {
                TreeView::Absent
            },
            TreeView::List(item_trees(x.items)),
            TreeView::List(from_trees(x.from)),
            clause_tree(x.filter),
            TreeView::List(meanings(x.group_by, x.group_by.len() as int)),
            clause_tree(x.having),
            TreeView::List(Seq::<TreeView>::empty()),
        ],
    )
}

pub open spec fn written_body(x: BodyTerm) -> Seq<TokenView>
    decreases x,
{
    match x {
        BodyTerm::Select(s) => written_select(s),
        BodyTerm::Values(rows) => word(Keyword::VALUES) + commas(row_parts(rows), rows.len() as int),
        BodyTerm::Combined(a, k, all, b) => written_body(*a) + (word(k) + ((if all {
            word(Keyword::ALL)
        } else {
            Seq::empty()
        }) + written_body(*b))),
    }
}

/// What a set operator is called.
pub open spec fn set_kind(k: Keyword) -> Kind {
    match k {
        Keyword::UNION => Kind::Union,
        Keyword::EXCEPT => Kind::Except,
        _ => Kind::Intersect,
    }
}

pub open spec fn body_tree(x: BodyTerm) -> TreeView
    decreases x,
{
    match x {
        BodyTerm::Select(s) => TreeView::Node(Kind::SelectBody, seq![select_tree(s)]),
        BodyTerm::Values(rows) => TreeView::Node(
            Kind::ValuesBody,
            seq![TreeView::List(row_trees(rows))],
        ),
        BodyTerm::Combined(a, k, all, b) => TreeView::Node(
            Kind::SetOperation,
            seq![
                body_tree(*a),
                TreeView::Node(set_kind(k), Seq::empty()),
                TreeView::Flag(all),
                body_tree(*b),
            ],
        ),
    }
}

/// How tightly a set operator binds: `INTERSECT` more tightly than the others.
pub open spec fn set_tightness(k: Keyword) -> int {
    if k == Keyword::INTERSECT {
        2
    } else {
        1
    }
}

pub open spec fn body_level(x: BodyTerm) -> int {
    match x {
        BodyTerm::Combined(_, k, _, _) => set_tightness(k),
        _ => 3,
    }
}

pub open spec fn written_order_by(xs: Seq<OrderTerm>) -> Seq<TokenView> {
    if xs.len() == 0 {
        Seq::empty()
    } else {
        (word(Keyword::ORDER) + word(Keyword::BY)) + commas(order_parts(xs), xs.len() as int)
    }
}

pub open spec fn written_query(x: QueryTerm) -> Seq<TokenView> {
    written_body(x.body) + (written_order_by(x.order_by) + (written_clause(Keyword::LIMIT, x.limit)
        + written_clause(Keyword::OFFSET, x.offset)))
}

/// How many rows there are at most, if that is said.
pub open spec fn limit_tree(limit: Option<Term>) -> TreeView {
    match limit {
        Some(e) => TreeView::Node(Kind::Limit, seq![TreeView::Flag(false), meaning(e)]),
        None => TreeView::Absent,
    }
}

pub open spec fn query_tree(x: QueryTerm) -> TreeView {
    TreeView::Node(
        Kind::Query,
        seq![
            TreeView::Node(Kind::SimpleCtes, seq![TreeView::List(Seq::<TreeView>::empty())]),
            body_tree(x.body),
            TreeView::List(order_trees(x.order_by)),
            limit_tree(x.limit),
            clause_tree(x.offset),
        ],
    )
}

/// Whether an expression can be read back at a depth.
pub open spec fn fine(e: Term, depth: int) -> bool {
    is_legible(e) && depth + height(e) <= RECURSION_LIMIT
}

pub open spec fn fine_list(es: Seq<Term>, depth: int) -> bool {
    all_legible(es, es.len() as int) && depth + list_height(es, es.len() as int) <= RECURSION_LIMIT
}

pub open spec fn fine_clause(e: Option<Term>, depth: int) -> bool {
    e matches Some(e) ==> fine(e, depth)
}

pub open spec fn fine_join(x: JoinTerm, depth: int) -> bool {
    x.table.name.len() > 0 && (x.rule matches Rule::On(_, e) ==> fine(e, depth))
}

pub open spec fn fine_from(x: FromTerm, depth: int) -> bool {
    x.table.name.len() > 0 && forall|k: int|
        0 <= k < x.joins.len() ==> fine_join(#[trigger] x.joins[k], depth)
}

pub open spec fn fine_select(x: SelectTerm, depth: int) -> bool {
    &&& x.items.len() > 0
    &&& forall|k: int| 0 <= k < x.items.len() ==> fine_clause((#[trigger] x.items[k]).e, depth)
    &&& forall|k: int| 0 <= k < x.from.len() ==> fine_from(#[trigger] x.from[k], depth)
    &&& fine_clause(x.filter, depth)
    &&& fine_list(x.group_by, depth)
    &&& fine_clause(x.having, depth)
}

/// Whether the body of a query can be read back: operands of set operators bind more tightly, on
/// the left as tightly.
pub open spec fn fine_body(x: BodyTerm, depth: int) -> bool
    decreases x,
{
    match x {
        BodyTerm::Select(s) => fine_select(s, depth),
        BodyTerm::Values(rows) => rows.len() > 0 && forall|k: int|
            0 <= k < rows.len() ==> (#[trigger] rows[k]).len() > 0 && fine_list(rows[k], depth),
        BodyTerm::Combined(a, k, _, b) => {
            &&& k == Keyword::UNION || k == Keyword::EXCEPT || k == Keyword::INTERSECT
            &&& fine_body(*a, depth)
            &&& fine_body(*b, depth)
            &&& body_level(*a) >= set_tightness(k)
            &&& body_level(*b) > set_tightness(k)
        },
    }
}

pub open spec fn fine_query(x: QueryTerm, depth: int) -> bool {
    &&& fine_body(x.body, depth)
    &&& forall|k: int| 0 <= k < x.order_by.len() ==> fine((#[trigger] x.order_by[k]).e, depth)
    &&& fine_clause(x.limit, depth)
    &&& fine_clause(x.offset, depth)
}

/// In which order clauses come; what ends a query comes last.
pub open spec fn clause_rank(t: Option<TokenView>) -> int {
    match t {
        Some(TokenView::Keyword(Keyword::FROM)) => 1,
        Some(TokenView::Keyword(Keyword::WHERE)) => 2,
        Some(TokenView::Keyword(Keyword::GROUP)) => 3,
        Some(TokenView::Keyword(Keyword::HAVING)) => 4,
        Some(TokenView::Keyword(Keyword::UNION)) | Some(TokenView::Keyword(Keyword::EXCEPT)) | Some(
            TokenView::Keyword(Keyword::INTERSECT),
        ) => 5,
        Some(TokenView::Keyword(Keyword::ORDER)) => 6,
        Some(TokenView::Keyword(Keyword::LIMIT)) => 7,
        Some(TokenView::Keyword(Keyword::OFFSET)) => 8,
        None | Some(TokenView::Semicolon) | Some(TokenView::RParen) => 9,
        _ => 0,
    }
}

} // verus!
