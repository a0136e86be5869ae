//! Queries are read back as they are written.

use vstd::prelude::*;

use crate::sql_parser::alignment::names::unfold_identifiers;
use crate::sql_parser::alignment::query::{
    unfold_cte_block, unfold_order_by_expr, unfold_order_by_expr_list, unfold_query, unfold_query_body,
    unfold_query_body_seeded, unfold_query_level, unfold_query_tail,
};
use crate::sql_parser::alignment::select::{
    unfold_distinct_clause, unfold_from_clause, unfold_group_by_clause, unfold_having_clause, unfold_projection,
    unfold_select, unfold_select_distinct, unfold_select_item, unfold_select_item_list, unfold_values_row,
    unfold_values_row_list, unfold_where_clause,
};
use crate::sql_parser::alignment::tables::{
    unfold_join_constraint, unfold_joins, unfold_table_and_joins, unfold_table_and_joins_list,
    unfold_table_factor,
};
use crate::sql_parser::checks::{is_empty_list, no_members, query_parts};
use crate::sql_parser::clauses::{alias_tree, body_level, body_tree, clause_rank, clause_tree, commas, fine, fine_body, fine_clause, fine_from, fine_join, fine_list, fine_query, fine_select, from_parts, from_tree, from_trees, item_parts, item_tree, item_trees, join_tree, join_trees, name_tree, order_parts, order_tree, order_trees, query_tree, row_parts, row_trees, select_tree, set_kind, set_tightness, side_words, table_tree, word, written_alias, written_body, written_clause, written_distinct, written_from, written_from_clause, written_group_by, written_item, written_join, written_joins, written_order, written_order_by, written_query, written_rest, written_row, written_select, written_table, BodyTerm, FromTerm, ItemTerm, JoinTerm, OrderTerm, QueryTerm, Rule, SelectTerm, Side, TableTerm};
use crate::sql_parser::expr::expr;
use crate::sql_parser::keywords::{
    is_reserved_in_column_alias_spec, is_reserved_in_table_alias_spec, is_reserved_spec, Keyword,
};
use crate::sql_parser::kind::Kind;
use crate::sql_parser::names::{
    identifier, item_name, optional_alias, optional_table_alias, parenthesized_column_list, raw_name,
};
use crate::sql_parser::outcome::Out::Got;
use crate::sql_parser::parser::{at_keyword, deeper, one_of, set_binding, token_at, Input, SetPrecedence, RECURSION_LIMIT};
use crate::sql_parser::query::{order_by_expr, order_by_expr_list, query, query_body, query_body_seeded, query_tail, set_operation_all, skip_row_word};
use crate::sql_parser::reading::{
    law_expression_read, law_expressions_read, lemma_deeper, lemma_split, lemma_starts,
};
use crate::sql_parser::select::{from_clause, group_by_clause, having_clause, projection, select, select_item, select_item_list, select_options, values_row, values_row_list, where_clause};
use crate::sql_parser::syntax::TreeView;
use crate::sql_parser::tables::{joins, table_and_joins, table_and_joins_list, table_factor};
use crate::sql_parser::terms::{is_literal, meaning, meanings, plain_name, stands, written, written_list, Term};
use crate::sql_parser::token::TokenView;

verus! {

/// Where the `k`-th of several parts starts.
spec fn part_start(parts: Seq<Seq<TokenView>>, k: int) -> int {
    if k <= 0 {
        0
    } else {
        commas(parts, k).len() as int + 1
    }
}

proof fn lemma_part(q: Input, i: int, parts: Seq<Seq<TokenView>>, n: int, k: int)
    requires
        stands(q, i, commas(parts, n)),
        0 <= k < n <= parts.len(),
    ensures
        stands(q, i + part_start(parts, k), parts[k]),
        part_start(parts, k) + parts[k].len() == commas(parts, k + 1).len(),
        k + 1 < n ==> token_at(q, i + commas(parts, k + 1).len()) == Some(TokenView::Comma),
    decreases n,
{
    reveal_with_fuel(commas, 2);
    if n > 1 {
        let front = commas(parts, n - 1);
        let comma = seq![TokenView::Comma];
        lemma_split(q, i, front + comma, parts[n - 1]);
        lemma_split(q, i, front, comma);
        assert(token_at(q, i + front.len() + 0) == Some(comma[0]));
        if k < n - 1 {
            lemma_part(q, i, parts, n - 1, k);
        }
    }
}

proof fn lemma_word(q: Input, i: int, k: Keyword)
    requires
        stands(q, i, word(k)),
    ensures
        at_keyword(q, i, k),
        word(k).len() == 1,
{
    assert(token_at(q, i + 0) == Some(word(k)[0]));
}

/// What may follow something that is selected.
spec fn after_item(t: Option<TokenView>) -> bool {
    t == Some(TokenView::Comma) || clause_rank(t) >= 1
}

/// What may follow a table.
spec fn after_table(t: Option<TokenView>) -> bool {
    ||| t == Some(TokenView::Comma)
    ||| clause_rank(t) >= 2
    ||| t matches Some(TokenView::Keyword(k)) && (k == Keyword::CROSS || k == Keyword::NATURAL || k
        == Keyword::INNER || k == Keyword::JOIN || k == Keyword::LEFT || k == Keyword::RIGHT || k
        == Keyword::FULL || k == Keyword::ON)
}

proof fn lemma_alias(q: Input, i: int, alias: Option<Seq<char>>, table: bool)
    requires
        stands(q, i, written_alias(alias)),
        table ==> after_table(token_at(q, i + written_alias(alias).len())),
        !table ==> after_item(token_at(q, i + written_alias(alias).len())),
    ensures
        optional_alias(q, i, table) == Got::<TreeView>(name_tree(alias), i + written_alias(alias).len()),
{
    reveal(optional_alias);
    reveal(is_reserved_in_column_alias_spec);
    reveal(is_reserved_in_table_alias_spec);
    if let Some(s) = alias {
        assert(token_at(q, i + 0) == Some(written_alias(alias)[0]));
        assert(token_at(q, i + 1) == Some(written_alias(alias)[1]));
    }
}

proof fn lemma_item(q: Input, i: int, x: ItemTerm)
    requires
        fine_clause(x.e, q.depth),
        0 <= q.depth,
        stands(q, i, written_item(x)),
        after_item(token_at(q, i + written_item(x).len())),
    ensures
        select_item(q, i) == Got::<TreeView>(item_tree(x), i + written_item(x).len()),
        written_item(x).len() > 0,
        ({
            let t = written_item(x)[0];
            t is Ident || is_literal(t) || t == TokenView::LParen || t == TokenView::Keyword(Keyword::NOT)
                || t is Op || t == TokenView::Star
        }),
{
    unfold_select_item(q, i);
    match x.e {
        Some(e) => {
            let at = i + written(e).len();
            lemma_starts(e);
            lemma_split(q, i, written(e), written_alias(x.alias));
            lemma_alias(q, at, x.alias, false);
            if x.alias is Some {
                assert(token_at(q, at + 0) == Some(written_alias(x.alias)[0]));
            }
            law_expression_read(q, i, e);
            assert(token_at(q, i + 0) == Some(written(e)[0]));
        },
        None => {
            assert(token_at(q, i + 0) == Some(written_item(x)[0]));
        },
    }
}

proof fn lemma_items(q: Input, i: int, xs: Seq<ItemTerm>, k: int)
    requires
        0 <= q.depth,
        forall|j: int| 0 <= j < xs.len() ==> fine_clause((#[trigger] xs[j]).e, q.depth),
        stands(q, i, commas(item_parts(xs), xs.len() as int)),
        clause_rank(token_at(q, i + commas(item_parts(xs), xs.len() as int).len())) >= 1,
        0 <= k < xs.len(),
    ensures
        select_item_list(q, i + part_start(item_parts(xs), k), item_trees(xs).take(k)) == Got::<Seq<TreeView>>(
            item_trees(xs),
            i + commas(item_parts(xs), xs.len() as int).len(),
        ),
    decreases xs.len() - k,
{
    let n = xs.len() as int;
    let parts = item_parts(xs);
    let at = i + part_start(parts, k);
    lemma_part(q, i, parts, n, k);
    assert(parts[k] == written_item(xs[k]));
    lemma_item(q, at, xs[k]);
    unfold_select_item_list(q, at, item_trees(xs).take(k));
    assert(item_trees(xs).take(k).push(item_tree(xs[k])) =~= item_trees(xs).take(k + 1));
    if k + 1 < n {
        lemma_items(q, i, xs, k + 1);
    } else {
        assert(item_trees(xs).take(n) =~= item_trees(xs));
    }
}

proof fn lemma_projection(q: Input, i: int, xs: Seq<ItemTerm>)
    requires
        0 <= q.depth,
        xs.len() > 0,
        forall|j: int| 0 <= j < xs.len() ==> fine_clause((#[trigger] xs[j]).e, q.depth),
        stands(q, i, commas(item_parts(xs), xs.len() as int)),
        clause_rank(token_at(q, i + commas(item_parts(xs), xs.len() as int).len())) >= 1,
    ensures
        projection(q, i) == Got::<TreeView>(
            TreeView::List(item_trees(xs)),
            i + commas(item_parts(xs), xs.len() as int).len(),
        ),
        !at_keyword(q, i, Keyword::ALL) && !at_keyword(q, i, Keyword::DISTINCT) && !at_keyword(
            q,
            i,
            Keyword::ON,
        ),
        commas(item_parts(xs), xs.len() as int).len() > 0,
{
    let n = xs.len() as int;
    let parts = item_parts(xs);
    lemma_items(q, i, xs, 0);
    lemma_part(q, i, parts, n, 0);
    assert(parts[0] == written_item(xs[0]));
    lemma_item(q, i, xs[0]);
    assert(token_at(q, i + 0) == Some(written_item(xs[0])[0]));
    assert(item_trees(xs).take(0) =~= Seq::<TreeView>::empty());
    reveal(is_reserved_spec);
    unfold_projection(q, i);
}

proof fn lemma_table(q: Input, i: int, x: TableTerm)
    requires
        x.name.len() > 0,
        stands(q, i, written_table(x)),
        after_table(token_at(q, i + written_table(x).len())),
    ensures
        table_factor(q, i) == Got::<TreeView>(table_tree(x), i + written_table(x).len()),
        written_table(x).len() > 0,
{
    let name = seq![TokenView::Ident(x.name)];
    lemma_split(q, i, name, written_alias(x.alias));
    assert(token_at(q, i + 0) == Some(name[0]));
    if x.alias is Some {
        assert(token_at(q, i + 1 + 0) == Some(written_alias(x.alias)[0]));
    }
    lemma_alias(q, i + 1, x.alias, true);
    reveal(raw_name);
    reveal(item_name);
    reveal(identifier);
    reveal(optional_table_alias);
    reveal(parenthesized_column_list);
    unfold_identifiers(q, i, Seq::empty());
    assert(Seq::<TreeView>::empty().push(TreeView::Text(x.name)) =~= seq![TreeView::Text(x.name)]);
    assert(item_name(q, i) == Got::<TreeView>(plain_name(x.name), i + 1));
    assert(raw_name(q, i) == Got::<TreeView>(plain_name(x.name), i + 1));
    assert(optional_table_alias(q, i + 1) == Got::<TreeView>(
        alias_tree(x.alias),
        i + written_table(x).len(),
    ));
    unfold_table_factor(q, i);
}

/// A join is read up to its table.
proof fn lemma_join_words(q: Input, i: int, x: JoinTerm)
    requires
        stands(q, i, written_join(x)),
    ensures
        match x.rule {
            Rule::Cross => at_keyword(q, i, Keyword::CROSS) && at_keyword(q, i + 1, Keyword::JOIN) && stands(
                q,
                i + 2,
                written_table(x.table),
            ) && written_join(x).len() == 2 + written_table(x.table).len(),
            Rule::Natural(s) => {
                let n = side_words(s, x.wordy).len() as int;
                &&& at_keyword(q, i, Keyword::NATURAL)
                &&& stands(q, i + 1, side_words(s, x.wordy))
                &&& at_keyword(q, i + 1 + n, Keyword::JOIN)
                &&& stands(q, i + 2 + n, written_table(x.table))
                &&& written_join(x).len() == 2 + n + written_table(x.table).len()
            },
            Rule::On(s, e) => {
                let n = side_words(s, x.wordy).len() as int;
                let m = written_table(x.table).len() as int;
                &&& stands(q, i, side_words(s, x.wordy))
                &&& at_keyword(q, i + n, Keyword::JOIN)
                &&& stands(q, i + 1 + n, written_table(x.table))
                &&& at_keyword(q, i + 1 + n + m, Keyword::ON)
                &&& stands(q, i + 2 + n + m, written(e))
                &&& written_join(x).len() == 2 + n + m + written(e).len()
            },
        },
{
    match x.rule {
        Rule::Cross => {
            lemma_split(q, i, word(Keyword::CROSS) + word(Keyword::JOIN), written_table(x.table));
            lemma_split(q, i, word(Keyword::CROSS), word(Keyword::JOIN));
            lemma_word(q, i, Keyword::CROSS);
            lemma_word(q, i + 1, Keyword::JOIN);
        },
        Rule::Natural(s) => {
            let a = word(Keyword::NATURAL) + side_words(s, x.wordy);
            lemma_split(q, i, a + word(Keyword::JOIN), written_table(x.table));
            lemma_split(q, i, a, word(Keyword::JOIN));
            lemma_split(q, i, word(Keyword::NATURAL), side_words(s, x.wordy));
            lemma_word(q, i, Keyword::NATURAL);
            lemma_word(q, i + a.len(), Keyword::JOIN);
        },
        Rule::On(s, e) => {
            let a = side_words(s, x.wordy) + word(Keyword::JOIN);
            let b = word(Keyword::ON) + written(e);
            lemma_split(q, i, a, written_table(x.table) + b);
            lemma_split(q, i, side_words(s, x.wordy), word(Keyword::JOIN));
            lemma_split(q, i + a.len(), written_table(x.table), b);
            lemma_split(q, i + a.len() + written_table(x.table).len(), word(Keyword::ON), written(e));
            lemma_word(q, i + side_words(s, x.wordy).len(), Keyword::JOIN);
            lemma_word(q, i + a.len() + written_table(x.table).len(), Keyword::ON);
        },
    }
}

/// The words of a side lead to the keyword `JOIN`.
proof fn lemma_side(q: Input, i: int, s: Side, wordy: bool)
    requires
        stands(q, i, side_words(s, wordy)),
        at_keyword(q, i + side_words(s, wordy).len(), Keyword::JOIN),
    ensures
        match s {
            Side::Inner => (at_keyword(q, i, Keyword::INNER) && side_words(s, wordy).len() == 1) || (at_keyword(
                q,
                i,
                Keyword::JOIN,
            ) && side_words(s, wordy).len() == 0),
            Side::Left => at_keyword(q, i, Keyword::LEFT),
            Side::Right => at_keyword(q, i, Keyword::RIGHT),
            Side::Full => at_keyword(q, i, Keyword::FULL),
        },
        !(s is Inner) ==> (at_keyword(q, i + 1, Keyword::OUTER) && side_words(s, wordy).len() == 2) || (at_keyword(
            q,
            i + 1,
            Keyword::JOIN,
        ) && side_words(s, wordy).len() == 1),
{
    if side_words(s, wordy).len() > 0 {
        assert(token_at(q, i + 0) == Some(side_words(s, wordy)[0]));
    }
    if side_words(s, wordy).len() > 1 {
        assert(token_at(q, i + 1) == Some(side_words(s, wordy)[1]));
    }
}

proof fn lemma_join(q: Input, i: int, x: JoinTerm, found: Seq<TreeView>)
    requires
        0 <= q.depth,
        fine_join(x, q.depth),
        stands(q, i, written_join(x)),
        after_table(token_at(q, i + written_join(x).len())),
    ensures
        joins(q, i, found) == joins(q, i + written_join(x).len(), found.push(join_tree(x))),
{
    lemma_join_words(q, i, x);
    match x.rule {
        Rule::Cross => {
            lemma_table(q, i + 2, x.table);
            unfold_joins(q, i, found);
        },
        Rule::Natural(s) => {
            let n = side_words(s, x.wordy).len() as int;
            let at = i + 2 + n;
            lemma_side(q, i + 1, s, x.wordy);
            lemma_table(q, at, x.table);
            unfold_join_constraint(q, at + written_table(x.table).len(), true);
            unfold_joins(q, i, found);
        },
        Rule::On(s, e) => {
            let n = side_words(s, x.wordy).len() as int;
            let at = i + 1 + n;
            let on = at + written_table(x.table).len();
            lemma_side(q, i, s, x.wordy);
            lemma_table(q, at, x.table);
            law_expression_read(q, on + 1, e);
            unfold_join_constraint(q, on, false);
            unfold_joins(q, i, found);
        },
    }
}

proof fn lemma_joins(q: Input, i: int, xs: Seq<JoinTerm>, found: Seq<TreeView>)
    requires
        0 <= q.depth,
        forall|k: int| 0 <= k < xs.len() ==> fine_join(#[trigger] xs[k], q.depth),
        stands(q, i, written_joins(xs)),
        token_at(q, i + written_joins(xs).len()) == Some(TokenView::Comma) || clause_rank(
            token_at(q, i + written_joins(xs).len()),
        ) >= 2,
    ensures
        joins(q, i, found) == Got::<Seq<TreeView>>(
            found + join_trees(xs),
            i + written_joins(xs).len(),
        ),
    decreases xs.len(),
{
    if xs.len() == 0 {
        unfold_joins(q, i, found);
        assert(found + join_trees(xs) =~= found);
    } else {
        let rest = xs.drop_first();
        let at = i + written_join(xs[0]).len();
        lemma_split(q, i, written_join(xs[0]), written_joins(rest));
        assert forall|k: int| 0 <= k < rest.len() implies fine_join(#[trigger] rest[k], q.depth) by {
            assert(rest[k] == xs[k + 1]);
        }
        if rest.len() > 0 {
            lemma_split(q, at, written_join(rest[0]), written_joins(rest.drop_first()));
            lemma_join_first(q, at, rest[0]);
        }
        lemma_join(q, i, xs[0], found);
        lemma_joins(q, at, rest, found.push(join_tree(xs[0])));
        assert(found.push(join_tree(xs[0])) + join_trees(rest) =~= found + join_trees(xs));
    }
}

proof fn lemma_join_first(q: Input, i: int, x: JoinTerm)
    requires
        stands(q, i, written_join(x)),
    ensures
        after_table(token_at(q, i)),
{
    lemma_join_words(q, i, x);
    match x.rule {
        Rule::On(s, _) => {
            lemma_side(q, i, s, x.wordy);
        },
        _ => {},
    }
}

proof fn lemma_from(q: Input, i: int, x: FromTerm)
    requires
        0 <= q.depth,
        fine_from(x, q.depth),
        stands(q, i, written_from(x)),
        token_at(q, i + written_from(x).len()) == Some(TokenView::Comma) || clause_rank(
            token_at(q, i + written_from(x).len()),
        ) >= 2,
    ensures
        table_and_joins(q, i) == Got::<TreeView>(from_tree(x), i + written_from(x).len()),
{
    let at = i + written_table(x.table).len();
    lemma_split(q, i, written_table(x.table), written_joins(x.joins));
    if x.joins.len() > 0 {
        lemma_split(q, at, written_join(x.joins[0]), written_joins(x.joins.drop_first()));
        lemma_join_first(q, at, x.joins[0]);
    }
    lemma_table(q, i, x.table);
    lemma_joins(q, at, x.joins, Seq::empty());
    assert(Seq::<TreeView>::empty() + join_trees(x.joins) =~= join_trees(x.joins));
    unfold_table_and_joins(q, i);
}

proof fn lemma_froms(q: Input, i: int, xs: Seq<FromTerm>, k: int)
    requires
        0 <= q.depth,
        forall|j: int| 0 <= j < xs.len() ==> fine_from(#[trigger] xs[j], q.depth),
        stands(q, i, commas(from_parts(xs), xs.len() as int)),
        clause_rank(token_at(q, i + commas(from_parts(xs), xs.len() as int).len())) >= 2,
        0 <= k < xs.len(),
    ensures
        table_and_joins_list(q, i + part_start(from_parts(xs), k), from_trees(xs).take(k)) == Got::<
            Seq<TreeView>,
        >(from_trees(xs), i + commas(from_parts(xs), xs.len() as int).len()),
    decreases xs.len() - k,
{
    let n = xs.len() as int;
    let parts = from_parts(xs);
    let at = i + part_start(parts, k);
    lemma_part(q, i, parts, n, k);
    assert(parts[k] == written_from(xs[k]));
    lemma_from(q, at, xs[k]);
    unfold_table_and_joins_list(q, at, from_trees(xs).take(k));
    assert(from_trees(xs).take(k).push(from_tree(xs[k])) =~= from_trees(xs).take(k + 1));
    if k + 1 < n {
        lemma_froms(q, i, xs, k + 1);
    } else {
        assert(from_trees(xs).take(n) =~= from_trees(xs));
    }
}

proof fn lemma_from_clause(q: Input, i: int, xs: Seq<FromTerm>)
    requires
        0 <= q.depth,
        forall|j: int| 0 <= j < xs.len() ==> fine_from(#[trigger] xs[j], q.depth),
        stands(q, i, written_from_clause(xs)),
        clause_rank(token_at(q, i + written_from_clause(xs).len())) >= 2,
    ensures
        from_clause(q, i) == Got::<TreeView>(
            TreeView::List(from_trees(xs)),
            i + written_from_clause(xs).len(),
        ),
        clause_rank(token_at(q, i)) >= 1,
{
    unfold_from_clause(q, i);
    if xs.len() > 0 {
        lemma_split(q, i, word(Keyword::FROM), commas(from_parts(xs), xs.len() as int));
        lemma_word(q, i, Keyword::FROM);
        lemma_froms(q, i + 1, xs, 0);
        assert(from_trees(xs).take(0) =~= Seq::<TreeView>::empty());
    } else {
        assert(from_trees(xs) =~= Seq::<TreeView>::empty());
    }
}

proof fn lemma_clause(q: Input, i: int, k: Keyword, e: Option<Term>, rank: int)
    requires
        0 <= q.depth,
        fine_clause(e, q.depth),
        stands(q, i, written_clause(k, e)),
        clause_rank(token_at(q, i + written_clause(k, e).len())) > rank,
        rank >= 1,
        clause_rank(Some(TokenView::Keyword(k))) == rank,
    ensures
        e matches Some(e) ==> at_keyword(q, i, k) && expr(q, i + 1) == Got::<TreeView>(
            meaning(e),
            i + 1 + written(e).len(),
        ) && written(e).len() > 0 && (token_at(q, i + 1) matches Some(t) && t
            != TokenView::Keyword(Keyword::ALL)),
        e is None ==> !at_keyword(q, i, k),
        clause_rank(token_at(q, i)) >= rank,
{
    if let Some(t) = e {
        lemma_split(q, i, word(k), written(t));
        lemma_word(q, i, k);
        lemma_starts(t);
        assert(token_at(q, i + 1 + 0) == Some(written(t)[0]));
        law_expression_read(q, i + 1, t);
    }
}

proof fn lemma_group_by(q: Input, i: int, es: Seq<Term>)
    requires
        0 <= q.depth,
        fine_list(es, q.depth),
        stands(q, i, written_group_by(es)),
        clause_rank(token_at(q, i + written_group_by(es).len())) >= 4,
    ensures
        group_by_clause(q, i) == Got::<TreeView>(
            TreeView::List(meanings(es, es.len() as int)),
            i + written_group_by(es).len(),
        ),
        clause_rank(token_at(q, i)) >= 3,
{
    unfold_group_by_clause(q, i);
    if es.len() > 0 {
        let words = word(Keyword::GROUP) + word(Keyword::BY);
        lemma_split(q, i, words, written_list(es, es.len() as int));
        lemma_split(q, i, word(Keyword::GROUP), word(Keyword::BY));
        lemma_word(q, i, Keyword::GROUP);
        lemma_word(q, i + 1, Keyword::BY);
        law_expressions_read(q, i + 2, es);
    } else {
        assert(meanings(es, 0) =~= Seq::<TreeView>::empty());
    }
}

proof fn lemma_rest(q: Input, i: int, x: SelectTerm)
    requires
        0 <= q.depth,
        fine_select(x, q.depth),
        stands(q, i, written_rest(x)),
        clause_rank(token_at(q, i + written_rest(x).len())) >= 5,
    ensures
        ({
            let i1 = i + commas(item_parts(x.items), x.items.len() as int).len();
            let i2 = i1 + written_from_clause(x.from).len();
            let i3 = i2 + written_clause(Keyword::WHERE, x.filter).len();
            let i4 = i3 + written_group_by(x.group_by).len();
            let i5 = i4 + written_clause(Keyword::HAVING, x.having).len();
            &&& i < i1 <= i2 <= i3 <= i4 <= i5 <= q.toks.len()
            &&& i5 == i + written_rest(x).len()
            &&& projection(q, i) == Got::<TreeView>(TreeView::List(item_trees(x.items)), i1)
            &&& from_clause(q, i1) == Got::<TreeView>(TreeView::List(from_trees(x.from)), i2)
            &&& where_clause(q, i2) == Got::<TreeView>(clause_tree(x.filter), i3)
            &&& group_by_clause(q, i3) == Got::<TreeView>(
                TreeView::List(meanings(x.group_by, x.group_by.len() as int)),
                i4,
            )
            &&& having_clause(q, i4) == Got::<TreeView>(clause_tree(x.having), i5)
            &&& !at_keyword(q, i, Keyword::ALL) && !at_keyword(q, i, Keyword::DISTINCT) && !at_keyword(
                q,
                i,
                Keyword::ON,
            )
        }),
{
    let s1 = commas(item_parts(x.items), x.items.len() as int);
    let s2 = written_from_clause(x.from);
    let s3 = written_clause(Keyword::WHERE, x.filter);
    let s4 = written_group_by(x.group_by);
    let s5 = written_clause(Keyword::HAVING, x.having);
    let i1 = i + s1.len();
    let i2 = i1 + s2.len();
    let i3 = i2 + s3.len();
    let i4 = i3 + s4.len();
    lemma_split(q, i, s1, s2 + (s3 + (s4 + s5)));
    lemma_split(q, i1, s2, s3 + (s4 + s5));
    lemma_split(q, i2, s3, s4 + s5);
    lemma_split(q, i3, s4, s5);
    lemma_clause(q, i4, Keyword::HAVING, x.having, 4);
    lemma_group_by(q, i3, x.group_by);
    lemma_clause(q, i2, Keyword::WHERE, x.filter, 2);
    lemma_from_clause(q, i1, x.from);
    lemma_projection(q, i, x.items);
    unfold_where_clause(q, i2);
    unfold_having_clause(q, i4);
}

proof fn lemma_select(q: Input, i: int, x: SelectTerm)
    requires
        0 <= q.depth,
        fine_select(x, q.depth),
        stands(q, i, written_select(x)),
        clause_rank(token_at(q, i + written_select(x).len())) >= 5,
    ensures
        at_keyword(q, i, Keyword::SELECT),
        select(q, i + 1) == Got::<TreeView>(select_tree(x), i + written_select(x).len()),
        i + 1 < i + written_select(x).len(),
{
    let at = i + 1 + written_distinct(x.distinct).len();
    lemma_split(q, i, word(Keyword::SELECT), written_distinct(x.distinct) + written_rest(x));
    lemma_word(q, i, Keyword::SELECT);
    lemma_split(q, i + 1, written_distinct(x.distinct), written_rest(x));
    if x.distinct {
        lemma_word(q, i + 1, Keyword::DISTINCT);
    }
    lemma_rest(q, at, x);
    unfold_select_distinct(q, i + 1);
    unfold_distinct_clause(q, at, x.distinct);
    reveal(select_options);
    unfold_select(q, i + 1);
}

proof fn lemma_row(q: Input, i: int, es: Seq<Term>)
    requires
        0 <= q.depth,
        es.len() > 0,
        fine_list(es, q.depth),
        stands(q, i, written_row(es)),
    ensures
        values_row(q, i) == Got::<TreeView>(
            TreeView::List(meanings(es, es.len() as int)),
            i + written_row(es).len(),
        ),
        written_row(es).len() > 1,
{
    let open = seq![TokenView::LParen];
    let close = seq![TokenView::RParen];
    let list = written_list(es, es.len() as int);
    lemma_split(q, i, open, list + close);
    lemma_split(q, i + 1, list, close);
    assert(token_at(q, i + 0) == Some(open[0]));
    assert(token_at(q, i + 1 + list.len() + 0) == Some(close[0]));
    law_expressions_read(q, i + 1, es);
    unfold_values_row(q, i);
}

proof fn lemma_rows(q: Input, i: int, xs: Seq<Seq<Term>>, k: int)
    requires
        0 <= q.depth,
        forall|j: int| 0 <= j < xs.len() ==> (#[trigger] xs[j]).len() > 0 && fine_list(xs[j], q.depth),
        stands(q, i, commas(row_parts(xs), xs.len() as int)),
        clause_rank(token_at(q, i + commas(row_parts(xs), xs.len() as int).len())) >= 5,
        0 <= k < xs.len(),
    ensures
        values_row_list(q, i + part_start(row_parts(xs), k), row_trees(xs).take(k)) == Got::<Seq<TreeView>>(
            row_trees(xs),
            i + commas(row_parts(xs), xs.len() as int).len(),
        ),
        commas(row_parts(xs), xs.len() as int).len() > 0,
    decreases xs.len() - k,
{
    let n = xs.len() as int;
    let parts = row_parts(xs);
    let at = i + part_start(parts, k);
    lemma_part(q, i, parts, n, k);
    assert(parts[k] == written_row(xs[k]));
    lemma_row(q, at, xs[k]);
    unfold_values_row_list(q, at, row_trees(xs).take(k));
    assert(row_trees(xs).take(k).push(TreeView::List(meanings(xs[k], xs[k].len() as int))) =~= row_trees(
        xs,
    ).take(k + 1));
    if k + 1 < n {
        lemma_rows(q, i, xs, k + 1);
    } else {
        assert(row_trees(xs).take(n) =~= row_trees(xs));
    }
}

/// The class of a set operator.
spec fn set_class(k: Keyword) -> SetPrecedence {
    if k == Keyword::INTERSECT {
        SetPrecedence::Intersect
    } else {
        SetPrecedence::UnionExcept
    }
}

/// Whether what follows a body leaves it alone.
spec fn leaves(t: Option<TokenView>, x: BodyTerm) -> bool {
    clause_rank(t) >= 5 && (clause_rank(t) == 5 ==> set_tightness(t->0->Keyword_0) <= body_level(x))
}

proof fn lemma_body_starts(x: BodyTerm, depth: int)
    requires
        fine_body(x, depth),
    ensures
        written_body(x).len() > 0,
        written_body(x)[0] == TokenView::Keyword(Keyword::SELECT) || written_body(x)[0] == TokenView::Keyword(
            Keyword::VALUES,
        ),
    decreases x,
{
    match x {
        BodyTerm::Combined(a, _, _, _) => {
            lemma_body_starts(*a, depth);
        },
        _ => {},
    }
}

/// The body of a query is read as what it means, and then the set operators that follow it.
proof fn lemma_body(q: Input, i: int, precedence: SetPrecedence, x: BodyTerm)
    requires
        0 <= q.depth,
        fine_body(x, q.depth),
        stands(q, i, written_body(x)),
        leaves(token_at(q, i + written_body(x).len()), x),
        set_binding(precedence) < body_level(x),
    ensures
        query_body(q, i, precedence) == query_body_seeded(
            q,
            i + written_body(x).len(),
            precedence,
            body_tree(x),
        ),
    decreases x,
{
    lemma_body_starts(x, q.depth);
    match x {
        BodyTerm::Select(s) => {
            lemma_select(q, i, s);
            unfold_query_body(q, i, precedence);
        },
        BodyTerm::Values(rows) => {
            let parts = row_parts(rows);
            lemma_split(q, i, word(Keyword::VALUES), commas(parts, rows.len() as int));
            lemma_word(q, i, Keyword::VALUES);
            lemma_rows(q, i + 1, rows, 0);
            assert(row_trees(rows).take(0) =~= Seq::<TreeView>::empty());
            unfold_query_body(q, i, precedence);
        },
        BodyTerm::Combined(a, k, all, b) => {
            if fine_body(*a, q.depth) && stands(q, i, written_body(*a)) && leaves(
                token_at(q, i + written_body(*a).len()),
                *a,
            ) && set_binding(precedence) < body_level(*a) {
                lemma_body(q, i, precedence, *a);
            }
            assert forall|j: int|
                stands(q, j, written_body(*b)) && leaves(token_at(q, j + written_body(*b).len()), *b)
                    && set_binding(set_class(k)) < body_level(*b) && fine_body(*b, q.depth) implies #[trigger] query_body(
            q, j, set_class(k)) == query_body_seeded(
                q,
                j + written_body(*b).len(),
                set_class(k),
                body_tree(*b),
            ) by {
                lemma_body(q, j, set_class(k), *b);
            }
            lemma_combined(q, i, precedence, *a, k, all, *b);
        },
    }
}

proof fn lemma_combined(q: Input, i: int, precedence: SetPrecedence, a: BodyTerm, k: Keyword, all: bool, b: BodyTerm)
    requires
        0 <= q.depth,
        fine_body(BodyTerm::Combined(Box::new(a), k, all, Box::new(b)), q.depth),
        stands(q, i, written_body(BodyTerm::Combined(Box::new(a), k, all, Box::new(b)))),
        leaves(
            token_at(
                q,
                i + written_body(BodyTerm::Combined(Box::new(a), k, all, Box::new(b))).len(),
            ),
            BodyTerm::Combined(Box::new(a), k, all, Box::new(b)),
        ),
        set_binding(precedence) < set_tightness(k),
        fine_body(a, q.depth) && stands(q, i, written_body(a)) && leaves(
            token_at(q, i + written_body(a).len()),
            a,
        ) && set_binding(precedence) < body_level(a) ==> query_body(q, i, precedence) == query_body_seeded(
            q,
            i + written_body(a).len(),
            precedence,
            body_tree(a),
        ),
        forall|j: int|
            stands(q, j, written_body(b)) && leaves(token_at(q, j + written_body(b).len()), b)
                && set_binding(set_class(k)) < body_level(b) && fine_body(b, q.depth)
                ==> #[trigger] query_body(q, j, set_class(k)) == query_body_seeded(
                q,
                j + written_body(b).len(),
                set_class(k),
                body_tree(b),
            ),
    ensures
        query_body(q, i, precedence) == query_body_seeded(
            q,
            i + written_body(BodyTerm::Combined(Box::new(a), k, all, Box::new(b))).len(),
            precedence,
            body_tree(BodyTerm::Combined(Box::new(a), k, all, Box::new(b))),
        ),
{
    let x = BodyTerm::Combined(Box::new(a), k, all, Box::new(b));
    let flag = if all {
        word(Keyword::ALL)
    } else {
        Seq::empty()
    };
    let at = i + written_body(a).len();
    let next = at + 1 + flag.len();
    let end = i + written_body(x).len();
    lemma_split(q, i, written_body(a), word(k) + (flag + written_body(b)));
    lemma_split(q, at, word(k), flag + written_body(b));
    lemma_word(q, at, k);
    lemma_split(q, at + 1, flag, written_body(b));
    if all {
        lemma_word(q, at + 1, Keyword::ALL);
    }
    lemma_body_starts(b, q.depth);
    assert(token_at(q, next + 0) == Some(written_body(b)[0]));
    assert(next + written_body(b).len() == end);
    assert(query_body(q, next, set_class(k)) == query_body_seeded(q, end, set_class(k), body_tree(b)));
    lemma_set_operator(q, at, end, precedence, k, all, body_tree(a), body_tree(b));
}

proof fn lemma_set_operator(
    q: Input,
    at: int,
    end: int,
    precedence: SetPrecedence,
    k: Keyword,
    all: bool,
    a: TreeView,
    b: TreeView,
)
    requires
        k == Keyword::UNION || k == Keyword::EXCEPT || k == Keyword::INTERSECT,
        at_keyword(q, at, k),
        at_keyword(q, at + 1, Keyword::ALL) == all,
        !at_keyword(
            q,
            if all {
                at + 2
            } else {
                at + 1
            },
            Keyword::DISTINCT,
        ),
        (if all {
            at + 2
        } else {
            at + 1
        }) < end <= q.toks.len(),
        set_binding(precedence) < set_tightness(k),
        query_body(
            q,
            if all {
                at + 2
            } else {
                at + 1
            },
            set_class(k),
        ) == query_body_seeded(q, end, set_class(k), b),
        clause_rank(token_at(q, end)) >= 5,
        clause_rank(token_at(q, end)) == 5 ==> set_tightness(token_at(q, end)->0->Keyword_0)
            <= set_tightness(k),
    ensures
        query_body_seeded(q, at, precedence, a) == query_body_seeded(
            q,
            end,
            precedence,
            TreeView::Node(
                Kind::SetOperation,
                seq![
                    a,
                    TreeView::Node(set_kind(k), Seq::<TreeView>::empty()),
                    TreeView::Flag(all),
                    b,
                ],
            ),
        ),
{
    unfold_query_body_seeded(q, end, set_class(k), b);
    unfold_query_body_seeded(q, at, precedence, a);
    reveal(set_operation_all);
}

proof fn lemma_order(q: Input, i: int, x: OrderTerm)
    requires
        0 <= q.depth,
        fine(x.e, q.depth),
        stands(q, i, written_order(x)),
        token_at(q, i + written_order(x).len()) == Some(TokenView::Comma) || clause_rank(
            token_at(q, i + written_order(x).len()),
        ) >= 7,
    ensures
        order_by_expr(q, i) == Got::<TreeView>(order_tree(x), i + written_order(x).len()),
        written_order(x).len() > 0,
{
    let direction = match x.ascending {
        Some(true) => word(Keyword::ASC),
        Some(false) => word(Keyword::DESC),
        None => Seq::empty(),
    };
    let nulls = match x.nulls_last {
        Some(true) => word(Keyword::NULLS) + word(Keyword::LAST),
        Some(false) => word(Keyword::NULLS) + word(Keyword::FIRST),
        None => Seq::empty(),
    };
    let at = i + written(x.e).len();
    let next = at + direction.len();
    lemma_starts(x.e);
    lemma_split(q, i, written(x.e), direction + nulls);
    lemma_split(q, at, direction, nulls);
    if x.ascending is Some {
        assert(token_at(q, at + 0) == Some(direction[0]));
    }
    if x.nulls_last is Some {
        assert(token_at(q, next + 0) == Some(nulls[0]));
        assert(token_at(q, next + 1) == Some(nulls[1]));
    }
    let ks = seq![Keyword::FIRST, Keyword::LAST];
    assert(ks[0] == Keyword::FIRST && ks[1] == Keyword::LAST);
    assert(ks.contains(Keyword::FIRST) && ks.contains(Keyword::LAST));
    law_expression_read(q, i, x.e);
    unfold_order_by_expr(q, i);
}

proof fn lemma_orders(q: Input, i: int, xs: Seq<OrderTerm>, k: int)
    requires
        0 <= q.depth,
        forall|j: int| 0 <= j < xs.len() ==> fine((#[trigger] xs[j]).e, q.depth),
        stands(q, i, commas(order_parts(xs), xs.len() as int)),
        clause_rank(token_at(q, i + commas(order_parts(xs), xs.len() as int).len())) >= 7,
        0 <= k < xs.len(),
    ensures
        order_by_expr_list(q, i + part_start(order_parts(xs), k), order_trees(xs).take(k)) == Got::<
            Seq<TreeView>,
        >(order_trees(xs), i + commas(order_parts(xs), xs.len() as int).len()),
        commas(order_parts(xs), xs.len() as int).len() > 0,
    decreases xs.len() - k,
{
    let n = xs.len() as int;
    let parts = order_parts(xs);
    let at = i + part_start(parts, k);
    lemma_part(q, i, parts, n, k);
    assert(parts[k] == written_order(xs[k]));
    lemma_order(q, at, xs[k]);
    unfold_order_by_expr_list(q, at, order_trees(xs).take(k));
    assert(order_trees(xs).take(k).push(order_tree(xs[k])) =~= order_trees(xs).take(k + 1));
    if k + 1 < n {
        lemma_orders(q, i, xs, k + 1);
    } else {
        assert(order_trees(xs).take(n) =~= order_trees(xs));
    }
}

/// What follows the body of a query is read as what it means.
proof fn lemma_tail(q: Input, i: int, x: QueryTerm)
    requires
        0 <= q.depth,
        fine_query(x, q.depth),
        0 <= i <= q.toks.len(),
        stands(
            q,
            i,
            written_order_by(x.order_by) + (written_clause(Keyword::LIMIT, x.limit) + written_clause(
                Keyword::OFFSET,
                x.offset,
            )),
        ),
        clause_rank(
            token_at(
                q,
                i + (written_order_by(x.order_by) + (written_clause(Keyword::LIMIT, x.limit) + written_clause(
                    Keyword::OFFSET,
                    x.offset,
                ))).len(),
            ),
        ) == 9,
    ensures
        ({
            let ctes = TreeView::Node(
                Kind::SimpleCtes,
                seq![TreeView::List(Seq::<TreeView>::empty())],
            );
            query_tail(q, i, ctes, body_tree(x.body)) == Got::<TreeView>(
                query_tree(x),
                i + (written_order_by(x.order_by) + (written_clause(Keyword::LIMIT, x.limit) + written_clause(
                    Keyword::OFFSET,
                    x.offset,
                ))).len(),
            )
        }),
        clause_rank(token_at(q, i)) >= 6,
{
    let s1 = written_order_by(x.order_by);
    let s2 = written_clause(Keyword::LIMIT, x.limit);
    let s3 = written_clause(Keyword::OFFSET, x.offset);
    let i1 = i + s1.len();
    let i2 = i1 + s2.len();
    let i3 = i2 + s3.len();
    let ctes = TreeView::Node(Kind::SimpleCtes, seq![TreeView::List(Seq::<TreeView>::empty())]);
    lemma_split(q, i, s1, s2 + s3);
    lemma_split(q, i1, s2, s3);
    lemma_clause(q, i2, Keyword::OFFSET, x.offset, 8);
    lemma_clause(q, i1, Keyword::LIMIT, x.limit, 7);
    if x.order_by.len() > 0 {
        let words = word(Keyword::ORDER) + word(Keyword::BY);
        lemma_split(q, i, words, commas(order_parts(x.order_by), x.order_by.len() as int));
        lemma_split(q, i, word(Keyword::ORDER), word(Keyword::BY));
        lemma_word(q, i, Keyword::ORDER);
        lemma_word(q, i + 1, Keyword::BY);
        lemma_orders(q, i + 2, x.order_by, 0);
        assert(order_trees(x.order_by).take(0) =~= Seq::<TreeView>::empty());
    } else {
        assert(order_trees(x.order_by) =~= Seq::<TreeView>::empty());
    }
    reveal(skip_row_word);
    let body = body_tree(x.body);
    assert(no_members(ctes));
    assert(is_empty_list(TreeView::List(Seq::<TreeView>::empty())));
    assert(one_of(q, i3, seq![Keyword::ROW, Keyword::ROWS]) is None);
    assert(i3 == i + (s1 + (s2 + s3)).len());
    assert(query_parts(body) == (
        ctes,
        TreeView::List(Seq::<TreeView>::empty()),
        TreeView::Absent,
        TreeView::Absent,
        body,
    ));
    unfold_query_tail(q, i, ctes, body);
}

/// A query is read back as it is written, up to its end: set operators bind as tightly as they
/// are said to, the word `ALL` counts where it stands, joins are of the kind that is named, and
/// each clause comes to what it means.
pub proof fn law_query_read(p: Input, i: int, x: QueryTerm)
    requires
        0 <= p.depth < RECURSION_LIMIT,
        fine_query(x, p.depth + 1),
        stands(p, i, written_query(x)),
        clause_rank(token_at(p, i + written_query(x).len())) == 9,
    ensures
        query(p, i) == Got::<TreeView>(query_tree(x), i + written_query(x).len()),
{
    let q = deeper(p);
    let tail = written_order_by(x.order_by) + (written_clause(Keyword::LIMIT, x.limit) + written_clause(
        Keyword::OFFSET,
        x.offset,
    ));
    let at = i + written_body(x.body).len();
    lemma_deeper(p, i, written_query(x));
    lemma_split(q, i, written_body(x.body), tail);
    lemma_tail(q, at, x);
    lemma_body_starts(x.body, q.depth);
    assert(token_at(q, i + 0) == Some(written_body(x.body)[0]));
    lemma_body(q, i, SetPrecedence::Zero, x.body);
    unfold_query_body_seeded(q, at, SetPrecedence::Zero, body_tree(x.body));
    unfold_cte_block(q, i);
    unfold_query_level(q, i);
    unfold_query(p, i);
}

/// Where a set operator stands between two bodies, the operation says that duplicates are kept
/// exactly where the word behind the operator is `ALL`, and is the one that the operator names.
pub proof fn law_set_operation_read(p: Input, i: int, a: BodyTerm, k: Keyword, all: bool, b: BodyTerm, precedence: SetPrecedence)
    requires
        0 <= p.depth,
        fine_body(BodyTerm::Combined(Box::new(a), k, all, Box::new(b)), p.depth),
        stands(p, i, written_body(BodyTerm::Combined(Box::new(a), k, all, Box::new(b)))),
        clause_rank(
            token_at(
                p,
                i + written_body(BodyTerm::Combined(Box::new(a), k, all, Box::new(b))).len(),
            ),
        ) >= 6,
        set_binding(precedence) < set_tightness(k),
    ensures
        at_keyword(p, i + written_body(a).len(), k),
        at_keyword(p, i + written_body(a).len() + 1, Keyword::ALL) == all,
        query_body(p, i, precedence) matches Got(t, _) && t == TreeView::Node(
            Kind::SetOperation,
            seq![
                body_tree(a),
                TreeView::Node(set_kind(k), Seq::<TreeView>::empty()),
                TreeView::Flag(all),
                body_tree(b),
            ],
        ),
{
    let x = BodyTerm::Combined(Box::new(a), k, all, Box::new(b));
    let flag = if all {
        word(Keyword::ALL)
    } else {
        Seq::empty()
    };
    let at = i + written_body(a).len();
    lemma_split(p, i, written_body(a), word(k) + (flag + written_body(b)));
    lemma_split(p, at, word(k), flag + written_body(b));
    lemma_word(p, at, k);
    lemma_split(p, at + 1, flag, written_body(b));
    lemma_body_starts(b, p.depth);
    if all {
        lemma_word(p, at + 1, Keyword::ALL);
    } else {
        assert(token_at(p, at + 1 + 0) == Some(written_body(b)[0]));
    }
    lemma_body(p, i, precedence, x);
    unfold_query_body_seeded(p, i + written_body(x).len(), precedence, body_tree(x));
}

} // verus!
