//! Statements that are run in addition to those of a test file.

use vstd::prelude::*;

use crate::sql_parser::checks::{quote_ident, quoted_ident, text_in};
use crate::sql_parser::kind::Kind;
use crate::sql_parser::outcome::FailureView;
use crate::sql_parser::parse::{statements_of, try_parse_statements};
use crate::sql_parser::syntax::{group_tree_views, views, views_index, Tree, TreeView};
use crate::sql_parser::text::{no_text, texts_view};
use crate::sqllogictest::texts::{join, joined};

verus! {

/// The parts of a construct or the members of a list.
pub open spec fn parts_of(t: TreeView) -> Seq<TreeView> {
    match t {
        TreeView::Node(_, ts) => ts,
        TreeView::List(ts) => ts,
        _ => Seq::empty(),
    }
}

/// One part of a construct.
pub open spec fn part_of(t: TreeView, k: int) -> TreeView {
    if 0 <= k < parts_of(t).len() {
        parts_of(t)[k]
    } else {
        TreeView::Absent
    }
}

/// Identifiers, each in quotes.
pub open spec fn quoted_all(ids: Seq<Seq<char>>) -> Seq<Seq<char>> {
    Seq::new(ids.len(), |k: int| quoted_ident(ids[k]))
}

/// The identifiers of a table's name.
pub open spec fn table_name_of(t: TreeView) -> Seq<Seq<char>> {
    let ids = parts_of(part_of(part_of(t, 0), 0));
    Seq::new(ids.len(), |k: int| text_in(ids[k]))
}

/// The names of a table's columns.
pub open spec fn column_names_of(t: TreeView) -> Seq<Seq<char>> {
    let columns = parts_of(part_of(part_of(t, 1), 0));
    Seq::new(columns.len(), |k: int| text_in(part_of(columns[k], 0)))
}

/// The statement that makes an index on all columns of a table.
pub open spec fn index_statement(t: TreeView) -> Seq<char> {
    no_text() + "CREATE INDEX ON "@ + joined(quoted_all(table_name_of(t)), "."@) + " ("@ + joined(
        quoted_all(column_names_of(t)),
        ", "@,
    ) + ")"@
}

/// Whether a statement makes a table.
pub open spec fn makes_table(t: TreeView) -> bool {
    t matches TreeView::Node(kind, _) && kind == Kind::CreateTable
}

/// The additional statements for the first `n` statements.
pub open spec fn additional(statements: Seq<TreeView>, n: int) -> Seq<Seq<char>>
    decreases n,
{
    if n <= 0 {
        Seq::empty()
    } else if makes_table(statements[n - 1]) {
        additional(statements, n - 1).push(index_statement(statements[n - 1]))
    } else {
        additional(statements, n - 1)
    }
}

/// The additional statements for a text. A text that cannot be parsed has none.
pub open spec fn mutations(sql: Seq<char>) -> Seq<Seq<char>> {
    match statements_of(sql) {
        Ok(statements) => additional(statements, statements.len() as int),
        Err(_) => Seq::empty(),
    }
}

fn parts(t: &Tree) -> (r: Option<&Vec<Tree>>)
    ensures
        match r {
            Some(ts) => views(ts@) == parts_of(t@),
            None => parts_of(t@) == Seq::<TreeView>::empty(),
        },
{
    broadcast use group_tree_views;

    match t {
        Tree::Node(kind, ts) => {
            assert(t@ == Tree::Node(*kind, *ts)@);
            Some(ts)
        },
        Tree::List(ts) => {
            assert(t@ == Tree::List(*ts)@);
            Some(ts)
        },
        _ => {
            proof {
                reveal(<Tree as View>::view);
            }
            None
        },
    }
}

fn part(t: &Tree, k: usize) -> (r: Option<&Tree>)
    ensures
        match r {
            Some(c) => c@ == part_of(t@, k as int),
            None => part_of(t@, k as int) == TreeView::Absent,
        },
{
    match parts(t) {
        Some(ts) => if k < ts.len() {
            proof {
                views_index(ts@, k as int);
            }
            Some(&ts[k])
        } else {
            None
        },
        None => None,
    }
}

fn leaf_text(t: Option<&Tree>) -> (r: String)
    ensures
        r@ == text_in(
            match t {
                Some(t) => t@,
                None => TreeView::Absent,
            },
        ),
{
    broadcast use group_tree_views;

    match t {
        Some(Tree::Text(s)) => {
            assert(t->0@ == Tree::Text(*s)@);
            s.clone()
        },
        _ => {
            proof {
                reveal(<Tree as View>::view);
            }
            String::new()
        },
    }
}

fn quoted_names(t: &Tree) -> (r: Vec<String>)
    ensures
        texts_view(r@) == quoted_all(table_name_of(t@)),
{
    let mut out: Vec<String> = Vec::new();
    let ids = match part(t, 0) {
        Some(name) => match part(name, 0) {
            Some(list) => parts(list),
            None => None,
        },
        None => None,
    };
    if let Some(ids) = ids {
        let mut k: usize = 0;
        while k < ids.len()
            invariant
                k <= ids.len(),
                out.len() == k,
                forall|j: int|
                    0 <= j < k ==> (#[trigger] out@[j])@ == quoted_ident(text_in(views(ids@)[j])),
            decreases ids.len() - k,
        {
            proof {
                views_index(ids@, k as int);
            }
            out.push(quote_ident(leaf_text(Some(&ids[k])).as_str()));
            k += 1;
        }
    }
    assert(texts_view(out@) =~= quoted_all(table_name_of(t@)));
    out
}

fn quoted_columns(t: &Tree) -> (r: Vec<String>)
    ensures
        texts_view(r@) == quoted_all(column_names_of(t@)),
{
    let mut out: Vec<String> = Vec::new();
    let columns = match part(t, 1) {
        Some(body) => match part(body, 0) {
            Some(list) => parts(list),
            None => None,
        },
        None => None,
    };
    if let Some(columns) = columns {
        let mut k: usize = 0;
        while k < columns.len()
            invariant
                k <= columns.len(),
                out.len() == k,
                forall|j: int|
                    0 <= j < k ==> (#[trigger] out@[j])@ == quoted_ident(
                        text_in(part_of(views(columns@)[j], 0)),
                    ),
            decreases columns.len() - k,
        {
            proof {
                views_index(columns@, k as int);
            }
            out.push(quote_ident(leaf_text(part(&columns[k], 0)).as_str()));
            k += 1;
        }
    }
    assert(texts_view(out@) =~= quoted_all(column_names_of(t@)));
    out
}

fn is_create_table(t: &Tree) -> (r: bool)
    ensures
        r == makes_table(t@),
{
    broadcast use group_tree_views;

    match t {
        Tree::Node(kind, ts) => {
            assert(t@ == Tree::Node(*kind, *ts)@);
            *kind == Kind::CreateTable
        },
        _ => {
            proof {
                reveal(<Tree as View>::view);
            }
            false
        },
    }
}

/// Returns extra statements to execute after `sql` is executed, or `None` where the grammar
/// takes a word but gives it no meaning.
pub fn try_mutate(sql: &str) -> (r: Option<Vec<String>>)
    requires
        sql@.len() < usize::MAX,
    ensures
        match r {
            Some(texts) => texts_view(texts@) == mutations(sql@) && statements_of(sql@) != Err::<
                Seq<TreeView>,
                FailureView,
            >(FailureView::Unhandled),
            None => statements_of(sql@) == Err::<Seq<TreeView>, FailureView>(FailureView::Unhandled),
        },
{
    let mut out: Vec<String> = Vec::new();
    match try_parse_statements(sql) {
        None => {
            return None;
        },
        Some(Err(_)) => {},
        Some(Ok(statements)) => {
            let mut k: usize = 0;
            assert(texts_view(out@) =~= Seq::empty());
            while k < statements.len()
                invariant
                    k <= statements.len(),
                    texts_view(out@) == additional(views(statements@), k as int),
                decreases statements.len() - k,
            {
                proof {
                    views_index(statements@, k as int);
                }
                if is_create_table(&statements[k]) {
                    // CREATE TABLE -> CREATE INDEX. Specify all columns manually in case CREATE
                    // DEFAULT INDEX ever goes away.
                    let names = quoted_names(&statements[k]);
                    let columns = quoted_columns(&statements[k]);
                    let ghost before = texts_view(out@);
                    let text = String::new().concat("CREATE INDEX ON ").concat(
                        join(&names, ".").as_str(),
                    ).concat(" (").concat(join(&columns, ", ").as_str()).concat(")");
                    out.push(text);
                    assert(texts_view(out@) =~= before.push(text@));
                }
                k += 1;
            }
        },
    }
    assert(statements_of(sql@) is Err ==> texts_view(out@) =~= Seq::empty());
    Some(out)
}

/// Returns extra statements to execute after `sql` is executed.
pub fn mutate(sql: &str) -> (r: Vec<String>)
    requires
        sql@.len() < usize::MAX,
        statements_of(sql@) != Err::<Seq<TreeView>, FailureView>(FailureView::Unhandled),
    ensures
        texts_view(r@) == mutations(sql@),
{
    match try_mutate(sql) {
        Some(texts) => texts,
        None => Vec::new(),
    }
}

} // verus!
