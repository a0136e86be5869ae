//! The order of texts and of rows of texts.

use vstd::prelude::*;
use vstd::relations::{
    antisymmetric, reflexive, sorted_by, strongly_connected, total_ordering, transitive,
};
use vstd::seq_lib::lemma_sorted_unique;

use crate::sql_parser::text::texts_view;

verus! {

/// Whether `a` comes before `b`, or is `b`, where the first difference decides by `le` and a
/// sequence comes after its beginnings.
pub open spec fn lex_le<A>(a: Seq<A>, b: Seq<A>, le: spec_fn(A, A) -> bool) -> bool
    decreases a.len(),
{
    if a.len() == 0 {
        true
    } else if b.len() == 0 {
        false
    } else if a[0] == b[0] {
        lex_le(a.drop_first(), b.drop_first(), le)
    } else {
        le(a[0], b[0])
    }
}

/// The order of characters: by their code points.
pub open spec fn by_char() -> spec_fn(char, char) -> bool {
    |a: char, b: char| a <= b
}

/// The order of texts: character by character.
pub open spec fn by_text() -> spec_fn(Seq<char>, Seq<char>) -> bool {
    |a: Seq<char>, b: Seq<char>| lex_le(a, b, by_char())
}

/// The order of rows: text by text.
pub open spec fn by_row() -> spec_fn(Seq<Seq<char>>, Seq<Seq<char>>) -> bool {
    |a: Seq<Seq<char>>, b: Seq<Seq<char>>| lex_le(a, b, by_text())
}

/// The characters of each text of each row.
pub open spec fn rows_view(rows: Seq<Vec<String>>) -> Seq<Seq<Seq<char>>> {
    Seq::new(rows.len(), |k: int| texts_view(rows[k]@))
}

proof fn lemma_lex_reflexive<A>(a: Seq<A>, le: spec_fn(A, A) -> bool)
    ensures
        lex_le(a, a, le),
    decreases a.len(),
{
    if a.len() > 0 {
        lemma_lex_reflexive(a.drop_first(), le);
    }
}

proof fn lemma_lex_antisymmetric<A>(a: Seq<A>, b: Seq<A>, le: spec_fn(A, A) -> bool)
    requires
        total_ordering(le),
        lex_le(a, b, le),
        lex_le(b, a, le),
    ensures
        a == b,
    decreases a.len(),
{
    if a.len() > 0 && b.len() > 0 {
        assert(a[0] == b[0]);
        lemma_lex_antisymmetric(a.drop_first(), b.drop_first(), le);
        assert(a =~= seq![a[0]] + a.drop_first());
        assert(b =~= seq![b[0]] + b.drop_first());
    } else {
        assert(a =~= b);
    }
}

proof fn lemma_lex_transitive<A>(a: Seq<A>, b: Seq<A>, c: Seq<A>, le: spec_fn(A, A) -> bool)
    requires
        total_ordering(le),
        lex_le(a, b, le),
        lex_le(b, c, le),
    ensures
        lex_le(a, c, le),
    decreases a.len(),
{
    if a.len() > 0 && b.len() > 0 && c.len() > 0 {
        if a[0] == b[0] && b[0] == c[0] {
            lemma_lex_transitive(a.drop_first(), b.drop_first(), c.drop_first(), le);
        } else {
            assert(le(a[0], b[0]));
            assert(le(b[0], c[0]));
            assert(le(a[0], c[0]));
            if a[0] == c[0] {
                assert(le(b[0], a[0]));
                assert(a[0] == b[0]);
            }
        }
    }
}

proof fn lemma_lex_connected<A>(a: Seq<A>, b: Seq<A>, le: spec_fn(A, A) -> bool)
    requires
        total_ordering(le),
    ensures
        lex_le(a, b, le) || lex_le(b, a, le),
    decreases a.len(),
{
    if a.len() > 0 && b.len() > 0 && a[0] == b[0] {
        lemma_lex_connected(a.drop_first(), b.drop_first(), le);
    }
}

pub(crate) proof fn lemma_by_text()
    ensures
        total_ordering(by_text()),
{
    let le = by_char();
    let lex = by_text();
    assert(total_ordering(le));
    assert(reflexive(lex)) by {
        assert forall|x: Seq<char>| #[trigger] lex(x, x) by {
            lemma_lex_reflexive(x, le);
        }
    }
    assert(antisymmetric(lex)) by {
        assert forall|x: Seq<char>, y: Seq<char>| #[trigger] lex(x, y) && #[trigger] lex(y, x) implies x
            == y by {
            lemma_lex_antisymmetric(x, y, le);
        }
    }
    assert(transitive(lex)) by {
        assert forall|x: Seq<char>, y: Seq<char>, z: Seq<char>| #[trigger]
            lex(x, y) && #[trigger] lex(y, z) implies lex(x, z) by {
            lemma_lex_transitive(x, y, z, le);
        }
    }
    assert(strongly_connected(lex)) by {
        assert forall|x: Seq<char>, y: Seq<char>| #[trigger] lex(x, y) || #[trigger] lex(y, x) by {
            lemma_lex_connected(x, y, le);
        }
    }
}

pub(crate) proof fn lemma_by_row()
    ensures
        total_ordering(by_row()),
{
    lemma_by_text();
    let le = by_text();
    let lex = by_row();
    assert(reflexive(lex)) by {
        assert forall|x: Seq<Seq<char>>| #[trigger] lex(x, x) by {
            lemma_lex_reflexive(x, le);
        }
    }
    assert(antisymmetric(lex)) by {
        assert forall|x: Seq<Seq<char>>, y: Seq<Seq<char>>| #[trigger] lex(x, y) && #[trigger] lex(y, x) implies x
            == y by {
            lemma_lex_antisymmetric(x, y, le);
        }
    }
    assert(transitive(lex)) by {
        assert forall|x: Seq<Seq<char>>, y: Seq<Seq<char>>, z: Seq<Seq<char>>| #[trigger]
            lex(x, y) && #[trigger] lex(y, z) implies lex(x, z) by {
            lemma_lex_transitive(x, y, z, le);
        }
    }
    assert(strongly_connected(lex)) by {
        assert forall|x: Seq<Seq<char>>, y: Seq<Seq<char>>| #[trigger] lex(x, y) || #[trigger] lex(y, x) by {
            lemma_lex_connected(x, y, le);
        }
    }
}

/// `slice::sort` on texts keeps them and puts them in the order of their characters.
#[verifier::external_body]
fn std_sort_texts(texts: &mut Vec<String>)
    ensures
        texts_view(final(texts)@).to_multiset() == texts_view(old(texts)@).to_multiset(),
        sorted_by(texts_view(final(texts)@), by_text()),
{
    texts.sort();
}

/// `slice::sort` on rows keeps them and puts them in the order of their texts.
#[verifier::external_body]
fn std_sort_rows(rows: &mut Vec<Vec<String>>)
    ensures
        rows_view(final(rows)@).to_multiset() == rows_view(old(rows)@).to_multiset(),
        sorted_by(rows_view(final(rows)@), by_row()),
{
    rows.sort();
}

/// Puts texts in order.
pub fn sort_texts(texts: &mut Vec<String>)
    ensures
        texts_view(final(texts)@) == texts_view(old(texts)@).sort_by(by_text()),
{
    let ghost before = texts_view(texts@);
    std_sort_texts(texts);
    proof {
        lemma_by_text();
        before.lemma_sort_by_ensures(by_text());
        lemma_sorted_unique(texts_view(texts@), before.sort_by(by_text()), by_text());
    }
}

/// Puts rows in order.
pub fn sort_rows(rows: &mut Vec<Vec<String>>)
    ensures
        rows_view(final(rows)@) == rows_view(old(rows)@).sort_by(by_row()),
{
    let ghost before = rows_view(rows@);
    std_sort_rows(rows);
    proof {
        lemma_by_row();
        before.lemma_sort_by_ensures(by_row());
        lemma_sorted_unique(rows_view(rows@), before.sort_by(by_row()), by_row());
    }
}

} // verus!
