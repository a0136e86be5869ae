//! What holds of values in their binary form, and of what else is done with records.

use vstd::prelude::*;
use vstd::utf8::{decode_utf8, valid_utf8};

use crate::sql_parser::number::read_digits;
use crate::sql_parser::number::read_integer;
use crate::sql_parser::syntax::TreeView;
use crate::sql_parser::text::no_text;
use crate::sql_parser::checks::quoted_ident;
use crate::sqllogictest::ast::Record;
use crate::sqllogictest::mutate::{
    additional, column_names_of, index_statement, makes_table, quoted_all, table_name_of,
};
use crate::sqllogictest::outcome::{outcome_text, OutcomeView};
use crate::sqllogictest::reset::{drop_clusters, steps_after, ResetFinding, StepView};
use crate::sqllogictest::run::{lines_after, lines_before, record_line};
use crate::sqllogictest::slt::{
    be, decoded_simple, field_at, DecodeError, BOOL, BYTEA, CHAR, DATE, INT2, INT4, INT8, OID, TEXT,
    TYPE_UINT2_OID, TYPE_UINT4_OID, TYPE_UINT8_OID, VARCHAR,
};
use crate::sqllogictest::texts::{indented, joined};
use crate::sqllogictest::value::ValueView;
use crate::sqllogictest::writing::{digits_value, writes_number};

verus! {

/// A signed number as the unsigned one with the same bits, of which there are as many as are needed
/// to count below `limit`.
pub open spec fn same_bits(i: int, limit: int) -> int {
    if i < 0 {
        i + limit
    } else {
        i
    }
}

/// Bytes are a number with the first byte counting most.
pub proof fn law_big_endian(a: u8, b: u8, c: u8, d: u8, s: Seq<u8>)
    ensures
        be(seq![a]) == a,
        be(seq![a, b]) == 256 * a + b,
        be(seq![a, b, c, d]) == 16_777_216 * a + 65_536 * b + 256 * c + d,
        be(s.push(a)) == 256 * be(s) + a,
{
    reveal_with_fuel(be, 5);
    assert(seq![a].drop_last() =~= Seq::<u8>::empty());
    assert(seq![a, b].drop_last() =~= seq![a]);
    assert(seq![a, b, c].drop_last() =~= seq![a, b]);
    assert(seq![a, b, c, d].drop_last() =~= seq![a, b, c]);
    assert(s.push(a).drop_last() =~= s);
}

proof fn lemma_be_bound(s: Seq<u8>)
    ensures
        0 <= be(s),
        s.len() == 1 ==> be(s) < 0x100,
        s.len() == 2 ==> be(s) < 0x1_0000,
        s.len() == 4 ==> be(s) < 0x1_0000_0000,
        s.len() == 8 ==> be(s) < 0x1_0000_0000_0000_0000,
    decreases s.len(),
{
    if s.len() > 0 {
        lemma_be_bound(s.drop_last());
        let a = s.drop_last();
        if a.len() > 0 {
            lemma_be_bound(a.drop_last());
            let b = a.drop_last();
            if b.len() > 0 {
                lemma_be_bound(b.drop_last());
                let c = b.drop_last();
                if c.len() > 0 {
                    lemma_be_bound(c.drop_last());
                }
            }
        }
    }
}

/// Integers are read from as many bytes as they have, in big-endian order and two's complement;
/// other numbers of bytes are refused.
pub proof fn law_integers_decoded(raw: Seq<u8>)
    ensures
        (decoded_simple(INT2, raw) is Ok) == (raw.len() == 2),
        (decoded_simple(INT4, raw) is Ok) == (raw.len() == 4),
        (decoded_simple(INT8, raw) is Ok) == (raw.len() == 8),
        decoded_simple(INT2, raw) matches Ok(v) ==> (v matches ValueView::Int2(i) && be(raw) == same_bits(
            i as int,
            0x1_0000,
        )),
        decoded_simple(INT4, raw) matches Ok(v) ==> (v matches ValueView::Int4(i) && be(raw) == same_bits(
            i as int,
            0x1_0000_0000,
        )),
        decoded_simple(INT8, raw) matches Ok(v) ==> (v matches ValueView::Int8(i) && be(raw) == same_bits(
            i as int,
            0x1_0000_0000_0000_0000,
        )),
        (decoded_simple(DATE, raw) is Ok) == (raw.len() == 4),
        decoded_simple(DATE, raw) matches Ok(v) ==> (v matches ValueView::Date(i) && be(raw) == same_bits(
            i as int,
            0x1_0000_0000,
        )),
{
    lemma_be_bound(raw);
}

/// Unsigned integers and identifiers of objects are read from as many bytes as they have, in
/// big-endian order.
pub proof fn law_unsigned_decoded(raw: Seq<u8>)
    ensures
        (decoded_simple(TYPE_UINT2_OID, raw) is Ok) == (raw.len() == 2),
        (decoded_simple(TYPE_UINT4_OID, raw) is Ok) == (raw.len() == 4),
        (decoded_simple(TYPE_UINT8_OID, raw) is Ok) == (raw.len() == 8),
        (decoded_simple(OID, raw) is Ok) == (raw.len() == 4),
        decoded_simple(TYPE_UINT2_OID, raw) matches Ok(v) ==> (v matches ValueView::UInt2(i) && be(raw) == i),
        decoded_simple(TYPE_UINT4_OID, raw) matches Ok(v) ==> (v matches ValueView::UInt4(i) && be(raw) == i),
        decoded_simple(TYPE_UINT8_OID, raw) matches Ok(v) ==> (v matches ValueView::UInt8(i) && be(raw) == i),
        decoded_simple(OID, raw) matches Ok(v) ==> (v matches ValueView::Oid(i) && be(raw) == i),
{
    lemma_be_bound(raw);
}

/// A truth value is one byte, false exactly where it is zero; bytes are what they are, and texts
/// what they encode.
pub proof fn law_texts_decoded(raw: Seq<u8>)
    ensures
        (decoded_simple(BOOL, raw) is Ok) == (raw.len() == 1),
        raw.len() == 1 ==> decoded_simple(BOOL, raw) == Ok::<ValueView, DecodeError>(
            ValueView::Bool(raw[0] != 0),
        ),
        decoded_simple(BYTEA, raw) == Ok::<ValueView, DecodeError>(ValueView::Bytea(raw)),
        (decoded_simple(TEXT, raw) is Ok) == valid_utf8(raw),
        valid_utf8(raw) ==> decoded_simple(TEXT, raw) == Ok::<ValueView, DecodeError>(
            ValueView::Text(decode_utf8(raw)),
        ) && decoded_simple(VARCHAR, raw) == decoded_simple(TEXT, raw),
        raw.len() == 1 ==> decoded_simple(CHAR, raw) == Ok::<ValueView, DecodeError>(
            ValueView::Char(raw[0]),
        ),
{
}

/// A field of a record is the type's identifier, a length, and as many bytes; a negative length
/// stands for a missing value.
pub proof fn law_field_read(oid: Seq<u8>, len: Seq<u8>, bytes: Seq<u8>, rest: Seq<u8>, known: Option<Option<u32>>)
    requires
        oid.len() == 4,
        len.len() == 4,
        known is Some,
    ensures
        be(len) == bytes.len() && be(len) < 0x8000_0000 ==> field_at(oid + len + bytes + rest, known) == Ok::<
            (u32, Option<Seq<u8>>, int),
            DecodeError,
        >((be(oid) as u32, Some(bytes), 8 + bytes.len() as int)),
        be(len) >= 0x8000_0000 ==> field_at(oid + len + rest, known) == Ok::<
            (u32, Option<Seq<u8>>, int),
            DecodeError,
        >((be(oid) as u32, None::<Seq<u8>>, 8int)),
        be(len) > bytes.len() && be(len) < 0x8000_0000 ==> field_at(oid + len + bytes, known) == Err::<
            (u32, Option<Seq<u8>>, int),
            DecodeError,
        >(DecodeError::InvalidBufferSize),
{
    lemma_be_bound(len);
    let a = oid + len + bytes + rest;
    let b = oid + len + rest;
    let c = oid + len + bytes;
    assert(a.take(4) =~= oid && b.take(4) =~= oid && c.take(4) =~= oid);
    assert(a.subrange(4, 8) =~= len && b.subrange(4, 8) =~= len && c.subrange(4, 8) =~= len);
    assert(a.subrange(8, 8 + bytes.len() as int) =~= bytes);
}

/// Numbers that are written in the decimal system are read as what they are, up to a largest one.
pub proof fn law_integers_read(s: Seq<char>, n: int, max: int)
    requires
        writes_number(s, n),
        max >= 9,
    ensures
        n <= max ==> read_integer(s, max) == Ok::<int, Seq<char>>(n),
        n > max ==> read_integer(s, max) is Err,
{
    lemma_digits_grow(s, s.len() as int);
    assert(s.take(0) =~= Seq::<char>::empty());
    assert(s.take(s.len() as int) =~= s);
    lemma_read_digits(s, 0, max);
}

proof fn lemma_digits_grow(s: Seq<char>, k: int)
    requires
        0 <= k <= s.len(),
        forall|j: int| 0 <= j < s.len() ==> '0' <= #[trigger] s[j] && s[j] <= '9',
    ensures
        0 <= digits_value(s.take(k)),
    decreases k,
{
    if k > 0 {
        lemma_digits_grow(s, k - 1);
        assert(s.take(k).drop_last() =~= s.take(k - 1));
        assert(s.take(k).last() == s[k - 1]);
    }
}

proof fn lemma_read_digits(s: Seq<char>, k: int, max: int)
    requires
        0 <= k <= s.len(),
        forall|j: int| 0 <= j < s.len() ==> '0' <= #[trigger] s[j] && s[j] <= '9',
        digits_value(s.take(k)) <= max,
    ensures
        digits_value(s) <= max ==> read_digits(s, k, digits_value(s.take(k)), max) == Ok::<int, Seq<char>>(
            digits_value(s),
        ),
        digits_value(s) > max ==> read_digits(s, k, digits_value(s.take(k)), max) is Err,
    decreases s.len() - k,
{
    if k == s.len() {
        assert(s.take(k) =~= s);
    } else {
        assert('0' <= s[k] && s[k] <= '9');
        assert(s.take(k + 1).drop_last() =~= s.take(k));
        assert(s.take(k + 1).last() == s[k]);
        if digits_value(s.take(k + 1)) <= max {
            lemma_read_digits(s, k + 1, max);
        } else {
            lemma_digits_monotone(s, k + 1, s.len() as int);
            assert(s.take(s.len() as int) =~= s);
        }
    }
}

proof fn lemma_digits_monotone(s: Seq<char>, j: int, k: int)
    requires
        0 <= j <= k <= s.len(),
        forall|i: int| 0 <= i < s.len() ==> '0' <= #[trigger] s[i] && s[i] <= '9',
    ensures
        digits_value(s.take(j)) <= digits_value(s.take(k)),
    decreases k - j,
{
    if j < k {
        lemma_digits_monotone(s, j, k - 1);
        lemma_digits_grow(s, k - 1);
        assert(s.take(k).drop_last() =~= s.take(k - 1));
        assert(s.take(k).last() == s[k - 1]);
    }
}

/// Each statement that makes a table is followed by one that makes an index on it, in order, and
/// no other statement is followed by one.
pub proof fn law_tables_indexed(statements: Seq<TreeView>, n: int)
    requires
        0 <= n <= statements.len(),
    ensures
        additional(statements, n) == statements.take(n).filter(|t: TreeView| makes_table(t)).map_values(
            |t: TreeView| index_statement(t),
        ),
    decreases n,
{
    reveal(Seq::filter);
    let tables = |t: TreeView| makes_table(t);
    let f = |t: TreeView| index_statement(t);
    if n > 0 {
        law_tables_indexed(statements, n - 1);
        assert(statements.take(n).drop_last() =~= statements.take(n - 1));
        assert(statements.take(n).last() == statements[n - 1]);
        let front = statements.take(n - 1).filter(tables);
        assert(front.push(statements[n - 1]).map_values(f) =~= front.map_values(f).push(
            f(statements[n - 1]),
        ));
    }
    assert(additional(statements, n) =~= statements.take(n).filter(tables).map_values(f));
}

/// An index names the table and all its columns, each in quotes.
pub proof fn law_index_names(t: TreeView)
    ensures
        index_statement(t) == "CREATE INDEX ON "@ + joined(quoted_all(table_name_of(t)), "."@) + " ("@
            + joined(quoted_all(column_names_of(t)), ", "@) + ")"@,
        forall|k: int|
            0 <= k < column_names_of(t).len() ==> #[trigger] quoted_all(column_names_of(t))[k] == quoted_ident(
                column_names_of(t)[k],
            ),
{
    assert(index_statement(t) =~= "CREATE INDEX ON "@ + joined(quoted_all(table_name_of(t)), "."@) + " ("@
        + joined(quoted_all(column_names_of(t)), ", "@) + ")"@);
}

/// Resetting drops all databases and makes one.
pub proof fn law_databases_reset(names: Vec<String>, keys: bool, k: int)
    ensures
        ({
            let steps = steps_after(ResetFinding::Databases(names), keys);
            &&& steps.len() == names@.len() + 2
            &&& 0 <= k < names@.len() ==> steps[k] == StepView::System("DROP DATABASE "@ + names@[k]@)
            &&& steps[names@.len() as int] == StepView::System("CREATE DATABASE materialize"@)
            &&& steps[names@.len() as int + 1] == StepView::Clusters
        }),
{
    if 0 <= k < names@.len() {
        assert(no_text() + "DROP DATABASE "@ + names@[k]@ =~= "DROP DATABASE "@ + names@[k]@);
    }
}

/// Resetting drops each cluster but the default one.
pub proof fn law_clusters_reset(names: Seq<Seq<char>>)
    ensures
        drop_clusters(names, names.len() as int) == names.filter(|s: Seq<char>| s != "default"@).map_values(
            |s: Seq<char>| StepView::System("DROP CLUSTER "@ + s),
        ),
{
    lemma_clusters(names, names.len() as int);
    assert(names.take(names.len() as int) =~= names);
}

proof fn lemma_clusters(names: Seq<Seq<char>>, n: int)
    requires
        0 <= n <= names.len(),
    ensures
        drop_clusters(names, n) == names.take(n).filter(|s: Seq<char>| s != "default"@).map_values(
            |s: Seq<char>| StepView::System("DROP CLUSTER "@ + s),
        ),
    decreases n,
{
    reveal(Seq::filter);
    let others = |s: Seq<char>| s != "default"@;
    let f = |s: Seq<char>| StepView::System("DROP CLUSTER "@ + s);
    if n > 0 {
        lemma_clusters(names, n - 1);
        assert(names.take(n).drop_last() =~= names.take(n - 1));
        assert(names.take(n).last() == names[n - 1]);
        let front = names.take(n - 1).filter(others);
        assert(no_text() + "DROP CLUSTER "@ + names[n - 1] =~= "DROP CLUSTER "@ + names[n - 1]);
        assert(front.push(names[n - 1]).map_values(f) =~= front.map_values(f).push(f(names[n - 1])));
    }
    assert(drop_clusters(names, n) =~= names.take(n).filter(others).map_values(f));
}

/// A record is shown once: before it is run where most is shown, and otherwise only if it failed.
pub proof fn law_records_shown(verbosity: int, record: Record, outcome: OutcomeView)
    requires
        record_line(record) is Some,
    ensures
        verbosity >= 2 ==> lines_before(verbosity, record) == seq![record_line(record)->0],
        verbosity < 2 ==> lines_before(verbosity, record).len() == 0,
        outcome is Success || verbosity < 1 ==> lines_after(verbosity, record, outcome).len() == 0,
        verbosity == 1 && !(outcome is Success) ==> lines_after(verbosity, record, outcome) == seq![
            record_line(record)->0,
            indented(outcome_text(outcome), 4),
            indented("----"@, 4),
        ],
        verbosity >= 2 && !(outcome is Success) ==> lines_after(verbosity, record, outcome) == seq![
            indented(outcome_text(outcome), 4),
            indented("----"@, 4),
        ],
{
    let first = seq![record_line(record)->0];
    let a = indented(outcome_text(outcome), 4);
    let b = indented("----"@, 4);
    assert(first.push(a).push(b) =~= seq![record_line(record)->0, a, b]);
    assert(Seq::<Seq<char>>::empty().push(a).push(b) =~= seq![a, b]);
}

} // verus!
