//! What holds of how values are written.

use vstd::prelude::*;
use vstd::utf8::{decode_utf8, valid_utf8};

use crate::sql_parser::text::{decimal, digit, no_text};
use crate::sqllogictest::ast::{Mode, Type};
use crate::sqllogictest::format::{
    bytes_text, cell_text, columns_of, datum_text, signed_decimal, trimmed, trimmed_end, white_end,
};
use crate::sql_parser::text::is_white;
use crate::sqllogictest::texts::{char_from, first_line, joined};
use crate::sqllogictest::value::{Cell, ValueView};

verus! {

/// The number that digits are in the decimal system, the last one counting once.
pub open spec fn digits_value(s: Seq<char>) -> int
    decreases s.len(),
{
    if s.len() == 0 {
        0
    } else {
        digits_value(s.drop_last()) * 10 + (s.last() as int - '0' as int)
    }
}

/// Whether a text is the shortest one that is a number in the decimal system.
pub open spec fn writes_number(s: Seq<char>, n: int) -> bool {
    &&& s.len() > 0
    &&& forall|k: int| 0 <= k < s.len() ==> '0' <= #[trigger] s[k] && s[k] <= '9'
    &&& s.len() > 1 ==> s[0] != '0'
    &&& digits_value(s) == n
}

/// Whether a text is a number in the decimal system, with a minus sign where it is negative.
pub open spec fn writes_integer(s: Seq<char>, i: int) -> bool {
    if i < 0 {
        s.len() > 0 && s[0] == '-' && writes_number(s.skip(1), -i)
    } else {
        writes_number(s, i)
    }
}

/// Decimal texts are numbers in the decimal system, so different numbers have different ones.
pub proof fn law_decimal(n: nat)
    ensures
        writes_number(decimal(n), n as int),
        n > 0 ==> decimal(n)[0] != '0',
    decreases n,
{
    let s = decimal(n);
    if n < 10 {
        assert(s.drop_last() =~= Seq::<char>::empty());
        assert(digits_value(s.drop_last()) == 0);
        assert(s.last() == digit(n));
    } else {
        law_decimal(n / 10);
        let front = decimal(n / 10);
        assert(s == front.push(digit(n % 10)));
        assert(s.drop_last() =~= front);
        assert(s[0] == front[0]);
        assert forall|k: int| 0 <= k < s.len() implies '0' <= #[trigger] s[k] && s[k] <= '9' by {
            if k < front.len() {
                assert(s[k] == front[k]);
            }
        }
    }
}

/// Texts of integers are those integers, with a sign where they are negative.
pub proof fn law_signed_decimal(i: int)
    ensures
        writes_integer(signed_decimal(i), i),
{
    reveal_strlit("-");
    if i < 0 {
        law_decimal((-i) as nat);
        assert(signed_decimal(i).skip(1) =~= decimal((-i) as nat));
    } else {
        law_decimal(i as nat);
    }
}

/// The integer that a value is, if it is one.
pub open spec fn integer_in(v: ValueView) -> Option<int> {
    match v {
        ValueView::Int2(i) => Some(i as int),
        ValueView::Int4(i) => Some(i as int),
        ValueView::Int8(i) => Some(i as int),
        ValueView::UInt2(i) => Some(i as int),
        ValueView::UInt4(i) => Some(i as int),
        ValueView::UInt8(i) => Some(i as int),
        ValueView::Oid(i) => Some(i as int),
        _ => None,
    }
}

/// An integer in a column of integers is written in the decimal system, and one with a sign in a
/// column of real numbers too; so are identifiers of objects in a column of such.
pub proof fn law_integers_written(v: ValueView, encoded: Seq<char>, mode: Mode)
    requires
        integer_in(v) is Some,
    ensures
        datum_text(v, encoded, Type::Integer, mode) matches Some(s) && writes_integer(s, integer_in(v)->0),
        v is Int2 || v is Int4 || v is Int8 ==> (datum_text(v, encoded, Type::Real, mode) matches Some(s)
            && writes_integer(s, integer_in(v)->0)),
        v is Oid ==> (datum_text(v, encoded, Type::Oid, mode) matches Some(s) && writes_integer(
            s,
            integer_in(v)->0,
        )),
{
    law_signed_decimal(integer_in(v)->0);
    law_decimal(integer_in(v)->0 as nat);
}

/// A truth value in a column of truth values, or in one of texts, is written `true` or `false`;
/// the two have different texts.
pub proof fn law_booleans_written(b: bool, encoded: Seq<char>, mode: Mode)
    ensures
        datum_text(ValueView::Bool(b), encoded, Type::Bool, mode) == Some(
            if b {
                "true"@
            } else {
                "false"@
            },
        ),
        datum_text(ValueView::Bool(b), encoded, Type::Text, mode) == datum_text(
            ValueView::Bool(b),
            encoded,
            Type::Bool,
            mode,
        ),
        datum_text(ValueView::Bool(b), encoded, Type::Integer, mode) == Some(
            if b {
                "1"@
            } else {
                "0"@
            },
        ),
        datum_text(ValueView::Bool(b), encoded, Type::Bool, mode) != datum_text(
            ValueView::Bool(!b),
            encoded,
            Type::Bool,
            mode,
        ),
        datum_text(ValueView::Bool(b), encoded, Type::Integer, mode) != datum_text(
            ValueView::Bool(!b),
            encoded,
            Type::Integer,
            mode,
        ),
{
    reveal_strlit("true");
    reveal_strlit("false");
    reveal_strlit("0");
    reveal_strlit("1");
    assert("true"@[0] != "false"@[0]);
    assert("1"@[0] != "0"@[0]);
}

/// A text in a column of texts is written as it is, unless it is empty; in a column of integers
/// it counts as zero.
pub proof fn law_texts_written(s: Seq<char>, encoded: Seq<char>, mode: Mode)
    ensures
        s.len() > 0 ==> datum_text(ValueView::Text(s), encoded, Type::Text, mode) == Some(s),
        s.len() == 0 ==> datum_text(ValueView::Text(s), encoded, Type::Text, mode) == Some("(empty)"@),
        datum_text(ValueView::Text(s), encoded, Type::Integer, mode) == Some("0"@),
{
}

/// Bytes in a column of texts are written as the text that they encode, or else one by one in
/// the decimal system between brackets.
pub proof fn law_bytes_written(b: Seq<u8>, encoded: Seq<char>, mode: Mode)
    ensures
        datum_text(ValueView::Bytea(b), encoded, Type::Text, mode) == Some(bytes_text(b)),
        valid_utf8(b) ==> bytes_text(b) == decode_utf8(b),
        !valid_utf8(b) ==> bytes_text(b) == no_text() + "["@ + joined(
            Seq::new(b.len(), |k: int| decimal(b[k] as nat)),
            ", "@,
        ) + "]"@,
{
}

/// A floating-point number is written with three digits in standard mode and in columns of
/// texts, as short as it can be in Cockroach mode, and without its fraction among integers.
pub proof fn law_floats_written(
    whole: i64,
    fixed: Seq<char>,
    plain: Seq<char>,
    encoded: Seq<char>,
    mode: Mode,
)
    ensures
        ({
            let v = ValueView::Float { whole, fixed, plain };
            &&& datum_text(v, encoded, Type::Real, Mode::Standard) == Some(fixed)
            &&& datum_text(v, encoded, Type::Real, Mode::Cockroach) == Some(plain)
            &&& datum_text(v, encoded, Type::Text, mode) == Some(fixed)
            &&& datum_text(v, encoded, Type::Integer, mode) matches Some(s) && writes_integer(
                s,
                whole as int,
            )
        }),
{
    law_signed_decimal(whole as int);
}

/// A decimal number is written as it is in columns of texts and in Cockroach mode, with at most
/// three digits behind the point in standard mode, and rounded among integers.
pub proof fn law_numerics_written(
    rounded: Seq<char>,
    rescaled: Seq<char>,
    standard: Seq<char>,
    encoded: Seq<char>,
    mode: Mode,
)
    ensures
        ({
            let v = ValueView::Numeric { rounded, rescaled, standard };
            &&& datum_text(v, encoded, Type::Real, Mode::Standard) == Some(rescaled)
            &&& datum_text(v, encoded, Type::Real, Mode::Cockroach) == Some(standard)
            &&& datum_text(v, encoded, Type::Text, mode) == Some(standard)
            &&& datum_text(v, encoded, Type::Integer, mode) == Some(rounded)
        }),
{
}

/// Which values a column takes: one of truth values only those, one of identifiers of objects
/// only those, one of texts every value, one of integers integers, truth values, texts and
/// numbers that have to be rounded, one of real numbers only numbers.
pub proof fn law_columns_take(v: ValueView, encoded: Seq<char>, mode: Mode)
    ensures
        datum_text(v, encoded, Type::Bool, mode) is Some == v is Bool,
        datum_text(v, encoded, Type::Oid, mode) is Some == v is Oid,
        datum_text(v, encoded, Type::Text, mode) is Some,
        datum_text(v, encoded, Type::Integer, mode) is Some == (integer_in(v) is Some || v is Float
            || v is Text || v is Bool || v is Numeric),
        datum_text(v, encoded, Type::Real, mode) is Some == (v is Int2 || v is Int4 || v is Int8
            || v is Float || v is Numeric),
        !(v is Text || v is Bool || v is Float || v is Bytea || v is Numeric) ==> datum_text(
            v,
            encoded,
            Type::Text,
            mode,
        ) == Some(encoded),
{
}

/// What is missing is written `NULL` in each column, and what is there as its value.
pub proof fn law_cells_written(c: Option<Cell>, typ: Type, mode: Mode)
    ensures
        c is None ==> cell_text(c, typ, mode) == Some("NULL"@),
        c matches Some(d) ==> cell_text(c, typ, mode) == datum_text(d.value@, d.encoded@, typ, mode),
{
}

/// A text without white space at its ends is left: nothing but white space is cut off, and none
/// is left at the ends.
pub proof fn law_trimmed(s: Seq<char>)
    ensures
        trimmed(s).len() > 0 ==> !is_white(trimmed(s)[0]) && !is_white(trimmed(s).last()),
        exists|i: int, j: int|
            #![trigger s.subrange(i, j)]
            0 <= i <= j <= s.len() && trimmed(s) == s.subrange(i, j) && (forall|k: int|
                0 <= k < s.len() && !(i <= k < j) ==> is_white(#[trigger] s[k])),
        columns_of(s, 1) == seq![trimmed(s)],
{
    lemma_white_end(s, 0);
    let i = white_end(s, 0);
    if i >= s.len() {
        assert(trimmed(s) =~= s.subrange(s.len() as int, s.len() as int));
    } else {
        lemma_trimmed_end(s, s.len() as int, i);
        let j = trimmed_end(s, s.len() as int);
        assert(trimmed(s) == s.subrange(i, j));
    }
}

proof fn lemma_white_end(s: Seq<char>, i: int)
    requires
        0 <= i <= s.len(),
    ensures
        i <= white_end(s, i) <= s.len(),
        forall|k: int| i <= k < white_end(s, i) ==> is_white(#[trigger] s[k]),
        white_end(s, i) < s.len() ==> !is_white(s[white_end(s, i)]),
    decreases s.len() - i,
{
    if i < s.len() && is_white(s[i]) {
        lemma_white_end(s, i + 1);
    }
}

proof fn lemma_trimmed_end(s: Seq<char>, i: int, low: int)
    requires
        0 <= low < i <= s.len(),
        !is_white(s[low]),
    ensures
        low < trimmed_end(s, i) <= i,
        !is_white(s[trimmed_end(s, i) - 1]),
        forall|k: int| trimmed_end(s, i) <= k < i ==> is_white(#[trigger] s[k]),
    decreases i,
{
    if is_white(s[i - 1]) {
        lemma_trimmed_end(s, i - 1, low);
    }
}

/// The first line of a text is its longest beginning without a line break.
pub proof fn law_first_line(s: Seq<char>)
    ensures
        first_line(s).len() <= s.len(),
        first_line(s) == s.take(first_line(s).len() as int),
        !first_line(s).contains('\n'),
        first_line(s).len() < s.len() ==> s[first_line(s).len() as int] == '\n',
{
    lemma_char_from(s, 0);
    assert(first_line(s) =~= s.take(char_from(s, 0, '\n')));
}

proof fn lemma_char_from(s: Seq<char>, i: int)
    requires
        0 <= i <= s.len(),
    ensures
        i <= char_from(s, i, '\n') <= s.len(),
        forall|k: int| i <= k < char_from(s, i, '\n') ==> #[trigger] s[k] != '\n',
        char_from(s, i, '\n') < s.len() ==> s[char_from(s, i, '\n')] == '\n',
    decreases s.len() - i,
{
    if i < s.len() && s[i] != '\n' {
        lemma_char_from(s, i + 1);
    }
}

/// Texts joined by a separator: joining two lists is joining each, with a separator between.
pub proof fn law_joined(a: Seq<Seq<char>>, b: Seq<Seq<char>>, sep: Seq<char>)
    ensures
        a.len() == 0 ==> joined(a, sep) == Seq::<char>::empty(),
        a.len() == 1 ==> joined(a, sep) == a[0],
        a.len() > 0 && b.len() > 0 ==> joined(a + b, sep) == joined(a, sep) + sep + joined(b, sep),
    decreases b.len(),
{
    if a.len() == 0 {
        assert(joined(a, sep) =~= Seq::<char>::empty());
    }
    if a.len() == 1 {
        assert(joined(a, sep) =~= a[0]);
    }
    if a.len() > 0 && b.len() > 0 {
        let c = b.drop_last();
        assert((a + b).drop_last() =~= a + c);
        assert((a + b).last() == b.last());
        if b.len() == 1 {
            assert(a + c =~= a);
            assert(joined(b, sep) =~= b[0]);
        } else {
            law_joined(a, c, sep);
            assert(joined(a + b, sep) =~= joined(a, sep) + sep + joined(b, sep));
        }
    }
}

} // verus!
