//! How results are written for comparison with what a test file expects.

use vstd::prelude::*;
use vstd::utf8::{decode_utf8, valid_utf8};

use crate::sql_parser::text::{
    chars_of, decimal, decimal_text, is_white, no_text, text_of, texts_view, white,
};
use crate::sqllogictest::ast::{Mode, Sort, Type};
use crate::sqllogictest::texts::{join, joined};
use crate::sqllogictest::value::{Cell, Value, ValueView};

verus! {

/// The decimal text of an integer.
pub open spec fn signed_decimal(i: int) -> Seq<char> {
    if i < 0 {
        no_text() + "-"@ + decimal((-i) as nat)
    } else {
        decimal(i as nat)
    }
}

fn signed_text(i: i64) -> (r: String)
    ensures
        r@ == signed_decimal(i as int),
{
    if i < 0 {
        let size: u64 = (-(i as i128)) as u64;
        String::new().concat("-").concat(decimal_text(size).as_str())
    } else {
        decimal_text(i as u64)
    }
}

/// How a truth value is written.
pub open spec fn bool_text(b: bool) -> Seq<char> {
    if b {
        "true"@
    } else {
        "false"@
    }
}

fn bool_string(b: bool) -> (r: String)
    ensures
        r@ == bool_text(b),
{
    if b {
        String::from_str("true")
    } else {
        String::from_str("false")
    }
}

/// Bytes as a list of numbers.
pub open spec fn byte_list(bytes: Seq<u8>) -> Seq<char> {
    no_text() + "["@ + joined(Seq::new(bytes.len(), |k: int| decimal(bytes[k] as nat)), ", "@) + "]"@
}

fn byte_list_string(bytes: &Vec<u8>) -> (r: String)
    ensures
        r@ == byte_list(bytes@),
{
    let mut shown: Vec<String> = Vec::new();
    let mut k: usize = 0;
    while k < bytes.len()
        invariant
            k <= bytes.len(),
            shown.len() == k,
            forall|j: int| 0 <= j < k ==> (#[trigger] shown@[j])@ == decimal(bytes@[j] as nat),
        decreases bytes.len() - k,
    {
        shown.push(decimal_text(bytes[k] as u64));
        k += 1;
    }
    assert(texts_view(shown@) =~= Seq::new(bytes@.len(), |j: int| decimal(bytes@[j] as nat)));
    String::new().concat("[").concat(join(&shown, ", ").as_str()).concat("]")
}

/// `str::from_utf8` gives the text whose UTF-8 encoding the bytes are, if they are one.
#[verifier::external_body]
pub(crate) fn text_of_utf8(bytes: &[u8]) -> (r: Option<String>)
    ensures
        match r {
            Some(s) => valid_utf8(bytes@) && s@ == decode_utf8(bytes@),
            None => !valid_utf8(bytes@),
        },
{
    std::str::from_utf8(bytes).ok().map(String::from)
}

/// Bytes as text if they are valid UTF-8, else as a list of numbers.
pub open spec fn bytes_text(bytes: Seq<u8>) -> Seq<char> {
    if valid_utf8(bytes) {
        decode_utf8(bytes)
    } else {
        byte_list(bytes)
    }
}

/// How a value is written as a value of a type, if it can be: `encoded` is its text in the
/// text format of the protocol.
pub open spec fn datum_text(v: ValueView, encoded: Seq<char>, typ: Type, mode: Mode) -> Option<Seq<char>> {
    match typ {
        Type::Bool => match v {
            ValueView::Bool(b) => Some(bool_text(b)),
            _ => None,
        },
        Type::Integer => match v {
            ValueView::Int2(i) => Some(signed_decimal(i as int)),
            ValueView::Int4(i) => Some(signed_decimal(i as int)),
            ValueView::Int8(i) => Some(signed_decimal(i as int)),
            ValueView::UInt2(u) => Some(decimal(u as nat)),
            ValueView::UInt4(u) => Some(decimal(u as nat)),
            ValueView::UInt8(u) => Some(decimal(u as nat)),
            ValueView::Oid(o) => Some(decimal(o as nat)),
            ValueView::Float { whole, .. } => Some(signed_decimal(whole as int)),
            ValueView::Text(_) => Some("0"@),
            ValueView::Bool(b) => Some(
                if b {
                    "1"@
                } else {
                    "0"@
                },
            ),
            ValueView::Numeric { rounded, .. } => Some(rounded),
            _ => None,
        },
        Type::Real => match v {
            ValueView::Int2(i) => Some(signed_decimal(i as int)),
            ValueView::Int4(i) => Some(signed_decimal(i as int)),
            ValueView::Int8(i) => Some(signed_decimal(i as int)),
            ValueView::Float { fixed, plain, .. } => Some(
                if mode == Mode::Standard {
                    fixed
                } else {
                    plain
                },
            ),
            ValueView::Numeric { rescaled, standard, .. } => Some(
                if mode == Mode::Standard {
                    rescaled
                } else {
                    standard
                },
            ),
            _ => None,
        },
        Type::Text => match v {
            ValueView::Text(s) => Some(
                if s.len() == 0 {
                    "(empty)"@
                } else {
                    s
                },
            ),
            ValueView::Bool(b) => Some(bool_text(b)),
            ValueView::Float { fixed, .. } => Some(fixed),
            ValueView::Bytea(b) => Some(bytes_text(b)),
            ValueView::Numeric { standard, .. } => Some(standard),
            _ => Some(encoded),
        },
        Type::Oid => match v {
            ValueView::Oid(o) => Some(decimal(o as nat)),
            _ => None,
        },
    }
}

/// How a value is written as a value of a type, if it can be.
fn try_format_datum(d: &Cell, typ: Type, mode: Mode) -> (r: Option<String>)
    ensures
        match r {
            Some(s) => datum_text(d.value@, d.encoded@, typ, mode) == Some(s@),
            None => datum_text(d.value@, d.encoded@, typ, mode) is None,
        },
{
    match (typ, &d.value) {
        (Type::Bool, Value::Bool(b)) => Some(bool_string(*b)),
        (Type::Integer, Value::Int2(i)) => Some(signed_text(*i as i64)),
        (Type::Integer, Value::Int4(i)) => Some(signed_text(*i as i64)),
        (Type::Integer, Value::Int8(i)) => Some(signed_text(*i)),
        (Type::Integer, Value::UInt2(u)) => Some(decimal_text(*u as u64)),
        (Type::Integer, Value::UInt4(u)) => Some(decimal_text(*u as u64)),
        (Type::Integer, Value::UInt8(u)) => Some(decimal_text(*u)),
        (Type::Integer, Value::Oid(o)) => Some(decimal_text(*o as u64)),
        (Type::Integer, Value::Float { whole, .. }) => Some(signed_text(*whole)),
        (Type::Integer, Value::Text(_)) => Some(String::from_str("0")),
        (Type::Integer, Value::Bool(b)) => Some(
            if *b {
                String::from_str("1")
            } else {
                String::from_str("0")
            },
        ),
        (Type::Integer, Value::Numeric { rounded, .. }) => Some(rounded.clone()),
        (Type::Real, Value::Int2(i)) => Some(signed_text(*i as i64)),
        (Type::Real, Value::Int4(i)) => Some(signed_text(*i as i64)),
        (Type::Real, Value::Int8(i)) => Some(signed_text(*i)),
        (Type::Real, Value::Float { fixed, plain, .. }) => match mode {
            Mode::Standard => Some(fixed.clone()),
            Mode::Cockroach => Some(plain.clone()),
        },
        (Type::Real, Value::Numeric { rescaled, standard, .. }) => match mode {
            Mode::Standard => Some(rescaled.clone()),
            Mode::Cockroach => Some(standard.clone()),
        },
        (Type::Text, Value::Text(s)) => {
            if s.as_str().is_empty() {
                Some(String::from_str("(empty)"))
            } else {
                Some(s.clone())
            }
        },
        (Type::Text, Value::Bool(b)) => Some(bool_string(*b)),
        (Type::Text, Value::Float { fixed, .. }) => Some(fixed.clone()),
        // Bytes are printed as text iff they are valid UTF-8, as other runners of such
        // files do.
        (Type::Text, Value::Bytea(b)) => match text_of_utf8(b.as_slice()) {
            Some(s) => Some(s),
            None => Some(byte_list_string(b)),
        },
        (Type::Text, Value::Numeric { standard, .. }) => Some(standard.clone()),
        (Type::Text, _) => Some(d.encoded.clone()),
        (Type::Oid, Value::Oid(o)) => Some(decimal_text(*o as u64)),
        _ => None,
    }
}

/// Whether a value can be written as a value of a type.
pub fn can_format_datum(d: &Cell, typ: Type, mode: Mode) -> (r: bool)
    ensures
        r == (datum_text(d.value@, d.encoded@, typ, mode) is Some),
{
    try_format_datum(d, typ, mode).is_some()
}

/// How a value is written as a value of a type.
pub fn format_datum(d: &Cell, typ: Type, mode: Mode) -> (r: String)
    requires
        datum_text(d.value@, d.encoded@, typ, mode) is Some,
    ensures
        datum_text(d.value@, d.encoded@, typ, mode) == Some(r@),
{
    match try_format_datum(d, typ, mode) {
        Some(s) => s,
        None => String::new(),
    }
}

/// Where the white space from `i` on ends.
pub open spec fn white_end(s: Seq<char>, i: int) -> int
    decreases s.len() - i,
{
    if 0 <= i < s.len() && is_white(s[i]) {
        white_end(s, i + 1)
    } else {
        i
    }
}

/// Where the word from `i` on ends.
pub open spec fn word_end(s: Seq<char>, i: int) -> int
    decreases s.len() - i,
{
    if 0 <= i < s.len() && !is_white(s[i]) {
        word_end(s, i + 1)
    } else {
        i
    }
}

/// The words of `s` from `i` on: the longest parts without white space.
pub open spec fn words(s: Seq<char>, i: int) -> Seq<Seq<char>>
    decreases s.len() - i,
    when 0 <= i
    via words_decrease
{
    let start = white_end(s, i);
    if start >= s.len() {
        Seq::empty()
    } else {
        seq![s.subrange(start, word_end(s, start))] + words(s, word_end(s, start))
    }
}

#[via_fn]
proof fn words_decrease(s: Seq<char>, i: int) {
    lemma_ends(s, i);
    lemma_ends(s, white_end(s, i));
}

proof fn lemma_ends(s: Seq<char>, i: int)
    requires
        0 <= i,
    ensures
        white_end(s, i) >= i,
        i <= s.len() ==> white_end(s, i) <= s.len(),
        white_end(s, i) < s.len() ==> !is_white(s[white_end(s, i)]),
        word_end(s, i) >= i,
        i < s.len() && !is_white(s[i]) ==> i < word_end(s, i) <= s.len(),
        i <= s.len() ==> word_end(s, i) <= s.len(),
    decreases s.len() - i,
{
    if i < s.len() {
        lemma_ends(s, i + 1);
    }
}

/// Where the text up to `i` ends once the white space before `i` is left out.
pub open spec fn trimmed_end(s: Seq<char>, i: int) -> int
    decreases i,
{
    if 0 < i <= s.len() && is_white(s[i - 1]) {
        trimmed_end(s, i - 1)
    } else {
        i
    }
}

/// `s` without the white space at its ends.
pub open spec fn trimmed(s: Seq<char>) -> Seq<char> {
    let start = white_end(s, 0);
    if start >= s.len() {
        Seq::empty()
    } else {
        s.subrange(start, trimmed_end(s, s.len() as int))
    }
}

/// The columns that a line of a test file stands for.
pub open spec fn columns_of(line: Seq<char>, expected_columns: int) -> Seq<Seq<char>> {
    if expected_columns == 1 {
        seq![trimmed(line)]
    } else {
        words(line, 0)
    }
}

fn skip_white(cs: &Vec<char>, from: usize) -> (r: usize)
    requires
        from <= cs.len(),
    ensures
        r == white_end(cs@, from as int),
        from <= r <= cs.len(),
{
    let mut i: usize = from;
    while i < cs.len() && white(cs[i])
        invariant
            from <= i <= cs.len(),
            white_end(cs@, i as int) == white_end(cs@, from as int),
        decreases cs.len() - i,
    {
        i += 1;
    }
    i
}

/// `s` without the white space at its ends.
pub fn trimmed_text(s: &str) -> (r: String)
    ensures
        r@ == trimmed(s@),
{
    let cs = chars_of(s);
    let start = skip_white(&cs, 0);
    if start >= cs.len() {
        return String::new();
    }
    let mut end: usize = cs.len();
    proof {
        lemma_ends(cs@, 0);
    }
    while end > start && white(cs[end - 1])
        invariant
            start < cs.len(),
            start < end <= cs.len(),
            !is_white(cs@[start as int]),
            trimmed_end(cs@, end as int) == trimmed_end(cs@, cs@.len() as int),
        decreases end,
    {
        end -= 1;
    }
    text_of(&cs, start, end)
}

/// Splits a line of a test file into columns: a line with one column is that column.
pub fn split_cols(line: &str, expected_columns: usize) -> (r: Vec<String>)
    ensures
        texts_view(r@) == columns_of(line@, expected_columns as int),
{
    let cs = chars_of(line);
    let mut out: Vec<String> = Vec::new();
    if expected_columns == 1 {
        out.push(trimmed_text(line));
        assert(texts_view(out@) =~= seq![trimmed(line@)]);
        return out;
    }
    let mut i: usize = 0;
    assert(Seq::<Seq<char>>::empty() + words(cs@, 0) =~= words(cs@, 0));
    assert(texts_view(out@) =~= Seq::empty());
    while i < cs.len()
        invariant
            i <= cs.len(),
            texts_view(out@) + words(cs@, i as int) == words(cs@, 0),
        decreases cs.len() - i,
    {
        let start = skip_white(&cs, i);
        proof {
            lemma_ends(cs@, i as int);
        }
        if start >= cs.len() {
            i = start;
            assert(words(cs@, i as int) =~= Seq::empty());
        } else {
            let mut end: usize = start;
            while end < cs.len() && !white(cs[end])
                invariant
                    start <= end <= cs.len(),
                    word_end(cs@, end as int) == word_end(cs@, start as int),
                decreases cs.len() - end,
            {
                end += 1;
            }
            proof {
                lemma_ends(cs@, start as int);
            }
            let ghost before = texts_view(out@);
            out.push(text_of(&cs, start, end));
            assert(texts_view(out@) =~= before.push(cs@.subrange(start as int, end as int)));
            assert(texts_view(out@) + words(cs@, end as int) =~= before + (seq![
                cs@.subrange(start as int, end as int),
            ] + words(cs@, end as int)));
            i = end;
        }
    }
    assert(words(cs@, i as int) =~= Seq::empty());
    assert(texts_view(out@) + Seq::<Seq<char>>::empty() =~= texts_view(out@));
    out
}

/// How a row's value in a column is written.
pub open spec fn cell_text(c: Option<Cell>, typ: Type, mode: Mode) -> Option<Seq<char>> {
    match c {
        Some(d) => datum_text(d.value@, d.encoded@, typ, mode),
        None => Some("NULL"@),
    }
}

/// Whether each value of a row can be written as a value of its column's type.
pub open spec fn row_formats(row: Seq<Option<Cell>>, types: Seq<Type>, mode: Mode) -> bool {
    forall|k: int| 0 <= k < row.len() ==> cell_text(#[trigger] row[k], types[k], mode) is Some
}

/// The texts of a row's values.
pub open spec fn cell_texts(row: Seq<Option<Cell>>, types: Seq<Type>, mode: Mode) -> Seq<Seq<char>> {
    Seq::new(row.len(), |k: int| cell_text(row[k], types[k], mode)->0)
}

/// The columns that texts stand for, one after the other.
pub open spec fn all_columns(texts: Seq<Seq<char>>, n: int) -> Seq<Seq<char>>
    decreases texts.len(),
{
    if texts.len() == 0 {
        Seq::empty()
    } else {
        all_columns(texts.drop_last(), n) + columns_of(texts.last(), n)
    }
}

/// How a row is written.
pub open spec fn row_texts(row: Seq<Option<Cell>>, types: Seq<Type>, mode: Mode, sort: Sort) -> Seq<Seq<char>> {
    if mode == Mode::Cockroach && sort != Sort::No {
        all_columns(cell_texts(row, types, mode), types.len() as int)
    } else {
        cell_texts(row, types, mode)
    }
}

/// Whether each value of a row can be written as a value of its column's type.
pub fn can_format_row(row: &Vec<Option<Cell>>, types: &Vec<Type>, mode: Mode) -> (r: bool)
    requires
        row.len() <= types.len(),
    ensures
        r == row_formats(row@, types@, mode),
{
    let mut k: usize = 0;
    while k < row.len()
        invariant
            k <= row.len() <= types.len(),
            forall|j: int| 0 <= j < k ==> cell_text(#[trigger] row@[j], types@[j], mode) is Some,
        decreases row.len() - k,
    {
        if let Some(d) = &row[k] {
            if !can_format_datum(d, types[k], mode) {
                assert(cell_text(row@[k as int], types@[k as int], mode) is None);
                return false;
            }
        }
        k += 1;
    }
    true
}

/// How a row is written.
pub fn format_row(row: &Vec<Option<Cell>>, types: &Vec<Type>, mode: Mode, sort: Sort) -> (r: Vec<String>)
    requires
        row.len() <= types.len(),
        row_formats(row@, types@, mode),
    ensures
        texts_view(r@) == row_texts(row@, types@, mode, sort),
{
    let mut formatted: Vec<String> = Vec::new();
    let mut k: usize = 0;
    while k < row.len()
        invariant
            k <= row.len() <= types.len(),
            row_formats(row@, types@, mode),
            formatted.len() == k,
            forall|j: int|
                0 <= j < k ==> Some((#[trigger] formatted@[j])@) == cell_text(row@[j], types@[j], mode),
        decreases row.len() - k,
    {
        assert(cell_text(row@[k as int], types@[k as int], mode) is Some);
        let t = match &row[k] {
            Some(d) => format_datum(d, types[k], mode),
            None => String::from_str("NULL"),
        };
        formatted.push(t);
        k += 1;
    }
    let ghost texts = cell_texts(row@, types@, mode);
    assert(texts_view(formatted@) =~= texts);
    if matches!(mode, Mode::Cockroach) && sort.yes() {
        let mut out: Vec<String> = Vec::new();
        let mut k: usize = 0;
        assert(texts_view(out@) =~= Seq::empty());
        while k < formatted.len()
            invariant
                k <= formatted.len(),
                texts == texts_view(formatted@),
                texts_view(out@) == all_columns(texts.take(k as int), types.len() as int),
            decreases formatted.len() - k,
        {
            assert(texts.take(k + 1).drop_last() =~= texts.take(k as int));
            let mut cols = split_cols(formatted[k].as_str(), types.len());
            let ghost before = texts_view(out@);
            let ghost more = texts_view(cols@);
            out.append(&mut cols);
            assert(texts_view(out@) =~= before + more);
            k += 1;
        }
        assert(texts.take(k as int) =~= texts);
        out
    } else {
        formatted
    }
}

} // verus!
