//! The values that a server returns.

use vstd::prelude::*;

verus! {

/// A value of a result.
#[derive(Debug)]
pub enum Value {
    /// No value, inside a record or an array.
    Null,
    Bool(bool),
    Bytea(Vec<u8>),
    Char(u8),
    /// A day, counted from the first of January 2000.
    Date(i32),
    Int2(i16),
    Int4(i32),
    Int8(i64),
    UInt2(u16),
    UInt4(u32),
    UInt8(u64),
    Oid(u32),
    Text(String),
    MzTimestamp(u64),
    Record(Vec<Value>),
    /// An array: the lower bound and the length of each dimension, and the elements.
    Array(Vec<(i32, i32)>, Vec<Value>),
    /// A floating-point number: its integral part, its text with three digits after the
    /// point, and its shortest text.
    Float { whole: i64, fixed: String, plain: String },
    /// A decimal number: its text rounded to an integer, its text with at most three digits
    /// after the point, and its text as it is.
    Numeric { rounded: String, rescaled: String, standard: String },
    /// The bytes of a value of another type.
    Raw(u32, Vec<u8>),
}

/// What a [`Value`] stands for.
pub enum ValueView {
    Null,
    Bool(bool),
    Bytea(Seq<u8>),
    Char(u8),
    Date(i32),
    Int2(i16),
    Int4(i32),
    Int8(i64),
    UInt2(u16),
    UInt4(u32),
    UInt8(u64),
    Oid(u32),
    Text(Seq<char>),
    MzTimestamp(u64),
    Record(Seq<ValueView>),
    Array(Seq<(i32, i32)>, Seq<ValueView>),
    Float { whole: i64, fixed: Seq<char>, plain: Seq<char> },
    Numeric { rounded: Seq<char>, rescaled: Seq<char>, standard: Seq<char> },
    Raw(u32, Seq<u8>),
}

/// What values stand for, one by one.
pub open spec fn values_view(vs: Seq<Value>) -> Seq<ValueView> {
    Seq::new(vs.len(), |k: int| value_view(vs[k]))
}

/// What a value stands for.
pub open spec fn value_view(v: Value) -> ValueView
    decreases v,
{
    match v {
        Value::Null => ValueView::Null,
        Value::Bool(b) => ValueView::Bool(b),
        Value::Bytea(b) => ValueView::Bytea(b@),
        Value::Char(c) => ValueView::Char(c),
        Value::Date(d) => ValueView::Date(d),
        Value::Int2(i) => ValueView::Int2(i),
        Value::Int4(i) => ValueView::Int4(i),
        Value::Int8(i) => ValueView::Int8(i),
        Value::UInt2(u) => ValueView::UInt2(u),
        Value::UInt4(u) => ValueView::UInt4(u),
        Value::UInt8(u) => ValueView::UInt8(u),
        Value::Oid(o) => ValueView::Oid(o),
        Value::Text(s) => ValueView::Text(s@),
        Value::MzTimestamp(t) => ValueView::MzTimestamp(t),
        Value::Record(vs) => ValueView::Record(
            Seq::new(
                vs@.len(),
                |k: int|
                    if 0 <= k < vs@.len() {
                        value_view(vs@[k])
                    } else {
                        ValueView::Null
                    },
            ),
        ),
        Value::Array(dims, vs) => ValueView::Array(
            dims@,
            Seq::new(
                vs@.len(),
                |k: int|
                    if 0 <= k < vs@.len() {
                        value_view(vs@[k])
                    } else {
                        ValueView::Null
                    },
            ),
        ),
        Value::Float { whole, fixed, plain } => ValueView::Float {
            whole,
            fixed: fixed@,
            plain: plain@,
        },
        Value::Numeric { rounded, rescaled, standard } => ValueView::Numeric {
            rounded: rounded@,
            rescaled: rescaled@,
            standard: standard@,
        },
        Value::Raw(oid, bytes) => ValueView::Raw(oid, bytes@),
    }
}

impl View for Value {
    type V = ValueView;

    open spec fn view(&self) -> ValueView {
        value_view(*self)
    }
}

/// A record stands for what its fields stand for.
pub proof fn record_view(vs: Vec<Value>)
    ensures
        value_view(Value::Record(vs)) == ValueView::Record(values_view(vs@)),
{
    assert(values_view(vs@) =~= value_view(Value::Record(vs))->Record_0);
}

/// An array stands for its dimensions and what its elements stand for.
pub proof fn array_view(dims: Vec<(i32, i32)>, vs: Vec<Value>)
    ensures
        value_view(Value::Array(dims, vs)) == ValueView::Array(dims@, values_view(vs@)),
{
    assert(values_view(vs@) =~= value_view(Value::Array(dims, vs))->Array_1);
}

/// A result column's value with its text in the text format of the protocol.
#[derive(Debug)]
pub struct Cell {
    pub value: Value,
    pub encoded: String,
}

} // verus!
