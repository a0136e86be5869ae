//! Reading the binary form of values.

use vstd::prelude::*;
use vstd::utf8::{decode_utf8, valid_utf8};

use crate::sql_parser::number::{parse_uint, parse_uint_text};
use crate::sqllogictest::value::{
    array_view, record_view, value_view, values_view, Value, ValueView,
};

verus! {

/// The type of a value.
#[derive(Debug)]
pub enum PgType {
    /// A type of PostgreSQL itself, by its object identifier.
    Builtin(u32),
    /// Another type.
    Other(u32),
    /// Another type, of arrays.
    Array(u32, Box<PgType>),
    /// Another type, of composite values.
    Composite(u32),
}

/// What a [`PgType`] stands for.
pub open spec fn oid_of(ty: PgType) -> u32 {
    match ty {
        PgType::Builtin(oid) => oid,
        PgType::Other(oid) => oid,
        PgType::Array(oid, _) => oid,
        PgType::Composite(oid) => oid,
    }
}

impl PgType {
    /// The object identifier of the type.
    pub fn oid(&self) -> (r: u32)
        ensures
            r == oid_of(*self),
    {
        match self {
            PgType::Builtin(oid) => *oid,
            PgType::Other(oid) => *oid,
            PgType::Array(oid, _) => *oid,
            PgType::Composite(oid) => *oid,
        }
    }
}

/// Why a value could not be read.
#[derive(Debug, Copy, Clone, PartialEq, Eq, Structural)]
pub enum DecodeError {
    /// The bytes end too early.
    InvalidBufferSize,
    /// A field's type is unknown.
    UnknownOid,
    /// The bytes are no value of the type.
    Malformed,
    /// No values of the type are read.
    Unsupported,
}

pub const BOOL: u32 = 16;
pub const BYTEA: u32 = 17;
pub const CHAR: u32 = 18;
pub const INT8: u32 = 20;
pub const INT2: u32 = 21;
pub const INT4: u32 = 23;
pub const REGPROC: u32 = 24;
pub const TEXT: u32 = 25;
pub const OID: u32 = 26;
pub const FLOAT4: u32 = 700;
pub const FLOAT8: u32 = 701;
pub const BPCHAR: u32 = 1042;
pub const VARCHAR: u32 = 1043;
pub const DATE: u32 = 1082;
pub const TIME: u32 = 1083;
pub const TIMESTAMP: u32 = 1114;
pub const TIMESTAMPTZ: u32 = 1184;
pub const INTERVAL: u32 = 1186;
pub const NUMERIC: u32 = 1700;
pub const REGCLASS: u32 = 2205;
pub const REGTYPE: u32 = 2206;
pub const RECORD: u32 = 2249;
pub const UUID: u32 = 2950;
pub const JSONB: u32 = 3802;
pub const INT4_RANGE: u32 = 3904;
pub const INT4_RANGE_ARRAY: u32 = 3905;
pub const NUM_RANGE: u32 = 3906;
pub const NUM_RANGE_ARRAY: u32 = 3907;
pub const TS_RANGE: u32 = 3908;
pub const TS_RANGE_ARRAY: u32 = 3909;
pub const TSTZ_RANGE: u32 = 3910;
pub const TSTZ_RANGE_ARRAY: u32 = 3911;
pub const DATE_RANGE: u32 = 3912;
pub const DATE_RANGE_ARRAY: u32 = 3913;
pub const INT8_RANGE: u32 = 3926;
pub const INT8_RANGE_ARRAY: u32 = 3927;
pub const TYPE_UINT2_OID: u32 = 16_460;
pub const TYPE_UINT4_OID: u32 = 16_462;
pub const TYPE_UINT8_OID: u32 = 16_464;
pub const TYPE_MZ_TIMESTAMP_OID: u32 = 16_552;
pub const TYPE_MZ_ACL_ITEM_OID: u32 = 16_566;

/// What PostgreSQL itself knows of an object identifier: whether it names a type, and, if
/// that is a type of arrays, the type of their elements.
pub uninterp spec fn builtin_type(oid: u32) -> Option<Option<u32>>;

/// `postgres_types::Type::from_oid` looks an object identifier up in a fixed table.
#[verifier::external_body]
fn find_builtin_type(oid: u32) -> (r: Option<Option<u32>>)
    ensures
        r == builtin_type(oid),
{
    match tokio_postgres::types::Type::from_oid(oid) {
        None => None,
        Some(ty) => match ty.kind() {
            tokio_postgres::types::Kind::Array(element) => Some(Some(element.oid())),
            _ => Some(None),
        },
    }
}

/// The number that bytes are in big-endian order.
pub open spec fn be(bytes: Seq<u8>) -> int
    decreases bytes.len(),
{
    if bytes.len() == 0 {
        0
    } else {
        be(bytes.drop_last()) * 256 + bytes.last()
    }
}

/// The signed number that bytes are in big-endian order and two's complement, where `limit`
/// is one more than the largest number that they can be.
pub open spec fn signed_be(bytes: Seq<u8>, limit: int) -> int {
    if be(bytes) < limit {
        be(bytes)
    } else {
        be(bytes) - 2 * limit
    }
}

/// `postgres_protocol::types::bool_from_sql` takes one byte, and takes any but 0 for true.
#[verifier::external_body]
fn bool_from_sql(raw: &[u8]) -> (r: Option<bool>)
    ensures
        r == (if raw@.len() == 1 {
            Some(raw@[0] != 0)
        } else {
            None
        }),
{
    postgres_protocol::types::bool_from_sql(raw).ok()
}

/// `postgres_protocol::types::bytea_from_sql` takes the bytes as they are.
#[verifier::external_body]
fn bytea_from_sql(raw: &[u8]) -> (r: Vec<u8>)
    ensures
        r@ == raw@,
{
    postgres_protocol::types::bytea_from_sql(raw).to_vec()
}

/// `postgres_protocol::types::char_from_sql` takes one byte as a signed number.
#[verifier::external_body]
fn char_from_sql(raw: &[u8]) -> (r: Option<i8>)
    ensures
        match r {
            Some(c) => raw@.len() == 1 && c == signed_be(raw@, 0x80),
            None => raw@.len() != 1,
        },
{
    postgres_protocol::types::char_from_sql(raw).ok()
}

/// `postgres_protocol::types::int2_from_sql` takes two bytes as a signed number.
#[verifier::external_body]
fn int2_from_sql(raw: &[u8]) -> (r: Option<i16>)
    ensures
        match r {
            Some(i) => raw@.len() == 2 && i == signed_be(raw@, 0x8000),
            None => raw@.len() != 2,
        },
{
    postgres_protocol::types::int2_from_sql(raw).ok()
}

/// `postgres_protocol::types::int4_from_sql` takes four bytes as a signed number.
#[verifier::external_body]
fn int4_from_sql(raw: &[u8]) -> (r: Option<i32>)
    ensures
        match r {
            Some(i) => raw@.len() == 4 && i == signed_be(raw@, 0x8000_0000),
            None => raw@.len() != 4,
        },
{
    postgres_protocol::types::int4_from_sql(raw).ok()
}

/// `postgres_protocol::types::int8_from_sql` takes eight bytes as a signed number.
#[verifier::external_body]
fn int8_from_sql(raw: &[u8]) -> (r: Option<i64>)
    ensures
        match r {
            Some(i) => raw@.len() == 8 && i == signed_be(raw@, 0x8000_0000_0000_0000),
            None => raw@.len() != 8,
        },
{
    postgres_protocol::types::int8_from_sql(raw).ok()
}

/// `postgres_protocol::types::oid_from_sql` takes four bytes as an unsigned number.
#[verifier::external_body]
fn oid_from_sql(raw: &[u8]) -> (r: Option<u32>)
    ensures
        match r {
            Some(o) => raw@.len() == 4 && o == be(raw@),
            None => raw@.len() != 4,
        },
{
    postgres_protocol::types::oid_from_sql(raw).ok()
}

/// `postgres_protocol::types::text_from_sql` takes the bytes as UTF-8.
#[verifier::external_body]
fn text_from_sql(raw: &[u8]) -> (r: Option<String>)
    ensures
        match r {
            Some(s) => valid_utf8(raw@) && s@ == decode_utf8(raw@),
            None => !valid_utf8(raw@),
        },
{
    postgres_protocol::types::text_from_sql(raw).ok().map(String::from)
}

/// `postgres_protocol::types::float4_from_sql` takes four bytes as the bits of a number.
#[verifier::external_body]
fn float4_from_sql(raw: &[u8]) -> (r: Option<u32>)
    ensures
        match r {
            Some(bits) => raw@.len() == 4 && bits == be(raw@),
            None => raw@.len() != 4,
        },
{
    postgres_protocol::types::float4_from_sql(raw).ok().map(|n| n.to_bits())
}

/// `postgres_protocol::types::float8_from_sql` takes eight bytes as the bits of a number.
#[verifier::external_body]
fn float8_from_sql(raw: &[u8]) -> (r: Option<u64>)
    ensures
        match r {
            Some(bits) => raw@.len() == 8 && bits == be(raw@),
            None => raw@.len() != 8,
        },
{
    postgres_protocol::types::float8_from_sql(raw).ok().map(|n| n.to_bits())
}

/// `postgres_protocol::types::time_from_sql` takes eight bytes as a signed number of
/// microseconds.
#[verifier::external_body]
fn time_from_sql(raw: &[u8]) -> (r: Option<i64>)
    ensures
        match r {
            Some(t) => raw@.len() == 8 && t == signed_be(raw@, 0x8000_0000_0000_0000),
            None => raw@.len() != 8,
        },
{
    postgres_protocol::types::time_from_sql(raw).ok()
}

/// `postgres_protocol::types::timestamp_from_sql` takes eight bytes as a signed number of
/// microseconds.
#[verifier::external_body]
fn timestamp_from_sql(raw: &[u8]) -> (r: Option<i64>)
    ensures
        match r {
            Some(t) => raw@.len() == 8 && t == signed_be(raw@, 0x8000_0000_0000_0000),
            None => raw@.len() != 8,
        },
{
    postgres_protocol::types::timestamp_from_sql(raw).ok()
}

/// `postgres_protocol::types::uuid_from_sql` takes 16 bytes as they are.
#[verifier::external_body]
fn uuid_from_sql(raw: &[u8]) -> (r: Option<[u8; 16]>)
    ensures
        match r {
            Some(bytes) => raw@.len() == 16 && bytes@ == raw@,
            None => raw@.len() != 16,
        },
{
    postgres_protocol::types::uuid_from_sql(raw).ok()
}

/// The elements of an array in its binary form, each with its bytes or none, and the lower
/// bound and length of each dimension; or nothing where the bytes are no array.
pub uninterp spec fn array_parts(raw: Seq<u8>) -> Option<(Seq<Option<Seq<u8>>>, Seq<(i32, i32)>)>;

/// The bytes of each element.
pub open spec fn parts_view(parts: Seq<Option<Vec<u8>>>) -> Seq<Option<Seq<u8>>> {
    Seq::new(
        parts.len(),
        |k: int|
            match parts[k] {
                Some(bytes) => Some(bytes@),
                None => None,
            },
    )
}

/// `postgres_protocol::types::array_from_sql`, with what its `values` and `dimensions` give
/// when all of them are asked for. An element is a part of the bytes behind a header.
#[verifier::external_body]
fn array_from_sql(raw: &[u8]) -> (r: Option<(Vec<Option<Vec<u8>>>, Vec<(i32, i32)>)>)
    ensures
        match r {
            Some(a) => array_parts(raw@) == Some((parts_view(a.0@), a.1@)),
            None => array_parts(raw@) is None,
        },
        r matches Some(a) ==> forall|k: int|
            0 <= k < a.0.len() ==> ((#[trigger] a.0@[k]) matches Some(bytes) ==> bytes.len()
                < raw@.len()),
{
    let array = postgres_protocol::types::array_from_sql(raw).ok()?;
    let values = fallible_iterator::FallibleIterator::map(array.values(), |v| Ok(v.map(<[u8]>::to_vec)));
    let values = fallible_iterator::FallibleIterator::collect(values).ok()?;
    let dims = fallible_iterator::FallibleIterator::map(array.dimensions(), |d| Ok((d.lower_bound, d.len)));
    let dims = fallible_iterator::FallibleIterator::collect(dims).ok()?;
    Some((values, dims))
}

/// A type whose values' binary form is kept as it is.
pub open spec fn is_kept_raw(oid: u32) -> bool {
    oid == FLOAT4 || oid == FLOAT8 || oid == INTERVAL || oid == JSONB || oid == NUMERIC || oid == TIME
        || oid == TIMESTAMP || oid == TIMESTAMPTZ || oid == UUID || oid == INT4_RANGE || oid == INT8_RANGE
        || oid == DATE_RANGE || oid == NUM_RANGE || oid == TS_RANGE || oid == TSTZ_RANGE
}

/// How many bytes a value takes whose binary form is kept as it is, where its type says so.
pub open spec fn kept_size(oid: u32) -> Option<nat> {
    if oid == FLOAT4 {
        Some(4)
    } else if oid == FLOAT8 || oid == TIME || oid == TIMESTAMP || oid == TIMESTAMPTZ {
        Some(8)
    } else if oid == UUID {
        Some(16)
    } else {
        None
    }
}

/// What values read one after the other give, where the first fault decides.
pub open spec fn after(
    before: Seq<ValueView>,
    rest: Result<Seq<ValueView>, DecodeError>,
) -> Result<Seq<ValueView>, DecodeError> {
    match rest {
        Ok(vs) => Ok(before + vs),
        Err(e) => Err(e),
    }
}

/// The value that bytes are in the binary form of one of the simple types. Bytes of intervals,
/// JSON values, numerics, ranges and access control items are kept unread, whatever they are, and
/// days, times and timestamps are taken whatever their number is.
pub open spec fn decoded_simple(oid: u32, raw: Seq<u8>) -> Result<ValueView, DecodeError> {
    let n = raw.len();
    if oid == BOOL {
        if n == 1 {
            Ok(ValueView::Bool(raw[0] != 0))
        } else {
            Err(DecodeError::Malformed)
        }
    } else if oid == BYTEA {
        Ok(ValueView::Bytea(raw))
    } else if oid == CHAR {
        if n == 1 {
            Ok(ValueView::Char(raw[0]))
        } else {
            Err(DecodeError::Malformed)
        }
    } else if oid == DATE {
        if n == 4 {
            Ok(ValueView::Date(signed_be(raw, 0x8000_0000) as i32))
        } else {
            Err(DecodeError::Malformed)
        }
    } else if oid == INT2 {
        if n == 2 {
            Ok(ValueView::Int2(signed_be(raw, 0x8000) as i16))
        } else {
            Err(DecodeError::Malformed)
        }
    } else if oid == INT4 {
        if n == 4 {
            Ok(ValueView::Int4(signed_be(raw, 0x8000_0000) as i32))
        } else {
            Err(DecodeError::Malformed)
        }
    } else if oid == INT8 {
        if n == 8 {
            Ok(ValueView::Int8(signed_be(raw, 0x8000_0000_0000_0000) as i64))
        } else {
            Err(DecodeError::Malformed)
        }
    } else if oid == OID || oid == REGCLASS || oid == REGPROC || oid == REGTYPE {
        if n == 4 {
            Ok(ValueView::Oid(be(raw) as u32))
        } else {
            Err(DecodeError::Malformed)
        }
    } else if oid == TEXT || oid == BPCHAR || oid == VARCHAR {
        if valid_utf8(raw) {
            Ok(ValueView::Text(decode_utf8(raw)))
        } else {
            Err(DecodeError::Malformed)
        }
    } else if oid == TYPE_UINT2_OID {
        if n == 2 {
            Ok(ValueView::UInt2(be(raw) as u16))
        } else {
            Err(DecodeError::Malformed)
        }
    } else if oid == TYPE_UINT4_OID {
        if n == 4 {
            Ok(ValueView::UInt4(be(raw) as u32))
        } else {
            Err(DecodeError::Malformed)
        }
    } else if oid == TYPE_UINT8_OID {
        if n == 8 {
            Ok(ValueView::UInt8(be(raw) as u64))
        } else {
            Err(DecodeError::Malformed)
        }
    } else if oid == TYPE_MZ_TIMESTAMP_OID {
        if valid_utf8(raw) {
            match parse_uint(decode_utf8(raw)) {
                Ok(t) => Ok(ValueView::MzTimestamp(t)),
                Err(_) => Err(DecodeError::Malformed),
            }
        } else {
            Err(DecodeError::Malformed)
        }
    } else if is_kept_raw(oid) || oid == TYPE_MZ_ACL_ITEM_OID {
        if kept_size(oid) is None || kept_size(oid) == Some(n) {
            Ok(ValueView::Raw(oid, raw))
        } else {
            Err(DecodeError::Malformed)
        }
    } else {
        Err(DecodeError::Unsupported)
    }
}

/// Whether values of a type are read by the rule for its name, before it is asked whether it
/// is a type of arrays.
pub open spec fn is_named(oid: u32) -> bool {
    oid == BOOL || oid == BYTEA || oid == CHAR || oid == DATE || oid == INT2 || oid == INT4 || oid == INT8
        || oid == OID || oid == REGCLASS || oid == REGPROC || oid == REGTYPE || oid == TEXT || oid == BPCHAR
        || oid == VARCHAR || is_kept_raw(oid)
}

/// The type of a type's elements, if it is a type of arrays.
pub open spec fn element_of(ty: PgType) -> Option<PgType> {
    match ty {
        PgType::Builtin(oid) => match builtin_type(oid) {
            Some(Some(element)) => Some(PgType::Builtin(element)),
            _ => None,
        },
        PgType::Array(_, element) => Some(*element),
        _ => None,
    }
}

/// The value that bytes are in the binary form of a type.
pub open spec fn decoded(ty: PgType, raw: Seq<u8>) -> Result<ValueView, DecodeError>
    decreases raw.len(), 1int, 0int,
{
    let oid = oid_of(ty);
    if is_named(oid) {
        decoded_simple(oid, raw)
    } else if oid == RECORD {
        if raw.len() < 4 {
            Err(DecodeError::InvalidBufferSize)
        } else {
            match decoded_fields(
                raw.skip(4),
                signed_be(raw.take(4), 0x8000_0000),
                raw.len(),
            ) {
                Ok(vs) => Ok(ValueView::Record(vs)),
                Err(e) => Err(e),
            }
        }
    } else {
        match element_of(ty) {
            Some(element) => match array_parts(raw) {
                Some((parts, dims)) => match decoded_elements(element, parts, raw.len()) {
                    Ok(vs) => Ok(ValueView::Array(dims, vs)),
                    Err(e) => Err(e),
                },
                None => Err(DecodeError::Malformed),
            },
            None => decoded_simple(oid, raw),
        }
    }
}

/// The field of a record that bytes start with, given what is known of its type: the object
/// identifier of the type, the bytes of the value unless there is none, and how many bytes the
/// field takes.
pub open spec fn field_at(raw: Seq<u8>, known: Option<Option<u32>>) -> Result<
    (u32, Option<Seq<u8>>, int),
    DecodeError,
> {
    if raw.len() < 4 {
        Err(DecodeError::InvalidBufferSize)
    } else if known is None {
        Err(DecodeError::UnknownOid)
    } else if raw.len() < 8 {
        Err(DecodeError::InvalidBufferSize)
    } else {
        let oid = be(raw.take(4)) as u32;
        let len = signed_be(raw.subrange(4, 8), 0x8000_0000);
        if len < 0 {
            Ok((oid, None, 8))
        } else if len > raw.len() - 8 {
            Err(DecodeError::InvalidBufferSize)
        } else {
            Ok((oid, Some(raw.subrange(8, 8 + len)), 8 + len))
        }
    }
}

/// What is known of the type that bytes start with the object identifier of.
pub open spec fn known_at(raw: Seq<u8>) -> Option<Option<u32>> {
    if raw.len() < 4 {
        None
    } else {
        builtin_type(be(raw.take(4)) as u32)
    }
}

/// The first `n` fields of a record's binary form, where the whole has `size` bytes.
pub open spec fn decoded_fields(raw: Seq<u8>, n: int, size: nat) -> Result<Seq<ValueView>, DecodeError>
    decreases size, 0int, n,
{
    if n <= 0 {
        Ok(Seq::empty())
    } else {
        match field_at(raw, known_at(raw)) {
            Err(e) => Err(e),
            Ok((_, None, next)) => after(
                seq![ValueView::Null],
                decoded_fields(raw.skip(next), n - 1, size),
            ),
            Ok((oid, Some(bytes), next)) => if bytes.len() >= size {
                Err(DecodeError::InvalidBufferSize)
            } else {
                match decoded(PgType::Builtin(oid), bytes) {
                    Ok(v) => after(seq![v], decoded_fields(raw.skip(next), n - 1, size)),
                    Err(e) => Err(e),
                }
            },
        }
    }
}

/// The elements of an array, where the whole has `size` bytes.
pub open spec fn decoded_elements(
    ty: PgType,
    parts: Seq<Option<Seq<u8>>>,
    size: nat,
) -> Result<Seq<ValueView>, DecodeError>
    decreases size, 0int, parts.len(),
{
    if parts.len() == 0 {
        Ok(Seq::empty())
    } else {
        match parts[0] {
            None => after(seq![ValueView::Null], decoded_elements(ty, parts.drop_first(), size)),
            Some(raw) => if raw.len() >= size {
                Err(DecodeError::Malformed)
            } else {
                match decoded(ty, raw) {
                    Ok(v) => after(seq![v], decoded_elements(ty, parts.drop_first(), size)),
                    Err(e) => Err(e),
                }
            },
        }
    }
}

/// Whether the result of reading is the one described.
pub open spec fn is_decoded(r: Result<Value, DecodeError>, described: Result<ValueView, DecodeError>) -> bool {
    match r {
        Ok(v) => described == Ok::<ValueView, DecodeError>(v@),
        Err(e) => described == Err::<ValueView, DecodeError>(e),
    }
}

/// Whether the result of reading several values is the one described.
pub open spec fn are_decoded(
    r: Result<Vec<Value>, DecodeError>,
    described: Result<Seq<ValueView>, DecodeError>,
) -> bool {
    match r {
        Ok(vs) => described == Ok::<Seq<ValueView>, DecodeError>(values_view(vs@)),
        Err(e) => described == Err::<Seq<ValueView>, DecodeError>(e),
    }
}

proof fn lemma_be_1(b: Seq<u8>)
    requires
        b.len() == 1,
    ensures
        be(b) == b[0],
{
    reveal_with_fuel(be, 2);
}

proof fn lemma_be_2(b: Seq<u8>)
    requires
        b.len() == 2,
    ensures
        be(b) == b[0] * 256 + b[1],
{
    lemma_be_1(b.drop_last());
}

proof fn lemma_be_4(b: Seq<u8>)
    requires
        b.len() == 4,
    ensures
        be(b) == b[0] * 0x100_0000 + b[1] * 0x1_0000 + b[2] * 256 + b[3],
{
    let c = b.drop_last();
    let d = c.drop_last();
    lemma_be_2(d);
    assert(be(b) == be(c) * 256 + b[3]);
    assert(be(c) == be(d) * 256 + b[2]);
}

proof fn lemma_be_8(b: Seq<u8>)
    requires
        b.len() == 8,
    ensures
        be(b) == be(b.take(4)) * 0x1_0000_0000 + be(b.skip(4)),
{
    lemma_be_4(b.take(4));
    lemma_be_4(b.skip(4));
    let c = b.drop_last().drop_last().drop_last().drop_last();
    assert(c =~= b.take(4));
    assert(be(b) == be(b.drop_last()) * 256 + b[7]);
    assert(be(b.drop_last()) == be(b.drop_last().drop_last()) * 256 + b[6]);
    assert(be(b.drop_last().drop_last()) == be(b.drop_last().drop_last().drop_last()) * 256 + b[5]);
    assert(be(b.drop_last().drop_last().drop_last()) == be(c) * 256 + b[4]);
}

/// The unsigned number that four bytes are in big-endian order.
fn u32_of(raw: &[u8], at: usize) -> (r: u32)
    requires
        at + 4 <= raw@.len(),
    ensures
        r == be(raw@.subrange(at as int, at + 4)),
{
    proof {
        lemma_be_4(raw@.subrange(at as int, at + 4));
    }
    raw[at] as u32 * 0x100_0000 + raw[at + 1] as u32 * 0x1_0000 + raw[at + 2] as u32 * 256 + raw[at
        + 3] as u32
}

/// The signed number that the four bytes at `at` are in big-endian order.
pub fn read_be_i32(raw: &[u8], at: usize) -> (r: Result<i32, DecodeError>)
    requires
        at <= raw@.len(),
    ensures
        match r {
            Ok(i) => raw@.len() - at >= 4 && i == signed_be(
                raw@.subrange(at as int, at + 4),
                0x8000_0000,
            ),
            Err(e) => raw@.len() - at < 4 && e == DecodeError::InvalidBufferSize,
        },
{
    if raw.len() - at < 4 {
        return Err(DecodeError::InvalidBufferSize);
    }
    let u = u32_of(raw, at);
    if u < 0x8000_0000 {
        Ok(u as i32)
    } else {
        Ok((u as i64 - 0x1_0000_0000) as i32)
    }
}

/// The part of `raw` from `from` up to `to`.
fn part(raw: &[u8], from: usize, to: usize) -> (r: Vec<u8>)
    requires
        from <= to <= raw@.len(),
    ensures
        r@ == raw@.subrange(from as int, to as int),
{
    let mut out: Vec<u8> = Vec::new();
    let mut k: usize = from;
    while k < to
        invariant
            from <= k <= to <= raw@.len(),
            out@ == raw@.subrange(from as int, k as int),
        decreases to - k,
    {
        out.push(raw[k]);
        k += 1;
        assert(raw@.subrange(from as int, k as int) =~= raw@.subrange(from as int, k - 1).push(
            raw@[k - 1],
        ));
    }
    out
}

fn named(oid: u32) -> (r: bool)
    ensures
        r == is_named(oid),
{
    oid == BOOL || oid == BYTEA || oid == CHAR || oid == DATE || oid == INT2 || oid == INT4 || oid == INT8
        || oid == OID || oid == REGCLASS || oid == REGPROC || oid == REGTYPE || oid == TEXT || oid == BPCHAR
        || oid == VARCHAR || kept_raw(oid)
}

fn kept_raw(oid: u32) -> (r: bool)
    ensures
        r == is_kept_raw(oid),
{
    oid == FLOAT4 || oid == FLOAT8 || oid == INTERVAL || oid == JSONB || oid == NUMERIC || oid == TIME
        || oid == TIMESTAMP || oid == TIMESTAMPTZ || oid == UUID || oid == INT4_RANGE || oid == INT8_RANGE
        || oid == DATE_RANGE || oid == NUM_RANGE || oid == TS_RANGE || oid == TSTZ_RANGE
}

fn decode_simple(oid: u32, raw: &[u8]) -> (r: Result<Value, DecodeError>)
    ensures
        is_decoded(r, decoded_simple(oid, raw@)),
{
    if oid == BOOL {
        match bool_from_sql(raw) {
            Some(b) => Ok(Value::Bool(b)),
            None => Err(DecodeError::Malformed),
        }
    } else if oid == BYTEA {
        Ok(Value::Bytea(bytea_from_sql(raw)))
    } else if oid == CHAR {
        match char_from_sql(raw) {
            Some(c) => {
                proof {
                    lemma_be_1(raw@);
                }
                let byte: u8 = if c < 0 {
                    (c as i16 + 256) as u8
                } else {
                    c as u8
                };
                Ok(Value::Char(byte))
            },
            None => Err(DecodeError::Malformed),
        }
    } else if oid == DATE {
        match int4_from_sql(raw) {
            Some(d) => Ok(Value::Date(d)),
            None => Err(DecodeError::Malformed),
        }
    } else if oid == INT2 {
        match int2_from_sql(raw) {
            Some(i) => Ok(Value::Int2(i)),
            None => Err(DecodeError::Malformed),
        }
    } else if oid == INT4 {
        match int4_from_sql(raw) {
            Some(i) => Ok(Value::Int4(i)),
            None => Err(DecodeError::Malformed),
        }
    } else if oid == INT8 {
        match int8_from_sql(raw) {
            Some(i) => Ok(Value::Int8(i)),
            None => Err(DecodeError::Malformed),
        }
    } else if oid == OID || oid == REGCLASS || oid == REGPROC || oid == REGTYPE {
        match oid_from_sql(raw) {
            Some(o) => Ok(Value::Oid(o)),
            None => Err(DecodeError::Malformed),
        }
    } else if oid == TEXT || oid == BPCHAR || oid == VARCHAR {
        match text_from_sql(raw) {
            Some(s) => Ok(Value::Text(s)),
            None => Err(DecodeError::Malformed),
        }
    } else if oid == TYPE_UINT2_OID {
        if raw.len() == 2 {
            proof {
                lemma_be_2(raw@);
            }
            Ok(Value::UInt2(raw[0] as u16 * 256 + raw[1] as u16))
        } else {
            Err(DecodeError::Malformed)
        }
    } else if oid == TYPE_UINT4_OID {
        if raw.len() == 4 {
            assert(raw@.subrange(0, 4) =~= raw@);
            Ok(Value::UInt4(u32_of(raw, 0)))
        } else {
            Err(DecodeError::Malformed)
        }
    } else if oid == TYPE_UINT8_OID {
        if raw.len() == 8 {
            proof {
                lemma_be_8(raw@);
                assert(raw@.subrange(0, 4) =~= raw@.take(4));
                assert(raw@.subrange(4, 8) =~= raw@.skip(4));
            }
            Ok(Value::UInt8(u32_of(raw, 0) as u64 * 0x1_0000_0000 + u32_of(raw, 4) as u64))
        } else {
            Err(DecodeError::Malformed)
        }
    } else if oid == TYPE_MZ_TIMESTAMP_OID {
        match text_from_sql(raw) {
            Some(s) => match parse_uint_text(s.as_str()) {
                Ok(t) => Ok(Value::MzTimestamp(t)),
                Err(_) => Err(DecodeError::Malformed),
            },
            None => Err(DecodeError::Malformed),
        }
    } else if kept_raw(oid) || oid == TYPE_MZ_ACL_ITEM_OID {
        let readable = if oid == FLOAT4 {
            float4_from_sql(raw).is_some()
        } else if oid == FLOAT8 {
            float8_from_sql(raw).is_some()
        } else if oid == TIME {
            time_from_sql(raw).is_some()
        } else if oid == TIMESTAMP || oid == TIMESTAMPTZ {
            timestamp_from_sql(raw).is_some()
        } else if oid == UUID {
            uuid_from_sql(raw).is_some()
        } else {
            true
        };
        if readable {
            Ok(Value::Raw(oid, bytea_from_sql(raw)))
        } else {
            Err(DecodeError::Malformed)
        }
    } else {
        Err(DecodeError::Unsupported)
    }
}

/// A field of a record, as it is found in the record's binary form.
#[derive(Debug)]
pub struct Field {
    /// The object identifier of the field's type.
    pub oid: u32,
    /// The bytes of the value, unless there is none.
    pub bytes: Option<Vec<u8>>,
    /// Where the next field starts.
    pub next: usize,
}

/// The field of a record that starts at `at`, given what is known of its type.
pub fn read_field(raw: &[u8], at: usize, known: Option<Option<u32>>) -> (r: Result<Field, DecodeError>)
    requires
        at <= raw@.len(),
    ensures
        match field_at(raw@.skip(at as int), known) {
            Err(e) => r == Err::<Field, DecodeError>(e),
            Ok((oid, bytes, taken)) => {
                &&& r matches Ok(field)
                &&& field.oid == oid
                &&& field.next == at + taken
                &&& field.next <= raw@.len()
                &&& match (field.bytes, bytes) {
                    (Some(a), Some(b)) => a@ == b,
                    (None, None) => true,
                    _ => false,
                }
            },
        },
{
    let ghost rest = raw@.skip(at as int);
    if raw.len() - at < 4 {
        return Err(DecodeError::InvalidBufferSize);
    }
    if known.is_none() {
        return Err(DecodeError::UnknownOid);
    }
    if raw.len() - at < 8 {
        return Err(DecodeError::InvalidBufferSize);
    }
    assert(raw@.subrange(at as int, at + 4) =~= rest.take(4));
    assert(raw@.subrange(at + 4, at + 8) =~= rest.subrange(4, 8));
    let oid = u32_of(raw, at);
    let len = match read_be_i32(raw, at + 4) {
        Ok(len) => len,
        Err(e) => {
            return Err(e);
        },
    };
    if len < 0 {
        return Ok(Field { oid, bytes: None, next: at + 8 });
    }
    if len as usize > raw.len() - at - 8 {
        return Err(DecodeError::InvalidBufferSize);
    }
    let next: usize = at + 8 + len as usize;
    let bytes = part(raw, at + 8, next);
    assert(bytes@ =~= rest.subrange(8, 8 + len));
    Ok(Field { oid, bytes: Some(bytes), next })
}

fn decode_fields(raw: &[u8], n: i32) -> (r: Result<Vec<Value>, DecodeError>)
    requires
        raw@.len() >= 4,
    ensures
        are_decoded(r, decoded_fields(raw@.skip(4), n as int, raw@.len())),
    decreases raw@.len(), 0int,
{
    let mut out: Vec<Value> = Vec::new();
    let mut at: usize = 4;
    let mut k: i32 = 0;
    let ghost whole = decoded_fields(raw@.skip(4), n as int, raw@.len());
    assert(values_view(out@) =~= Seq::empty());
    proof {
        if let Ok(vs) = whole {
            assert(Seq::<ValueView>::empty() + vs =~= vs);
        }
    }
    while k < n
        invariant
            raw@.len() >= 4,
            4 <= at <= raw@.len(),
            0 <= k,
            k <= n || n < 0 && k == 0,
            whole == decoded_fields(raw@.skip(4), n as int, raw@.len()),
            whole == after(
                values_view(out@),
                decoded_fields(raw@.skip(at as int), n - k, raw@.len()),
            ),
        decreases n - k,
    {
        let ghost rest = raw@.skip(at as int);
        if raw.len() - at < 4 {
            return Err(DecodeError::InvalidBufferSize);
        }
        assert(raw@.subrange(at as int, at + 4) =~= rest.take(4));
        let known = find_builtin_type(u32_of(raw, at));
        let field = match read_field(raw, at, known) {
            Ok(field) => field,
            Err(e) => {
                return Err(e);
            },
        };
        let ghost before = values_view(out@);
        assert(raw@.skip(field.next as int) =~= rest.skip(field.next - at));
        let ghost more = decoded_fields(raw@.skip(field.next as int), n - k - 1, raw@.len());
        match field.bytes {
            None => {
                out.push(Value::Null);
                assert(values_view(out@) =~= before.push(ValueView::Null));
                proof {
                    lemma_after(before, ValueView::Null, more);
                }
            },
            Some(bytes) => {
                let v = match Slt::from_sql(&PgType::Builtin(field.oid), bytes.as_slice()) {
                    Ok(v) => v.0,
                    Err(e) => {
                        return Err(e);
                    },
                };
                out.push(v);
                assert(values_view(out@) =~= before.push(value_view(v)));
                proof {
                    lemma_after(before, value_view(v), more);
                }
            },
        }
        at = field.next;
        k += 1;
    }
    assert(values_view(out@) + Seq::<ValueView>::empty() =~= values_view(out@));
    Ok(out)
}

proof fn lemma_after(before: Seq<ValueView>, v: ValueView, rest: Result<Seq<ValueView>, DecodeError>)
    ensures
        after(before, after(seq![v], rest)) == after(before.push(v), rest),
{
    if let Ok(vs) = rest {
        assert(before + (seq![v] + vs) =~= before.push(v) + vs);
    }
}

fn decode_elements(
    ty: &PgType,
    parts: &Vec<Option<Vec<u8>>>,
    size: usize,
) -> (r: Result<Vec<Value>, DecodeError>)
    requires
        forall|k: int|
            0 <= k < parts.len() ==> ((#[trigger] parts@[k]) matches Some(bytes) ==> bytes.len() < size),
    ensures
        are_decoded(r, decoded_elements(*ty, parts_view(parts@), size as nat)),
    decreases size, 0int,
{
    let mut out: Vec<Value> = Vec::new();
    let mut k: usize = 0;
    let ghost views = parts_view(parts@);
    let ghost whole = decoded_elements(*ty, views, size as nat);
    assert(values_view(out@) =~= Seq::empty());
    assert(views.skip(0) =~= views);
    proof {
        if let Ok(vs) = whole {
            assert(Seq::<ValueView>::empty() + vs =~= vs);
        }
    }
    while k < parts.len()
        invariant
            k <= parts.len(),
            views == parts_view(parts@),
            whole == decoded_elements(*ty, views, size as nat),
            whole == after(values_view(out@), decoded_elements(*ty, views.skip(k as int), size as nat)),
            forall|k: int|
                0 <= k < parts.len() ==> ((#[trigger] parts@[k]) matches Some(bytes) ==> bytes.len()
                    < size),
        decreases parts.len() - k,
    {
        let ghost rest = views.skip(k as int);
        assert(rest.drop_first() =~= views.skip(k + 1));
        let ghost before = values_view(out@);
        assert(rest[0] == views[k as int]);
        match &parts[k] {
            None => {
                out.push(Value::Null);
                assert(values_view(out@) =~= before.push(ValueView::Null));
                proof {
                    lemma_after(
                        before,
                        ValueView::Null,
                        decoded_elements(*ty, rest.drop_first(), size as nat),
                    );
                }
            },
            Some(bytes) => {
                assert(parts@[k as int] == Some(*bytes));
                let v = match Slt::from_sql(ty, bytes.as_slice()) {
                    Ok(v) => v.0,
                    Err(e) => {
                        return Err(e);
                    },
                };
                out.push(v);
                assert(values_view(out@) =~= before.push(value_view(v)));
                proof {
                    lemma_after(
                        before,
                        value_view(v),
                        decoded_elements(*ty, rest.drop_first(), size as nat),
                    );
                }
            },
        }
        k += 1;
    }
    assert(views.skip(k as int) =~= Seq::empty());
    assert(values_view(out@) + Seq::<ValueView>::empty() =~= values_view(out@));
    Ok(out)
}

fn decode_array(element: &PgType, raw: &[u8]) -> (r: Result<Value, DecodeError>)
    ensures
        is_decoded(
            r,
            match array_parts(raw@) {
                Some((parts, dims)) => match decoded_elements(*element, parts, raw@.len()) {
                    Ok(vs) => Ok(ValueView::Array(dims, vs)),
                    Err(e) => Err(e),
                },
                None => Err(DecodeError::Malformed),
            },
        ),
    decreases raw@.len(), 1int,
{
    match array_from_sql(raw) {
        Some((parts, dims)) => match decode_elements(element, &parts, raw.len()) {
            Ok(vs) => {
                proof {
                    array_view(dims, vs);
                }
                Ok(Value::Array(dims, vs))
            },
            Err(e) => Err(e),
        },
        None => Err(DecodeError::Malformed),
    }
}

/// Whether values of a type can be read, by its object identifier.
pub open spec fn is_accepted_oid(oid: u32) -> bool {
    is_named(oid) || oid == RECORD || oid == INT4_RANGE_ARRAY || oid == INT8_RANGE_ARRAY || oid
        == DATE_RANGE_ARRAY || oid == NUM_RANGE_ARRAY || oid == TS_RANGE_ARRAY || oid == TSTZ_RANGE_ARRAY
        || oid == TYPE_UINT2_OID || oid == TYPE_UINT4_OID || oid == TYPE_UINT8_OID || oid
        == TYPE_MZ_TIMESTAMP_OID || oid == TYPE_MZ_ACL_ITEM_OID
}

/// A value in a result row.
#[derive(Debug)]
pub struct Slt(pub Value);

impl Slt {
    /// Reads a value from its binary form. Intervals, JSON values, numerics, ranges and access
    /// control items are kept unread, so whether their bytes are well formed is left open, and
    /// days and times are taken whatever their number is.
    pub fn from_sql(ty: &PgType, raw: &[u8]) -> (r: Result<Slt, DecodeError>)
        ensures
            match r {
                Ok(v) => decoded(*ty, raw@) == Ok::<ValueView, DecodeError>(v.0@),
                Err(e) => decoded(*ty, raw@) == Err::<ValueView, DecodeError>(e),
            },
        decreases raw@.len(), 2int,
    {
        let oid = ty.oid();
        let v = if named(oid) {
            decode_simple(oid, raw)
        } else if oid == RECORD {
            match read_be_i32(raw, 0) {
                Ok(n) => {
                    assert(raw@.subrange(0, 4) =~= raw@.take(4));
                    match decode_fields(raw, n) {
                        Ok(vs) => {
                            proof {
                                record_view(vs);
                            }
                            Ok(Value::Record(vs))
                        },
                        Err(e) => Err(e),
                    }
                },
                Err(e) => Err(e),
            }
        } else {
            match ty {
                PgType::Builtin(oid) => match find_builtin_type(*oid) {
                    Some(Some(element)) => decode_array(&PgType::Builtin(element), raw),
                    _ => decode_simple(*oid, raw),
                },
                PgType::Array(_, element) => decode_array(element, raw),
                _ => decode_simple(oid, raw),
            }
        };
        match v {
            Ok(v) => Ok(Slt(v)),
            Err(e) => Err(e),
        }
    }

    /// Whether values of a type can be read.
    pub fn accepts(ty: &PgType) -> (r: bool)
        ensures
            r == (element_of(*ty) is Some || *ty is Composite || is_accepted_oid(oid_of(*ty))),
    {
        match ty {
            PgType::Array(..) | PgType::Composite(_) => {
                return true;
            },
            PgType::Builtin(oid) => {
                if let Some(Some(_)) = find_builtin_type(*oid) {
                    return true;
                }
            },
            PgType::Other(_) => {},
        }
        let oid = ty.oid();
        named(oid) || oid == RECORD || oid == INT4_RANGE_ARRAY || oid == INT8_RANGE_ARRAY || oid
            == DATE_RANGE_ARRAY || oid == NUM_RANGE_ARRAY || oid == TS_RANGE_ARRAY || oid
            == TSTZ_RANGE_ARRAY || oid == TYPE_UINT2_OID || oid == TYPE_UINT4_OID || oid == TYPE_UINT8_OID
            || oid == TYPE_MZ_TIMESTAMP_OID || oid == TYPE_MZ_ACL_ITEM_OID
    }
}

} // verus!
