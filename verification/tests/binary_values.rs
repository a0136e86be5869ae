use materialize::sqllogictest::slt::{
    read_be_i32, read_field, DecodeError, PgType, Slt, BOOL, BPCHAR, BYTEA, CHAR, DATE, FLOAT4,
    FLOAT8, INT2, INT4, INT8, NUMERIC, OID, RECORD, REGTYPE, TEXT, TIME, TIMESTAMP, TIMESTAMPTZ,
    TYPE_MZ_ACL_ITEM_OID, TYPE_MZ_TIMESTAMP_OID, TYPE_UINT2_OID, TYPE_UINT4_OID, TYPE_UINT8_OID,
    UUID,
};

fn read(oid: u32, raw: &[u8]) -> String {
    match Slt::from_sql(&PgType::Builtin(oid), raw) {
        Ok(v) => format!("{:?}", v.0),
        Err(e) => format!("{e:?}"),
    }
}

#[test]
fn simple_values() {
    assert_eq!(read(BOOL, &[1]), "Bool(true)");
    assert_eq!(read(BOOL, &[0]), "Bool(false)");
    assert_eq!(read(BOOL, &[]), "Malformed");
    assert_eq!(read(BYTEA, &[1, 2]), "Bytea([1, 2])");
    assert_eq!(read(CHAR, &[200]), "Char(200)");
    assert_eq!(read(CHAR, &[65]), "Char(65)");
    assert_eq!(read(DATE, &[255, 255, 255, 255]), "Date(-1)");
    assert_eq!(read(INT2, &[255, 254]), "Int2(-2)");
    assert_eq!(read(INT4, &[0, 0, 1, 0]), "Int4(256)");
    assert_eq!(read(INT4, &[0, 0, 1]), "Malformed");
    assert_eq!(read(INT4, &[0, 0, 1, 0, 0]), "Malformed");
    assert_eq!(read(INT8, &[128, 0, 0, 0, 0, 0, 0, 0]), "Int8(-9223372036854775808)");
    assert_eq!(read(OID, &[255, 0, 0, 1]), "Oid(4278190081)");
    assert_eq!(read(REGTYPE, &[0, 0, 0, 1]), "Oid(1)");
    assert_eq!(read(TEXT, "é".as_bytes()), "Text(\"é\")");
    assert_eq!(read(BPCHAR, &[255]), "Malformed");
    assert_eq!(read(FLOAT4, &[1, 2, 3, 4]), "Raw(700, [1, 2, 3, 4])");
    assert_eq!(read(FLOAT4, &[1, 2, 3]), "Malformed");
    for oid in [FLOAT8, TIME, TIMESTAMP, TIMESTAMPTZ] {
        assert_eq!(read(oid, &[1, 2, 3, 4, 5, 6, 7, 8]), format!("Raw({oid}, [1, 2, 3, 4, 5, 6, 7, 8])"));
        assert_eq!(read(oid, &[1]), "Malformed");
        assert_eq!(read(oid, &[0; 9]), "Malformed");
    }
    assert_eq!(read(UUID, &[7; 16]), format!("Raw(2950, {:?})", [7; 16]));
    assert_eq!(read(UUID, &[1, 2, 3]), "Malformed");
    assert_eq!(read(NUMERIC, &[]), "Raw(1700, [])");
}

#[test]
fn values_of_other_types() {
    let other = |oid, raw: &[u8]| match Slt::from_sql(&PgType::Other(oid), raw) {
        Ok(v) => format!("{:?}", v.0),
        Err(e) => format!("{e:?}"),
    };
    assert_eq!(other(TYPE_UINT2_OID, &[255, 255]), "UInt2(65535)");
    assert_eq!(other(TYPE_UINT4_OID, &[0, 0, 1, 1]), "UInt4(257)");
    assert_eq!(other(TYPE_UINT8_OID, &[255; 8]), "UInt8(18446744073709551615)");
    assert_eq!(other(TYPE_UINT8_OID, &[255; 7]), "Malformed");
    assert_eq!(other(TYPE_MZ_TIMESTAMP_OID, b"123"), "MzTimestamp(123)");
    assert_eq!(other(TYPE_MZ_TIMESTAMP_OID, b"-1"), "Malformed");
    assert_eq!(other(TYPE_MZ_ACL_ITEM_OID, &[1]), "Raw(16566, [1])");
    assert_eq!(other(99999, &[1]), "Unsupported");
}

#[test]
fn records() {
    let mut raw = vec![0, 0, 0, 2];
    raw.extend([0, 0, 0, 23, 0, 0, 0, 4, 0, 0, 0, 5]);
    raw.extend([0, 0, 0, 25, 255, 255, 255, 255]);
    assert_eq!(read(RECORD, &raw), "Record([Int4(5), Null])");
    assert_eq!(read(RECORD, &raw[..3]), "InvalidBufferSize");
    assert_eq!(read(RECORD, &raw[..10]), "InvalidBufferSize");
    assert_eq!(read(RECORD, &[0, 0, 0, 1, 0, 0, 255, 255, 0, 0, 0, 0]), "UnknownOid");
    assert_eq!(read(RECORD, &[255, 255, 255, 255]), "Record([])");
}

#[test]
fn arrays() {
    // One dimension of two elements from 1 on: 7 and none.
    let mut raw = vec![0, 0, 0, 1, 0, 0, 0, 1, 0, 0, 0, 23];
    raw.extend([0, 0, 0, 2, 0, 0, 0, 1]);
    raw.extend([0, 0, 0, 4, 0, 0, 0, 7, 255, 255, 255, 255]);
    // The built-in type of arrays of four-byte integers.
    assert_eq!(read(1007, &raw), "Array([(1, 2)], [Int4(7), Null])");
    let ty = PgType::Array(50000, Box::new(PgType::Builtin(INT4)));
    let v = Slt::from_sql(&ty, &raw).unwrap();
    assert_eq!(format!("{:?}", v.0), "Array([(1, 2)], [Int4(7), Null])");
    assert_eq!(Slt::from_sql(&ty, &raw[..20]).unwrap_err(), DecodeError::Malformed);
    let texts = PgType::Array(50000, Box::new(PgType::Other(99999)));
    assert_eq!(Slt::from_sql(&texts, &raw).unwrap_err(), DecodeError::Unsupported);
}

#[test]
fn types_are_accepted() {
    assert!(Slt::accepts(&PgType::Builtin(BOOL)));
    assert!(Slt::accepts(&PgType::Builtin(1007)));
    assert!(Slt::accepts(&PgType::Other(TYPE_UINT2_OID)));
    assert!(Slt::accepts(&PgType::Composite(5)));
    assert!(Slt::accepts(&PgType::Array(5, Box::new(PgType::Other(6)))));
    assert!(!Slt::accepts(&PgType::Other(5)));
    // Points are not read.
    assert!(!Slt::accepts(&PgType::Builtin(600)));
}

#[test]
fn numbers_are_big_endian() {
    assert_eq!(read_be_i32(&[9, 255, 255, 255, 254], 1), Ok(-2));
    assert_eq!(read_be_i32(&[0, 0, 1], 0), Err(DecodeError::InvalidBufferSize));
}

#[test]
fn fields_are_read() {
    // An `int4` field, a field without a value, and a field that is cut off.
    let raw = [
        0, 0, 0, 23, 0, 0, 0, 4, 0, 0, 0, 7, 0, 0, 0, 25, 255, 255, 255, 255, 0, 0, 0, 25, 0, 0, 0, 9,
    ];
    let field = read_field(&raw, 0, Some(None)).unwrap();
    assert_eq!((field.oid, field.bytes, field.next), (23, Some(vec![0, 0, 0, 7]), 12));
    let field = read_field(&raw, 12, Some(None)).unwrap();
    assert_eq!((field.oid, field.bytes, field.next), (25, None, 20));
    assert_eq!(read_field(&raw, 20, Some(None)).unwrap_err(), DecodeError::InvalidBufferSize);
    assert_eq!(read_field(&raw, 0, None).unwrap_err(), DecodeError::UnknownOid);
    assert_eq!(read_field(&raw, 25, None).unwrap_err(), DecodeError::InvalidBufferSize);
}
