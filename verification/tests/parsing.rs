use materialize::sql_parser::parse::{
    oversize_message, parse_data_type, parse_expr, parse_statements, parse_statements_with_limit,
    split_identifier_string, try_parse_statements, MAX_STATEMENT_BATCH_SIZE,
};

fn statements(sql: &str) -> String {
    match parse_statements(sql) {
        Ok(ts) => format!("{ts:?}"),
        Err(e) => format!("{}: {}", e.pos, e.to_text()),
    }
}

fn expr(sql: &str) -> String {
    match parse_expr(sql) {
        Ok(t) => format!("{t:?}"),
        Err(e) => format!("{}: {}", e.pos, e.to_text()),
    }
}

fn data_type(sql: &str) -> String {
    match parse_data_type(sql) {
        Ok(t) => format!("{t:?}"),
        Err(e) => format!("{}: {}", e.pos, e.to_text()),
    }
}

#[test]
fn no_statements() {
    assert_eq!(statements(""), "[]");
    assert_eq!(statements(" ; ; "), "[]");
    assert_eq!(statements("-- a comment\n/* another /* nested */ */"), "[]");
}

#[test]
fn statements_are_separated_by_semicolons() {
    assert_eq!(parse_statements("SELECT 1; SELECT 2;").unwrap().len(), 2);
    assert_eq!(statements("SELECT 1 SELECT 2"), "9: Expected end of statement, found SELECT");
}

#[test]
fn statements_follow_those_before_a_delimiter() {
    let (a, b) = ("SELECT a + 1 FROM t; SHOW TABLES -- all", "DROP TABLE t; SELECT 'x'");
    let joined = parse_statements(&format!("{a}\n;\n{b}")).unwrap();
    assert_eq!(joined.len(), 4);
    assert_eq!(format!("{:?}", &joined[..2]), statements(a));
    assert_eq!(format!("{:?}", &joined[2..]), statements(b));
    let failed = parse_statements(&format!("{a}\n;\nSELECT FROM ,")).unwrap_err();
    assert_eq!(failed.pos, a.len() + 3 + parse_statements("SELECT FROM ,").unwrap_err().pos);
}

#[test]
fn grants_on_tables() {
    let expected = "[Node(GrantPrivileges, [Node(Privileges, [List([Node(SelectPrivilege, [])])]), \
                    Node(GrantTarget, [Node(TableType, []), Node(GrantObjects, [List([Node(ItemName, \
                    [List([Text(\"t\")])])])])]), List([Text(\"joe\")])])]";
    assert_eq!(statements("GRANT SELECT ON t TO joe"), expected);
    assert_eq!(statements("GRANT SELECT ON TABLE t TO joe"), expected);
    assert_eq!(statements("grant select on table t to group joe"), expected);
}

#[test]
fn grants_on_views_name_tables() {
    for object in ["VIEW", "MATERIALIZED VIEW", "SOURCE"] {
        let message = parse_statements(&format!("GRANT SELECT ON {object} v TO joe")).unwrap_err();
        assert_eq!(
            message.to_text(),
            format!("For object type {object}, you must specify 'TABLE' or omit the object type")
        );
    }
}

#[test]
fn grants_of_all_privileges() {
    assert_eq!(
        statements("GRANT ALL PRIVILEGES ON DATABASE d TO joe, GROUP jane"),
        "[Node(GrantPrivileges, [Node(AllPrivileges, []), Node(GrantTarget, [Node(DatabaseType, []), \
         Node(GrantObjects, [List([Node(DatabaseName, [Text(\"d\")])])])]), List([Text(\"joe\"), \
         Text(\"jane\")])])]"
    );
}

#[test]
fn revokes() {
    assert_eq!(
        statements("REVOKE SELECT ON t FROM joe"),
        "[Node(RevokePrivileges, [Node(Privileges, [List([Node(SelectPrivilege, [])])]), \
         Node(GrantTarget, [Node(TableType, []), Node(GrantObjects, [List([Node(ItemName, \
         [List([Text(\"t\")])])])])]), List([Text(\"joe\")])])]"
    );
}

#[test]
fn selects() {
    assert_eq!(
        statements("SELECT * FROM t WHERE a = 1 ORDER BY a DESC LIMIT 1"),
        "[Node(SelectStatement, [Node(Query, [Node(SimpleCtes, [List([])]), Node(SelectBody, \
         [Node(Select, [Absent, List([Node(Wildcard, [])]), List([Node(TableWithJoins, [Node(Table, \
         [Node(ItemName, [List([Text(\"t\")])]), Absent]), List([])])]), Node(Op, [Node(BareOp, \
         [Text(\"=\")]), Node(Identifier, [List([Text(\"a\")])]), Node(NumberValue, [Text(\"1\")])]), \
         List([]), Absent, List([])])]), List([Node(OrderByExpr, [Node(Identifier, \
         [List([Text(\"a\")])]), Flag(false), Absent])]), Node(Limit, [Flag(false), \
         Node(NumberValue, [Text(\"1\")])]), Absent]), Absent])]"
    );
}

#[test]
fn updates_and_deletes() {
    assert_eq!(
        statements("UPDATE t SET a = 1"),
        "[Node(Update, [Node(ItemName, [List([Text(\"t\")])]), Absent, List([Node(Assignment, \
         [Text(\"a\"), Node(NumberValue, [Text(\"1\")])])]), Absent])]"
    );
    assert_eq!(
        statements("DELETE FROM t USING u"),
        "[Node(Delete, [Node(ItemName, [List([Text(\"t\")])]), Absent, List([Node(TableWithJoins, \
         [Node(Table, [Node(ItemName, [List([Text(\"u\")])]), Absent]), List([])])]), Absent])]"
    );
}

#[test]
fn shows_and_copies() {
    assert_eq!(
        statements("SHOW CREATE TABLE t"),
        "[Node(ShowStatement, [Node(ShowCreateTable, [Node(ItemName, [List([Text(\"t\")])])])])]"
    );
    assert_eq!(
        statements("COPY t FROM STDIN"),
        "[Node(Copy, [Node(CopyTable, [Node(ItemName, [List([Text(\"t\")])]), List([])]), \
         Node(CopyFrom, []), List([])])]"
    );
    assert_eq!(
        statements("SUBSCRIBE t AS OF 1"),
        "[Node(Subscribe, [Node(ItemName, [List([Text(\"t\")])]), List([]), Node(AsOfAt, \
         [Node(NumberValue, [Text(\"1\")])]), Absent, Node(Diffs, [])])]"
    );
}

#[test]
fn words_without_a_meaning() {
    assert!(try_parse_statements("EXPLAIN QUERY PLAN FOR SELECT 1").is_none());
    assert!(try_parse_statements("SELECT 1").unwrap().is_ok());
    assert!(try_parse_statements("BAD SYNTAX").unwrap().is_err());
}

#[test]
fn operators_bind_by_precedence() {
    assert_eq!(
        expr("1 + 2 * 3"),
        "Node(Op, [Node(BareOp, [Text(\"+\")]), Node(NumberValue, [Text(\"1\")]), Node(Op, \
         [Node(BareOp, [Text(\"*\")]), Node(NumberValue, [Text(\"2\")]), Node(NumberValue, \
         [Text(\"3\")])])])"
    );
    assert_eq!(
        expr("NOT a OR b AND c"),
        "Node(Or, [Node(Not, [Node(Identifier, [List([Text(\"a\")])])]), Node(And, \
         [Node(Identifier, [List([Text(\"b\")])]), Node(Identifier, [List([Text(\"c\")])])])])"
    );
}

#[test]
fn expressions() {
    assert_eq!(
        expr("a.b IS NOT NULL"),
        "Node(IsExpr, [Node(Identifier, [List([Text(\"a\"), Text(\"b\")])]), Flag(true), \
         Node(IsNull, [])])"
    );
    assert_eq!(
        expr("CASE WHEN a THEN 1 ELSE 2 END"),
        "Node(Case, [Absent, List([Node(CaseArm, [Node(Identifier, [List([Text(\"a\")])]), \
         Node(NumberValue, [Text(\"1\")])])]), Node(NumberValue, [Text(\"2\")])])"
    );
    assert_eq!(
        expr("'x'::text"),
        "Node(Cast, [Node(StringValue, [Text(\"x\")]), Node(OtherType, [Node(ItemName, \
         [List([Text(\"text\")])]), List([])])])"
    );
    assert_eq!(
        expr("a LIKE 'b' ESCAPE 'c'"),
        "Node(Like, [Node(Identifier, [List([Text(\"a\")])]), Node(StringValue, [Text(\"b\")]), \
         Node(StringValue, [Text(\"c\")]), Flag(false), Flag(false)])"
    );
    assert_eq!(expr("$1"), "Node(Parameter, [Num(1)])");
    assert_eq!(expr("x'ff'"), "Node(HexStringValue, [Text(\"ff\")])");
}

#[test]
fn expression_errors() {
    assert_eq!(expr("1 +"), "3: Unexpected EOF");
    assert_eq!(expr("1 2"), "2: extra token after expression");
    assert_eq!(expr("'a"), "0: unterminated quoted string");
}

#[test]
fn identifiers_are_folded_unless_quoted() {
    assert_eq!(expr("Abc"), "Node(Identifier, [List([Text(\"abc\")])])");
    assert_eq!(expr("\"Abc\""), "Node(Identifier, [List([Text(\"Abc\")])])");
    assert_eq!(expr("ÀBC"), "Node(Identifier, [List([Text(\"àbc\")])])");
}

#[test]
fn deep_nesting_is_refused() {
    let fits = format!("{}1{}", "(".repeat(30), ")".repeat(30));
    assert!(parse_expr(&fits).is_ok());
    let deep = format!("{}1{}", "(".repeat(300), ")".repeat(300));
    assert_eq!(
        parse_expr(&deep).unwrap_err().to_text(),
        "statement exceeds nested expression limit of 128"
    );
}

#[test]
fn data_types() {
    assert_eq!(
        data_type("numeric(10, 2)"),
        "Node(OtherType, [Node(ItemName, [List([Text(\"numeric\")])]), List([Int(10), Int(2)])])"
    );
    assert_eq!(
        data_type("timestamp with time zone"),
        "Node(OtherType, [Node(ItemName, [List([Text(\"timestamptz\")])]), List([])])"
    );
    assert_eq!(
        data_type("text[]"),
        "Node(ArrayType, [Node(OtherType, [Node(ItemName, [List([Text(\"text\")])]), List([])])])"
    );
    assert_eq!(
        data_type("map[text=>int]"),
        "Node(MapType, [Node(OtherType, [Node(ItemName, [List([Text(\"text\")])]), List([])]), \
         Node(OtherType, [Node(ItemName, [List([Text(\"int4\")])]), List([])])])"
    );
    assert_eq!(data_type("int x"), "4: extra token after data type");
}

#[test]
fn identifier_strings_are_split() {
    assert_eq!(split_identifier_string("").unwrap(), Vec::<String>::new());
    assert_eq!(split_identifier_string(" \t\n").unwrap(), Vec::<String>::new());
    assert_eq!(split_identifier_string(" a , \"B c\" ").unwrap(), vec!["a", "B c"]);
    assert_eq!(split_identifier_string("A,b").unwrap(), vec!["a", "b"]);
    let e = split_identifier_string("a,,b").unwrap_err();
    assert_eq!((e.pos, e.to_text()), (2, "Expected variable value, found comma".to_string()));
}

#[test]
fn large_batches_are_refused() {
    let fits = " ".repeat(MAX_STATEMENT_BATCH_SIZE);
    assert_eq!(parse_statements_with_limit(&fits).unwrap().unwrap().len(), 0);
    let large = " ".repeat(MAX_STATEMENT_BATCH_SIZE + 1);
    let message = parse_statements_with_limit(&large).unwrap_err();
    assert_eq!(message, "statement batch size cannot exceed 1000.0 KB");
    assert_eq!(oversize_message("1.0 MB"), "statement batch size cannot exceed 1.0 MB");
    assert!(parse_statements_with_limit("BAD SYNTAX").unwrap().is_err());
}

#[test]
fn space_around_identifier_strings_is_ignored() {
    let plain = split_identifier_string("a, 'b' , -1, INTERVAL '1' SECOND (2)").unwrap();
    assert_eq!(plain, vec!["a", "b", "-1", "INTERVAL '1' SECOND(2)"]);
    let padded =
        split_identifier_string(" \n\ta, 'b' , -1, INTERVAL '1' SECOND (2) -- c\r\n \x0c");
    assert_eq!(padded.unwrap(), plain);
    assert!(split_identifier_string("'a").is_err());
    assert!(split_identifier_string("  'a  ").is_err());
}

#[test]
fn errors_point_into_the_text() {
    for sql in ["SELECT 1 FROM", "SELECT (", "'", "é é é", "EXPLAIN AS", "CREATE", "SELECT 1 1", "$x"] {
        let e = parse_statements(sql).unwrap_err();
        assert!(e.pos <= sql.len(), "{sql}: {}", e.pos);
    }
    assert_eq!(parse_statements("é $").unwrap_err().pos, 3);
    assert_eq!(statements("EXPLAIN AS x"), "11: expected a format");
    let sql = "CREATE SOURCE s FROM KAFKA CONNECTION k (TOPIC 't') FORMAT AVRO \
               USING CONFLUENT SCHEMA REGISTRY CONNECTION r KEY STRATEGY ID 2147483648";
    let e = parse_statements(sql).unwrap_err();
    assert_eq!((e.pos, e.to_text()), (sql.len() - 10, "Expected a 32-bit integer".to_string()));
}

#[test]
fn set_operators_bind_by_precedence() {
    let kinds = |sql: &str| statements(sql).matches("SetOperation").count();
    assert_eq!(kinds("SELECT 1 UNION SELECT 2 INTERSECT SELECT 3"), 2);
    let s = statements("VALUES (1) UNION VALUES (2) INTERSECT VALUES (3)");
    assert!(s.find("Node(Union").unwrap() < s.find("Node(Intersect").unwrap());
    let s = statements("VALUES (1) INTERSECT VALUES (2) UNION VALUES (3)");
    assert!(s.find("Node(Intersect").unwrap() < s.find("Node(Union").unwrap());
    let s = statements("VALUES (1) EXCEPT VALUES (2) UNION ALL VALUES (3)");
    assert!(s.find("Node(Except").unwrap() < s.find("Node(Union").unwrap());
}

#[test]
fn number_literals() {
    assert_eq!(expr("1.5e3"), "Node(NumberValue, [Text(\"1.5E3\")])");
    assert_eq!(expr(".5"), "Node(NumberValue, [Text(\".5\")])");
}
