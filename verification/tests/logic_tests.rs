use materialize::sqllogictest::ast::{
    Location, Mode, Output, QueryOutput, Quoted, Record, Sort, Span, Type,
};
use materialize::sqllogictest::format::{format_datum, format_row, can_format_row, split_cols};
use materialize::sqllogictest::outcome::{ErrorChain, Outcome, Outcomes};
use materialize::sqllogictest::pattern::{err_msg_matches, is_match};
use materialize::sqllogictest::query::{
    can_judge_query, judge_query, judge_query_with, judge_simple, judge_statement,
    judge_statement_with, plan_query, skips_statement, transaction_commands, QueryFault, QueryPlan,
    ResultRow, ResultRows, SimpleMessage,
};
use materialize::sqllogictest::reset::{
    blob_uri, reset_steps, retry_after, server_urls, setup_commands, ResetFinding, ResetStep,
};
use materialize::sqllogictest::rewrite::{rewrite_of, RewriteBuffer};
use materialize::sqllogictest::run::{
    choose_connection, connection_config, copy_command, print_record, settle_statement, show_after,
    show_before, tally, tally_all, Connection,
};
use materialize::sqllogictest::value::{Cell, Value};

fn at(line: usize) -> Location {
    Location { file: "f.slt".to_string(), line }
}

fn chain(messages: &[&str]) -> ErrorChain {
    ErrorChain { messages: messages.iter().map(|m| m.to_string()).collect() }
}

fn text(s: &str) -> Option<Cell> {
    Some(Cell { value: Value::Text(s.to_string()), encoded: s.to_string() })
}

fn number(i: i32) -> Option<Cell> {
    Some(Cell { value: Value::Int4(i), encoded: i.to_string() })
}

fn expected(types: Vec<Type>, sort: Sort, mode: Mode, output: Output) -> QueryOutput {
    QueryOutput {
        types,
        sort,
        column_names: None,
        mode,
        output,
        output_span: Span { start: 0, len: 0 },
    }
}

fn rows(rows: Vec<Vec<Option<Cell>>>) -> ResultRows {
    ResultRows {
        rows: rows
            .into_iter()
            .map(|cells| ResultRow {
                column_names: cells.iter().map(|_| "c".to_string()).collect(),
                cells,
            })
            .collect(),
        shown: "shown".to_string(),
    }
}

fn values(v: &[&str]) -> Output {
    Output::Values(v.iter().map(|s| s.to_string()).collect())
}

#[test]
fn outcomes_are_counted() {
    let mut outcomes = Outcomes::default();
    assert!(!outcomes.any_failed());
    assert_eq!(outcomes.display(false).to_text(), "PASS: total=0");
    assert!(!tally(&mut outcomes, &Outcome::Success, true));
    assert!(!outcomes.any_failed());
    assert_eq!(outcomes.display(false).to_text(), "PASS: success=1 total=1");
    let failure = Outcome::PlanFailure { error: chain(&["no"]), location: at(1) };
    assert!(!tally(&mut outcomes, &failure, false));
    assert!(tally(&mut outcomes, &failure, true));
    assert!(outcomes.any_failed());
    assert_eq!(outcomes.display(false).to_text(), "FAIL: plan-failure=2 success=1 total=3");
    assert_eq!(outcomes.display(true).to_text(), "FAIL-IGNORE: plan-failure=2 success=1 total=3");
    let mut more = Outcomes::default();
    more.add_assign(outcomes);
    assert_eq!(more.0, [0, 0, 2, 0, 0, 0, 0, 0, 0, 1]);
    let json = more.as_json();
    assert_eq!(json[2], ("plan_failure".to_string(), 2));
    assert_eq!(json[4], ("wrong_number_of_rows_affected".to_string(), 0));
    assert_eq!(json[9], ("success".to_string(), 1));
}

#[test]
fn a_bail_ends_a_file() {
    let bail = || Outcome::Bail { cause: Box::new(Outcome::Success), location: at(3) };
    let outcomes = tally_all(&vec![Outcome::Success, bail(), Outcome::Success], false);
    assert_eq!(outcomes.0, [0, 0, 0, 0, 0, 0, 0, 0, 1, 1]);
    assert_eq!(bail().to_text(), "Bail:f.slt:3 Success");
}

#[test]
fn outcomes_are_shown() {
    let text = |o: Outcome| o.to_text();
    assert_eq!(
        text(Outcome::Unsupported { error: chain(&["a", "b"]), location: at(1) }),
        "Unsupported:f.slt:1:\na: b"
    );
    assert_eq!(
        text(Outcome::ParseFailure { error: chain(&["a"]), location: at(1) }),
        "ParseFailure:f.slt:1:\na"
    );
    assert_eq!(
        text(Outcome::UnexpectedPlanSuccess { expected_error: "x".into(), location: at(2) }),
        "UnexpectedPlanSuccess:f.slt:2 expected error: x"
    );
    assert_eq!(
        text(Outcome::WrongNumberOfRowsInserted {
            expected_count: 1,
            actual_count: 2,
            location: at(2)
        }),
        "WrongNumberOfRowsInserted:f.slt:2\n        expected: 1\n        actually: 2"
    );
    assert_eq!(
        text(Outcome::WrongColumnCount { expected_count: 1, actual_count: 2, location: at(2) }),
        "WrongColumnCount:f.slt:2\n        expected: 1\n        actually: 2"
    );
    assert_eq!(
        text(Outcome::WrongColumnNames {
            expected_column_names: vec!["a".into(), "b".into()],
            actual_column_names: vec!["c".into()],
            location: at(2)
        }),
        "Wrong Column Names:f.slt:2:\n        expected column names: a b\n        inferred column names: c"
    );
    assert_eq!(
        text(Outcome::OutputFailure {
            expected_output: values(&["a\"b"]),
            actual_raw_output: "[]".into(),
            actual_output: Output::Hashed { num_values: 3, md5: "ff".into() },
            location: at(2)
        }),
        "OutputFailure:f.slt:2\n        expected: Values([\"a\\\"b\"])\n        actually: Hashed { num_values: 3, md5: \"ff\" }\n        actual raw: []"
    );
}

#[test]
fn error_messages_match_their_outcomes() {
    let o = Outcome::PlanFailure {
        error: chain(&["db error: (a.b*c) [x]? {y} ^$ #&-~|\\+\nDETAIL: more"]),
        location: at(1),
    };
    assert_eq!(
        o.err_msg().unwrap(),
        "db error: \\(a\\.b\\*c\\) \\[x\\]\\? \\{y\\} \\^\\$ \\#\\&\\-\\~\\|\\\\\\+"
    );
    assert_eq!(err_msg_matches(&o), Some(Ok(true)));
    assert!(Outcome::Success.err_msg().is_none());
    assert_eq!(err_msg_matches(&Outcome::Success), None);
    assert_eq!(is_match("a+b", "xaab"), Ok(true));
    assert_eq!(is_match("a+b", "b"), Ok(false));
    assert!(is_match("(", "b").is_err());
}

#[test]
fn long_error_messages_match_their_outcomes() {
    for (piece, times) in [("a", 3_000), ("é", 2_000), ("₂.", 1_000), ("x y", 500)] {
        let o = Outcome::PlanFailure { error: chain(&[piece.repeat(times).as_str()]), location: at(1) };
        assert_eq!(err_msg_matches(&o), Some(Ok(true)));
    }
}

#[test]
fn long_patterns_are_in_order() {
    assert_eq!(is_match(&format!("b{}", "a".repeat(327_672)), "b"), Ok(false));
}

#[test]
fn statements_are_judged() {
    let ok = |e, n, a| judge_statement(e, n, a, at(1)).unwrap();
    assert!(ok(None, None, Ok(7)).success());
    assert!(ok(None, Some(7), Ok(7)).success());
    assert_eq!(ok(None, Some(8), Ok(7)).code(), 4);
    assert_eq!(ok(Some("x"), None, Ok(7)).code(), 3);
    assert!(ok(Some("no+"), None, Err(chain(&["nooo"]))).success());
    assert_eq!(ok(Some("yes"), None, Err(chain(&["nooo"]))).code(), 2);
    assert_eq!(ok(None, None, Err(chain(&["nooo"]))).code(), 2);
    assert!(judge_statement(Some("("), None, Err(chain(&["nooo"])), at(1)).is_err());
    let with = judge_statement_with(Some("x"), None, Err(chain(&["y"])), Ok(true), at(1));
    assert!(with.unwrap().success());
    assert_eq!(skips_statement("CREATE UNIQUE INDEX i ON t (a)"), Ok(true));
    assert_eq!(skips_statement("REINDEX t"), Ok(true));
    assert_eq!(skips_statement(" REINDEX t"), Ok(false));
}

#[test]
fn failed_statements_end_a_file_unless_expected() {
    let failure = || Outcome::PlanFailure { error: chain(&["no"]), location: at(1) };
    assert_eq!(settle_statement(failure(), false, &at(1)).code(), 8);
    assert_eq!(settle_statement(failure(), true, &at(1)).code(), 2);
    assert!(settle_statement(Outcome::Success, false, &at(1)).success());
}

#[test]
fn queries_run_inside_transactions() {
    let run = |sql: &str, error: Option<&str>, auto, open| {
        match plan_query(sql, error, at(1), auto, open).unwrap() {
            QueryPlan::Run(commands, open) => (commands, open),
            QueryPlan::Done(o) => panic!("{o:?}"),
        }
    };
    let strings = |v: &[&str]| v.iter().map(|s| s.to_string()).collect::<Vec<_>>();
    assert_eq!(run("SELECT 1", None, true, false), (strings(&["BEGIN"]), true));
    assert_eq!(run("SELECT 1", None, true, true), (strings(&[]), true));
    assert_eq!(run("SELECT 1", Some("x"), true, true), (strings(&["COMMIT"]), false));
    assert_eq!(run("SHOW TABLES", None, true, false), (strings(&["BEGIN", "COMMIT"]), false));
    assert_eq!(run("SHOW TABLES", None, true, true), (strings(&["COMMIT"]), false));
    assert_eq!(run("SHOW TABLES", None, false, false), (strings(&[]), false));
    assert_eq!(transaction_commands(false, false, true, true), (strings(&["COMMIT"]), false));
}

#[test]
fn queries_that_cannot_be_parsed() {
    let done = |sql: &str, error: Option<&str>| match plan_query(sql, error, at(1), true, false) {
        Ok(QueryPlan::Done(o)) => o.code(),
        other => panic!("{other:?}"),
    };
    assert_eq!(done("BAD SYNTAX", None), 1);
    assert_eq!(done("BAD SYNTAX", Some("Expected")), 9);
    assert_eq!(done("BAD SYNTAX", Some("nothing like it")), 1);
    let fault = |sql: &str, error: Option<&str>| plan_query(sql, error, at(1), true, false).unwrap_err();
    assert!(matches!(fault("BAD SYNTAX", Some("(")), QueryFault::BadPattern(_)));
    assert!(matches!(fault("", None), QueryFault::NoStatements));
    assert!(matches!(fault("SELECT 1; SELECT 2", None), QueryFault::ManyStatements(ts) if ts.len() == 2));
    assert!(matches!(fault("EXPLAIN QUERY PLAN FOR SELECT 1", None), QueryFault::Unhandled));
}

#[test]
fn answers_are_judged() {
    let one = |o: Output| Ok(expected(vec![Type::Integer], Sort::No, Mode::Standard, o));
    let code = |output: Result<QueryOutput, Quoted>, answer| {
        assert!(can_judge_query(&output, &answer));
        judge_query(&output, answer, at(1)).unwrap().code()
    };
    assert_eq!(code(one(values(&["1", "2"])), Ok(rows(vec![vec![number(1)], vec![number(2)]]))), 9);
    assert_eq!(code(one(values(&["2", "1"])), Ok(rows(vec![vec![number(1)], vec![number(2)]]))), 7);
    assert_eq!(code(one(values(&[])), Ok(rows(vec![vec![number(1), number(2)]]))), 5);
    assert_eq!(code(one(values(&[])), Err(chain(&["not supported"]))), 0);
    assert_eq!(code(one(values(&[])), Err(chain(&["no such overload"]))), 0);
    assert_eq!(code(one(values(&[])), Err(chain(&["oops"]))), 2);
    let error = || Err(Quoted { text: "oo+ps".into(), span: Span { start: 0, len: 0 } });
    assert_eq!(code(error(), Err(chain(&["oops"]))), 9);
    assert_eq!(code(error(), Err(chain(&["ups"]))), 2);
    assert_eq!(code(error(), Ok(rows(vec![]))), 3);
    let with = judge_query_with(&error(), Err(chain(&["x"])), Ok(true), at(1));
    assert!(with.unwrap().success());
    // The hash of "1\n2\n".
    let hashed = Output::Hashed { num_values: 2, md5: "6ddb4095eb719e2a9f0a3f95677d24e0".into() };
    assert_eq!(code(one(hashed), Ok(rows(vec![vec![number(1)], vec![number(2)]]))), 9);
    let hashed = Output::Hashed { num_values: 2, md5: "00".into() };
    assert_eq!(code(one(hashed), Ok(rows(vec![vec![number(1)], vec![number(2)]]))), 7);
    // A text cannot be written as a truth value.
    let bad = Ok(expected(vec![Type::Bool], Sort::No, Mode::Standard, values(&[])));
    assert!(!can_judge_query(&bad, &Ok(rows(vec![vec![text("x")]]))));
}

#[test]
fn actual_outputs_succeed() {
    let answer = || Ok(rows(vec![vec![number(2)], vec![number(1)]]));
    for output in [values(&["9"]), Output::Hashed { num_values: 0, md5: "00".into() }] {
        let query = |o: Output| Ok(expected(vec![Type::Integer], Sort::Value, Mode::Standard, o));
        let outcome = judge_query(&query(output), answer(), at(1)).unwrap();
        let Outcome::OutputFailure { actual_output, .. } = outcome else { panic!("{outcome:?}") };
        assert!(judge_query(&query(actual_output), answer(), at(1)).unwrap().success());
    }
    let failed = judge_statement(Some("x"), None, Err(chain(&["a.b+c\nd"])), at(1)).unwrap();
    let message = failed.err_msg().unwrap();
    assert_eq!(message, "a\\.b\\+c");
    let again = judge_statement(Some(&message), None, Err(chain(&["a.b+c\nd"])), at(1)).unwrap();
    assert!(again.success());
}

#[test]
fn column_names_are_compared() {
    let mut output = expected(vec![Type::Integer], Sort::No, Mode::Standard, values(&["1"]));
    output.column_names = Some(vec!["d".to_string()]);
    let output = Ok(output);
    let outcome = judge_query(&output, Ok(rows(vec![vec![number(1)]])), at(1)).unwrap();
    assert_eq!(outcome.code(), 6);
    assert_eq!(judge_query(&output, Ok(rows(vec![])), at(1)).unwrap().code(), 7);
}

#[test]
fn answers_are_sorted() {
    let types = || vec![Type::Text, Type::Text];
    let answer = || Ok(rows(vec![vec![text("b"), text("a")], vec![text("a"), text("z")]]));
    let by_row = Ok(expected(types(), Sort::Row, Mode::Standard, values(&["a", "z", "b", "a"])));
    assert!(judge_query(&by_row, answer(), at(1)).unwrap().success());
    let by_value = Ok(expected(types(), Sort::Value, Mode::Standard, values(&["a", "a", "b", "z"])));
    assert!(judge_query(&by_value, answer(), at(1)).unwrap().success());
    let unsorted = Ok(expected(types(), Sort::No, Mode::Standard, values(&["b", "a", "a", "z"])));
    assert!(judge_query(&unsorted, answer(), at(1)).unwrap().success());
}

#[test]
fn simple_queries_are_judged() {
    let ok = Ok(vec![
        SimpleMessage::Row(vec![Some("a".into()), None]),
        SimpleMessage::CommandComplete(1),
    ]);
    assert!(judge_simple(&values(&["a,NULL", "COMPLETE 1"]), &ok, at(1)).success());
    assert_eq!(judge_simple(&values(&["a"]), &ok, at(1)).code(), 7);
    let failed = Err(chain(&["one\r\ntwo\n\nthree\r"]));
    assert!(judge_simple(&values(&["one", "two", "", "three\r"]), &failed, at(1)).success());
}

#[test]
fn data_are_formatted() {
    let cell = |value| Cell { value, encoded: "enc".to_string() };
    let f = |value, typ, mode| format_datum(&cell(value), typ, mode);
    assert_eq!(f(Value::Bool(true), Type::Bool, Mode::Standard), "true");
    assert_eq!(f(Value::Bool(true), Type::Integer, Mode::Standard), "1");
    assert_eq!(f(Value::Int8(i64::MIN), Type::Integer, Mode::Standard), "-9223372036854775808");
    assert_eq!(f(Value::UInt8(u64::MAX), Type::Integer, Mode::Standard), "18446744073709551615");
    assert_eq!(f(Value::Int2(-3), Type::Real, Mode::Standard), "-3");
    assert_eq!(f(Value::Text("x".into()), Type::Integer, Mode::Standard), "0");
    assert_eq!(f(Value::Text("".into()), Type::Text, Mode::Standard), "(empty)");
    assert_eq!(f(Value::Oid(7), Type::Oid, Mode::Standard), "7");
    assert_eq!(f(Value::Bytea(vec![104, 105]), Type::Text, Mode::Standard), "hi");
    assert_eq!(f(Value::Bytea(vec![255, 1]), Type::Text, Mode::Standard), "[255, 1]");
    assert_eq!(f(Value::MzTimestamp(1), Type::Text, Mode::Standard), "enc");
    let float = || Value::Float { whole: 1, fixed: "1.500".into(), plain: "1.5".into() };
    assert_eq!(f(float(), Type::Integer, Mode::Standard), "1");
    assert_eq!(f(float(), Type::Real, Mode::Standard), "1.500");
    assert_eq!(f(float(), Type::Real, Mode::Cockroach), "1.5");
    assert_eq!(f(float(), Type::Text, Mode::Cockroach), "1.500");
    let numeric = || Value::Numeric {
        rounded: "2".into(),
        rescaled: "1.568".into(),
        standard: "1.5678".into(),
    };
    assert_eq!(f(numeric(), Type::Integer, Mode::Standard), "2");
    assert_eq!(f(numeric(), Type::Real, Mode::Standard), "1.568");
    assert_eq!(f(numeric(), Type::Real, Mode::Cockroach), "1.5678");
    assert_eq!(f(numeric(), Type::Text, Mode::Standard), "1.5678");
    assert!(!can_format_row(&vec![text("x")], &vec![Type::Oid], Mode::Standard));
}

#[test]
fn rows_are_formatted() {
    let row = vec![text("a b"), None];
    let types = vec![Type::Text, Type::Text];
    assert_eq!(format_row(&row, &types, Mode::Standard, Sort::Row), vec!["a b", "NULL"]);
    assert_eq!(format_row(&row, &types, Mode::Cockroach, Sort::No), vec!["a b", "NULL"]);
    assert_eq!(format_row(&row, &types, Mode::Cockroach, Sort::Row), vec!["a", "b", "NULL"]);
    assert_eq!(split_cols(" a b ", 1), vec!["a b"]);
    assert_eq!(split_cols(" \u{a0} ", 1), vec![""]);
    assert_eq!(split_cols(" a \u{2003} b ", 2), vec!["a", "b"]);
}

fn query_record(input: &str, output: &str, sql: &str, mode: Mode, types: Vec<Type>) -> Record {
    let start = input.find(output).unwrap();
    Record::Query {
        location: at(1),
        sql: Quoted { text: sql.to_string(), span: Span { start: input.find(sql).unwrap(), len: sql.len() } },
        output: Ok(QueryOutput {
            types,
            sort: Sort::No,
            column_names: None,
            mode,
            output: values(&[]),
            output_span: Span { start, len: output.len() },
        }),
    }
}

#[test]
fn nothing_to_rewrite() {
    let input = "query I\nSELECT 1\n----\n1\n";
    assert_eq!(RewriteBuffer::new(input).finish(), input);
}

#[test]
fn outputs_are_rewritten() {
    let input = "query TT\nSELECT 1\n----\nold\n\nrest\n";
    let record = query_record(input, "old", "SELECT 1", Mode::Standard, vec![Type::Text, Type::Text]);
    let outcome = |actual: &[&str]| Outcome::OutputFailure {
        expected_output: values(&["old"]),
        actual_raw_output: "".into(),
        actual_output: values(actual),
        location: at(1),
    };
    let mut buf = RewriteBuffer::new(input);
    let edit = rewrite_of(&record, &outcome(&["a", "b", "c", "d"]));
    assert!(buf.fits(&edit));
    assert!(buf.apply(&edit));
    assert_eq!(buf.finish(), "query TT\nSELECT 1\n----\na\nb\nc\nd\n\nrest\n");
    let record = query_record(input, "old", "SELECT 1", Mode::Cockroach, vec![Type::Text, Type::Text]);
    let mut buf = RewriteBuffer::new(input);
    assert!(buf.apply(&rewrite_of(&record, &outcome(&["a", "b", "c", "d"]))));
    assert_eq!(buf.finish(), "query TT\nSELECT 1\n----\na  b\nc  d\n\nrest\n");
}

#[test]
fn separators_are_installed() {
    let input = "query I\nSELECT 1\n\nrest\n";
    let mut buf = RewriteBuffer::new(input);
    buf.append_header(Span { start: 16, len: 0 });
    buf.append("5");
    assert_eq!(buf.peek_last(7), "\n----\n5");
    assert_eq!(buf.finish(), "query I\nSELECT 1\n----\n5\n\nrest\n");
    let input = "query I\nSELECT 1\n----";
    let mut buf = RewriteBuffer::new(input);
    buf.append_header(Span { start: input.len(), len: 0 });
    assert_eq!(buf.finish(), "query I\nSELECT 1\n----\n");
}

#[test]
fn hashes_are_rewritten() {
    let input = "query I\nSELECT 1\n----\n3 values hashing to ff\n";
    let mut record = query_record(input, "3 values hashing to ff\n", "SELECT 1", Mode::Standard, vec![Type::Text]);
    if let Record::Query { output: Ok(o), .. } = &mut record {
        o.output = Output::Hashed { num_values: 3, md5: "ff".into() };
    }
    let outcome = Outcome::OutputFailure {
        expected_output: values(&[]),
        actual_raw_output: "".into(),
        actual_output: Output::Hashed { num_values: 4, md5: "ee".into() },
        location: at(1),
    };
    let mut buf = RewriteBuffer::new(input);
    assert!(buf.apply(&rewrite_of(&record, &outcome)));
    assert_eq!(buf.finish(), "query I\nSELECT 1\n----\n4 values hashing to ee\n");
}

#[test]
fn errors_are_rewritten() {
    let input = "statement error old\nSELECT x\n\nrest\n";
    let record = Record::Statement {
        location: at(1),
        expected_error: Some(Quoted { text: "old".into(), span: Span { start: 16, len: 3 } }),
        rows_affected: None,
        sql: Quoted { text: "SELECT x".into(), span: Span { start: 20, len: 8 } },
    };
    let outcome = Outcome::PlanFailure { error: chain(&["new (x)\nmore"]), location: at(1) };
    let mut buf = RewriteBuffer::new(input);
    assert!(buf.apply(&rewrite_of(&record, &outcome)));
    assert_eq!(buf.finish(), "statement error new \\(x\\)\nSELECT x\n\nrest\n");
    let mut buf = RewriteBuffer::new(input);
    let unexpected = Outcome::UnexpectedPlanSuccess { expected_error: "old".into(), location: at(1) };
    assert!(!buf.apply(&rewrite_of(&record, &unexpected)));
    assert!(buf.apply(&rewrite_of(&record, &Outcome::Success)));
    assert_eq!(buf.finish(), input);
}

#[test]
fn records_are_shown() {
    let record = Record::Statement {
        location: at(1),
        expected_error: None,
        rows_affected: None,
        sql: Quoted { text: "SELECT\n1".into(), span: Span { start: 0, len: 0 } },
    };
    assert_eq!(print_record(&record).unwrap(), "    SELECT\n    1");
    assert!(print_record(&Record::ResetServer).is_none());
    assert_eq!(show_before(2, &record).len(), 1);
    assert_eq!(show_before(1, &record).len(), 0);
    let failure = Outcome::UnexpectedPlanSuccess { expected_error: "e".into(), location: at(1) };
    assert_eq!(
        show_after(1, &record, &failure),
        vec![
            "    SELECT\n    1",
            "    UnexpectedPlanSuccess:f.slt:1 expected error: e",
            "    ----"
        ]
    );
    assert_eq!(show_after(2, &record, &failure).len(), 2);
    assert_eq!(show_after(0, &record, &failure).len(), 0);
    assert_eq!(show_after(2, &record, &Outcome::Success).len(), 0);
}

#[test]
fn connections_are_chosen() {
    assert_eq!(choose_connection(None, true, Some("mz_system")), Connection::Main);
    assert_eq!(choose_connection(Some("c"), true, Some("mz_system")), Connection::Known);
    assert_eq!(choose_connection(Some("c"), false, Some("mz_system")), Connection::NewInternal);
    assert_eq!(choose_connection(Some("c"), false, Some("mz_introspection")), Connection::NewInternal);
    assert_eq!(choose_connection(Some("c"), false, Some("joe")), Connection::New);
    assert_eq!(choose_connection(Some("c"), false, None), Connection::New);
    assert_eq!(connection_config("127.0.0.1", "1", None), "host=127.0.0.1 port=1 user=materialize");
    assert_eq!(connection_config("::1", "2", Some("joe")), "host=::1 port=2 user=joe");
    assert_eq!(copy_command("t"), "COPY t FROM STDIN");
}

fn sent(steps: Vec<ResetStep>) -> Vec<String> {
    steps
        .into_iter()
        .map(|s| match s {
            ResetStep::User(s) => format!("user {s}"),
            ResetStep::System(s) => s,
            other => format!("{other:?}"),
        })
        .collect()
}

#[test]
fn servers_are_reset() {
    let start = sent(reset_steps(&ResetFinding::Start, false));
    assert_eq!(start[0], "user ROLLBACK;");
    assert_eq!(start[3], "Databases");
    let databases = ResetFinding::Databases(vec!["d".into(), "e".into()]);
    assert_eq!(
        sent(reset_steps(&databases, false)),
        vec!["DROP DATABASE d", "DROP DATABASE e", "CREATE DATABASE materialize", "Clusters"]
    );
    let clusters = ResetFinding::Clusters(vec!["x".into(), "default".into()]);
    assert_eq!(sent(reset_steps(&clusters, false)), vec!["DROP CLUSTER x", "Replicas"]);
    let clusters = ResetFinding::Clusters(vec![]);
    assert_eq!(
        sent(reset_steps(&clusters, false)),
        vec!["CREATE CLUSTER default REPLICAS ()", "Replicas"]
    );
    let replicas = ResetFinding::Replicas(vec![("r1".into(), "2".into())]);
    let steps = sent(reset_steps(&replicas, true));
    assert_eq!(steps[0], "DROP CLUSTER REPLICA default.r1");
    assert_eq!(steps[1], "CREATE CLUSTER REPLICA default.r1 SIZE '1'");
    assert_eq!(steps[2], "GRANT USAGE ON DATABASE materialize TO PUBLIC");
    assert_eq!(steps[8], "ALTER SYSTEM SET enable_table_keys = true");
    assert_eq!(steps[9], "Reconnect");
    let replicas = ResetFinding::Replicas(vec![("r1".into(), "1".into())]);
    assert_eq!(sent(reset_steps(&replicas, false)).len(), 7);
}

#[test]
fn connecting_is_retried() {
    assert_eq!((1..=6).map(retry_after).collect::<Vec<_>>(), [
        Some(125),
        Some(250),
        Some(500),
        Some(1000),
        None,
        None,
    ]);
}

#[test]
fn servers_have_addresses() {
    let (consensus, adapter, storage) = server_urls("postgres://h");
    assert_eq!(consensus, "postgres://h?options=--search_path=sqllogictest_consensus");
    assert_eq!(adapter, "postgres://h?options=--search_path=sqllogictest_adapter");
    assert_eq!(storage, "postgres://h?options=--search_path=sqllogictest_storage");
    assert_eq!(blob_uri("/tmp/x"), "file:///tmp/x/persist/blob");
    assert!(setup_commands().starts_with("DROP SCHEMA IF EXISTS sqllogictest_consensus CASCADE;"));
}
