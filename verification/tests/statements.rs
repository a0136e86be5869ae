use materialize::sql_parser::parse::parse_statements;

/// The kind of the only statement of a text, or why there is none.
fn kind(sql: &str) -> String {
    match parse_statements(sql) {
        Ok(ts) => {
            assert_eq!(ts.len(), 1, "{sql}");
            let shown = format!("{:?}", ts[0]);
            let rest = shown.strip_prefix("Node(").unwrap();
            rest[..rest.find(',').unwrap()].to_string()
        }
        Err(e) => format!("{}: {}", e.pos, e.to_text()),
    }
}

#[test]
fn kinds_of_statements() {
    let cases = [
        ("CREATE DATABASE IF NOT EXISTS d", "CreateDatabase"),
        ("CREATE SCHEMA d.s", "CreateSchema"),
        ("CREATE TABLE t (a int NOT NULL, b text DEFAULT 'x', PRIMARY KEY (a), CHECK (a > 0))", "CreateTable"),
        ("CREATE TEMPORARY VIEW v (a, b) AS SELECT 1, 2", "CreateView"),
        ("CREATE OR REPLACE MATERIALIZED VIEW v IN CLUSTER c AS SELECT 1", "CreateMaterializedView"),
        ("CREATE DEFAULT INDEX IN CLUSTER c ON t WITH (LOGICAL COMPACTION WINDOW = '1s')", "CreateIndex"),
        ("CREATE INDEX i ON t USING ARRANGEMENT (a, b + 1)", "CreateIndex"),
        ("CREATE TYPE t AS LIST (ELEMENT TYPE = int4)", "CreateType"),
        ("CREATE TYPE t AS (a int, b text)", "CreateType"),
        ("CREATE ROLE r INHERIT CREATEDB", "CreateRole"),
        (
            "CREATE USER u",
            "7: CREATE USER is not supported, for more information consult the documentation at https://materialize.com/docs/sql/create-role/#details",
        ),
        ("CREATE CLUSTER c REPLICAS (r1 (SIZE '1'), r2 (SIZE '2'))", "CreateCluster"),
        ("CREATE CLUSTER REPLICA c.r SIZE '1'", "CreateClusterReplica"),
        ("CREATE SECRET s AS 'x'", "CreateSecret"),
        ("CREATE CONNECTION k TO KAFKA (BROKER 'b:9092', SASL PASSWORD SECRET s)", "CreateConnection"),
        ("CREATE CONNECTION k FOR KAFKA BROKERS ('a' USING SSH TUNNEL t, 'b')", "CreateConnection"),
        ("CREATE CONNECTION s TO SSH TUNNEL (HOST 'h', USER 'u', PORT 22)", "CreateConnection"),
        ("CREATE CONNECTION p TO POSTGRES (HOST 'h', DATABASE d)", "CreateConnection"),
        ("CREATE SOURCE s FROM KAFKA CONNECTION k (TOPIC 't') FORMAT AVRO USING CONFLUENT SCHEMA REGISTRY CONNECTION r ENVELOPE UPSERT", "CreateSource"),
        ("CREATE SOURCE s (a, PRIMARY KEY (a) NOT ENFORCED) FROM KAFKA CONNECTION k (TOPIC 't') FORMAT CSV WITH 3 COLUMNS DELIMITED BY ';' INCLUDE KEY AS x, HEADERS", "CreateSource"),
        ("CREATE SOURCE s IN CLUSTER c FROM POSTGRES CONNECTION p (PUBLICATION 'x') FOR TABLES (a AS b) WITH (SIZE '1')", "CreateSource"),
        ("CREATE SOURCE s FROM LOAD GENERATOR AUCTION (TICK INTERVAL '1s') FOR ALL TABLES", "CreateSource"),
        ("CREATE SUBSOURCE s (a int) WITH (PROGRESS)", "CreateSubsource"),
        ("CREATE SINK s FROM v INTO KAFKA CONNECTION k (TOPIC 't') KEY (a) FORMAT JSON ENVELOPE DEBEZIUM", "CreateSink"),
        ("DROP TABLE IF EXISTS a, b CASCADE", "DropObjects"),
        ("DROP CLUSTER REPLICA c.r", "DropObjects"),
        ("DROP OWNED BY a, b", "DropOwned"),
        ("ALTER INDEX i SET (LOGICAL COMPACTION WINDOW = '1s')", "AlterIndex"),
        ("ALTER SOURCE s SET (SIZE 'x')", "AlterSource"),
        ("ALTER SINK s RESET (SIZE)", "AlterSink"),
        ("ALTER SECRET s AS 'x'", "AlterSecret"),
        ("ALTER CONNECTION c ROTATE KEYS", "AlterConnection"),
        ("ALTER ROLE r NOCREATEDB", "AlterRole"),
        ("ALTER SYSTEM SET a = 1", "AlterSystemSet"),
        ("ALTER SYSTEM RESET ALL", "AlterSystemResetAll"),
        ("ALTER TABLE t RENAME TO u", "AlterObjectRename"),
        ("ALTER TABLE t OWNER TO r", "AlterOwner"),
        ("ALTER DEFAULT PRIVILEGES FOR ROLE r GRANT SELECT ON TABLES TO q", "AlterDefaultPrivileges"),
        ("INSERT INTO t (a) VALUES (1), (DEFAULT) RETURNING a", "Insert"),
        ("INSERT INTO t DEFAULT VALUES", "Insert"),
        ("COPY t FROM STDIN WITH (FORMAT csv)", "Copy"),
        ("COPY (SELECT 1) TO STDOUT", "Copy"),
        ("SUBSCRIBE TO t WITH (SNAPSHOT = false) AS OF 1 UP TO 2 ENVELOPE UPSERT (KEY (a))", "Subscribe"),
        ("EXPLAIN PHYSICAL PLAN WITH (types) AS JSON FOR SELECT 1", "Explain"),
        ("EXPLAIN VIEW v", "Explain"),
        ("SHOW COLUMNS FROM t WHERE true", "ShowStatement"),
        ("SHOW INDEXES ON t IN CLUSTER c", "ShowStatement"),
        ("SHOW CREATE TABLE t", "ShowStatement"),
        ("SHOW TIME ZONE", "ShowStatement"),
        ("SET SESSION a TO 1, 'b', c", "SetVariable"),
        ("SET TRANSACTION ISOLATION LEVEL SERIALIZABLE, READ ONLY", "SetTransaction"),
        ("RESET a", "ResetVariable"),
        ("START TRANSACTION", "StartTransaction"),
        ("COMMIT AND NO CHAIN", "Commit"),
        ("ROLLBACK", "Rollback"),
        ("DISCARD ALL", "Discard"),
        ("DECLARE c CURSOR FOR SELECT 1", "Declare"),
        ("CLOSE c", "Close"),
        ("FETCH FORWARD 2 FROM c WITH (timeout = '1s')", "Fetch"),
        ("PREPARE p AS SELECT $1", "Prepare"),
        ("EXECUTE p (1)", "Execute"),
        ("DEALLOCATE ALL", "Deallocate"),
        ("RAISE WARNING", "Raise"),
        ("REASSIGN OWNED BY a TO b", "ReassignOwned"),
        ("VALIDATE CONNECTION c", "0: Expected a keyword at the beginning of a statement, found identifier \"validate\""),
        ("TAIL t", "0: TAIL has been renamed to SUBSCRIBE"),
    ];
    for (sql, expected) in cases {
        assert_eq!(kind(sql), expected, "{sql}");
    }
}
