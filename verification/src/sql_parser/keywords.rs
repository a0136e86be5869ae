//! The keywords of SQL.

use vstd::prelude::*;

use crate::sql_parser::text::{lower, text_eq, to_lower};

verus! {

/// A keyword.
#[derive(Debug, Copy, Clone, PartialEq, Eq, Structural)]
#[allow(non_camel_case_types)]
#[allow(clippy::upper_case_acronyms)]
pub enum Keyword {
    ACCESS,
    ACKS,
    ADDRESSES,
    ALL,
    ALTER,
    AND,
    ANY,
    ARN,
    ARRANGEMENT,
    ARRAY,
    AS,
    ASC,
    AT,
    AUCTION,
    AUTHORITY,
    AVAILABILITY,
    AVRO,
    AWS,
    BEGIN,
    BETWEEN,
    BIGINT,
    BOOLEAN,
    BOTH,
    BPCHAR,
    BROKEN,
    BROKER,
    BROKERS,
    BY,
    BYTES,
    CARDINALITY,
    CASCADE,
    CASE,
    CAST,
    CERTIFICATE,
    CHAIN,
    CHAR,
    CHARACTER,
    CHARACTERISTICS,
    CHECK,
    CLIENT,
    CLOSE,
    CLUSTER,
    CLUSTERS,
    COALESCE,
    COLLATE,
    COLUMNS,
    COMMIT,
    COMMITTED,
    COMPACTION,
    COMPUTE,
    COMPUTECTL,
    CONFLUENT,
    CONNECTION,
    CONNECTIONS,
    CONSTRAINT,
    COPY,
    COUNT,
    COUNTER,
    CREATE,
    CREATECLUSTER,
    CREATEDB,
    CREATEROLE,
    CROSS,
    CSV,
    CURRENT,
    CURSOR,
    DATABASE,
    DATABASES,
    DATUMS,
    DAY,
    DAYS,
    DEALLOCATE,
    DEBEZIUM,
    DEBUG,
    DEBUGGING,
    DEC,
    DECIMAL,
    DECLARE,
    DECORRELATED,
    DEFAULT,
    DELETE,
    DELIMITED,
    DELIMITER,
    DESC,
    DETAILS,
    DISCARD,
    DISK,
    DISTINCT,
    DOT,
    DOUBLE,
    DROP,
    EFFORT,
    ELEMENT,
    ELSE,
    ENABLE,
    END,
    ENDPOINT,
    ENFORCED,
    ENVELOPE,
    ERROR,
    ESCAPE,
    EXCEPT,
    EXECUTE,
    EXISTS,
    EXPECTED,
    EXPLAIN,
    EXPOSE,
    EXTRACT,
    FACTOR,
    FALSE,
    FETCH,
    FIELDS,
    FILTER,
    FIRST,
    FLOAT,
    FOLLOWING,
    FOR,
    FOREIGN,
    FORMAT,
    FORWARD,
    FROM,
    FULL,
    FULLNAME,
    FUNCTION,
    GENERATOR,
    GRANT,
    GREATEST,
    GROUP,
    GROUPS,
    HAVING,
    HEADER,
    HEADERS,
    HOLD,
    HOST,
    HOUR,
    HOURS,
    ID,
    IDEMPOTENCE,
    IDLE,
    IF,
    IGNORE,
    ILIKE,
    IN,
    INCLUDE,
    INDEX,
    INDEXES,
    INFO,
    INHERIT,
    INLINE,
    INNER,
    INSERT,
    INT,
    INTEGER,
    INTERSECT,
    INTERVAL,
    INTO,
    INTROSPECTION,
    IS,
    ISNULL,
    ISOLATION,
    JOIN,
    JSON,
    KAFKA,
    KEY,
    KEYS,
    LAST,
    LATERAL,
    LATEST,
    LEADING,
    LEAST,
    LEFT,
    LEVEL,
    LIKE,
    LIMIT,
    LIST,
    LOAD,
    LOCAL,
    LOG,
    LOGICAL,
    LOGIN,
    MAP,
    MARKETING,
    MATERIALIZE,
    MATERIALIZED,
    MAX,
    MECHANISMS,
    MERGE,
    MESSAGE,
    METADATA,
    MINUTE,
    MINUTES,
    MODE,
    MONTH,
    MONTHS,
    MS,
    MUTUALLY,
    NAME,
    NAMES,
    NATURAL,
    NEXT,
    NO,
    NOCREATECLUSTER,
    NOCREATEDB,
    NOCREATEROLE,
    NOINHERIT,
    NOLOGIN,
    NONE,
    NOSUPERUSER,
    NOT,
    NOTICE,
    NULL,
    NULLIF,
    NULLS,
    OBJECTS,
    OF,
    OFFSET,
    ON,
    ONLY,
    OPERATOR,
    OPTIMIZED,
    OPTIMIZER,
    OPTIONS,
    OR,
    ORDER,
    ORDINALITY,
    OUTER,
    OVER,
    OWNED,
    OWNER,
    PARTITION,
    PASSWORD,
    PHYSICAL,
    PLAN,
    PLANS,
    PORT,
    POSITION,
    POSTGRES,
    PRECEDING,
    PRECISION,
    PREFIX,
    PREPARE,
    PRIMARY,
    PRIVATELINK,
    PRIVILEGES,
    PROGRESS,
    PROTOBUF,
    PUBLICATION,
    QUERY,
    QUOTE,
    RAISE,
    RANGE,
    RAW,
    READ,
    REAL,
    REASSIGN,
    RECURSION,
    RECURSIVE,
    REFERENCES,
    REFRESH,
    REGEX,
    REGION,
    REGISTRY,
    RENAME,
    REPEATABLE,
    REPLACE,
    REPLICA,
    REPLICAS,
    REPLICATION,
    RESET,
    RESTRICT,
    RETENTION,
    RETURN,
    RETURNING,
    REVOKE,
    RIGHT,
    ROLE,
    ROLES,
    ROLLBACK,
    ROTATE,
    ROW,
    ROWS,
    SASL,
    SCALE,
    SCHEMA,
    SCHEMAS,
    SCRIPT,
    SECOND,
    SECONDS,
    SECRET,
    SECRETS,
    SEED,
    SELECT,
    SEQUENCES,
    SERIALIZABLE,
    SERVICE,
    SESSION,
    SET,
    SHOW,
    SINK,
    SINKS,
    SIZE,
    SMALLINT,
    SNAPSHOT,
    SOME,
    SOURCE,
    SOURCES,
    SSH,
    SSL,
    START,
    STDIN,
    STDOUT,
    STORAGE,
    STORAGECTL,
    STRATEGY,
    STRICT,
    STRING,
    SUBSCRIBE,
    SUBSOURCE,
    SUBSTRING,
    SUPERUSER,
    SYSTEM,
    TABLE,
    TABLES,
    TAIL,
    TEMP,
    TEMPORARY,
    TEST,
    TEXT,
    THEN,
    TICK,
    TIES,
    TIME,
    TIMELINE,
    TIMEOUT,
    TIMESTAMP,
    TO,
    TOKEN,
    TOPIC,
    TPCH,
    TRACE,
    TRAILING,
    TRANSACTION,
    TRIM,
    TRUE,
    TUNNEL,
    TYPE,
    TYPES,
    UNBOUNDED,
    UNCOMMITTED,
    UNION,
    UNIQUE,
    UNKNOWN,
    UP,
    UPDATE,
    UPSERT,
    URL,
    USAGE,
    USER,
    USERNAME,
    USERS,
    USING,
    VALUE,
    VALUES,
    VARCHAR,
    VARYING,
    VIEW,
    VIEWS,
    WARNING,
    WHEN,
    WHERE,
    WINDOW,
    WIRE,
    WITH,
    WITHIN,
    WITHOUT,
    WORK,
    WORKERS,
    WRITE,
    YEAR,
    YEARS,
    ZONE,
    ZONES,
}

impl View for Keyword {
    type V = Keyword;

    open spec fn view(&self) -> Keyword {
        *self
    }
}

/// How a keyword is written.
#[verifier::opaque]
pub open spec fn keyword_text(k: Keyword) -> Seq<char> {
    match k {
        Keyword::ACCESS => "ACCESS"@,
        Keyword::ACKS => "ACKS"@,
        Keyword::ADDRESSES => "ADDRESSES"@,
        Keyword::ALL => "ALL"@,
        Keyword::ALTER => "ALTER"@,
        Keyword::AND => "AND"@,
        Keyword::ANY => "ANY"@,
        Keyword::ARN => "ARN"@,
        Keyword::ARRANGEMENT => "ARRANGEMENT"@,
        Keyword::ARRAY => "ARRAY"@,
        Keyword::AS => "AS"@,
        Keyword::ASC => "ASC"@,
        Keyword::AT => "AT"@,
        Keyword::AUCTION => "AUCTION"@,
        Keyword::AUTHORITY => "AUTHORITY"@,
        Keyword::AVAILABILITY => "AVAILABILITY"@,
        Keyword::AVRO => "AVRO"@,
        Keyword::AWS => "AWS"@,
        Keyword::BEGIN => "BEGIN"@,
        Keyword::BETWEEN => "BETWEEN"@,
        Keyword::BIGINT => "BIGINT"@,
        Keyword::BOOLEAN => "BOOLEAN"@,
        Keyword::BOTH => "BOTH"@,
        Keyword::BPCHAR => "BPCHAR"@,
        Keyword::BROKEN => "BROKEN"@,
        Keyword::BROKER => "BROKER"@,
        Keyword::BROKERS => "BROKERS"@,
        Keyword::BY => "BY"@,
        Keyword::BYTES => "BYTES"@,
        Keyword::CARDINALITY => "CARDINALITY"@,
        Keyword::CASCADE => "CASCADE"@,
        Keyword::CASE => "CASE"@,
        Keyword::CAST => "CAST"@,
        Keyword::CERTIFICATE => "CERTIFICATE"@,
        Keyword::CHAIN => "CHAIN"@,
        Keyword::CHAR => "CHAR"@,
        Keyword::CHARACTER => "CHARACTER"@,
        Keyword::CHARACTERISTICS => "CHARACTERISTICS"@,
        Keyword::CHECK => "CHECK"@,
        Keyword::CLIENT => "CLIENT"@,
        Keyword::CLOSE => "CLOSE"@,
        Keyword::CLUSTER => "CLUSTER"@,
        Keyword::CLUSTERS => "CLUSTERS"@,
        Keyword::COALESCE => "COALESCE"@,
        Keyword::COLLATE => "COLLATE"@,
        Keyword::COLUMNS => "COLUMNS"@,
        Keyword::COMMIT => "COMMIT"@,
        Keyword::COMMITTED => "COMMITTED"@,
        Keyword::COMPACTION => "COMPACTION"@,
        Keyword::COMPUTE => "COMPUTE"@,
        Keyword::COMPUTECTL => "COMPUTECTL"@,
        Keyword::CONFLUENT => "CONFLUENT"@,
        Keyword::CONNECTION => "CONNECTION"@,
        Keyword::CONNECTIONS => "CONNECTIONS"@,
        Keyword::CONSTRAINT => "CONSTRAINT"@,
        Keyword::COPY => "COPY"@,
        Keyword::COUNT => "COUNT"@,
        Keyword::COUNTER => "COUNTER"@,
        Keyword::CREATE => "CREATE"@,
        Keyword::CREATECLUSTER => "CREATECLUSTER"@,
        Keyword::CREATEDB => "CREATEDB"@,
        Keyword::CREATEROLE => "CREATEROLE"@,
        Keyword::CROSS => "CROSS"@,
        Keyword::CSV => "CSV"@,
        Keyword::CURRENT => "CURRENT"@,
        Keyword::CURSOR => "CURSOR"@,
        Keyword::DATABASE => "DATABASE"@,
        Keyword::DATABASES => "DATABASES"@,
        Keyword::DATUMS => "DATUMS"@,
        Keyword::DAY => "DAY"@,
        Keyword::DAYS => "DAYS"@,
        Keyword::DEALLOCATE => "DEALLOCATE"@,
        Keyword::DEBEZIUM => "DEBEZIUM"@,
        Keyword::DEBUG => "DEBUG"@,
        Keyword::DEBUGGING => "DEBUGGING"@,
        Keyword::DEC => "DEC"@,
        Keyword::DECIMAL => "DECIMAL"@,
        Keyword::DECLARE => "DECLARE"@,
        Keyword::DECORRELATED => "DECORRELATED"@,
        Keyword::DEFAULT => "DEFAULT"@,
        Keyword::DELETE => "DELETE"@,
        Keyword::DELIMITED => "DELIMITED"@,
        Keyword::DELIMITER => "DELIMITER"@,
        Keyword::DESC => "DESC"@,
        Keyword::DETAILS => "DETAILS"@,
        Keyword::DISCARD => "DISCARD"@,
        Keyword::DISK => "DISK"@,
        Keyword::DISTINCT => "DISTINCT"@,
        Keyword::DOT => "DOT"@,
        Keyword::DOUBLE => "DOUBLE"@,
        Keyword::DROP => "DROP"@,
        Keyword::EFFORT => "EFFORT"@,
        Keyword::ELEMENT => "ELEMENT"@,
        Keyword::ELSE => "ELSE"@,
        Keyword::ENABLE => "ENABLE"@,
        Keyword::END => "END"@,
        Keyword::ENDPOINT => "ENDPOINT"@,
        Keyword::ENFORCED => "ENFORCED"@,
        Keyword::ENVELOPE => "ENVELOPE"@,
        Keyword::ERROR => "ERROR"@,
        Keyword::ESCAPE => "ESCAPE"@,
        Keyword::EXCEPT => "EXCEPT"@,
        Keyword::EXECUTE => "EXECUTE"@,
        Keyword::EXISTS => "EXISTS"@,
        Keyword::EXPECTED => "EXPECTED"@,
        Keyword::EXPLAIN => "EXPLAIN"@,
        Keyword::EXPOSE => "EXPOSE"@,
        Keyword::EXTRACT => "EXTRACT"@,
        Keyword::FACTOR => "FACTOR"@,
        Keyword::FALSE => "FALSE"@,
        Keyword::FETCH => "FETCH"@,
        Keyword::FIELDS => "FIELDS"@,
        Keyword::FILTER => "FILTER"@,
        Keyword::FIRST => "FIRST"@,
        Keyword::FLOAT => "FLOAT"@,
        Keyword::FOLLOWING => "FOLLOWING"@,
        Keyword::FOR => "FOR"@,
        Keyword::FOREIGN => "FOREIGN"@,
        Keyword::FORMAT => "FORMAT"@,
        Keyword::FORWARD => "FORWARD"@,
        Keyword::FROM => "FROM"@,
        Keyword::FULL => "FULL"@,
        Keyword::FULLNAME => "FULLNAME"@,
        Keyword::FUNCTION => "FUNCTION"@,
        Keyword::GENERATOR => "GENERATOR"@,
        Keyword::GRANT => "GRANT"@,
        Keyword::GREATEST => "GREATEST"@,
        Keyword::GROUP => "GROUP"@,
        Keyword::GROUPS => "GROUPS"@,
        Keyword::HAVING => "HAVING"@,
        Keyword::HEADER => "HEADER"@,
        Keyword::HEADERS => "HEADERS"@,
        Keyword::HOLD => "HOLD"@,
        Keyword::HOST => "HOST"@,
        Keyword::HOUR => "HOUR"@,
        Keyword::HOURS => "HOURS"@,
        Keyword::ID => "ID"@,
        Keyword::IDEMPOTENCE => "IDEMPOTENCE"@,
        Keyword::IDLE => "IDLE"@,
        Keyword::IF => "IF"@,
        Keyword::IGNORE => "IGNORE"@,
        Keyword::ILIKE => "ILIKE"@,
        Keyword::IN => "IN"@,
        Keyword::INCLUDE => "INCLUDE"@,
        Keyword::INDEX => "INDEX"@,
        Keyword::INDEXES => "INDEXES"@,
        Keyword::INFO => "INFO"@,
        Keyword::INHERIT => "INHERIT"@,
        Keyword::INLINE => "INLINE"@,
        Keyword::INNER => "INNER"@,
        Keyword::INSERT => "INSERT"@,
        Keyword::INT => "INT"@,
        Keyword::INTEGER => "INTEGER"@,
        Keyword::INTERSECT => "INTERSECT"@,
        Keyword::INTERVAL => "INTERVAL"@,
        Keyword::INTO => "INTO"@,
        Keyword::INTROSPECTION => "INTROSPECTION"@,
        Keyword::IS => "IS"@,
        Keyword::ISNULL => "ISNULL"@,
        Keyword::ISOLATION => "ISOLATION"@,
        Keyword::JOIN => "JOIN"@,
        Keyword::JSON => "JSON"@,
        Keyword::KAFKA => "KAFKA"@,
        Keyword::KEY => "KEY"@,
        Keyword::KEYS => "KEYS"@,
        Keyword::LAST => "LAST"@,
        Keyword::LATERAL => "LATERAL"@,
        Keyword::LATEST => "LATEST"@,
        Keyword::LEADING => "LEADING"@,
        Keyword::LEAST => "LEAST"@,
        Keyword::LEFT => "LEFT"@,
        Keyword::LEVEL => "LEVEL"@,
        Keyword::LIKE => "LIKE"@,
        Keyword::LIMIT => "LIMIT"@,
        Keyword::LIST => "LIST"@,
        Keyword::LOAD => "LOAD"@,
        Keyword::LOCAL => "LOCAL"@,
        Keyword::LOG => "LOG"@,
        Keyword::LOGICAL => "LOGICAL"@,
        Keyword::LOGIN => "LOGIN"@,
        Keyword::MAP => "MAP"@,
        Keyword::MARKETING => "MARKETING"@,
        Keyword::MATERIALIZE => "MATERIALIZE"@,
        Keyword::MATERIALIZED => "MATERIALIZED"@,
        Keyword::MAX => "MAX"@,
        Keyword::MECHANISMS => "MECHANISMS"@,
        Keyword::MERGE => "MERGE"@,
        Keyword::MESSAGE => "MESSAGE"@,
        Keyword::METADATA => "METADATA"@,
        Keyword::MINUTE => "MINUTE"@,
        Keyword::MINUTES => "MINUTES"@,
        Keyword::MODE => "MODE"@,
        Keyword::MONTH => "MONTH"@,
        Keyword::MONTHS => "MONTHS"@,
        Keyword::MS => "MS"@,
        Keyword::MUTUALLY => "MUTUALLY"@,
        Keyword::NAME => "NAME"@,
        Keyword::NAMES => "NAMES"@,
        Keyword::NATURAL => "NATURAL"@,
        Keyword::NEXT => "NEXT"@,
        Keyword::NO => "NO"@,
        Keyword::NOCREATECLUSTER => "NOCREATECLUSTER"@,
        Keyword::NOCREATEDB => "NOCREATEDB"@,
        Keyword::NOCREATEROLE => "NOCREATEROLE"@,
        Keyword::NOINHERIT => "NOINHERIT"@,
        Keyword::NOLOGIN => "NOLOGIN"@,
        Keyword::NONE => "NONE"@,
        Keyword::NOSUPERUSER => "NOSUPERUSER"@,
        Keyword::NOT => "NOT"@,
        Keyword::NOTICE => "NOTICE"@,
        Keyword::NULL => "NULL"@,
        Keyword::NULLIF => "NULLIF"@,
        Keyword::NULLS => "NULLS"@,
        Keyword::OBJECTS => "OBJECTS"@,
        Keyword::OF => "OF"@,
        Keyword::OFFSET => "OFFSET"@,
        Keyword::ON => "ON"@,
        Keyword::ONLY => "ONLY"@,
        Keyword::OPERATOR => "OPERATOR"@,
        Keyword::OPTIMIZED => "OPTIMIZED"@,
        Keyword::OPTIMIZER => "OPTIMIZER"@,
        Keyword::OPTIONS => "OPTIONS"@,
        Keyword::OR => "OR"@,
        Keyword::ORDER => "ORDER"@,
        Keyword::ORDINALITY => "ORDINALITY"@,
        Keyword::OUTER => "OUTER"@,
        Keyword::OVER => "OVER"@,
        Keyword::OWNED => "OWNED"@,
        Keyword::OWNER => "OWNER"@,
        Keyword::PARTITION => "PARTITION"@,
        Keyword::PASSWORD => "PASSWORD"@,
        Keyword::PHYSICAL => "PHYSICAL"@,
        Keyword::PLAN => "PLAN"@,
        Keyword::PLANS => "PLANS"@,
        Keyword::PORT => "PORT"@,
        Keyword::POSITION => "POSITION"@,
        Keyword::POSTGRES => "POSTGRES"@,
        Keyword::PRECEDING => "PRECEDING"@,
        Keyword::PRECISION => "PRECISION"@,
        Keyword::PREFIX => "PREFIX"@,
        Keyword::PREPARE => "PREPARE"@,
        Keyword::PRIMARY => "PRIMARY"@,
        Keyword::PRIVATELINK => "PRIVATELINK"@,
        Keyword::PRIVILEGES => "PRIVILEGES"@,
        Keyword::PROGRESS => "PROGRESS"@,
        Keyword::PROTOBUF => "PROTOBUF"@,
        Keyword::PUBLICATION => "PUBLICATION"@,
        Keyword::QUERY => "QUERY"@,
        Keyword::QUOTE => "QUOTE"@,
        Keyword::RAISE => "RAISE"@,
        Keyword::RANGE => "RANGE"@,
        Keyword::RAW => "RAW"@,
        Keyword::READ => "READ"@,
        Keyword::REAL => "REAL"@,
        Keyword::REASSIGN => "REASSIGN"@,
        Keyword::RECURSION => "RECURSION"@,
        Keyword::RECURSIVE => "RECURSIVE"@,
        Keyword::REFERENCES => "REFERENCES"@,
        Keyword::REFRESH => "REFRESH"@,
        Keyword::REGEX => "REGEX"@,
        Keyword::REGION => "REGION"@,
        Keyword::REGISTRY => "REGISTRY"@,
        Keyword::RENAME => "RENAME"@,
        Keyword::REPEATABLE => "REPEATABLE"@,
        Keyword::REPLACE => "REPLACE"@,
        Keyword::REPLICA => "REPLICA"@,
        Keyword::REPLICAS => "REPLICAS"@,
        Keyword::REPLICATION => "REPLICATION"@,
        Keyword::RESET => "RESET"@,
        Keyword::RESTRICT => "RESTRICT"@,
        Keyword::RETENTION => "RETENTION"@,
        Keyword::RETURN => "RETURN"@,
        Keyword::RETURNING => "RETURNING"@,
        Keyword::REVOKE => "REVOKE"@,
        Keyword::RIGHT => "RIGHT"@,
        Keyword::ROLE => "ROLE"@,
        Keyword::ROLES => "ROLES"@,
        Keyword::ROLLBACK => "ROLLBACK"@,
        Keyword::ROTATE => "ROTATE"@,
        Keyword::ROW => "ROW"@,
        Keyword::ROWS => "ROWS"@,
        Keyword::SASL => "SASL"@,
        Keyword::SCALE => "SCALE"@,
        Keyword::SCHEMA => "SCHEMA"@,
        Keyword::SCHEMAS => "SCHEMAS"@,
        Keyword::SCRIPT => "SCRIPT"@,
        Keyword::SECOND => "SECOND"@,
        Keyword::SECONDS => "SECONDS"@,
        Keyword::SECRET => "SECRET"@,
        Keyword::SECRETS => "SECRETS"@,
        Keyword::SEED => "SEED"@,
        Keyword::SELECT => "SELECT"@,
        Keyword::SEQUENCES => "SEQUENCES"@,
        Keyword::SERIALIZABLE => "SERIALIZABLE"@,
        Keyword::SERVICE => "SERVICE"@,
        Keyword::SESSION => "SESSION"@,
        Keyword::SET => "SET"@,
        Keyword::SHOW => "SHOW"@,
        Keyword::SINK => "SINK"@,
        Keyword::SINKS => "SINKS"@,
        Keyword::SIZE => "SIZE"@,
        Keyword::SMALLINT => "SMALLINT"@,
        Keyword::SNAPSHOT => "SNAPSHOT"@,
        Keyword::SOME => "SOME"@,
        Keyword::SOURCE => "SOURCE"@,
        Keyword::SOURCES => "SOURCES"@,
        Keyword::SSH => "SSH"@,
        Keyword::SSL => "SSL"@,
        Keyword::START => "START"@,
        Keyword::STDIN => "STDIN"@,
        Keyword::STDOUT => "STDOUT"@,
        Keyword::STORAGE => "STORAGE"@,
        Keyword::STORAGECTL => "STORAGECTL"@,
        Keyword::STRATEGY => "STRATEGY"@,
        Keyword::STRICT => "STRICT"@,
        Keyword::STRING => "STRING"@,
        Keyword::SUBSCRIBE => "SUBSCRIBE"@,
        Keyword::SUBSOURCE => "SUBSOURCE"@,
        Keyword::SUBSTRING => "SUBSTRING"@,
        Keyword::SUPERUSER => "SUPERUSER"@,
        Keyword::SYSTEM => "SYSTEM"@,
        Keyword::TABLE => "TABLE"@,
        Keyword::TABLES => "TABLES"@,
        Keyword::TAIL => "TAIL"@,
        Keyword::TEMP => "TEMP"@,
        Keyword::TEMPORARY => "TEMPORARY"@,
        Keyword::TEST => "TEST"@,
        Keyword::TEXT => "TEXT"@,
        Keyword::THEN => "THEN"@,
        Keyword::TICK => "TICK"@,
        Keyword::TIES => "TIES"@,
        Keyword::TIME => "TIME"@,
        Keyword::TIMELINE => "TIMELINE"@,
        Keyword::TIMEOUT => "TIMEOUT"@,
        Keyword::TIMESTAMP => "TIMESTAMP"@,
        Keyword::TO => "TO"@,
        Keyword::TOKEN => "TOKEN"@,
        Keyword::TOPIC => "TOPIC"@,
        Keyword::TPCH => "TPCH"@,
        Keyword::TRACE => "TRACE"@,
        Keyword::TRAILING => "TRAILING"@,
        Keyword::TRANSACTION => "TRANSACTION"@,
        Keyword::TRIM => "TRIM"@,
        Keyword::TRUE => "TRUE"@,
        Keyword::TUNNEL => "TUNNEL"@,
        Keyword::TYPE => "TYPE"@,
        Keyword::TYPES => "TYPES"@,
        Keyword::UNBOUNDED => "UNBOUNDED"@,
        Keyword::UNCOMMITTED => "UNCOMMITTED"@,
        Keyword::UNION => "UNION"@,
        Keyword::UNIQUE => "UNIQUE"@,
        Keyword::UNKNOWN => "UNKNOWN"@,
        Keyword::UP => "UP"@,
        Keyword::UPDATE => "UPDATE"@,
        Keyword::UPSERT => "UPSERT"@,
        Keyword::URL => "URL"@,
        Keyword::USAGE => "USAGE"@,
        Keyword::USER => "USER"@,
        Keyword::USERNAME => "USERNAME"@,
        Keyword::USERS => "USERS"@,
        Keyword::USING => "USING"@,
        Keyword::VALUE => "VALUE"@,
        Keyword::VALUES => "VALUES"@,
        Keyword::VARCHAR => "VARCHAR"@,
        Keyword::VARYING => "VARYING"@,
        Keyword::VIEW => "VIEW"@,
        Keyword::VIEWS => "VIEWS"@,
        Keyword::WARNING => "WARNING"@,
        Keyword::WHEN => "WHEN"@,
        Keyword::WHERE => "WHERE"@,
        Keyword::WINDOW => "WINDOW"@,
        Keyword::WIRE => "WIRE"@,
        Keyword::WITH => "WITH"@,
        Keyword::WITHIN => "WITHIN"@,
        Keyword::WITHOUT => "WITHOUT"@,
        Keyword::WORK => "WORK"@,
        Keyword::WORKERS => "WORKERS"@,
        Keyword::WRITE => "WRITE"@,
        Keyword::YEAR => "YEAR"@,
        Keyword::YEARS => "YEARS"@,
        Keyword::ZONE => "ZONE"@,
        Keyword::ZONES => "ZONES"@,
    }
}

/// The identifier that a keyword stands for where no keyword is meant.
#[verifier::opaque]
pub open spec fn keyword_ident(k: Keyword) -> Seq<char> {
    lower(keyword_text(k))
}

/// The keyword that is written `s`, if one is; `s` is in uppercase.
#[verifier::opaque]
pub open spec fn keyword_of(s: Seq<char>) -> Option<Keyword> {
    if s == "ACCESS"@ {
        Some(Keyword::ACCESS)
    } else if s == "ACKS"@ {
        Some(Keyword::ACKS)
    } else if s == "ADDRESSES"@ {
        Some(Keyword::ADDRESSES)
    } else if s == "ALL"@ {
        Some(Keyword::ALL)
    } else if s == "ALTER"@ {
        Some(Keyword::ALTER)
    } else if s == "AND"@ {
        Some(Keyword::AND)
    } else if s == "ANY"@ {
        Some(Keyword::ANY)
    } else if s == "ARN"@ {
        Some(Keyword::ARN)
    } else if s == "ARRANGEMENT"@ {
        Some(Keyword::ARRANGEMENT)
    } else if s == "ARRAY"@ {
        Some(Keyword::ARRAY)
    } else if s == "AS"@ {
        Some(Keyword::AS)
    } else if s == "ASC"@ {
        Some(Keyword::ASC)
    } else if s == "AT"@ {
        Some(Keyword::AT)
    } else if s == "AUCTION"@ {
        Some(Keyword::AUCTION)
    } else if s == "AUTHORITY"@ {
        Some(Keyword::AUTHORITY)
    } else if s == "AVAILABILITY"@ {
        Some(Keyword::AVAILABILITY)
    } else if s == "AVRO"@ {
        Some(Keyword::AVRO)
    } else if s == "AWS"@ {
        Some(Keyword::AWS)
    } else if s == "BEGIN"@ {
        Some(Keyword::BEGIN)
    } else if s == "BETWEEN"@ {
        Some(Keyword::BETWEEN)
    } else if s == "BIGINT"@ {
        Some(Keyword::BIGINT)
    } else if s == "BOOLEAN"@ {
        Some(Keyword::BOOLEAN)
    } else if s == "BOTH"@ {
        Some(Keyword::BOTH)
    } else if s == "BPCHAR"@ {
        Some(Keyword::BPCHAR)
    } else if s == "BROKEN"@ {
        Some(Keyword::BROKEN)
    } else if s == "BROKER"@ {
        Some(Keyword::BROKER)
    } else if s == "BROKERS"@ {
        Some(Keyword::BROKERS)
    } else if s == "BY"@ {
        Some(Keyword::BY)
    } else if s == "BYTES"@ {
        Some(Keyword::BYTES)
    } else if s == "CARDINALITY"@ {
        Some(Keyword::CARDINALITY)
    } else if s == "CASCADE"@ {
        Some(Keyword::CASCADE)
    } else if s == "CASE"@ {
        Some(Keyword::CASE)
    } else if s == "CAST"@ {
        Some(Keyword::CAST)
    } else if s == "CERTIFICATE"@ {
        Some(Keyword::CERTIFICATE)
    } else if s == "CHAIN"@ {
        Some(Keyword::CHAIN)
    } else if s == "CHAR"@ {
        Some(Keyword::CHAR)
    } else if s == "CHARACTER"@ {
        Some(Keyword::CHARACTER)
    } else if s == "CHARACTERISTICS"@ {
        Some(Keyword::CHARACTERISTICS)
    } else if s == "CHECK"@ {
        Some(Keyword::CHECK)
    } else if s == "CLIENT"@ {
        Some(Keyword::CLIENT)
    } else if s == "CLOSE"@ {
        Some(Keyword::CLOSE)
    } else if s == "CLUSTER"@ {
        Some(Keyword::CLUSTER)
    } else if s == "CLUSTERS"@ {
        Some(Keyword::CLUSTERS)
    } else if s == "COALESCE"@ {
        Some(Keyword::COALESCE)
    } else if s == "COLLATE"@ {
        Some(Keyword::COLLATE)
    } else if s == "COLUMNS"@ {
        Some(Keyword::COLUMNS)
    } else if s == "COMMIT"@ {
        Some(Keyword::COMMIT)
    } else if s == "COMMITTED"@ {
        Some(Keyword::COMMITTED)
    } else if s == "COMPACTION"@ {
        Some(Keyword::COMPACTION)
    } else if s == "COMPUTE"@ {
        Some(Keyword::COMPUTE)
    } else if s == "COMPUTECTL"@ {
        Some(Keyword::COMPUTECTL)
    } else if s == "CONFLUENT"@ {
        Some(Keyword::CONFLUENT)
    } else if s == "CONNECTION"@ {
        Some(Keyword::CONNECTION)
    } else if s == "CONNECTIONS"@ {
        Some(Keyword::CONNECTIONS)
    } else if s == "CONSTRAINT"@ {
        Some(Keyword::CONSTRAINT)
    } else if s == "COPY"@ {
        Some(Keyword::COPY)
    } else if s == "COUNT"@ {
        Some(Keyword::COUNT)
    } else if s == "COUNTER"@ {
        Some(Keyword::COUNTER)
    } else if s == "CREATE"@ {
        Some(Keyword::CREATE)
    } else if s == "CREATECLUSTER"@ {
        Some(Keyword::CREATECLUSTER)
    } else if s == "CREATEDB"@ {
        Some(Keyword::CREATEDB)
    } else if s == "CREATEROLE"@ {
        Some(Keyword::CREATEROLE)
    } else if s == "CROSS"@ {
        Some(Keyword::CROSS)
    } else if s == "CSV"@ {
        Some(Keyword::CSV)
    } else if s == "CURRENT"@ {
        Some(Keyword::CURRENT)
    } else if s == "CURSOR"@ {
        Some(Keyword::CURSOR)
    } else if s == "DATABASE"@ {
        Some(Keyword::DATABASE)
    } else if s == "DATABASES"@ {
        Some(Keyword::DATABASES)
    } else if s == "DATUMS"@ {
        Some(Keyword::DATUMS)
    } else if s == "DAY"@ {
        Some(Keyword::DAY)
    } else if s == "DAYS"@ {
        Some(Keyword::DAYS)
    } else if s == "DEALLOCATE"@ {
        Some(Keyword::DEALLOCATE)
    } else if s == "DEBEZIUM"@ {
        Some(Keyword::DEBEZIUM)
    } else if s == "DEBUG"@ {
        Some(Keyword::DEBUG)
    } else if s == "DEBUGGING"@ {
        Some(Keyword::DEBUGGING)
    } else if s == "DEC"@ {
        Some(Keyword::DEC)
    } else if s == "DECIMAL"@ {
        Some(Keyword::DECIMAL)
    } else if s == "DECLARE"@ {
        Some(Keyword::DECLARE)
    } else if s == "DECORRELATED"@ {
        Some(Keyword::DECORRELATED)
    } else if s == "DEFAULT"@ {
        Some(Keyword::DEFAULT)
    } else if s == "DELETE"@ {
        Some(Keyword::DELETE)
    } else if s == "DELIMITED"@ {
        Some(Keyword::DELIMITED)
    } else if s == "DELIMITER"@ {
        Some(Keyword::DELIMITER)
    } else if s == "DESC"@ {
        Some(Keyword::DESC)
    } else if s == "DETAILS"@ {
        Some(Keyword::DETAILS)
    } else if s == "DISCARD"@ {
        Some(Keyword::DISCARD)
    } else if s == "DISK"@ {
        Some(Keyword::DISK)
    } else if s == "DISTINCT"@ {
        Some(Keyword::DISTINCT)
    } else if s == "DOT"@ {
        Some(Keyword::DOT)
    } else if s == "DOUBLE"@ {
        Some(Keyword::DOUBLE)
    } else if s == "DROP"@ {
        Some(Keyword::DROP)
    } else if s == "EFFORT"@ {
        Some(Keyword::EFFORT)
    } else if s == "ELEMENT"@ {
        Some(Keyword::ELEMENT)
    } else if s == "ELSE"@ {
        Some(Keyword::ELSE)
    } else if s == "ENABLE"@ {
        Some(Keyword::ENABLE)
    } else if s == "END"@ {
        Some(Keyword::END)
    } else if s == "ENDPOINT"@ {
        Some(Keyword::ENDPOINT)
    } else if s == "ENFORCED"@ {
        Some(Keyword::ENFORCED)
    } else if s == "ENVELOPE"@ {
        Some(Keyword::ENVELOPE)
    } else if s == "ERROR"@ {
        Some(Keyword::ERROR)
    } else if s == "ESCAPE"@ {
        Some(Keyword::ESCAPE)
    } else if s == "EXCEPT"@ {
        Some(Keyword::EXCEPT)
    } else if s == "EXECUTE"@ {
        Some(Keyword::EXECUTE)
    } else if s == "EXISTS"@ {
        Some(Keyword::EXISTS)
    } else if s == "EXPECTED"@ {
        Some(Keyword::EXPECTED)
    } else if s == "EXPLAIN"@ {
        Some(Keyword::EXPLAIN)
    } else if s == "EXPOSE"@ {
        Some(Keyword::EXPOSE)
    } else if s == "EXTRACT"@ {
        Some(Keyword::EXTRACT)
    } else if s == "FACTOR"@ {
        Some(Keyword::FACTOR)
    } else if s == "FALSE"@ {
        Some(Keyword::FALSE)
    } else if s == "FETCH"@ {
        Some(Keyword::FETCH)
    } else if s == "FIELDS"@ {
        Some(Keyword::FIELDS)
    } else if s == "FILTER"@ {
        Some(Keyword::FILTER)
    } else if s == "FIRST"@ {
        Some(Keyword::FIRST)
    } else if s == "FLOAT"@ {
        Some(Keyword::FLOAT)
    } else if s == "FOLLOWING"@ {
        Some(Keyword::FOLLOWING)
    } else if s == "FOR"@ {
        Some(Keyword::FOR)
    } else if s == "FOREIGN"@ {
        Some(Keyword::FOREIGN)
    } else if s == "FORMAT"@ {
        Some(Keyword::FORMAT)
    } else if s == "FORWARD"@ {
        Some(Keyword::FORWARD)
    } else if s == "FROM"@ {
        Some(Keyword::FROM)
    } else if s == "FULL"@ {
        Some(Keyword::FULL)
    } else if s == "FULLNAME"@ {
        Some(Keyword::FULLNAME)
    } else if s == "FUNCTION"@ {
        Some(Keyword::FUNCTION)
    } else if s == "GENERATOR"@ {
        Some(Keyword::GENERATOR)
    } else if s == "GRANT"@ {
        Some(Keyword::GRANT)
    } else if s == "GREATEST"@ {
        Some(Keyword::GREATEST)
    } else if s == "GROUP"@ {
        Some(Keyword::GROUP)
    } else if s == "GROUPS"@ {
        Some(Keyword::GROUPS)
    } else if s == "HAVING"@ {
        Some(Keyword::HAVING)
    } else if s == "HEADER"@ {
        Some(Keyword::HEADER)
    } else if s == "HEADERS"@ {
        Some(Keyword::HEADERS)
    } else if s == "HOLD"@ {
        Some(Keyword::HOLD)
    } else if s == "HOST"@ {
        Some(Keyword::HOST)
    } else if s == "HOUR"@ {
        Some(Keyword::HOUR)
    } else if s == "HOURS"@ {
        Some(Keyword::HOURS)
    } else if s == "ID"@ {
        Some(Keyword::ID)
    } else if s == "IDEMPOTENCE"@ {
        Some(Keyword::IDEMPOTENCE)
    } else if s == "IDLE"@ {
        Some(Keyword::IDLE)
    } else if s == "IF"@ {
        Some(Keyword::IF)
    } else if s == "IGNORE"@ {
        Some(Keyword::IGNORE)
    } else if s == "ILIKE"@ {
        Some(Keyword::ILIKE)
    } else if s == "IN"@ {
        Some(Keyword::IN)
    } else if s == "INCLUDE"@ {
        Some(Keyword::INCLUDE)
    } else if s == "INDEX"@ {
        Some(Keyword::INDEX)
    } else if s == "INDEXES"@ {
        Some(Keyword::INDEXES)
    } else if s == "INFO"@ {
        Some(Keyword::INFO)
    } else if s == "INHERIT"@ {
        Some(Keyword::INHERIT)
    } else if s == "INLINE"@ {
        Some(Keyword::INLINE)
    } else if s == "INNER"@ {
        Some(Keyword::INNER)
    } else if s == "INSERT"@ {
        Some(Keyword::INSERT)
    } else if s == "INT"@ {
        Some(Keyword::INT)
    } else if s == "INTEGER"@ {
        Some(Keyword::INTEGER)
    } else if s == "INTERSECT"@ {
        Some(Keyword::INTERSECT)
    } else if s == "INTERVAL"@ {
        Some(Keyword::INTERVAL)
    } else if s == "INTO"@ {
        Some(Keyword::INTO)
    } else if s == "INTROSPECTION"@ {
        Some(Keyword::INTROSPECTION)
    } else if s == "IS"@ {
        Some(Keyword::IS)
    } else if s == "ISNULL"@ {
        Some(Keyword::ISNULL)
    } else if s == "ISOLATION"@ {
        Some(Keyword::ISOLATION)
    } else if s == "JOIN"@ {
        Some(Keyword::JOIN)
    } else if s == "JSON"@ {
        Some(Keyword::JSON)
    } else if s == "KAFKA"@ {
        Some(Keyword::KAFKA)
    } else if s == "KEY"@ {
        Some(Keyword::KEY)
    } else if s == "KEYS"@ {
        Some(Keyword::KEYS)
    } else if s == "LAST"@ {
        Some(Keyword::LAST)
    } else if s == "LATERAL"@ {
        Some(Keyword::LATERAL)
    } else if s == "LATEST"@ {
        Some(Keyword::LATEST)
    } else if s == "LEADING"@ {
        Some(Keyword::LEADING)
    } else if s == "LEAST"@ {
        Some(Keyword::LEAST)
    } else if s == "LEFT"@ {
        Some(Keyword::LEFT)
    } else if s == "LEVEL"@ {
        Some(Keyword::LEVEL)
    } else if s == "LIKE"@ {
        Some(Keyword::LIKE)
    } else if s == "LIMIT"@ {
        Some(Keyword::LIMIT)
    } else if s == "LIST"@ {
        Some(Keyword::LIST)
    } else if s == "LOAD"@ {
        Some(Keyword::LOAD)
    } else if s == "LOCAL"@ {
        Some(Keyword::LOCAL)
    } else if s == "LOG"@ {
        Some(Keyword::LOG)
    } else if s == "LOGICAL"@ {
        Some(Keyword::LOGICAL)
    } else if s == "LOGIN"@ {
        Some(Keyword::LOGIN)
    } else if s == "MAP"@ {
        Some(Keyword::MAP)
    } else if s == "MARKETING"@ {
        Some(Keyword::MARKETING)
    } else if s == "MATERIALIZE"@ {
        Some(Keyword::MATERIALIZE)
    } else if s == "MATERIALIZED"@ {
        Some(Keyword::MATERIALIZED)
    } else if s == "MAX"@ {
        Some(Keyword::MAX)
    } else if s == "MECHANISMS"@ {
        Some(Keyword::MECHANISMS)
    } else if s == "MERGE"@ {
        Some(Keyword::MERGE)
    } else if s == "MESSAGE"@ {
        Some(Keyword::MESSAGE)
    } else if s == "METADATA"@ {
        Some(Keyword::METADATA)
    } else if s == "MINUTE"@ {
        Some(Keyword::MINUTE)
    } else if s == "MINUTES"@ {
        Some(Keyword::MINUTES)
    } else if s == "MODE"@ {
        Some(Keyword::MODE)
    } else if s == "MONTH"@ {
        Some(Keyword::MONTH)
    } else if s == "MONTHS"@ {
        Some(Keyword::MONTHS)
    } else if s == "MS"@ {
        Some(Keyword::MS)
    } else if s == "MUTUALLY"@ {
        Some(Keyword::MUTUALLY)
    } else if s == "NAME"@ {
        Some(Keyword::NAME)
    } else if s == "NAMES"@ {
        Some(Keyword::NAMES)
    } else if s == "NATURAL"@ {
        Some(Keyword::NATURAL)
    } else if s == "NEXT"@ {
        Some(Keyword::NEXT)
    } else if s == "NO"@ {
        Some(Keyword::NO)
    } else if s == "NOCREATECLUSTER"@ {
        Some(Keyword::NOCREATECLUSTER)
    } else if s == "NOCREATEDB"@ {
        Some(Keyword::NOCREATEDB)
    } else if s == "NOCREATEROLE"@ {
        Some(Keyword::NOCREATEROLE)
    } else if s == "NOINHERIT"@ {
        Some(Keyword::NOINHERIT)
    } else if s == "NOLOGIN"@ {
        Some(Keyword::NOLOGIN)
    } else if s == "NONE"@ {
        Some(Keyword::NONE)
    } else if s == "NOSUPERUSER"@ {
        Some(Keyword::NOSUPERUSER)
    } else if s == "NOT"@ {
        Some(Keyword::NOT)
    } else if s == "NOTICE"@ {
        Some(Keyword::NOTICE)
    } else if s == "NULL"@ {
        Some(Keyword::NULL)
    } else if s == "NULLIF"@ {
        Some(Keyword::NULLIF)
    } else if s == "NULLS"@ {
        Some(Keyword::NULLS)
    } else if s == "OBJECTS"@ {
        Some(Keyword::OBJECTS)
    } else if s == "OF"@ {
        Some(Keyword::OF)
    } else if s == "OFFSET"@ {
        Some(Keyword::OFFSET)
    } else if s == "ON"@ {
        Some(Keyword::ON)
    } else if s == "ONLY"@ {
        Some(Keyword::ONLY)
    } else if s == "OPERATOR"@ {
        Some(Keyword::OPERATOR)
    } else if s == "OPTIMIZED"@ {
        Some(Keyword::OPTIMIZED)
    } else if s == "OPTIMIZER"@ {
        Some(Keyword::OPTIMIZER)
    } else if s == "OPTIONS"@ {
        Some(Keyword::OPTIONS)
    } else if s == "OR"@ {
        Some(Keyword::OR)
    } else if s == "ORDER"@ {
        Some(Keyword::ORDER)
    } else if s == "ORDINALITY"@ {
        Some(Keyword::ORDINALITY)
    } else if s == "OUTER"@ {
        Some(Keyword::OUTER)
    } else if s == "OVER"@ {
        Some(Keyword::OVER)
    } else if s == "OWNED"@ {
        Some(Keyword::OWNED)
    } else if s == "OWNER"@ {
        Some(Keyword::OWNER)
    } else if s == "PARTITION"@ {
        Some(Keyword::PARTITION)
    } else if s == "PASSWORD"@ {
        Some(Keyword::PASSWORD)
    } else if s == "PHYSICAL"@ {
        Some(Keyword::PHYSICAL)
    } else if s == "PLAN"@ {
        Some(Keyword::PLAN)
    } else if s == "PLANS"@ {
        Some(Keyword::PLANS)
    } else if s == "PORT"@ {
        Some(Keyword::PORT)
    } else if s == "POSITION"@ {
        Some(Keyword::POSITION)
    } else if s == "POSTGRES"@ {
        Some(Keyword::POSTGRES)
    } else if s == "PRECEDING"@ {
        Some(Keyword::PRECEDING)
    } else if s == "PRECISION"@ {
        Some(Keyword::PRECISION)
    } else if s == "PREFIX"@ {
        Some(Keyword::PREFIX)
    } else if s == "PREPARE"@ {
        Some(Keyword::PREPARE)
    } else if s == "PRIMARY"@ {
        Some(Keyword::PRIMARY)
    } else if s == "PRIVATELINK"@ {
        Some(Keyword::PRIVATELINK)
    } else if s == "PRIVILEGES"@ {
        Some(Keyword::PRIVILEGES)
    } else if s == "PROGRESS"@ {
        Some(Keyword::PROGRESS)
    } else if s == "PROTOBUF"@ {
        Some(Keyword::PROTOBUF)
    } else if s == "PUBLICATION"@ {
        Some(Keyword::PUBLICATION)
    } else if s == "QUERY"@ {
        Some(Keyword::QUERY)
    } else if s == "QUOTE"@ {
        Some(Keyword::QUOTE)
    } else if s == "RAISE"@ {
        Some(Keyword::RAISE)
    } else if s == "RANGE"@ {
        Some(Keyword::RANGE)
    } else if s == "RAW"@ {
        Some(Keyword::RAW)
    } else if s == "READ"@ {
        Some(Keyword::READ)
    } else if s == "REAL"@ {
        Some(Keyword::REAL)
    } else if s == "REASSIGN"@ {
        Some(Keyword::REASSIGN)
    } else if s == "RECURSION"@ {
        Some(Keyword::RECURSION)
    } else if s == "RECURSIVE"@ {
        Some(Keyword::RECURSIVE)
    } else if s == "REFERENCES"@ {
        Some(Keyword::REFERENCES)
    } else if s == "REFRESH"@ {
        Some(Keyword::REFRESH)
    } else if s == "REGEX"@ {
        Some(Keyword::REGEX)
    } else if s == "REGION"@ {
        Some(Keyword::REGION)
    } else if s == "REGISTRY"@ {
        Some(Keyword::REGISTRY)
    } else if s == "RENAME"@ {
        Some(Keyword::RENAME)
    } else if s == "REPEATABLE"@ {
        Some(Keyword::REPEATABLE)
    } else if s == "REPLACE"@ {
        Some(Keyword::REPLACE)
    } else if s == "REPLICA"@ {
        Some(Keyword::REPLICA)
    } else if s == "REPLICAS"@ {
        Some(Keyword::REPLICAS)
    } else if s == "REPLICATION"@ {
        Some(Keyword::REPLICATION)
    } else if s == "RESET"@ {
        Some(Keyword::RESET)
    } else if s == "RESTRICT"@ {
        Some(Keyword::RESTRICT)
    } else if s == "RETENTION"@ {
        Some(Keyword::RETENTION)
    } else if s == "RETURN"@ {
        Some(Keyword::RETURN)
    } else if s == "RETURNING"@ {
        Some(Keyword::RETURNING)
    } else if s == "REVOKE"@ {
        Some(Keyword::REVOKE)
    } else if s == "RIGHT"@ {
        Some(Keyword::RIGHT)
    } else if s == "ROLE"@ {
        Some(Keyword::ROLE)
    } else if s == "ROLES"@ {
        Some(Keyword::ROLES)
    } else if s == "ROLLBACK"@ {
        Some(Keyword::ROLLBACK)
    } else if s == "ROTATE"@ {
        Some(Keyword::ROTATE)
    } else if s == "ROW"@ {
        Some(Keyword::ROW)
    } else if s == "ROWS"@ {
        Some(Keyword::ROWS)
    } else if s == "SASL"@ {
        Some(Keyword::SASL)
    } else if s == "SCALE"@ {
        Some(Keyword::SCALE)
    } else if s == "SCHEMA"@ {
        Some(Keyword::SCHEMA)
    } else if s == "SCHEMAS"@ {
        Some(Keyword::SCHEMAS)
    } else if s == "SCRIPT"@ {
        Some(Keyword::SCRIPT)
    } else if s == "SECOND"@ {
        Some(Keyword::SECOND)
    } else if s == "SECONDS"@ {
        Some(Keyword::SECONDS)
    } else if s == "SECRET"@ {
        Some(Keyword::SECRET)
    } else if s == "SECRETS"@ {
        Some(Keyword::SECRETS)
    } else if s == "SEED"@ {
        Some(Keyword::SEED)
    } else if s == "SELECT"@ {
        Some(Keyword::SELECT)
    } else if s == "SEQUENCES"@ {
        Some(Keyword::SEQUENCES)
    } else if s == "SERIALIZABLE"@ {
        Some(Keyword::SERIALIZABLE)
    } else if s == "SERVICE"@ {
        Some(Keyword::SERVICE)
    } else if s == "SESSION"@ {
        Some(Keyword::SESSION)
    } else if s == "SET"@ {
        Some(Keyword::SET)
    } else if s == "SHOW"@ {
        Some(Keyword::SHOW)
    } else if s == "SINK"@ {
        Some(Keyword::SINK)
    } else if s == "SINKS"@ {
        Some(Keyword::SINKS)
    } else if s == "SIZE"@ {
        Some(Keyword::SIZE)
    } else if s == "SMALLINT"@ {
        Some(Keyword::SMALLINT)
    } else if s == "SNAPSHOT"@ {
        Some(Keyword::SNAPSHOT)
    } else if s == "SOME"@ {
        Some(Keyword::SOME)
    } else if s == "SOURCE"@ {
        Some(Keyword::SOURCE)
    } else if s == "SOURCES"@ {
        Some(Keyword::SOURCES)
    } else if s == "SSH"@ {
        Some(Keyword::SSH)
    } else if s == "SSL"@ {
        Some(Keyword::SSL)
    } else if s == "START"@ {
        Some(Keyword::START)
    } else if s == "STDIN"@ {
        Some(Keyword::STDIN)
    } else if s == "STDOUT"@ {
        Some(Keyword::STDOUT)
    } else if s == "STORAGE"@ {
        Some(Keyword::STORAGE)
    } else if s == "STORAGECTL"@ {
        Some(Keyword::STORAGECTL)
    } else if s == "STRATEGY"@ {
        Some(Keyword::STRATEGY)
    } else if s == "STRICT"@ {
        Some(Keyword::STRICT)
    } else if s == "STRING"@ {
        Some(Keyword::STRING)
    } else if s == "SUBSCRIBE"@ {
        Some(Keyword::SUBSCRIBE)
    } else if s == "SUBSOURCE"@ {
        Some(Keyword::SUBSOURCE)
    } else if s == "SUBSTRING"@ {
        Some(Keyword::SUBSTRING)
    } else if s == "SUPERUSER"@ {
        Some(Keyword::SUPERUSER)
    } else if s == "SYSTEM"@ {
        Some(Keyword::SYSTEM)
    } else if s == "TABLE"@ {
        Some(Keyword::TABLE)
    } else if s == "TABLES"@ {
        Some(Keyword::TABLES)
    } else if s == "TAIL"@ {
        Some(Keyword::TAIL)
    } else if s == "TEMP"@ {
        Some(Keyword::TEMP)
    } else if s == "TEMPORARY"@ {
        Some(Keyword::TEMPORARY)
    } else if s == "TEST"@ {
        Some(Keyword::TEST)
    } else if s == "TEXT"@ {
        Some(Keyword::TEXT)
    } else if s == "THEN"@ {
        Some(Keyword::THEN)
    } else if s == "TICK"@ {
        Some(Keyword::TICK)
    } else if s == "TIES"@ {
        Some(Keyword::TIES)
    } else if s == "TIME"@ {
        Some(Keyword::TIME)
    } else if s == "TIMELINE"@ {
        Some(Keyword::TIMELINE)
    } else if s == "TIMEOUT"@ {
        Some(Keyword::TIMEOUT)
    } else if s == "TIMESTAMP"@ {
        Some(Keyword::TIMESTAMP)
    } else if s == "TO"@ {
        Some(Keyword::TO)
    } else if s == "TOKEN"@ {
        Some(Keyword::TOKEN)
    } else if s == "TOPIC"@ {
        Some(Keyword::TOPIC)
    } else if s == "TPCH"@ {
        Some(Keyword::TPCH)
    } else if s == "TRACE"@ {
        Some(Keyword::TRACE)
    } else if s == "TRAILING"@ {
        Some(Keyword::TRAILING)
    } else if s == "TRANSACTION"@ {
        Some(Keyword::TRANSACTION)
    } else if s == "TRIM"@ {
        Some(Keyword::TRIM)
    } else if s == "TRUE"@ {
        Some(Keyword::TRUE)
    } else if s == "TUNNEL"@ {
        Some(Keyword::TUNNEL)
    } else if s == "TYPE"@ {
        Some(Keyword::TYPE)
    } else if s == "TYPES"@ {
        Some(Keyword::TYPES)
    } else if s == "UNBOUNDED"@ {
        Some(Keyword::UNBOUNDED)
    } else if s == "UNCOMMITTED"@ {
        Some(Keyword::UNCOMMITTED)
    } else if s == "UNION"@ {
        Some(Keyword::UNION)
    } else if s == "UNIQUE"@ {
        Some(Keyword::UNIQUE)
    } else if s == "UNKNOWN"@ {
        Some(Keyword::UNKNOWN)
    } else if s == "UP"@ {
        Some(Keyword::UP)
    } else if s == "UPDATE"@ {
        Some(Keyword::UPDATE)
    } else if s == "UPSERT"@ {
        Some(Keyword::UPSERT)
    } else if s == "URL"@ {
        Some(Keyword::URL)
    } else if s == "USAGE"@ {
        Some(Keyword::USAGE)
    } else if s == "USER"@ {
        Some(Keyword::USER)
    } else if s == "USERNAME"@ {
        Some(Keyword::USERNAME)
    } else if s == "USERS"@ {
        Some(Keyword::USERS)
    } else if s == "USING"@ {
        Some(Keyword::USING)
    } else if s == "VALUE"@ {
        Some(Keyword::VALUE)
    } else if s == "VALUES"@ {
        Some(Keyword::VALUES)
    } else if s == "VARCHAR"@ {
        Some(Keyword::VARCHAR)
    } else if s == "VARYING"@ {
        Some(Keyword::VARYING)
    } else if s == "VIEW"@ {
        Some(Keyword::VIEW)
    } else if s == "VIEWS"@ {
        Some(Keyword::VIEWS)
    } else if s == "WARNING"@ {
        Some(Keyword::WARNING)
    } else if s == "WHEN"@ {
        Some(Keyword::WHEN)
    } else if s == "WHERE"@ {
        Some(Keyword::WHERE)
    } else if s == "WINDOW"@ {
        Some(Keyword::WINDOW)
    } else if s == "WIRE"@ {
        Some(Keyword::WIRE)
    } else if s == "WITH"@ {
        Some(Keyword::WITH)
    } else if s == "WITHIN"@ {
        Some(Keyword::WITHIN)
    } else if s == "WITHOUT"@ {
        Some(Keyword::WITHOUT)
    } else if s == "WORK"@ {
        Some(Keyword::WORK)
    } else if s == "WORKERS"@ {
        Some(Keyword::WORKERS)
    } else if s == "WRITE"@ {
        Some(Keyword::WRITE)
    } else if s == "YEAR"@ {
        Some(Keyword::YEAR)
    } else if s == "YEARS"@ {
        Some(Keyword::YEARS)
    } else if s == "ZONE"@ {
        Some(Keyword::ZONE)
    } else if s == "ZONES"@ {
        Some(Keyword::ZONES)
    } else {
        None
    }
}

/// Whether a keyword can never be an identifier without quotes.
#[verifier::opaque]
pub open spec fn is_reserved_spec(k: Keyword) -> bool {
    match k {
        Keyword::WITH
        | Keyword::SELECT
        | Keyword::FROM
        | Keyword::WHERE
        | Keyword::GROUP
        | Keyword::HAVING
        | Keyword::ORDER
        | Keyword::LIMIT
        | Keyword::OFFSET
        | Keyword::FETCH
        | Keyword::OPTIONS
        | Keyword::RETURNING
        | Keyword::UNION
        | Keyword::EXCEPT
        | Keyword::INTERSECT => true,
        _ => false,
    }
}

/// Whether a keyword cannot be a column alias without `AS`.
#[verifier::opaque]
pub open spec fn is_reserved_in_column_alias_spec(k: Keyword) -> bool {
    match k {
        Keyword::WITH
        | Keyword::SELECT
        | Keyword::FROM
        | Keyword::WHERE
        | Keyword::GROUP
        | Keyword::HAVING
        | Keyword::ORDER
        | Keyword::LIMIT
        | Keyword::OFFSET
        | Keyword::FETCH
        | Keyword::OPTIONS
        | Keyword::RETURNING
        | Keyword::UNION
        | Keyword::EXCEPT
        | Keyword::INTERSECT
        | Keyword::YEAR
        | Keyword::MONTH
        | Keyword::DAY
        | Keyword::HOUR
        | Keyword::MINUTE
        | Keyword::SECOND
        | Keyword::YEARS
        | Keyword::MONTHS
        | Keyword::DAYS
        | Keyword::HOURS
        | Keyword::MINUTES
        | Keyword::SECONDS => true,
        _ => false,
    }
}

/// Whether a keyword cannot be a table alias without `AS`.
#[verifier::opaque]
pub open spec fn is_reserved_in_table_alias_spec(k: Keyword) -> bool {
    match k {
        Keyword::WITH
        | Keyword::SELECT
        | Keyword::FROM
        | Keyword::WHERE
        | Keyword::GROUP
        | Keyword::HAVING
        | Keyword::ORDER
        | Keyword::LIMIT
        | Keyword::OFFSET
        | Keyword::FETCH
        | Keyword::OPTIONS
        | Keyword::RETURNING
        | Keyword::UNION
        | Keyword::EXCEPT
        | Keyword::INTERSECT
        | Keyword::ON
        | Keyword::JOIN
        | Keyword::INNER
        | Keyword::CROSS
        | Keyword::FULL
        | Keyword::LEFT
        | Keyword::RIGHT
        | Keyword::NATURAL
        | Keyword::USING
        | Keyword::SET
        | Keyword::OUTER => true,
        _ => false,
    }
}

impl Keyword {
    /// How the keyword is written.
    pub fn as_str(&self) -> (r: &'static str)
        ensures
            r@ == keyword_text(*self),
    {
        proof {
            reveal(keyword_text);
        }
        match self {
            Keyword::ACCESS => "ACCESS",
            Keyword::ACKS => "ACKS",
            Keyword::ADDRESSES => "ADDRESSES",
            Keyword::ALL => "ALL",
            Keyword::ALTER => "ALTER",
            Keyword::AND => "AND",
            Keyword::ANY => "ANY",
            Keyword::ARN => "ARN",
            Keyword::ARRANGEMENT => "ARRANGEMENT",
            Keyword::ARRAY => "ARRAY",
            Keyword::AS => "AS",
            Keyword::ASC => "ASC",
            Keyword::AT => "AT",
            Keyword::AUCTION => "AUCTION",
            Keyword::AUTHORITY => "AUTHORITY",
            Keyword::AVAILABILITY => "AVAILABILITY",
            Keyword::AVRO => "AVRO",
            Keyword::AWS => "AWS",
            Keyword::BEGIN => "BEGIN",
            Keyword::BETWEEN => "BETWEEN",
            Keyword::BIGINT => "BIGINT",
            Keyword::BOOLEAN => "BOOLEAN",
            Keyword::BOTH => "BOTH",
            Keyword::BPCHAR => "BPCHAR",
            Keyword::BROKEN => "BROKEN",
            Keyword::BROKER => "BROKER",
            Keyword::BROKERS => "BROKERS",
            Keyword::BY => "BY",
            Keyword::BYTES => "BYTES",
            Keyword::CARDINALITY => "CARDINALITY",
            Keyword::CASCADE => "CASCADE",
            Keyword::CASE => "CASE",
            Keyword::CAST => "CAST",
            Keyword::CERTIFICATE => "CERTIFICATE",
            Keyword::CHAIN => "CHAIN",
            Keyword::CHAR => "CHAR",
            Keyword::CHARACTER => "CHARACTER",
            Keyword::CHARACTERISTICS => "CHARACTERISTICS",
            Keyword::CHECK => "CHECK",
            Keyword::CLIENT => "CLIENT",
            Keyword::CLOSE => "CLOSE",
            Keyword::CLUSTER => "CLUSTER",
            Keyword::CLUSTERS => "CLUSTERS",
            Keyword::COALESCE => "COALESCE",
            Keyword::COLLATE => "COLLATE",
            Keyword::COLUMNS => "COLUMNS",
            Keyword::COMMIT => "COMMIT",
            Keyword::COMMITTED => "COMMITTED",
            Keyword::COMPACTION => "COMPACTION",
            Keyword::COMPUTE => "COMPUTE",
            Keyword::COMPUTECTL => "COMPUTECTL",
            Keyword::CONFLUENT => "CONFLUENT",
            Keyword::CONNECTION => "CONNECTION",
            Keyword::CONNECTIONS => "CONNECTIONS",
            Keyword::CONSTRAINT => "CONSTRAINT",
            Keyword::COPY => "COPY",
            Keyword::COUNT => "COUNT",
            Keyword::COUNTER => "COUNTER",
            Keyword::CREATE => "CREATE",
            Keyword::CREATECLUSTER => "CREATECLUSTER",
            Keyword::CREATEDB => "CREATEDB",
            Keyword::CREATEROLE => "CREATEROLE",
            Keyword::CROSS => "CROSS",
            Keyword::CSV => "CSV",
            Keyword::CURRENT => "CURRENT",
            Keyword::CURSOR => "CURSOR",
            Keyword::DATABASE => "DATABASE",
            Keyword::DATABASES => "DATABASES",
            Keyword::DATUMS => "DATUMS",
            Keyword::DAY => "DAY",
            Keyword::DAYS => "DAYS",
            Keyword::DEALLOCATE => "DEALLOCATE",
            Keyword::DEBEZIUM => "DEBEZIUM",
            Keyword::DEBUG => "DEBUG",
            Keyword::DEBUGGING => "DEBUGGING",
            Keyword::DEC => "DEC",
            Keyword::DECIMAL => "DECIMAL",
            Keyword::DECLARE => "DECLARE",
            Keyword::DECORRELATED => "DECORRELATED",
            Keyword::DEFAULT => "DEFAULT",
            Keyword::DELETE => "DELETE",
            Keyword::DELIMITED => "DELIMITED",
            Keyword::DELIMITER => "DELIMITER",
            Keyword::DESC => "DESC",
            Keyword::DETAILS => "DETAILS",
            Keyword::DISCARD => "DISCARD",
            Keyword::DISK => "DISK",
            Keyword::DISTINCT => "DISTINCT",
            Keyword::DOT => "DOT",
            Keyword::DOUBLE => "DOUBLE",
            Keyword::DROP => "DROP",
            Keyword::EFFORT => "EFFORT",
            Keyword::ELEMENT => "ELEMENT",
            Keyword::ELSE => "ELSE",
            Keyword::ENABLE => "ENABLE",
            Keyword::END => "END",
            Keyword::ENDPOINT => "ENDPOINT",
            Keyword::ENFORCED => "ENFORCED",
            Keyword::ENVELOPE => "ENVELOPE",
            Keyword::ERROR => "ERROR",
            Keyword::ESCAPE => "ESCAPE",
            Keyword::EXCEPT => "EXCEPT",
            Keyword::EXECUTE => "EXECUTE",
            Keyword::EXISTS => "EXISTS",
            Keyword::EXPECTED => "EXPECTED",
            Keyword::EXPLAIN => "EXPLAIN",
            Keyword::EXPOSE => "EXPOSE",
            Keyword::EXTRACT => "EXTRACT",
            Keyword::FACTOR => "FACTOR",
            Keyword::FALSE => "FALSE",
            Keyword::FETCH => "FETCH",
            Keyword::FIELDS => "FIELDS",
            Keyword::FILTER => "FILTER",
            Keyword::FIRST => "FIRST",
            Keyword::FLOAT => "FLOAT",
            Keyword::FOLLOWING => "FOLLOWING",
            Keyword::FOR => "FOR",
            Keyword::FOREIGN => "FOREIGN",
            Keyword::FORMAT => "FORMAT",
            Keyword::FORWARD => "FORWARD",
            Keyword::FROM => "FROM",
            Keyword::FULL => "FULL",
            Keyword::FULLNAME => "FULLNAME",
            Keyword::FUNCTION => "FUNCTION",
            Keyword::GENERATOR => "GENERATOR",
            Keyword::GRANT => "GRANT",
            Keyword::GREATEST => "GREATEST",
            Keyword::GROUP => "GROUP",
            Keyword::GROUPS => "GROUPS",
            Keyword::HAVING => "HAVING",
            Keyword::HEADER => "HEADER",
            Keyword::HEADERS => "HEADERS",
            Keyword::HOLD => "HOLD",
            Keyword::HOST => "HOST",
            Keyword::HOUR => "HOUR",
            Keyword::HOURS => "HOURS",
            Keyword::ID => "ID",
            Keyword::IDEMPOTENCE => "IDEMPOTENCE",
            Keyword::IDLE => "IDLE",
            Keyword::IF => "IF",
            Keyword::IGNORE => "IGNORE",
            Keyword::ILIKE => "ILIKE",
            Keyword::IN => "IN",
            Keyword::INCLUDE => "INCLUDE",
            Keyword::INDEX => "INDEX",
            Keyword::INDEXES => "INDEXES",
            Keyword::INFO => "INFO",
            Keyword::INHERIT => "INHERIT",
            Keyword::INLINE => "INLINE",
            Keyword::INNER => "INNER",
            Keyword::INSERT => "INSERT",
            Keyword::INT => "INT",
            Keyword::INTEGER => "INTEGER",
            Keyword::INTERSECT => "INTERSECT",
            Keyword::INTERVAL => "INTERVAL",
            Keyword::INTO => "INTO",
            Keyword::INTROSPECTION => "INTROSPECTION",
            Keyword::IS => "IS",
            Keyword::ISNULL => "ISNULL",
            Keyword::ISOLATION => "ISOLATION",
            Keyword::JOIN => "JOIN",
            Keyword::JSON => "JSON",
            Keyword::KAFKA => "KAFKA",
            Keyword::KEY => "KEY",
            Keyword::KEYS => "KEYS",
            Keyword::LAST => "LAST",
            Keyword::LATERAL => "LATERAL",
            Keyword::LATEST => "LATEST",
            Keyword::LEADING => "LEADING",
            Keyword::LEAST => "LEAST",
            Keyword::LEFT => "LEFT",
            Keyword::LEVEL => "LEVEL",
            Keyword::LIKE => "LIKE",
            Keyword::LIMIT => "LIMIT",
            Keyword::LIST => "LIST",
            Keyword::LOAD => "LOAD",
            Keyword::LOCAL => "LOCAL",
            Keyword::LOG => "LOG",
            Keyword::LOGICAL => "LOGICAL",
            Keyword::LOGIN => "LOGIN",
            Keyword::MAP => "MAP",
            Keyword::MARKETING => "MARKETING",
            Keyword::MATERIALIZE => "MATERIALIZE",
            Keyword::MATERIALIZED => "MATERIALIZED",
            Keyword::MAX => "MAX",
            Keyword::MECHANISMS => "MECHANISMS",
            Keyword::MERGE => "MERGE",
            Keyword::MESSAGE => "MESSAGE",
            Keyword::METADATA => "METADATA",
            Keyword::MINUTE => "MINUTE",
            Keyword::MINUTES => "MINUTES",
            Keyword::MODE => "MODE",
            Keyword::MONTH => "MONTH",
            Keyword::MONTHS => "MONTHS",
            Keyword::MS => "MS",
            Keyword::MUTUALLY => "MUTUALLY",
            Keyword::NAME => "NAME",
            Keyword::NAMES => "NAMES",
            Keyword::NATURAL => "NATURAL",
            Keyword::NEXT => "NEXT",
            Keyword::NO => "NO",
            Keyword::NOCREATECLUSTER => "NOCREATECLUSTER",
            Keyword::NOCREATEDB => "NOCREATEDB",
            Keyword::NOCREATEROLE => "NOCREATEROLE",
            Keyword::NOINHERIT => "NOINHERIT",
            Keyword::NOLOGIN => "NOLOGIN",
            Keyword::NONE => "NONE",
            Keyword::NOSUPERUSER => "NOSUPERUSER",
            Keyword::NOT => "NOT",
            Keyword::NOTICE => "NOTICE",
            Keyword::NULL => "NULL",
            Keyword::NULLIF => "NULLIF",
            Keyword::NULLS => "NULLS",
            Keyword::OBJECTS => "OBJECTS",
            Keyword::OF => "OF",
            Keyword::OFFSET => "OFFSET",
            Keyword::ON => "ON",
            Keyword::ONLY => "ONLY",
            Keyword::OPERATOR => "OPERATOR",
            Keyword::OPTIMIZED => "OPTIMIZED",
            Keyword::OPTIMIZER => "OPTIMIZER",
            Keyword::OPTIONS => "OPTIONS",
            Keyword::OR => "OR",
            Keyword::ORDER => "ORDER",
            Keyword::ORDINALITY => "ORDINALITY",
            Keyword::OUTER => "OUTER",
            Keyword::OVER => "OVER",
            Keyword::OWNED => "OWNED",
            Keyword::OWNER => "OWNER",
            Keyword::PARTITION => "PARTITION",
            Keyword::PASSWORD => "PASSWORD",
            Keyword::PHYSICAL => "PHYSICAL",
            Keyword::PLAN => "PLAN",
            Keyword::PLANS => "PLANS",
            Keyword::PORT => "PORT",
            Keyword::POSITION => "POSITION",
            Keyword::POSTGRES => "POSTGRES",
            Keyword::PRECEDING => "PRECEDING",
            Keyword::PRECISION => "PRECISION",
            Keyword::PREFIX => "PREFIX",
            Keyword::PREPARE => "PREPARE",
            Keyword::PRIMARY => "PRIMARY",
            Keyword::PRIVATELINK => "PRIVATELINK",
            Keyword::PRIVILEGES => "PRIVILEGES",
            Keyword::PROGRESS => "PROGRESS",
            Keyword::PROTOBUF => "PROTOBUF",
            Keyword::PUBLICATION => "PUBLICATION",
            Keyword::QUERY => "QUERY",
            Keyword::QUOTE => "QUOTE",
            Keyword::RAISE => "RAISE",
            Keyword::RANGE => "RANGE",
            Keyword::RAW => "RAW",
            Keyword::READ => "READ",
            Keyword::REAL => "REAL",
            Keyword::REASSIGN => "REASSIGN",
            Keyword::RECURSION => "RECURSION",
            Keyword::RECURSIVE => "RECURSIVE",
            Keyword::REFERENCES => "REFERENCES",
            Keyword::REFRESH => "REFRESH",
            Keyword::REGEX => "REGEX",
            Keyword::REGION => "REGION",
            Keyword::REGISTRY => "REGISTRY",
            Keyword::RENAME => "RENAME",
            Keyword::REPEATABLE => "REPEATABLE",
            Keyword::REPLACE => "REPLACE",
            Keyword::REPLICA => "REPLICA",
            Keyword::REPLICAS => "REPLICAS",
            Keyword::REPLICATION => "REPLICATION",
            Keyword::RESET => "RESET",
            Keyword::RESTRICT => "RESTRICT",
            Keyword::RETENTION => "RETENTION",
            Keyword::RETURN => "RETURN",
            Keyword::RETURNING => "RETURNING",
            Keyword::REVOKE => "REVOKE",
            Keyword::RIGHT => "RIGHT",
            Keyword::ROLE => "ROLE",
            Keyword::ROLES => "ROLES",
            Keyword::ROLLBACK => "ROLLBACK",
            Keyword::ROTATE => "ROTATE",
            Keyword::ROW => "ROW",
            Keyword::ROWS => "ROWS",
            Keyword::SASL => "SASL",
            Keyword::SCALE => "SCALE",
            Keyword::SCHEMA => "SCHEMA",
            Keyword::SCHEMAS => "SCHEMAS",
            Keyword::SCRIPT => "SCRIPT",
            Keyword::SECOND => "SECOND",
            Keyword::SECONDS => "SECONDS",
            Keyword::SECRET => "SECRET",
            Keyword::SECRETS => "SECRETS",
            Keyword::SEED => "SEED",
            Keyword::SELECT => "SELECT",
            Keyword::SEQUENCES => "SEQUENCES",
            Keyword::SERIALIZABLE => "SERIALIZABLE",
            Keyword::SERVICE => "SERVICE",
            Keyword::SESSION => "SESSION",
            Keyword::SET => "SET",
            Keyword::SHOW => "SHOW",
            Keyword::SINK => "SINK",
            Keyword::SINKS => "SINKS",
            Keyword::SIZE => "SIZE",
            Keyword::SMALLINT => "SMALLINT",
            Keyword::SNAPSHOT => "SNAPSHOT",
            Keyword::SOME => "SOME",
            Keyword::SOURCE => "SOURCE",
            Keyword::SOURCES => "SOURCES",
            Keyword::SSH => "SSH",
            Keyword::SSL => "SSL",
            Keyword::START => "START",
            Keyword::STDIN => "STDIN",
            Keyword::STDOUT => "STDOUT",
            Keyword::STORAGE => "STORAGE",
            Keyword::STORAGECTL => "STORAGECTL",
            Keyword::STRATEGY => "STRATEGY",
            Keyword::STRICT => "STRICT",
            Keyword::STRING => "STRING",
            Keyword::SUBSCRIBE => "SUBSCRIBE",
            Keyword::SUBSOURCE => "SUBSOURCE",
            Keyword::SUBSTRING => "SUBSTRING",
            Keyword::SUPERUSER => "SUPERUSER",
            Keyword::SYSTEM => "SYSTEM",
            Keyword::TABLE => "TABLE",
            Keyword::TABLES => "TABLES",
            Keyword::TAIL => "TAIL",
            Keyword::TEMP => "TEMP",
            Keyword::TEMPORARY => "TEMPORARY",
            Keyword::TEST => "TEST",
            Keyword::TEXT => "TEXT",
            Keyword::THEN => "THEN",
            Keyword::TICK => "TICK",
            Keyword::TIES => "TIES",
            Keyword::TIME => "TIME",
            Keyword::TIMELINE => "TIMELINE",
            Keyword::TIMEOUT => "TIMEOUT",
            Keyword::TIMESTAMP => "TIMESTAMP",
            Keyword::TO => "TO",
            Keyword::TOKEN => "TOKEN",
            Keyword::TOPIC => "TOPIC",
            Keyword::TPCH => "TPCH",
            Keyword::TRACE => "TRACE",
            Keyword::TRAILING => "TRAILING",
            Keyword::TRANSACTION => "TRANSACTION",
            Keyword::TRIM => "TRIM",
            Keyword::TRUE => "TRUE",
            Keyword::TUNNEL => "TUNNEL",
            Keyword::TYPE => "TYPE",
            Keyword::TYPES => "TYPES",
            Keyword::UNBOUNDED => "UNBOUNDED",
            Keyword::UNCOMMITTED => "UNCOMMITTED",
            Keyword::UNION => "UNION",
            Keyword::UNIQUE => "UNIQUE",
            Keyword::UNKNOWN => "UNKNOWN",
            Keyword::UP => "UP",
            Keyword::UPDATE => "UPDATE",
            Keyword::UPSERT => "UPSERT",
            Keyword::URL => "URL",
            Keyword::USAGE => "USAGE",
            Keyword::USER => "USER",
            Keyword::USERNAME => "USERNAME",
            Keyword::USERS => "USERS",
            Keyword::USING => "USING",
            Keyword::VALUE => "VALUE",
            Keyword::VALUES => "VALUES",
            Keyword::VARCHAR => "VARCHAR",
            Keyword::VARYING => "VARYING",
            Keyword::VIEW => "VIEW",
            Keyword::VIEWS => "VIEWS",
            Keyword::WARNING => "WARNING",
            Keyword::WHEN => "WHEN",
            Keyword::WHERE => "WHERE",
            Keyword::WINDOW => "WINDOW",
            Keyword::WIRE => "WIRE",
            Keyword::WITH => "WITH",
            Keyword::WITHIN => "WITHIN",
            Keyword::WITHOUT => "WITHOUT",
            Keyword::WORK => "WORK",
            Keyword::WORKERS => "WORKERS",
            Keyword::WRITE => "WRITE",
            Keyword::YEAR => "YEAR",
            Keyword::YEARS => "YEARS",
            Keyword::ZONE => "ZONE",
            Keyword::ZONES => "ZONES",
        }
    }

    /// How the keyword is written.
    pub fn text(&self) -> (r: String)
        ensures
            r@ == keyword_text(*self),
    {
        String::from_str(self.as_str())
    }

    /// The identifier that the keyword stands for where no keyword is meant.
    pub fn into_ident(self) -> (r: String)
        ensures
            r@ == keyword_ident(self),
    {
        proof {
            reveal(keyword_ident);
        }
        to_lower(self.as_str())
    }

    /// The keyword that is written `s`, if one is; `s` is in uppercase.
    pub fn parse(s: &str) -> (r: Option<Keyword>)
        ensures
            r == keyword_of(s@),
    {
        proof {
            reveal(keyword_of);
        }
        if text_eq(s, "ACCESS") {
            Some(Keyword::ACCESS)
        } else if text_eq(s, "ACKS") {
            Some(Keyword::ACKS)
        } else if text_eq(s, "ADDRESSES") {
            Some(Keyword::ADDRESSES)
        } else if text_eq(s, "ALL") {
            Some(Keyword::ALL)
        } else if text_eq(s, "ALTER") {
            Some(Keyword::ALTER)
        } else if text_eq(s, "AND") {
            Some(Keyword::AND)
        } else if text_eq(s, "ANY") {
            Some(Keyword::ANY)
        } else if text_eq(s, "ARN") {
            Some(Keyword::ARN)
        } else if text_eq(s, "ARRANGEMENT") {
            Some(Keyword::ARRANGEMENT)
        } else if text_eq(s, "ARRAY") {
            Some(Keyword::ARRAY)
        } else if text_eq(s, "AS") {
            Some(Keyword::AS)
        } else if text_eq(s, "ASC") {
            Some(Keyword::ASC)
        } else if text_eq(s, "AT") {
            Some(Keyword::AT)
        } else if text_eq(s, "AUCTION") {
            Some(Keyword::AUCTION)
        } else if text_eq(s, "AUTHORITY") {
            Some(Keyword::AUTHORITY)
        } else if text_eq(s, "AVAILABILITY") {
            Some(Keyword::AVAILABILITY)
        } else if text_eq(s, "AVRO") {
            Some(Keyword::AVRO)
        } else if text_eq(s, "AWS") {
            Some(Keyword::AWS)
        } else if text_eq(s, "BEGIN") {
            Some(Keyword::BEGIN)
        } else if text_eq(s, "BETWEEN") {
            Some(Keyword::BETWEEN)
        } else if text_eq(s, "BIGINT") {
            Some(Keyword::BIGINT)
        } else if text_eq(s, "BOOLEAN") {
            Some(Keyword::BOOLEAN)
        } else if text_eq(s, "BOTH") {
            Some(Keyword::BOTH)
        } else if text_eq(s, "BPCHAR") {
            Some(Keyword::BPCHAR)
        } else if text_eq(s, "BROKEN") {
            Some(Keyword::BROKEN)
        } else if text_eq(s, "BROKER") {
            Some(Keyword::BROKER)
        } else if text_eq(s, "BROKERS") {
            Some(Keyword::BROKERS)
        } else if text_eq(s, "BY") {
            Some(Keyword::BY)
        } else if text_eq(s, "BYTES") {
            Some(Keyword::BYTES)
        } else if text_eq(s, "CARDINALITY") {
            Some(Keyword::CARDINALITY)
        } else if text_eq(s, "CASCADE") {
            Some(Keyword::CASCADE)
        } else if text_eq(s, "CASE") {
            Some(Keyword::CASE)
        } else if text_eq(s, "CAST") {
            Some(Keyword::CAST)
        } else if text_eq(s, "CERTIFICATE") {
            Some(Keyword::CERTIFICATE)
        } else if text_eq(s, "CHAIN") {
            Some(Keyword::CHAIN)
        } else if text_eq(s, "CHAR") {
            Some(Keyword::CHAR)
        } else if text_eq(s, "CHARACTER") {
            Some(Keyword::CHARACTER)
        } else if text_eq(s, "CHARACTERISTICS") {
            Some(Keyword::CHARACTERISTICS)
        } else if text_eq(s, "CHECK") {
            Some(Keyword::CHECK)
        } else if text_eq(s, "CLIENT") {
            Some(Keyword::CLIENT)
        } else if text_eq(s, "CLOSE") {
            Some(Keyword::CLOSE)
        } else if text_eq(s, "CLUSTER") {
            Some(Keyword::CLUSTER)
        } else if text_eq(s, "CLUSTERS") {
            Some(Keyword::CLUSTERS)
        } else if text_eq(s, "COALESCE") {
            Some(Keyword::COALESCE)
        } else if text_eq(s, "COLLATE") {
            Some(Keyword::COLLATE)
        } else if text_eq(s, "COLUMNS") {
            Some(Keyword::COLUMNS)
        } else if text_eq(s, "COMMIT") {
            Some(Keyword::COMMIT)
        } else if text_eq(s, "COMMITTED") {
            Some(Keyword::COMMITTED)
        } else if text_eq(s, "COMPACTION") {
            Some(Keyword::COMPACTION)
        } else if text_eq(s, "COMPUTE") {
            Some(Keyword::COMPUTE)
        } else if text_eq(s, "COMPUTECTL") {
            Some(Keyword::COMPUTECTL)
        } else if text_eq(s, "CONFLUENT") {
            Some(Keyword::CONFLUENT)
        } else if text_eq(s, "CONNECTION") {
            Some(Keyword::CONNECTION)
        } else if text_eq(s, "CONNECTIONS") {
            Some(Keyword::CONNECTIONS)
        } else if text_eq(s, "CONSTRAINT") {
            Some(Keyword::CONSTRAINT)
        } else if text_eq(s, "COPY") {
            Some(Keyword::COPY)
        } else if text_eq(s, "COUNT") {
            Some(Keyword::COUNT)
        } else if text_eq(s, "COUNTER") {
            Some(Keyword::COUNTER)
        } else if text_eq(s, "CREATE") {
            Some(Keyword::CREATE)
        } else if text_eq(s, "CREATECLUSTER") {
            Some(Keyword::CREATECLUSTER)
        } else if text_eq(s, "CREATEDB") {
            Some(Keyword::CREATEDB)
        } else if text_eq(s, "CREATEROLE") {
            Some(Keyword::CREATEROLE)
        } else if text_eq(s, "CROSS") {
            Some(Keyword::CROSS)
        } else if text_eq(s, "CSV") {
            Some(Keyword::CSV)
        } else if text_eq(s, "CURRENT") {
            Some(Keyword::CURRENT)
        } else if text_eq(s, "CURSOR") {
            Some(Keyword::CURSOR)
        } else if text_eq(s, "DATABASE") {
            Some(Keyword::DATABASE)
        } else if text_eq(s, "DATABASES") {
            Some(Keyword::DATABASES)
        } else if text_eq(s, "DATUMS") {
            Some(Keyword::DATUMS)
        } else if text_eq(s, "DAY") {
            Some(Keyword::DAY)
        } else if text_eq(s, "DAYS") {
            Some(Keyword::DAYS)
        } else if text_eq(s, "DEALLOCATE") {
            Some(Keyword::DEALLOCATE)
        } else if text_eq(s, "DEBEZIUM") {
            Some(Keyword::DEBEZIUM)
        } else if text_eq(s, "DEBUG") {
            Some(Keyword::DEBUG)
        } else if text_eq(s, "DEBUGGING") {
            Some(Keyword::DEBUGGING)
        } else if text_eq(s, "DEC") {
            Some(Keyword::DEC)
        } else if text_eq(s, "DECIMAL") {
            Some(Keyword::DECIMAL)
        } else if text_eq(s, "DECLARE") {
            Some(Keyword::DECLARE)
        } else if text_eq(s, "DECORRELATED") {
            Some(Keyword::DECORRELATED)
        } else if text_eq(s, "DEFAULT") {
            Some(Keyword::DEFAULT)
        } else if text_eq(s, "DELETE") {
            Some(Keyword::DELETE)
        } else if text_eq(s, "DELIMITED") {
            Some(Keyword::DELIMITED)
        } else if text_eq(s, "DELIMITER") {
            Some(Keyword::DELIMITER)
        } else if text_eq(s, "DESC") {
            Some(Keyword::DESC)
        } else if text_eq(s, "DETAILS") {
            Some(Keyword::DETAILS)
        } else if text_eq(s, "DISCARD") {
            Some(Keyword::DISCARD)
        } else if text_eq(s, "DISK") {
            Some(Keyword::DISK)
        } else if text_eq(s, "DISTINCT") {
            Some(Keyword::DISTINCT)
        } else if text_eq(s, "DOT") {
            Some(Keyword::DOT)
        } else if text_eq(s, "DOUBLE") {
            Some(Keyword::DOUBLE)
        } else if text_eq(s, "DROP") {
            Some(Keyword::DROP)
        } else if text_eq(s, "EFFORT") {
            Some(Keyword::EFFORT)
        } else if text_eq(s, "ELEMENT") {
            Some(Keyword::ELEMENT)
        } else if text_eq(s, "ELSE") {
            Some(Keyword::ELSE)
        } else if text_eq(s, "ENABLE") {
            Some(Keyword::ENABLE)
        } else if text_eq(s, "END") {
            Some(Keyword::END)
        } else if text_eq(s, "ENDPOINT") {
            Some(Keyword::ENDPOINT)
        } else if text_eq(s, "ENFORCED") {
            Some(Keyword::ENFORCED)
        } else if text_eq(s, "ENVELOPE") {
            Some(Keyword::ENVELOPE)
        } else if text_eq(s, "ERROR") {
            Some(Keyword::ERROR)
        } else if text_eq(s, "ESCAPE") {
            Some(Keyword::ESCAPE)
        } else if text_eq(s, "EXCEPT") {
            Some(Keyword::EXCEPT)
        } else if text_eq(s, "EXECUTE") {
            Some(Keyword::EXECUTE)
        } else if text_eq(s, "EXISTS") {
            Some(Keyword::EXISTS)
        } else if text_eq(s, "EXPECTED") {
            Some(Keyword::EXPECTED)
        } else if text_eq(s, "EXPLAIN") {
            Some(Keyword::EXPLAIN)
        } else if text_eq(s, "EXPOSE") {
            Some(Keyword::EXPOSE)
        } else if text_eq(s, "EXTRACT") {
            Some(Keyword::EXTRACT)
        } else if text_eq(s, "FACTOR") {
            Some(Keyword::FACTOR)
        } else if text_eq(s, "FALSE") {
            Some(Keyword::FALSE)
        } else if text_eq(s, "FETCH") {
            Some(Keyword::FETCH)
        } else if text_eq(s, "FIELDS") {
            Some(Keyword::FIELDS)
        } else if text_eq(s, "FILTER") {
            Some(Keyword::FILTER)
        } else if text_eq(s, "FIRST") {
            Some(Keyword::FIRST)
        } else if text_eq(s, "FLOAT") {
            Some(Keyword::FLOAT)
        } else if text_eq(s, "FOLLOWING") {
            Some(Keyword::FOLLOWING)
        } else if text_eq(s, "FOR") {
            Some(Keyword::FOR)
        } else if text_eq(s, "FOREIGN") {
            Some(Keyword::FOREIGN)
        } else if text_eq(s, "FORMAT") {
            Some(Keyword::FORMAT)
        } else if text_eq(s, "FORWARD") {
            Some(Keyword::FORWARD)
        } else if text_eq(s, "FROM") {
            Some(Keyword::FROM)
        } else if text_eq(s, "FULL") {
            Some(Keyword::FULL)
        } else if text_eq(s, "FULLNAME") {
            Some(Keyword::FULLNAME)
        } else if text_eq(s, "FUNCTION") {
            Some(Keyword::FUNCTION)
        } else if text_eq(s, "GENERATOR") {
            Some(Keyword::GENERATOR)
        } else if text_eq(s, "GRANT") {
            Some(Keyword::GRANT)
        } else if text_eq(s, "GREATEST") {
            Some(Keyword::GREATEST)
        } else if text_eq(s, "GROUP") {
            Some(Keyword::GROUP)
        } else if text_eq(s, "GROUPS") {
            Some(Keyword::GROUPS)
        } else if text_eq(s, "HAVING") {
            Some(Keyword::HAVING)
        } else if text_eq(s, "HEADER") {
            Some(Keyword::HEADER)
        } else if text_eq(s, "HEADERS") {
            Some(Keyword::HEADERS)
        } else if text_eq(s, "HOLD") {
            Some(Keyword::HOLD)
        } else if text_eq(s, "HOST") {
            Some(Keyword::HOST)
        } else if text_eq(s, "HOUR") {
            Some(Keyword::HOUR)
        } else if text_eq(s, "HOURS") {
            Some(Keyword::HOURS)
        } else if text_eq(s, "ID") {
            Some(Keyword::ID)
        } else if text_eq(s, "IDEMPOTENCE") {
            Some(Keyword::IDEMPOTENCE)
        } else if text_eq(s, "IDLE") {
            Some(Keyword::IDLE)
        } else if text_eq(s, "IF") {
            Some(Keyword::IF)
        } else if text_eq(s, "IGNORE") {
            Some(Keyword::IGNORE)
        } else if text_eq(s, "ILIKE") {
            Some(Keyword::ILIKE)
        } else if text_eq(s, "IN") {
            Some(Keyword::IN)
        } else if text_eq(s, "INCLUDE") {
            Some(Keyword::INCLUDE)
        } else if text_eq(s, "INDEX") {
            Some(Keyword::INDEX)
        } else if text_eq(s, "INDEXES") {
            Some(Keyword::INDEXES)
        } else if text_eq(s, "INFO") {
            Some(Keyword::INFO)
        } else if text_eq(s, "INHERIT") {
            Some(Keyword::INHERIT)
        } else if text_eq(s, "INLINE") {
            Some(Keyword::INLINE)
        } else if text_eq(s, "INNER") {
            Some(Keyword::INNER)
        } else if text_eq(s, "INSERT") {
            Some(Keyword::INSERT)
        } else if text_eq(s, "INT") {
            Some(Keyword::INT)
        } else if text_eq(s, "INTEGER") {
            Some(Keyword::INTEGER)
        } else if text_eq(s, "INTERSECT") {
            Some(Keyword::INTERSECT)
        } else if text_eq(s, "INTERVAL") {
            Some(Keyword::INTERVAL)
        } else if text_eq(s, "INTO") {
            Some(Keyword::INTO)
        } else if text_eq(s, "INTROSPECTION") {
            Some(Keyword::INTROSPECTION)
        } else if text_eq(s, "IS") {
            Some(Keyword::IS)
        } else if text_eq(s, "ISNULL") {
            Some(Keyword::ISNULL)
        } else if text_eq(s, "ISOLATION") {
            Some(Keyword::ISOLATION)
        } else if text_eq(s, "JOIN") {
            Some(Keyword::JOIN)
        } else if text_eq(s, "JSON") {
            Some(Keyword::JSON)
        } else if text_eq(s, "KAFKA") {
            Some(Keyword::KAFKA)
        } else if text_eq(s, "KEY") {
            Some(Keyword::KEY)
        } else if text_eq(s, "KEYS") {
            Some(Keyword::KEYS)
        } else if text_eq(s, "LAST") {
            Some(Keyword::LAST)
        } else if text_eq(s, "LATERAL") {
            Some(Keyword::LATERAL)
        } else if text_eq(s, "LATEST") {
            Some(Keyword::LATEST)
        } else if text_eq(s, "LEADING") {
            Some(Keyword::LEADING)
        } else if text_eq(s, "LEAST") {
            Some(Keyword::LEAST)
        } else if text_eq(s, "LEFT") {
            Some(Keyword::LEFT)
        } else if text_eq(s, "LEVEL") {
            Some(Keyword::LEVEL)
        } else if text_eq(s, "LIKE") {
            Some(Keyword::LIKE)
        } else if text_eq(s, "LIMIT") {
            Some(Keyword::LIMIT)
        } else if text_eq(s, "LIST") {
            Some(Keyword::LIST)
        } else if text_eq(s, "LOAD") {
            Some(Keyword::LOAD)
        } else if text_eq(s, "LOCAL") {
            Some(Keyword::LOCAL)
        } else if text_eq(s, "LOG") {
            Some(Keyword::LOG)
        } else if text_eq(s, "LOGICAL") {
            Some(Keyword::LOGICAL)
        } else if text_eq(s, "LOGIN") {
            Some(Keyword::LOGIN)
        } else if text_eq(s, "MAP") {
            Some(Keyword::MAP)
        } else if text_eq(s, "MARKETING") {
            Some(Keyword::MARKETING)
        } else if text_eq(s, "MATERIALIZE") {
            Some(Keyword::MATERIALIZE)
        } else if text_eq(s, "MATERIALIZED") {
            Some(Keyword::MATERIALIZED)
        } else if text_eq(s, "MAX") {
            Some(Keyword::MAX)
        } else if text_eq(s, "MECHANISMS") {
            Some(Keyword::MECHANISMS)
        } else if text_eq(s, "MERGE") {
            Some(Keyword::MERGE)
        } else if text_eq(s, "MESSAGE") {
            Some(Keyword::MESSAGE)
        } else if text_eq(s, "METADATA") {
            Some(Keyword::METADATA)
        } else if text_eq(s, "MINUTE") {
            Some(Keyword::MINUTE)
        } else if text_eq(s, "MINUTES") {
            Some(Keyword::MINUTES)
        } else if text_eq(s, "MODE") {
            Some(Keyword::MODE)
        } else if text_eq(s, "MONTH") {
            Some(Keyword::MONTH)
        } else if text_eq(s, "MONTHS") {
            Some(Keyword::MONTHS)
        } else if text_eq(s, "MS") {
            Some(Keyword::MS)
        } else if text_eq(s, "MUTUALLY") {
            Some(Keyword::MUTUALLY)
        } else if text_eq(s, "NAME") {
            Some(Keyword::NAME)
        } else if text_eq(s, "NAMES") {
            Some(Keyword::NAMES)
        } else if text_eq(s, "NATURAL") {
            Some(Keyword::NATURAL)
        } else if text_eq(s, "NEXT") {
            Some(Keyword::NEXT)
        } else if text_eq(s, "NO") {
            Some(Keyword::NO)
        } else if text_eq(s, "NOCREATECLUSTER") {
            Some(Keyword::NOCREATECLUSTER)
        } else if text_eq(s, "NOCREATEDB") {
            Some(Keyword::NOCREATEDB)
        } else if text_eq(s, "NOCREATEROLE") {
            Some(Keyword::NOCREATEROLE)
        } else if text_eq(s, "NOINHERIT") {
            Some(Keyword::NOINHERIT)
        } else if text_eq(s, "NOLOGIN") {
            Some(Keyword::NOLOGIN)
        } else if text_eq(s, "NONE") {
            Some(Keyword::NONE)
        } else if text_eq(s, "NOSUPERUSER") {
            Some(Keyword::NOSUPERUSER)
        } else if text_eq(s, "NOT") {
            Some(Keyword::NOT)
        } else if text_eq(s, "NOTICE") {
            Some(Keyword::NOTICE)
        } else if text_eq(s, "NULL") {
            Some(Keyword::NULL)
        } else if text_eq(s, "NULLIF") {
            Some(Keyword::NULLIF)
        } else if text_eq(s, "NULLS") {
            Some(Keyword::NULLS)
        } else if text_eq(s, "OBJECTS") {
            Some(Keyword::OBJECTS)
        } else if text_eq(s, "OF") {
            Some(Keyword::OF)
        } else if text_eq(s, "OFFSET") {
            Some(Keyword::OFFSET)
        } else if text_eq(s, "ON") {
            Some(Keyword::ON)
        } else if text_eq(s, "ONLY") {
            Some(Keyword::ONLY)
        } else if text_eq(s, "OPERATOR") {
            Some(Keyword::OPERATOR)
        } else if text_eq(s, "OPTIMIZED") {
            Some(Keyword::OPTIMIZED)
        } else if text_eq(s, "OPTIMIZER") {
            Some(Keyword::OPTIMIZER)
        } else if text_eq(s, "OPTIONS") {
            Some(Keyword::OPTIONS)
        } else if text_eq(s, "OR") {
            Some(Keyword::OR)
        } else if text_eq(s, "ORDER") {
            Some(Keyword::ORDER)
        } else if text_eq(s, "ORDINALITY") {
            Some(Keyword::ORDINALITY)
        } else if text_eq(s, "OUTER") {
            Some(Keyword::OUTER)
        } else if text_eq(s, "OVER") {
            Some(Keyword::OVER)
        } else if text_eq(s, "OWNED") {
            Some(Keyword::OWNED)
        } else if text_eq(s, "OWNER") {
            Some(Keyword::OWNER)
        } else if text_eq(s, "PARTITION") {
            Some(Keyword::PARTITION)
        } else if text_eq(s, "PASSWORD") {
            Some(Keyword::PASSWORD)
        } else if text_eq(s, "PHYSICAL") {
            Some(Keyword::PHYSICAL)
        } else if text_eq(s, "PLAN") {
            Some(Keyword::PLAN)
        } else if text_eq(s, "PLANS") {
            Some(Keyword::PLANS)
        } else if text_eq(s, "PORT") {
            Some(Keyword::PORT)
        } else if text_eq(s, "POSITION") {
            Some(Keyword::POSITION)
        } else if text_eq(s, "POSTGRES") {
            Some(Keyword::POSTGRES)
        } else if text_eq(s, "PRECEDING") {
            Some(Keyword::PRECEDING)
        } else if text_eq(s, "PRECISION") {
            Some(Keyword::PRECISION)
        } else if text_eq(s, "PREFIX") {
            Some(Keyword::PREFIX)
        } else if text_eq(s, "PREPARE") {
            Some(Keyword::PREPARE)
        } else if text_eq(s, "PRIMARY") {
            Some(Keyword::PRIMARY)
        } else if text_eq(s, "PRIVATELINK") {
            Some(Keyword::PRIVATELINK)
        } else if text_eq(s, "PRIVILEGES") {
            Some(Keyword::PRIVILEGES)
        } else if text_eq(s, "PROGRESS") {
            Some(Keyword::PROGRESS)
        } else if text_eq(s, "PROTOBUF") {
            Some(Keyword::PROTOBUF)
        } else if text_eq(s, "PUBLICATION") {
            Some(Keyword::PUBLICATION)
        } else if text_eq(s, "QUERY") {
            Some(Keyword::QUERY)
        } else if text_eq(s, "QUOTE") {
            Some(Keyword::QUOTE)
        } else if text_eq(s, "RAISE") {
            Some(Keyword::RAISE)
        } else if text_eq(s, "RANGE") {
            Some(Keyword::RANGE)
        } else if text_eq(s, "RAW") {
            Some(Keyword::RAW)
        } else if text_eq(s, "READ") {
            Some(Keyword::READ)
        } else if text_eq(s, "REAL") {
            Some(Keyword::REAL)
        } else if text_eq(s, "REASSIGN") {
            Some(Keyword::REASSIGN)
        } else if text_eq(s, "RECURSION") {
            Some(Keyword::RECURSION)
        } else if text_eq(s, "RECURSIVE") {
            Some(Keyword::RECURSIVE)
        } else if text_eq(s, "REFERENCES") {
            Some(Keyword::REFERENCES)
        } else if text_eq(s, "REFRESH") {
            Some(Keyword::REFRESH)
        } else if text_eq(s, "REGEX") {
            Some(Keyword::REGEX)
        } else if text_eq(s, "REGION") {
            Some(Keyword::REGION)
        } else if text_eq(s, "REGISTRY") {
            Some(Keyword::REGISTRY)
        } else if text_eq(s, "RENAME") {
            Some(Keyword::RENAME)
        } else if text_eq(s, "REPEATABLE") {
            Some(Keyword::REPEATABLE)
        } else if text_eq(s, "REPLACE") {
            Some(Keyword::REPLACE)
        } else if text_eq(s, "REPLICA") {
            Some(Keyword::REPLICA)
        } else if text_eq(s, "REPLICAS") {
            Some(Keyword::REPLICAS)
        } else if text_eq(s, "REPLICATION") {
            Some(Keyword::REPLICATION)
        } else if text_eq(s, "RESET") {
            Some(Keyword::RESET)
        } else if text_eq(s, "RESTRICT") {
            Some(Keyword::RESTRICT)
        } else if text_eq(s, "RETENTION") {
            Some(Keyword::RETENTION)
        } else if text_eq(s, "RETURN") {
            Some(Keyword::RETURN)
        } else if text_eq(s, "RETURNING") {
            Some(Keyword::RETURNING)
        } else if text_eq(s, "REVOKE") {
            Some(Keyword::REVOKE)
        } else if text_eq(s, "RIGHT") {
            Some(Keyword::RIGHT)
        } else if text_eq(s, "ROLE") {
            Some(Keyword::ROLE)
        } else if text_eq(s, "ROLES") {
            Some(Keyword::ROLES)
        } else if text_eq(s, "ROLLBACK") {
            Some(Keyword::ROLLBACK)
        } else if text_eq(s, "ROTATE") {
            Some(Keyword::ROTATE)
        } else if text_eq(s, "ROW") {
            Some(Keyword::ROW)
        } else if text_eq(s, "ROWS") {
            Some(Keyword::ROWS)
        } else if text_eq(s, "SASL") {
            Some(Keyword::SASL)
        } else if text_eq(s, "SCALE") {
            Some(Keyword::SCALE)
        } else if text_eq(s, "SCHEMA") {
            Some(Keyword::SCHEMA)
        } else if text_eq(s, "SCHEMAS") {
            Some(Keyword::SCHEMAS)
        } else if text_eq(s, "SCRIPT") {
            Some(Keyword::SCRIPT)
        } else if text_eq(s, "SECOND") {
            Some(Keyword::SECOND)
        } else if text_eq(s, "SECONDS") {
            Some(Keyword::SECONDS)
        } else if text_eq(s, "SECRET") {
            Some(Keyword::SECRET)
        } else if text_eq(s, "SECRETS") {
            Some(Keyword::SECRETS)
        } else if text_eq(s, "SEED") {
            Some(Keyword::SEED)
        } else if text_eq(s, "SELECT") {
            Some(Keyword::SELECT)
        } else if text_eq(s, "SEQUENCES") {
            Some(Keyword::SEQUENCES)
        } else if text_eq(s, "SERIALIZABLE") {
            Some(Keyword::SERIALIZABLE)
        } else if text_eq(s, "SERVICE") {
            Some(Keyword::SERVICE)
        } else if text_eq(s, "SESSION") {
            Some(Keyword::SESSION)
        } else if text_eq(s, "SET") {
            Some(Keyword::SET)
        } else if text_eq(s, "SHOW") {
            Some(Keyword::SHOW)
        } else if text_eq(s, "SINK") {
            Some(Keyword::SINK)
        } else if text_eq(s, "SINKS") {
            Some(Keyword::SINKS)
        } else if text_eq(s, "SIZE") {
            Some(Keyword::SIZE)
        } else if text_eq(s, "SMALLINT") {
            Some(Keyword::SMALLINT)
        } else if text_eq(s, "SNAPSHOT") {
            Some(Keyword::SNAPSHOT)
        } else if text_eq(s, "SOME") {
            Some(Keyword::SOME)
        } else if text_eq(s, "SOURCE") {
            Some(Keyword::SOURCE)
        } else if text_eq(s, "SOURCES") {
            Some(Keyword::SOURCES)
        } else if text_eq(s, "SSH") {
            Some(Keyword::SSH)
        } else if text_eq(s, "SSL") {
            Some(Keyword::SSL)
        } else if text_eq(s, "START") {
            Some(Keyword::START)
        } else if text_eq(s, "STDIN") {
            Some(Keyword::STDIN)
        } else if text_eq(s, "STDOUT") {
            Some(Keyword::STDOUT)
        } else if text_eq(s, "STORAGE") {
            Some(Keyword::STORAGE)
        } else if text_eq(s, "STORAGECTL") {
            Some(Keyword::STORAGECTL)
        } else if text_eq(s, "STRATEGY") {
            Some(Keyword::STRATEGY)
        } else if text_eq(s, "STRICT") {
            Some(Keyword::STRICT)
        } else if text_eq(s, "STRING") {
            Some(Keyword::STRING)
        } else if text_eq(s, "SUBSCRIBE") {
            Some(Keyword::SUBSCRIBE)
        } else if text_eq(s, "SUBSOURCE") {
            Some(Keyword::SUBSOURCE)
        } else if text_eq(s, "SUBSTRING") {
            Some(Keyword::SUBSTRING)
        } else if text_eq(s, "SUPERUSER") {
            Some(Keyword::SUPERUSER)
        } else if text_eq(s, "SYSTEM") {
            Some(Keyword::SYSTEM)
        } else if text_eq(s, "TABLE") {
            Some(Keyword::TABLE)
        } else if text_eq(s, "TABLES") {
            Some(Keyword::TABLES)
        } else if text_eq(s, "TAIL") {
            Some(Keyword::TAIL)
        } else if text_eq(s, "TEMP") {
            Some(Keyword::TEMP)
        } else if text_eq(s, "TEMPORARY") {
            Some(Keyword::TEMPORARY)
        } else if text_eq(s, "TEST") {
            Some(Keyword::TEST)
        } else if text_eq(s, "TEXT") {
            Some(Keyword::TEXT)
        } else if text_eq(s, "THEN") {
            Some(Keyword::THEN)
        } else if text_eq(s, "TICK") {
            Some(Keyword::TICK)
        } else if text_eq(s, "TIES") {
            Some(Keyword::TIES)
        } else if text_eq(s, "TIME") {
            Some(Keyword::TIME)
        } else if text_eq(s, "TIMELINE") {
            Some(Keyword::TIMELINE)
        } else if text_eq(s, "TIMEOUT") {
            Some(Keyword::TIMEOUT)
        } else if text_eq(s, "TIMESTAMP") {
            Some(Keyword::TIMESTAMP)
        } else if text_eq(s, "TO") {
            Some(Keyword::TO)
        } else if text_eq(s, "TOKEN") {
            Some(Keyword::TOKEN)
        } else if text_eq(s, "TOPIC") {
            Some(Keyword::TOPIC)
        } else if text_eq(s, "TPCH") {
            Some(Keyword::TPCH)
        } else if text_eq(s, "TRACE") {
            Some(Keyword::TRACE)
        } else if text_eq(s, "TRAILING") {
            Some(Keyword::TRAILING)
        } else if text_eq(s, "TRANSACTION") {
            Some(Keyword::TRANSACTION)
        } else if text_eq(s, "TRIM") {
            Some(Keyword::TRIM)
        } else if text_eq(s, "TRUE") {
            Some(Keyword::TRUE)
        } else if text_eq(s, "TUNNEL") {
            Some(Keyword::TUNNEL)
        } else if text_eq(s, "TYPE") {
            Some(Keyword::TYPE)
        } else if text_eq(s, "TYPES") {
            Some(Keyword::TYPES)
        } else if text_eq(s, "UNBOUNDED") {
            Some(Keyword::UNBOUNDED)
        } else if text_eq(s, "UNCOMMITTED") {
            Some(Keyword::UNCOMMITTED)
        } else if text_eq(s, "UNION") {
            Some(Keyword::UNION)
        } else if text_eq(s, "UNIQUE") {
            Some(Keyword::UNIQUE)
        } else if text_eq(s, "UNKNOWN") {
            Some(Keyword::UNKNOWN)
        } else if text_eq(s, "UP") {
            Some(Keyword::UP)
        } else if text_eq(s, "UPDATE") {
            Some(Keyword::UPDATE)
        } else if text_eq(s, "UPSERT") {
            Some(Keyword::UPSERT)
        } else if text_eq(s, "URL") {
            Some(Keyword::URL)
        } else if text_eq(s, "USAGE") {
            Some(Keyword::USAGE)
        } else if text_eq(s, "USER") {
            Some(Keyword::USER)
        } else if text_eq(s, "USERNAME") {
            Some(Keyword::USERNAME)
        } else if text_eq(s, "USERS") {
            Some(Keyword::USERS)
        } else if text_eq(s, "USING") {
            Some(Keyword::USING)
        } else if text_eq(s, "VALUE") {
            Some(Keyword::VALUE)
        } else if text_eq(s, "VALUES") {
            Some(Keyword::VALUES)
        } else if text_eq(s, "VARCHAR") {
            Some(Keyword::VARCHAR)
        } else if text_eq(s, "VARYING") {
            Some(Keyword::VARYING)
        } else if text_eq(s, "VIEW") {
            Some(Keyword::VIEW)
        } else if text_eq(s, "VIEWS") {
            Some(Keyword::VIEWS)
        } else if text_eq(s, "WARNING") {
            Some(Keyword::WARNING)
        } else if text_eq(s, "WHEN") {
            Some(Keyword::WHEN)
        } else if text_eq(s, "WHERE") {
            Some(Keyword::WHERE)
        } else if text_eq(s, "WINDOW") {
            Some(Keyword::WINDOW)
        } else if text_eq(s, "WIRE") {
            Some(Keyword::WIRE)
        } else if text_eq(s, "WITH") {
            Some(Keyword::WITH)
        } else if text_eq(s, "WITHIN") {
            Some(Keyword::WITHIN)
        } else if text_eq(s, "WITHOUT") {
            Some(Keyword::WITHOUT)
        } else if text_eq(s, "WORK") {
            Some(Keyword::WORK)
        } else if text_eq(s, "WORKERS") {
            Some(Keyword::WORKERS)
        } else if text_eq(s, "WRITE") {
            Some(Keyword::WRITE)
        } else if text_eq(s, "YEAR") {
            Some(Keyword::YEAR)
        } else if text_eq(s, "YEARS") {
            Some(Keyword::YEARS)
        } else if text_eq(s, "ZONE") {
            Some(Keyword::ZONE)
        } else if text_eq(s, "ZONES") {
            Some(Keyword::ZONES)
        } else {
            None
        }
    }

    /// Whether a keyword can never be an identifier without quotes.
    pub fn is_reserved(self) -> (r: bool)
        ensures
            r == is_reserved_spec(self),
    {
        proof {
            reveal(is_reserved_spec);
        }
        match self {
            Keyword::WITH
            | Keyword::SELECT
            | Keyword::FROM
            | Keyword::WHERE
            | Keyword::GROUP
            | Keyword::HAVING
            | Keyword::ORDER
            | Keyword::LIMIT
            | Keyword::OFFSET
            | Keyword::FETCH
            | Keyword::OPTIONS
            | Keyword::RETURNING
            | Keyword::UNION
            | Keyword::EXCEPT
            | Keyword::INTERSECT => true,
            _ => false,
        }
    }

    /// Whether a keyword cannot be a column alias without `AS`.
    pub fn is_reserved_in_column_alias(self) -> (r: bool)
        ensures
            r == is_reserved_in_column_alias_spec(self),
    {
        proof {
            reveal(is_reserved_in_column_alias_spec);
        }
        match self {
            Keyword::WITH
            | Keyword::SELECT
            | Keyword::FROM
            | Keyword::WHERE
            | Keyword::GROUP
            | Keyword::HAVING
            | Keyword::ORDER
            | Keyword::LIMIT
            | Keyword::OFFSET
            | Keyword::FETCH
            | Keyword::OPTIONS
            | Keyword::RETURNING
            | Keyword::UNION
            | Keyword::EXCEPT
            | Keyword::INTERSECT
            | Keyword::YEAR
            | Keyword::MONTH
            | Keyword::DAY
            | Keyword::HOUR
            | Keyword::MINUTE
            | Keyword::SECOND
            | Keyword::YEARS
            | Keyword::MONTHS
            | Keyword::DAYS
            | Keyword::HOURS
            | Keyword::MINUTES
            | Keyword::SECONDS => true,
            _ => false,
        }
    }

    /// Whether a keyword cannot be a table alias without `AS`.
    pub fn is_reserved_in_table_alias(self) -> (r: bool)
        ensures
            r == is_reserved_in_table_alias_spec(self),
    {
        proof {
            reveal(is_reserved_in_table_alias_spec);
        }
        match self {
            Keyword::WITH
            | Keyword::SELECT
            | Keyword::FROM
            | Keyword::WHERE
            | Keyword::GROUP
            | Keyword::HAVING
            | Keyword::ORDER
            | Keyword::LIMIT
            | Keyword::OFFSET
            | Keyword::FETCH
            | Keyword::OPTIONS
            | Keyword::RETURNING
            | Keyword::UNION
            | Keyword::EXCEPT
            | Keyword::INTERSECT
            | Keyword::ON
            | Keyword::JOIN
            | Keyword::INNER
            | Keyword::CROSS
            | Keyword::FULL
            | Keyword::LEFT
            | Keyword::RIGHT
            | Keyword::NATURAL
            | Keyword::USING
            | Keyword::SET
            | Keyword::OUTER => true,
            _ => false,
        }
    }

}

} // verus!
