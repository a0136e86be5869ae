//! The kinds of syntax tree nodes.

use vstd::prelude::*;

verus! {

/// What a node of the syntax tree is.
#[derive(Debug, Copy, Clone, PartialEq, Eq, Structural)]
pub enum Kind {
    AbbreviatedGrant,
    AbbreviatedRevoke,
    AccessKeyId,
    Acks,
    AllDatabases,
    AllExpr,
    AllObjects,
    AllPrivileges,
    AllSchemas,
    AllSubquery,
    AllSubsources,
    AlterConnection,
    AlterDefaultPrivileges,
    AlterIndex,
    AlterObjectRename,
    AlterOwner,
    AlterRole,
    AlterSecret,
    AlterSink,
    AlterSource,
    AlterSystemReset,
    AlterSystemResetAll,
    AlterSystemSet,
    And,
    AnyExpr,
    AnySubquery,
    Args,
    Array,
    ArraySubquery,
    ArrayType,
    AsList,
    AsMap,
    AsOfAt,
    AsOfAtLeast,
    AsRecord,
    Assignment,
    Auction,
    AvailabilityZone,
    AvailabilityZones,
    AvroCsr,
    AvroFormat,
    AvroInline,
    AvroKeyFullname,
    AvroSchemaOption,
    AvroValueFullname,
    AwsConnection,
    AwsConnectionOption,
    AwsPrivatelink,
    AwsPrivatelinkConnection,
    AwsPrivatelinkConnectionOption,
    AwsPrivatelinkTunnel,
    BareOp,
    BareSourceFormat,
    Between,
    BooleanValue,
    Broker,
    Brokers,
    BytesFormat,
    Cascade,
    Case,
    CaseArm,
    Cast,
    CdcV2Envelope,
    CheckColumn,
    CheckConstraint,
    ClientId,
    Close,
    ClusterName,
    ClusterOption,
    ClusterReplicaType,
    ClusterReplicasValue,
    ClusterType,
    Coalesce,
    Collate,
    ColumnDef,
    ColumnOptionDef,
    Columns,
    Commit,
    ComputeAddresses,
    ComputectlAddresses,
    ConfluentWireFormat,
    ConnectionType,
    Copy,
    CopyDelimiter,
    CopyEscape,
    CopyFormat,
    CopyFrom,
    CopyHeader,
    CopyNull,
    CopyOption,
    CopyQuote,
    CopyTable,
    CopyTo,
    Counter,
    CreateCluster,
    CreateClusterReplica,
    CreateConnection,
    CreateDatabase,
    CreateIndex,
    CreateMaterializedView,
    CreatePrivilege,
    CreateRole,
    CreateSchema,
    CreateSecret,
    CreateSink,
    CreateSinkOption,
    CreateSource,
    CreateSourceOption,
    CreateSourceSubsource,
    CreateSubsource,
    CreateSubsourceOption,
    CreateTable,
    CreateType,
    CreateTypeListOption,
    CreateTypeMapOption,
    CreateView,
    CrossJoin,
    CsrConfigOption,
    CsrConnection,
    CsrConnectionAvro,
    CsrConnectionDefinition,
    CsrConnectionOption,
    CsrConnectionProtobuf,
    CsrSeedAvro,
    CsrSeedProtobuf,
    CsrSeedProtobufSchema,
    CsvCount,
    CsvFormat,
    CsvHeader,
    Cte,
    CteMutRec,
    CteMutRecColumnDef,
    CurrentRow,
    DataTypeValue,
    Database,
    DatabaseName,
    DatabaseType,
    Datums,
    Day,
    Deallocate,
    DebeziumEnvelope,
    DebugSeverity,
    Declare,
    DecorrelatedPlan,
    DefaultValue,
    DefaultValues,
    DeferredItem,
    Delete,
    DeletePrivilege,
    Derived,
    Details,
    Diffs,
    DirectTunnel,
    Discard,
    DiscardAll,
    DiscardPlans,
    DiscardSequences,
    DiscardTemp,
    Disk,
    DistinctOn,
    DistinctRow,
    DropObjects,
    DropOwned,
    ElementType,
    EnableIdempotence,
    Endpoint,
    EnvelopeDebezium,
    EnvelopeUpsert,
    ErrorAtRecursionLimit,
    ErrorIfExists,
    Except,
    Execute,
    Exists,
    ExpectedGroupSize,
    Explain,
    ExplainDot,
    ExplainJson,
    ExplainMaterializedView,
    ExplainQuery,
    ExplainText,
    ExplainView,
    Fetch,
    FetchMessageMaxBytes,
    FetchOption,
    FieldAccess,
    Following,
    ForeignKeyColumn,
    ForeignKeyConstraint,
    ForwardAll,
    ForwardCount,
    FullOuterJoin,
    FuncType,
    Function,
    GrantObjects,
    GrantPrivileges,
    GrantRole,
    GrantTarget,
    Greatest,
    GroupIdPrefix,
    Groups,
    HeadersMetadata,
    HexStringValue,
    HomogenizingFunction,
    Host,
    Hour,
    IdName,
    IdentValue,
    IdentVariable,
    Identifier,
    IdleArrangementMergeEffort,
    IgnoreKeys,
    InList,
    InSubquery,
    IndexOption,
    IndexType,
    InfoSeverity,
    Inherit,
    InnerJoin,
    Insert,
    InsertPrivilege,
    Intersect,
    Interval,
    IntrospectionDebugging,
    IntrospectionInterval,
    IsDistinctFrom,
    IsExpr,
    IsFalse,
    IsNull,
    IsTrue,
    IsUnknown,
    IsolationLevel,
    IsolationLevelMode,
    ItemName,
    ItemValue,
    Join,
    JsonFormat,
    KafkaBroker,
    KafkaBrokerAwsPrivatelinkOption,
    KafkaConfigOption,
    KafkaConnection,
    KafkaConnectionOption,
    KafkaConnectionReference,
    KafkaSink,
    KafkaSinkKey,
    KafkaSource,
    KeyMetadata,
    KeyType,
    KeyValueSourceFormat,
    Least,
    LeftOuterJoin,
    Like,
    LikeFilter,
    Limit,
    List,
    ListSubquery,
    ListType,
    LiteralValue,
    LiteralVariable,
    LoadGeneratorOption,
    LoadGeneratorSource,
    LocalScope,
    LogSeverity,
    LogicalCompactionWindow,
    Login,
    MapType,
    Marketing,
    MaterializedViewType,
    MaxCardinality,
    MayCreateCluster,
    MayCreateDb,
    MayCreateRole,
    Minute,
    Month,
    MutRecBlockOption,
    MutuallyRecursiveCtes,
    NamedItem,
    NaturalConstraint,
    Nested,
    NestedJoin,
    NoCreateCluster,
    NoCreateDb,
    NoCreateRole,
    NoInherit,
    NoLogin,
    NoSourceFormat,
    NoSuperUser,
    NoType,
    NoneEnvelope,
    Not,
    NotNull,
    NoticeSeverity,
    Null,
    NullIf,
    NullValue,
    NumberValue,
    OffsetMetadata,
    OnConstraint,
    Op,
    OptimizedPlan,
    Or,
    OrderByExpr,
    OtherType,
    Parameter,
    PartitionCount,
    PartitionMetadata,
    Password,
    PgConfigOption,
    PhysicalPlan,
    Port,
    PostgresConnection,
    PostgresConnectionOption,
    PostgresSource,
    Preceding,
    Prepare,
    PrimaryKeyNotEnforced,
    Privileges,
    Progress,
    ProgressTopic,
    ProtobufCsr,
    ProtobufFormat,
    ProtobufInline,
    Publication,
    QualifiedOp,
    QualifiedReplica,
    QualifiedWildcard,
    Query,
    QueryBody,
    Raise,
    Range,
    RawPlan,
    ReadCommitted,
    ReadOnlyMode,
    ReadUncommitted,
    ReadWriteMode,
    ReassignOwned,
    RecursionLimit,
    References,
    RegexFormat,
    Region,
    RepeatableRead,
    ReplaceExisting,
    ReplicaDefinition,
    ReplicaName,
    ReplicaOption,
    Replicas,
    ReplicationFactor,
    ResetOptions,
    ResetVariable,
    ResolvedCluster,
    Restrict,
    RetentionBytes,
    RetentionMs,
    ReturnAtRecursionLimit,
    RevokePrivileges,
    RevokeRole,
    RightOuterJoin,
    RoleArn,
    RoleName,
    RoleType,
    Rollback,
    Row,
    Rows,
    RowsFrom,
    SaslMechanisms,
    SaslPassword,
    SaslUsername,
    ScaleFactor,
    SchemaName,
    SchemaType,
    Second,
    SecretAccessKey,
    SecretType,
    SecretValue,
    Select,
    SelectBody,
    SelectExpr,
    SelectOption,
    SelectPrivilege,
    SelectStatement,
    SequenceValue,
    Serializable,
    ServiceName,
    SessionScope,
    SetOperation,
    SetOptions,
    SetToDefault,
    SetToValues,
    SetTransaction,
    SetVariable,
    ShowBody,
    ShowCluster,
    ShowClusterReplica,
    ShowColumns,
    ShowConnection,
    ShowCreateConnection,
    ShowCreateIndex,
    ShowCreateMaterializedView,
    ShowCreateSink,
    ShowCreateSource,
    ShowCreateTable,
    ShowCreateView,
    ShowDatabase,
    ShowIndex,
    ShowMaterializedView,
    ShowObject,
    ShowObjects,
    ShowRole,
    ShowSchema,
    ShowSecret,
    ShowSink,
    ShowSource,
    ShowStatement,
    ShowTable,
    ShowType,
    ShowVariable,
    ShowView,
    SimpleCtes,
    SinkType,
    Size,
    SkipExisting,
    Snapshot,
    SourceColumns,
    SourceIncludeMetadata,
    SourceType,
    SshConnection,
    SshConnectionOption,
    SshTunnel,
    SshTunnelTunnel,
    SslCertificate,
    SslCertificateAuthority,
    SslKey,
    SslMode,
    StarArgs,
    StartOffset,
    StartTimestamp,
    StartTransaction,
    StorageAddresses,
    StoragectlAddresses,
    StrategyById,
    StrategyInline,
    StrategyLatest,
    StrictSerializable,
    StringValue,
    Subquery,
    Subscribe,
    SubscribeOption,
    Subscript,
    SubscriptPosition,
    SubsetSchemas,
    SubsetTables,
    SuperUser,
    Table,
    TableAlias,
    TableFunction,
    TableType,
    TableWithJoins,
    TestScriptSource,
    TextColumns,
    TextFormat,
    TickInterval,
    Timeline,
    Timeout,
    TimestampInterval,
    TimestampMetadata,
    TimestampStage,
    Token,
    Topic,
    TopicMetadata,
    TopicMetadataRefreshIntervalMs,
    Tpch,
    Trace,
    TransactionTimeoutMs,
    TypeType,
    Union,
    UniqueColumn,
    UniqueConstraint,
    UnresolvedCluster,
    Update,
    UpdatePrivilege,
    UpsertEnvelope,
    Url,
    UsagePrivilege,
    User,
    Username,
    UsingConstraint,
    ValueType,
    ValuesBody,
    ViewDefinition,
    ViewType,
    WarningSeverity,
    WhereFilter,
    Wildcard,
    WildcardAccess,
    WindowFrame,
    WindowSpec,
    WithinTimestampOrderBy,
    Workers,
    Year,
}

impl View for Kind {
    type V = Kind;

    open spec fn view(&self) -> Kind {
        *self
    }
}

} // verus!
