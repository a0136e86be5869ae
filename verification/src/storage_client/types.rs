//! What collections and exports are described by.

use vstd::prelude::*;

use crate::sql_parser::text::no_text;
use crate::sqllogictest::texts::{join, joined};
use crate::storage_client::frontier::{frontier_le, Frontier};
use crate::storage_client::ids::{id_text, instance_text, GlobalId, ShardId, StorageInstanceId};

verus! {

/// What the controller itself keeps a record of.
#[derive(Debug, Copy, Clone, PartialEq, Eq, Structural)]
pub enum IntrospectionType {
    /// We're not responsible for appending to this collection automatically, but we should
    /// automatically bump the write frontier from time to time.
    SinkStatusHistory,
    SourceStatusHistory,
    ShardMapping,
    StorageSourceStatistics,
    StorageSinkStatistics,
}

/// The schema of a relation, in its encoded form.
#[derive(Debug)]
pub struct RelationDesc {
    pub encoded: Vec<u8>,
}

/// How the updates of a source are understood.
#[derive(Debug, Copy, Clone, PartialEq, Eq, Structural)]
pub enum SourceEnvelope {
    /// The updates are taken as they are.
    Plain,
    /// With the collection that transactions are read from, if any.
    Debezium { tx_metadata_global_id: Option<GlobalId> },
    /// Whether state is kept on disk.
    Upsert { disk: bool },
    CdcV2,
}

/// An output of an ingestion.
#[derive(Debug, Copy, Clone, PartialEq, Eq, Structural)]
pub struct SourceExport {
    pub id: GlobalId,
    pub output_index: usize,
}

/// A description of a source ingestion. Outputs and inputs are in the order of their
/// identifiers; the collection that the ingestion is created for is one of the outputs.
#[derive(Debug)]
pub struct IngestionDescription {
    pub envelope: SourceEnvelope,
    /// The rest of the source's description, in its encoded form.
    pub encoded: Vec<u8>,
    pub source_imports: Vec<GlobalId>,
    pub source_exports: Vec<SourceExport>,
    pub instance_id: StorageInstanceId,
    pub remap_collection_id: GlobalId,
}

/// Describes how data is written to the collection.
#[derive(Debug)]
pub enum DataSource {
    /// Ingest data from some external source.
    Ingestion(IngestionDescription),
    /// Data comes from introspection sources, which the controller itself is
    /// responsible for generating.
    Introspection(IntrospectionType),
    /// Data comes from the source's remapping/reclock operator.
    Progress,
    /// This source's data is does not need to be managed by the storage
    /// controller, e.g. it's a materialized view, table, or subsource.
    Other,
}

/// Describes a request to create a source.
#[derive(Debug)]
pub struct CollectionDescription {
    /// The schema of this collection
    pub desc: RelationDesc,
    /// The source of this collection's data.
    pub data_source: DataSource,
    /// An optional frontier to which the collection's `since` should be advanced.
    pub since: Option<Frontier>,
    /// A GlobalId to use for this collection to use for the status collection.
    /// Used to keep track of source status/error information.
    pub status_collection_id: Option<GlobalId>,
}

/// What an [`IngestionDescription`] stands for.
pub struct IngestionView {
    pub envelope: SourceEnvelope,
    pub encoded: Seq<u8>,
    pub source_imports: Seq<GlobalId>,
    pub source_exports: Seq<SourceExport>,
    pub instance_id: StorageInstanceId,
    pub remap_collection_id: GlobalId,
}

/// What a [`DataSource`] stands for.
pub enum DataSourceView {
    Ingestion(IngestionView),
    Introspection(IntrospectionType),
    Progress,
    Other,
}

/// What a [`CollectionDescription`] stands for.
pub struct DescriptionView {
    pub desc: Seq<u8>,
    pub data_source: DataSourceView,
    pub since: Option<Option<u64>>,
    pub status_collection_id: Option<GlobalId>,
}

impl View for IngestionDescription {
    type V = IngestionView;

    open spec fn view(&self) -> IngestionView {
        IngestionView {
            envelope: self.envelope,
            encoded: self.encoded@,
            source_imports: self.source_imports@,
            source_exports: self.source_exports@,
            instance_id: self.instance_id,
            remap_collection_id: self.remap_collection_id,
        }
    }
}

impl View for DataSource {
    type V = DataSourceView;

    open spec fn view(&self) -> DataSourceView {
        match self {
            DataSource::Ingestion(i) => DataSourceView::Ingestion(i@),
            DataSource::Introspection(i) => DataSourceView::Introspection(*i),
            DataSource::Progress => DataSourceView::Progress,
            DataSource::Other => DataSourceView::Other,
        }
    }
}

/// What a frontier that may be missing stands for.
pub open spec fn since_view(since: Option<Frontier>) -> Option<Option<u64>> {
    match since {
        Some(f) => Some(f@),
        None => None,
    }
}

impl View for CollectionDescription {
    type V = DescriptionView;

    open spec fn view(&self) -> DescriptionView {
        DescriptionView {
            desc: self.desc.encoded@,
            data_source: self.data_source@,
            since: since_view(self.since),
            status_collection_id: self.status_collection_id,
        }
    }
}

/// Whether two lists of bytes are the same.
pub fn same_bytes(a: &Vec<u8>, b: &Vec<u8>) -> (r: bool)
    ensures
        r == (a@ == b@),
{
    if a.len() != b.len() {
        return false;
    }
    let mut k: usize = 0;
    while k < a.len()
        invariant
            k <= a.len(),
            a.len() == b.len(),
            forall|j: int| 0 <= j < k ==> a@[j] == b@[j],
        decreases a.len() - k,
    {
        if a[k] != b[k] {
            return false;
        }
        k += 1;
    }
    assert(a@ =~= b@);
    true
}

/// Whether two lists of identifiers are the same.
pub fn same_ids(a: &Vec<GlobalId>, b: &Vec<GlobalId>) -> (r: bool)
    ensures
        r == (a@ == b@),
{
    if a.len() != b.len() {
        return false;
    }
    let mut k: usize = 0;
    while k < a.len()
        invariant
            k <= a.len(),
            a.len() == b.len(),
            forall|j: int| 0 <= j < k ==> a@[j] == b@[j],
        decreases a.len() - k,
    {
        if a[k] != b[k] {
            return false;
        }
        k += 1;
    }
    assert(a@ =~= b@);
    true
}

fn same_exports(a: &Vec<SourceExport>, b: &Vec<SourceExport>) -> (r: bool)
    ensures
        r == (a@ == b@),
{
    if a.len() != b.len() {
        return false;
    }
    let mut k: usize = 0;
    while k < a.len()
        invariant
            k <= a.len(),
            a.len() == b.len(),
            forall|j: int| 0 <= j < k ==> a@[j] == b@[j],
        decreases a.len() - k,
    {
        if a[k] != b[k] {
            return false;
        }
        k += 1;
    }
    assert(a@ =~= b@);
    true
}

/// The same bytes.
pub fn copy_bytes(a: &Vec<u8>) -> (r: Vec<u8>)
    ensures
        r@ == a@,
{
    let mut out: Vec<u8> = Vec::new();
    let mut k: usize = 0;
    while k < a.len()
        invariant
            k <= a.len(),
            out@ == a@.take(k as int),
        decreases a.len() - k,
    {
        out.push(a[k]);
        k += 1;
        assert(a@.take(k as int) =~= a@.take(k - 1).push(a@[k - 1]));
    }
    assert(a@.take(k as int) =~= a@);
    out
}

/// The same identifiers.
pub fn copy_ids(a: &Vec<GlobalId>) -> (r: Vec<GlobalId>)
    ensures
        r@ == a@,
{
    let mut out: Vec<GlobalId> = Vec::new();
    let mut k: usize = 0;
    while k < a.len()
        invariant
            k <= a.len(),
            out@ == a@.take(k as int),
        decreases a.len() - k,
    {
        out.push(a[k]);
        k += 1;
        assert(a@.take(k as int) =~= a@.take(k - 1).push(a@[k - 1]));
    }
    assert(a@.take(k as int) =~= a@);
    out
}

impl IngestionDescription {
    fn same(&self, other: &IngestionDescription) -> (r: bool)
        ensures
            r == (self@ == other@),
    {
        self.envelope == other.envelope && self.instance_id == other.instance_id
            && self.remap_collection_id == other.remap_collection_id && same_bytes(
            &self.encoded,
            &other.encoded,
        ) && same_ids(&self.source_imports, &other.source_imports) && same_exports(
            &self.source_exports,
            &other.source_exports,
        )
    }
}

/// The identifiers of all storage objects that a description depends on.
pub open spec fn dependencies_of(d: DescriptionView) -> Seq<GlobalId> {
    match d.data_source {
        DataSourceView::Ingestion(i) => match i.envelope {
            SourceEnvelope::Debezium { tx_metadata_global_id: Some(id) } => seq![
                id,
                i.remap_collection_id,
            ],
            _ => seq![i.remap_collection_id],
        },
        _ => Seq::empty(),
    }
}

impl CollectionDescription {
    /// The description of a collection with the given schema and nothing else.
    pub fn from_desc(desc: RelationDesc) -> (r: CollectionDescription)
        ensures
            r.desc == desc,
            r.data_source == DataSource::Other,
            r.since is None,
            r.status_collection_id is None,
    {
        CollectionDescription {
            desc,
            data_source: DataSource::Other,
            since: None,
            status_collection_id: None,
        }
    }

    /// Whether two descriptions are the same.
    pub fn same(&self, other: &CollectionDescription) -> (r: bool)
        ensures
            r == (self@ == other@),
    {
        let since = match (&self.since, &other.since) {
            (Some(a), Some(b)) => a.same(b),
            (None, None) => true,
            _ => false,
        };
        let data_source = match (&self.data_source, &other.data_source) {
            (DataSource::Ingestion(a), DataSource::Ingestion(b)) => a.same(b),
            (DataSource::Introspection(a), DataSource::Introspection(b)) => *a == *b,
            (DataSource::Progress, DataSource::Progress) => true,
            (DataSource::Other, DataSource::Other) => true,
            _ => false,
        };
        since && data_source && self.status_collection_id == other.status_collection_id && same_bytes(
            &self.desc.encoded,
            &other.desc.encoded,
        )
    }

    /// Returns IDs for all storage objects that this `CollectionDescription`
    /// depends on.
    pub fn get_storage_dependencies(&self) -> (r: Vec<GlobalId>)
        ensures
            r@ == dependencies_of(self@),
    {
        let mut result: Vec<GlobalId> = Vec::new();
        // NOTE: Exhaustive match for future proofing.
        match &self.data_source {
            DataSource::Ingestion(ingestion) => {
                match &ingestion.envelope {
                    SourceEnvelope::Debezium { tx_metadata_global_id } => {
                        if let Some(tx_input) = tx_metadata_global_id {
                            result.push(*tx_input);
                        }
                    },
                    SourceEnvelope::Plain | SourceEnvelope::Upsert { .. } | SourceEnvelope::CdcV2 => {
                        // No storage dependencies.
                    },
                }
                result.push(ingestion.remap_collection_id);
            },
            DataSource::Introspection(_) | DataSource::Progress => {
                // Introspection, Progress sources have no dependencies, for
                // now.
            },
            DataSource::Other => {
                // We don't know anything about it's dependencies.
            },
        }
        assert(result@ =~= dependencies_of(self@));
        result
    }

    /// The instance that the collection is bound to, if it is.
    pub fn cluster_id(&self) -> (r: Option<StorageInstanceId>)
        ensures
            r == cluster_of(self@),
    {
        match &self.data_source {
            DataSource::Ingestion(ingestion) => Some(ingestion.instance_id),
            DataSource::Introspection(_) | DataSource::Other | DataSource::Progress => None,
        }
    }
}

/// The instance that a collection is bound to, if it is.
pub open spec fn cluster_of(d: DescriptionView) -> Option<StorageInstanceId> {
    match d.data_source {
        DataSourceView::Ingestion(i) => Some(i.instance_id),
        _ => None,
    }
}

/// From when on a sink takes the updates of its collection.
#[derive(Debug)]
pub struct SinkAsOf {
    pub frontier: Frontier,
    /// Whether the updates at the frontier itself are left out.
    pub strict: bool,
}

impl View for SinkAsOf {
    type V = (Option<u64>, bool);

    open spec fn view(&self) -> (Option<u64>, bool) {
        (self.frontier@, self.strict)
    }
}

/// A sink's start once its collection can be read from `since` on only.
pub open spec fn downgraded(as_of: (Option<u64>, bool), since: Option<u64>) -> (Option<u64>, bool) {
    if frontier_le(as_of.0, since) {
        (since, true)
    } else {
        as_of
    }
}

impl SinkAsOf {
    /// Forwards the since frontier of this `SinkAsOf`. If it is already
    /// sufficiently far advanced the downgrade is a no-op.
    pub fn downgrade(self, since: &Frontier) -> (r: SinkAsOf)
        ensures
            r@ == downgraded(self@, since@),
    {
        if self.frontier.less_equal(since) {
            // If we're using the since, never read the snapshot
            SinkAsOf { frontier: since.copy(), strict: true }
        } else {
            self
        }
    }

    /// The same start.
    pub fn copy(&self) -> (r: SinkAsOf)
        ensures
            r@ == self@,
    {
        SinkAsOf { frontier: self.frontier.copy(), strict: self.strict }
    }
}

/// Describes a sink.
#[derive(Debug)]
pub struct ExportDescription {
    /// The collection that is exported.
    pub from: GlobalId,
    pub from_desc: RelationDesc,
    /// The sink's connection and envelope, in their encoded form.
    pub encoded: Vec<u8>,
    pub as_of: SinkAsOf,
    pub status_id: Option<GlobalId>,
    /// The ID of the instance in which to install the export.
    pub instance_id: StorageInstanceId,
}

/// What an [`ExportDescription`] stands for.
pub struct ExportView {
    pub from: GlobalId,
    pub from_desc: Seq<u8>,
    pub encoded: Seq<u8>,
    pub as_of: (Option<u64>, bool),
    pub status_id: Option<GlobalId>,
    pub instance_id: StorageInstanceId,
}

impl View for ExportDescription {
    type V = ExportView;

    open spec fn view(&self) -> ExportView {
        ExportView {
            from: self.from,
            from_desc: self.from_desc.encoded@,
            encoded: self.encoded@,
            as_of: self.as_of@,
            status_id: self.status_id,
            instance_id: self.instance_id,
        }
    }
}

impl ExportDescription {
    /// Whether two descriptions are the same.
    pub fn same(&self, other: &ExportDescription) -> (r: bool)
        ensures
            r == (self@ == other@),
    {
        self.from == other.from && self.status_id == other.status_id && self.instance_id
            == other.instance_id && self.as_of.strict == other.as_of.strict && self.as_of.frontier.same(
            &other.as_of.frontier,
        ) && same_bytes(&self.from_desc.encoded, &other.from_desc.encoded) && same_bytes(
            &self.encoded,
            &other.encoded,
        )
    }
}

/// Opaque token to ensure `prepare_export` is called before `create_exports`.  This token proves
/// that compaction is being held back on `from_id` at least until `id` is created.  It should be
/// held while the AS OF is determined.
#[derive(Debug)]
pub struct CreateExportToken {
    pub(crate) id: GlobalId,
    pub(crate) from_id: GlobalId,
    pub(crate) acquired_since: Frontier,
}

/// What a [`CreateExportToken`] stands for.
pub struct TokenView {
    pub id: GlobalId,
    pub from_id: GlobalId,
    pub acquired_since: Option<u64>,
}

impl View for CreateExportToken {
    type V = TokenView;

    closed spec fn view(&self) -> TokenView {
        TokenView { id: self.id, from_id: self.from_id, acquired_since: self.acquired_since@ }
    }
}

impl CreateExportToken {
    pub(crate) fn make(id: GlobalId, from_id: GlobalId, acquired_since: Frontier) -> (r: CreateExportToken)
        ensures
            r@ == (TokenView { id, from_id, acquired_since: acquired_since@ }),
    {
        CreateExportToken { id, from_id, acquired_since }
    }

    /// Returns the ID of the export with which the token is associated.
    pub fn id(&self) -> (r: GlobalId)
        ensures
            r == self@.id,
    {
        self.id
    }

    /// The collection that is exported.
    pub fn from_id(&self) -> (r: GlobalId)
        ensures
            r == self@.from_id,
    {
        self.from_id
    }

    /// The frontier at which compaction is held back.
    pub fn acquired_since(&self) -> (r: Frontier)
        ensures
            r@ == self@.acquired_since,
    {
        self.acquired_since.copy()
    }
}

/// Where shards are kept.
#[derive(Debug)]
pub struct PersistLocation {
    pub blob_uri: String,
    pub consensus_uri: String,
}

/// Metadata required by a storage instance to read a storage collection
#[derive(Debug)]
pub struct CollectionMetadata {
    /// The persist location where the shards are located.
    pub persist_location: PersistLocation,
    /// The persist shard id of the remap collection used to reclock this collection.
    pub remap_shard: Option<ShardId>,
    /// The persist shard containing the contents of this storage collection.
    pub data_shard: ShardId,
    /// The persist shard containing the status updates for this storage collection.
    pub status_shard: Option<ShardId>,
    /// The `RelationDesc` that describes the contents of the `data_shard`.
    pub relation_desc: RelationDesc,
}

/// What a [`CollectionMetadata`] stands for.
pub struct MetadataView {
    pub blob_uri: Seq<char>,
    pub consensus_uri: Seq<char>,
    pub remap_shard: Option<ShardId>,
    pub data_shard: ShardId,
    pub status_shard: Option<ShardId>,
    pub relation_desc: Seq<u8>,
}

impl View for CollectionMetadata {
    type V = MetadataView;

    open spec fn view(&self) -> MetadataView {
        MetadataView {
            blob_uri: self.persist_location.blob_uri@,
            consensus_uri: self.persist_location.consensus_uri@,
            remap_shard: self.remap_shard,
            data_shard: self.data_shard,
            status_shard: self.status_shard,
            relation_desc: self.relation_desc.encoded@,
        }
    }
}

impl CollectionMetadata {
    /// The same metadata.
    pub fn copy(&self) -> (r: CollectionMetadata)
        ensures
            r@ == self@,
    {
        CollectionMetadata {
            persist_location: PersistLocation {
                blob_uri: self.persist_location.blob_uri.clone(),
                consensus_uri: self.persist_location.consensus_uri.clone(),
            },
            remap_shard: self.remap_shard,
            data_shard: self.data_shard,
            status_shard: self.status_shard,
            relation_desc: RelationDesc { encoded: copy_bytes(&self.relation_desc.encoded) },
        }
    }
}

/// The subset of [`CollectionMetadata`] that must be durable stored.
#[derive(Debug, Copy, Clone, PartialEq, Eq, Structural)]
pub struct DurableCollectionMetadata {
    pub remap_shard: Option<ShardId>,
    pub data_shard: ShardId,
}

/// What is durably stored of an export.
#[derive(Debug)]
pub struct DurableExportMetadata {
    pub initial_as_of: SinkAsOf,
}

/// What went wrong in the storage layer.
#[derive(Debug)]
pub enum StorageError {
    /// The source identifier was re-created after having been dropped,
    /// or installed with a different description.
    SourceIdReused(GlobalId),
    /// The sink identifier was re-created after having been dropped, or
    /// installed with a different description.
    SinkIdReused(GlobalId),
    /// The source identifier is not present.
    IdentifierMissing(GlobalId),
    /// The update contained in the appended batch was at a timestamp equal or beyond the batch's upper
    UpdateBeyondUpper(GlobalId),
    /// The read was at a timestamp before the collection's since
    ReadBeforeSince(GlobalId),
    /// The expected upper of one or more appends was different from the actual upper of the collection
    InvalidUppers(Vec<GlobalId>),
    /// An operation failed to read or write state
    IOError(String),
    /// The (client for) the requested cluster instance is missing.
    IngestionInstanceMissing { storage_instance_id: StorageInstanceId, ingestion_id: GlobalId },
    /// The (client for) the requested cluster instance is missing.
    ExportInstanceMissing { storage_instance_id: StorageInstanceId, export_id: GlobalId },
    /// Dataflow was not able to process a request
    DataflowError(String),
    /// The controller API was used in some invalid way. This usually indicates
    /// a bug.
    InvalidUsage(String),
    /// A generic error that happens during operations of the storage controller, and what
    /// caused it.
    Generic(String, Option<String>),
}

/// What a [`StorageError`] stands for.
pub enum ErrorView {
    SourceIdReused(GlobalId),
    SinkIdReused(GlobalId),
    IdentifierMissing(GlobalId),
    UpdateBeyondUpper(GlobalId),
    ReadBeforeSince(GlobalId),
    InvalidUppers(Seq<GlobalId>),
    IOError(Seq<char>),
    IngestionInstanceMissing(StorageInstanceId, GlobalId),
    ExportInstanceMissing(StorageInstanceId, GlobalId),
    DataflowError(Seq<char>),
    InvalidUsage(Seq<char>),
    Generic(Seq<char>, Option<Seq<char>>),
}

impl View for StorageError {
    type V = ErrorView;

    open spec fn view(&self) -> ErrorView {
        match self {
            StorageError::SourceIdReused(id) => ErrorView::SourceIdReused(*id),
            StorageError::SinkIdReused(id) => ErrorView::SinkIdReused(*id),
            StorageError::IdentifierMissing(id) => ErrorView::IdentifierMissing(*id),
            StorageError::UpdateBeyondUpper(id) => ErrorView::UpdateBeyondUpper(*id),
            StorageError::ReadBeforeSince(id) => ErrorView::ReadBeforeSince(*id),
            StorageError::InvalidUppers(ids) => ErrorView::InvalidUppers(ids@),
            StorageError::IOError(e) => ErrorView::IOError(e@),
            StorageError::IngestionInstanceMissing { storage_instance_id, ingestion_id } =>
                ErrorView::IngestionInstanceMissing(*storage_instance_id, *ingestion_id),
            StorageError::ExportInstanceMissing { storage_instance_id, export_id } =>
                ErrorView::ExportInstanceMissing(*storage_instance_id, *export_id),
            StorageError::DataflowError(e) => ErrorView::DataflowError(e@),
            StorageError::InvalidUsage(e) => ErrorView::InvalidUsage(e@),
            StorageError::Generic(e, cause) => ErrorView::Generic(
                e@,
                match cause {
                    Some(c) => Some(c@),
                    None => None,
                },
            ),
        }
    }
}

/// Identifiers as texts.
pub open spec fn id_texts(ids: Seq<GlobalId>) -> Seq<Seq<char>> {
    Seq::new(ids.len(), |k: int| id_text(ids[k]))
}

/// How an error is shown, behind the words that all errors start with.
pub open spec fn error_detail(e: ErrorView) -> Seq<char> {
    match e {
        ErrorView::SourceIdReused(id) => no_text()
            + "source identifier was re-created after having been dropped: "@ + id_text(id),
        ErrorView::SinkIdReused(id) => no_text()
            + "sink identifier was re-created after having been dropped: "@ + id_text(id),
        ErrorView::IdentifierMissing(id) => no_text() + "collection identifier is not present: "@
            + id_text(id),
        ErrorView::UpdateBeyondUpper(id) => no_text() + "append batch for "@ + id_text(id)
            + " contained update at or beyond its upper"@,
        ErrorView::ReadBeforeSince(id) => no_text() + "read for "@ + id_text(id)
            + " was at a timestamp before its since"@,
        ErrorView::InvalidUppers(ids) => no_text()
            + "expected upper was different from the actual upper for: "@ + joined(id_texts(ids), ", "@),
        ErrorView::IngestionInstanceMissing(instance, id) => no_text() + "instance "@ + instance_text(
            instance,
        ) + " missing for ingestion "@ + id_text(id),
        ErrorView::ExportInstanceMissing(instance, id) => no_text() + "instance "@ + instance_text(
            instance,
        ) + " missing for export "@ + id_text(id),
        ErrorView::IOError(_) => "failed to read or write state"@,
        ErrorView::DataflowError(_) => "dataflow failed to process request"@,
        ErrorView::InvalidUsage(err) => no_text() + "invalid usage: "@ + err,
        ErrorView::Generic(err, _) => err,
    }
}

/// How an error is shown.
pub open spec fn error_text(e: ErrorView) -> Seq<char> {
    no_text() + "storage error: "@ + error_detail(e)
}

/// What caused an error, if that is known.
pub open spec fn error_source(e: ErrorView) -> Option<Seq<char>> {
    match e {
        ErrorView::IOError(err) => Some(err),
        ErrorView::DataflowError(err) => Some(err),
        ErrorView::Generic(_, cause) => cause,
        _ => None,
    }
}

fn id_strings(ids: &Vec<GlobalId>) -> (r: Vec<String>)
    ensures
        crate::sql_parser::text::texts_view(r@) == id_texts(ids@),
{
    let mut out: Vec<String> = Vec::new();
    let mut k: usize = 0;
    while k < ids.len()
        invariant
            k <= ids.len(),
            out.len() == k,
            forall|j: int| 0 <= j < k ==> (#[trigger] out@[j])@ == id_text(ids@[j]),
        decreases ids.len() - k,
    {
        out.push(ids[k].to_text());
        k += 1;
    }
    assert(crate::sql_parser::text::texts_view(out@) =~= id_texts(ids@));
    out
}

impl StorageError {
    fn detail(&self) -> (r: String)
        ensures
            r@ == error_detail(self@),
    {
        match self {
            StorageError::SourceIdReused(id) => String::new().concat(
                "source identifier was re-created after having been dropped: ",
            ).concat(id.to_text().as_str()),
            StorageError::SinkIdReused(id) => String::new().concat(
                "sink identifier was re-created after having been dropped: ",
            ).concat(id.to_text().as_str()),
            StorageError::IdentifierMissing(id) => String::new().concat(
                "collection identifier is not present: ",
            ).concat(id.to_text().as_str()),
            StorageError::UpdateBeyondUpper(id) => String::new().concat("append batch for ").concat(
                id.to_text().as_str(),
            ).concat(" contained update at or beyond its upper"),
            StorageError::ReadBeforeSince(id) => String::new().concat("read for ").concat(
                id.to_text().as_str(),
            ).concat(" was at a timestamp before its since"),
            StorageError::InvalidUppers(ids) => String::new().concat(
                "expected upper was different from the actual upper for: ",
            ).concat(join(&id_strings(ids), ", ").as_str()),
            StorageError::IngestionInstanceMissing { storage_instance_id, ingestion_id } =>
                String::new().concat("instance ").concat(
                storage_instance_id.to_text().as_str(),
            ).concat(" missing for ingestion ").concat(ingestion_id.to_text().as_str()),
            StorageError::ExportInstanceMissing { storage_instance_id, export_id } =>
                String::new().concat("instance ").concat(
                storage_instance_id.to_text().as_str(),
            ).concat(" missing for export ").concat(export_id.to_text().as_str()),
            // N.B. For these errors, the underlying error is reported in `source()`, and it
            // is the responsibility of the caller to print the chain of errors, when desired.
            StorageError::IOError(_) => String::from_str("failed to read or write state"),
            StorageError::DataflowError(_) => String::from_str("dataflow failed to process request"),
            StorageError::InvalidUsage(err) => String::new().concat("invalid usage: ").concat(
                err.as_str(),
            ),
            StorageError::Generic(err, _) => err.clone(),
        }
    }

    /// How the error is shown.
    pub fn to_text(&self) -> (r: String)
        ensures
            r@ == error_text(self@),
    {
        String::new().concat("storage error: ").concat(self.detail().as_str())
    }

    /// What caused the error, if that is known.
    pub fn source(&self) -> (r: Option<String>)
        ensures
            match r {
                Some(s) => error_source(self@) == Some(s@),
                None => error_source(self@) is None,
            },
    {
        match self {
            StorageError::IOError(err) => Some(err.clone()),
            StorageError::DataflowError(err) => Some(err.clone()),
            StorageError::Generic(_, cause) => match cause {
                Some(c) => Some(c.clone()),
                None => None,
            },
            _ => None,
        }
    }
}

} // verus!
