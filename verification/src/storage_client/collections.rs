//! Creating collections.

use vstd::prelude::*;

use crate::sql_parser::text::no_text;
use crate::storage_client::capabilities::Fault;
use crate::storage_client::changes::{first_time, hold_at, Batch};
use crate::storage_client::controller::{
    applied, introspection_id, is_state, policies_view, same_for_all, since_joined,
    statistics_view, with_introspection, with_policies, StateView, StorageControllerState,
};
use crate::storage_client::frontier::{frontier_lt, Frontier};
use crate::storage_client::id_map::{in_order, lists, IdMap};
use crate::storage_client::ids::{id_rank, rank_of, GlobalId, ShardId, StorageInstanceId};
use crate::storage_client::policy::{PolicyView, ReadPolicy};
use crate::storage_client::state::{CollectionState, CollectionView};
use crate::storage_client::types::{
    copy_bytes, copy_ids, dependencies_of, CollectionDescription, CollectionMetadata, DataSource,
    DataSourceView, DescriptionView, DurableCollectionMetadata, ErrorView, IngestionView,
    IntrospectionType, MetadataView, PersistLocation, RelationDesc, SourceEnvelope, SourceExport,
    StorageError,
};

verus! {

/// Requests to create collections.
pub open spec fn requests_view(requests: Seq<(GlobalId, CollectionDescription)>) -> Seq<
    (GlobalId, DescriptionView),
> {
    Seq::new(requests.len(), |k: int| (requests[k].0, requests[k].1@))
}

/// Descriptions themselves.
pub open spec fn descriptions_view(descriptions: Map<GlobalId, CollectionDescription>) -> Map<
    GlobalId,
    DescriptionView,
> {
    Map::new(|id: GlobalId| descriptions.dom().contains(id), |id: GlobalId| descriptions[id]@)
}

/// Whether an identifier is requested with different descriptions.
pub open spec fn is_ambiguous(requests: Seq<(GlobalId, DescriptionView)>, id: GlobalId) -> bool {
    exists|i: int, j: int|
        0 <= i < requests.len() && 0 <= j < requests.len() && (#[trigger] requests[i]).0 == id && (
        #[trigger] requests[j]).0 == id && requests[i].1 != requests[j].1
}

/// Whether an identifier is requested that was dropped, or with another description than it
/// has.
pub open spec fn is_taken(s: StateView, requests: Seq<(GlobalId, DescriptionView)>, id: GlobalId) -> bool {
    s.collections.dom().contains(id) && exists|k: int|
        0 <= k < requests.len() && (#[trigger] requests[k]).0 == id && (s.collections[id].dropped
            || requests[k].1 != s.collections[id].description)
}

/// Whether descriptions are those that are requested.
pub open spec fn are_requested(
    requests: Seq<(GlobalId, DescriptionView)>,
    descriptions: Map<GlobalId, DescriptionView>,
) -> bool {
    &&& forall|k: int|
        0 <= k < requests.len() ==> descriptions.dom().contains((#[trigger] requests[k]).0)
            && descriptions[requests[k].0] == requests[k].1
    &&& forall|id: GlobalId| #[trigger]
        descriptions.dom().contains(id) ==> exists|k: int|
            0 <= k < requests.len() && (#[trigger] requests[k]).0 == id
}

/// What of the requests so far is known: a description for each identifier, and the first
/// identifier with different ones.
spec fn are_gathered(
    requests: Seq<(GlobalId, DescriptionView)>,
    descriptions: Map<GlobalId, DescriptionView>,
    worst: Option<GlobalId>,
) -> bool {
    &&& forall|id: GlobalId| #[trigger]
        descriptions.dom().contains(id) == exists|k: int|
            0 <= k < requests.len() && (#[trigger] requests[k]).0 == id
    &&& forall|id: GlobalId| #[trigger]
        descriptions.dom().contains(id) ==> exists|k: int|
            0 <= k < requests.len() && #[trigger] requests[k] == (id, descriptions[id])
    &&& forall|k: int|
        0 <= k < requests.len() && (#[trigger] requests[k]).1 != descriptions[requests[k].0] ==> worst
            is Some
    &&& worst matches Some(w) ==> is_ambiguous(requests, w)
    &&& forall|k: int|
        0 <= k < requests.len() && (#[trigger] requests[k]).1 != descriptions[requests[k].0] ==> id_rank(
            worst->0,
        ) <= id_rank(requests[k].0)
}

proof fn lemma_gathered(
    requests: Seq<(GlobalId, DescriptionView)>,
    descriptions: Map<GlobalId, DescriptionView>,
    worst: Option<GlobalId>,
    id: GlobalId,
)
    requires
        are_gathered(requests, descriptions, worst),
        is_ambiguous(requests, id),
    ensures
        worst matches Some(w) && id_rank(w) <= id_rank(id),
{
    let (i, j) = choose|i: int, j: int|
        0 <= i < requests.len() && 0 <= j < requests.len() && (#[trigger] requests[i]).0 == id && (
        #[trigger] requests[j]).0 == id && requests[i].1 != requests[j].1;
    assert(requests[i].1 != descriptions[id] || requests[j].1 != descriptions[id]);
}

/// What a collection's shards are looked up in: what is stored, but for the collections that
/// are created with it and come no later.
pub open spec fn shard_found(
    durable: Map<GlobalId, DurableCollectionMetadata>,
    created: Set<GlobalId>,
    id: GlobalId,
    wanted: GlobalId,
) -> bool {
    durable.dom().contains(wanted) && !(created.contains(wanted) && id_rank(wanted) <= id_rank(id))
}

/// The collection whose data tell how the times of an ingestion are to be understood.
pub open spec fn remap_of(d: DescriptionView) -> Option<GlobalId> {
    match d.data_source {
        DataSourceView::Ingestion(i) => Some(i.remap_collection_id),
        _ => None,
    }
}

/// The shard of a collection that may be missing.
pub open spec fn shard_at(durable: Map<GlobalId, DurableCollectionMetadata>, id: Option<GlobalId>) -> Option<
    ShardId,
> {
    match id {
        Some(id) => Some(durable[id].data_shard),
        None => None,
    }
}

/// The metadata of a collection, or the identifier that is missing for it.
pub open spec fn enriched(
    blob_uri: Seq<char>,
    consensus_uri: Seq<char>,
    durable: Map<GlobalId, DurableCollectionMetadata>,
    created: Set<GlobalId>,
    id: GlobalId,
    d: DescriptionView,
) -> Result<MetadataView, GlobalId> {
    if d.status_collection_id matches Some(x) && !shard_found(durable, created, id, x) {
        Err(d.status_collection_id->0)
    } else if remap_of(d) matches Some(x) && !shard_found(durable, created, id, x) {
        Err(remap_of(d)->0)
    } else {
        Ok(
            MetadataView {
                blob_uri,
                consensus_uri,
                remap_shard: shard_at(durable, remap_of(d)),
                data_shard: durable[id].data_shard,
                status_shard: shard_at(durable, d.status_collection_id),
                relation_desc: d.desc,
            },
        )
    }
}

fn lookup_shard(
    durable: &IdMap<DurableCollectionMetadata>,
    created: &IdMap<CollectionDescription>,
    id: GlobalId,
    wanted: GlobalId,
) -> (r: Option<ShardId>)
    ensures
        r == (if shard_found(durable@, created@.dom(), id, wanted) {
            Some(durable@[wanted].data_shard)
        } else {
            None
        }),
{
    if created.contains(wanted) && rank_of(wanted) <= rank_of(id) {
        return None;
    }
    match durable.get(wanted) {
        Some(m) => Some(m.data_shard),
        None => None,
    }
}

/// Enriches a collection description with the metadata of its shards.
pub fn enrich(
    persist_location: &PersistLocation,
    durable: &IdMap<DurableCollectionMetadata>,
    created: &IdMap<CollectionDescription>,
    id: GlobalId,
    description: &CollectionDescription,
) -> (r: Result<CollectionMetadata, StorageError>)
    requires
        durable@.dom().contains(id),
        durable@[id].remap_shard is None,
    ensures
        match enriched(
            persist_location.blob_uri@,
            persist_location.consensus_uri@,
            durable@,
            created@.dom(),
            id,
            description@,
        ) {
            Ok(m) => r matches Ok(n) && n@ == m,
            Err(x) => r matches Err(e) && e@ == ErrorView::IdentifierMissing(x),
        },
{
    let data_shard = match durable.get(id) {
        Some(m) => m.data_shard,
        None => ShardId(0),
    };
    let status_shard = match description.status_collection_id {
        Some(status_id) => match lookup_shard(durable, created, id, status_id) {
            Some(shard) => Some(shard),
            None => {
                return Err(StorageError::IdentifierMissing(status_id));
            },
        },
        None => None,
    };
    let remap_shard = match &description.data_source {
        // Only ingestions can have remap shards.
        DataSource::Ingestion(ingestion) => {
            // Iff ingestion has a remap collection, its metadata must
            // exist (and be correct) by this point.
            let remap_id = ingestion.remap_collection_id;
            match lookup_shard(durable, created, id, remap_id) {
                Some(shard) => Some(shard),
                None => {
                    return Err(StorageError::IdentifierMissing(remap_id));
                },
            }
        },
        _ => None,
    };
    Ok(
        CollectionMetadata {
            persist_location: PersistLocation {
                blob_uri: persist_location.blob_uri.clone(),
                consensus_uri: persist_location.consensus_uri.clone(),
            },
            remap_shard,
            data_shard,
            status_shard,
            relation_desc: RelationDesc { encoded: copy_bytes(&description.desc.encoded) },
        },
    )
}

/// The first of several collections for which an identifier is missing, and which.
pub open spec fn first_unenriched(
    durable: Map<GlobalId, DurableCollectionMetadata>,
    created: Map<GlobalId, DescriptionView>,
    ids: Seq<GlobalId>,
) -> Option<GlobalId>
    decreases ids.len(),
{
    if ids.len() == 0 {
        None
    } else {
        match enriched(no_text(), no_text(), durable, created.dom(), ids[0], created[ids[0]]) {
            Err(x) => Some(x),
            Ok(_) => first_unenriched(durable, created, ids.drop_first()),
        }
    }
}

/// Enriches collection descriptions with the metadata of their shards.
pub fn enrich_all(
    persist_location: &PersistLocation,
    durable: &IdMap<DurableCollectionMetadata>,
    created: &IdMap<CollectionDescription>,
) -> (r: Result<IdMap<CollectionMetadata>, StorageError>)
    requires
        forall|id: GlobalId| #[trigger]
            created@.dom().contains(id) ==> durable@.dom().contains(id) && durable@[id].remap_shard is None,
    ensures
        match first_unenriched(
            durable@,
            descriptions_view(created@),
            in_order(created@.dom()),
        ) {
            Some(x) => r matches Err(e) && e@ == ErrorView::IdentifierMissing(x),
            None => {
                &&& r matches Ok(m)
                &&& m@.dom() == created@.dom()
                &&& forall|id: GlobalId| #[trigger]
                    created@.dom().contains(id) ==> enriched(
                        persist_location.blob_uri@,
                        persist_location.consensus_uri@,
                        durable@,
                        created@.dom(),
                        id,
                        created@[id]@,
                    ) == Ok::<MetadataView, GlobalId>(m@[id]@)
            },
        },
{
    let ghost views = descriptions_view(created@);
    let mut out: IdMap<CollectionMetadata> = IdMap::new();
    let ids = created.ids();
    let mut k: usize = 0;
    assert(ids@.skip(0) =~= ids@);
    assert(views.dom() =~= created@.dom());
    while k < ids.len()
        invariant
            k <= ids.len(),
            views == descriptions_view(created@),
            views.dom() == created@.dom(),
            ids@ == in_order(created@.dom()),
            lists(ids@, created@.dom()),
            forall|id: GlobalId| #[trigger]
                created@.dom().contains(id) ==> durable@.dom().contains(id)
                    && durable@[id].remap_shard is None,
            first_unenriched(durable@, views, ids@) == first_unenriched(
                durable@,
                views,
                ids@.skip(k as int),
            ),
            forall|id: GlobalId| #[trigger]
                out@.dom().contains(id) == ids@.take(k as int).contains(id),
            forall|id: GlobalId| #[trigger]
                out@.dom().contains(id) ==> enriched(
                    persist_location.blob_uri@,
                    persist_location.consensus_uri@,
                    durable@,
                    created@.dom(),
                    id,
                    created@[id]@,
                ) == Ok::<MetadataView, GlobalId>(out@[id]@),
        decreases ids.len() - k,
    {
        let id = ids[k];
        proof {
            assert(created@.dom().contains(ids@[k as int]));
            assert(ids@.skip(k as int)[0] == id);
            assert(ids@.skip(k as int).drop_first() =~= ids@.skip(k + 1));
        }
        if let Some(description) = created.get(id) {
            match enrich(persist_location, durable, created, id, description) {
                Ok(m) => {
                    out.insert(id, m);
                },
                Err(e) => {
                    return Err(e);
                },
            }
        }
        proof {
            assert forall|other: GlobalId| ids@.take(k + 1).contains(other) == (ids@.take(
                k as int,
            ).contains(other) || other == id) by {
                if other == id {
                    assert(ids@.take(k + 1)[k as int] == id);
                } else if ids@.take(k + 1).contains(other) {
                    let j = ids@.take(k + 1).index_of(other);
                    assert(ids@.take(k as int)[j] == other);
                } else if ids@.take(k as int).contains(other) {
                    let j = ids@.take(k as int).index_of(other);
                    assert(ids@.take(k + 1)[j] == other);
                }
            }
        }
        k += 1;
    }
    proof {
        assert(ids@.take(k as int) =~= ids@);
        assert forall|id: GlobalId| #[trigger] created@.dom().contains(id) implies out@.dom().contains(id) by {
            assert(ids@.contains(id));
        }
        assert(out@.dom() =~= created@.dom());
    }
    Ok(out)
}

/// The objects that an ingestion has statistics for: the collection itself and its outputs.
pub open spec fn measured(d: DescriptionView, id: GlobalId) -> Set<GlobalId> {
    match d.data_source {
        DataSourceView::Ingestion(i) => Set::new(
            |x: GlobalId|
                x == id || exists|k: int|
                    0 <= k < i.source_exports.len() && (#[trigger] i.source_exports[k]).id == x,
        ),
        _ => Set::empty(),
    }
}

/// Statistics once some of them start anew.
pub open spec fn restarted(
    stats: Map<GlobalId, Seq<(usize, Seq<u8>)>>,
    ids: Set<GlobalId>,
) -> Map<GlobalId, Seq<(usize, Seq<u8>)>> {
    Map::new(
        |id: GlobalId| stats.dom().contains(id) || ids.contains(id),
        |id: GlobalId|
            if ids.contains(id) {
                Seq::empty()
            } else {
                stats[id]
            },
    )
}

/// A collection that is new, with the frontiers of its shard.
pub open spec fn new_collection(d: DescriptionView, since: Option<u64>, upper: Option<u64>, m: MetadataView) -> CollectionView {
    CollectionView {
        description: d,
        read_capabilities: Batch { counts: hold_at(since) },
        implied_capability: since,
        read_policy: PolicyView::NoPolicy(since),
        storage_dependencies: Seq::empty(),
        write_frontier: upper,
        collection_metadata: m,
        dropped: false,
    }
}

/// The state once the outputs of an ingestion hold back what they depend on. The implied
/// capability of each is advanced to where the dependencies can be read.
pub open spec fn patched(
    s: StateView,
    outputs: Seq<SourceExport>,
    deps: Seq<GlobalId>,
    since: Option<u64>,
) -> Result<StateView, Fault>
    decreases outputs.len(),
{
    if outputs.len() == 0 {
        Ok(s)
    } else {
        match patched_one(s, outputs[0].id, deps, since) {
            Ok(now) => patched(now, outputs.drop_first(), deps, since),
            Err(f) => Err(f),
        }
    }
}

/// The state once an output has an implied capability that is not before where its dependencies
/// can be read.
pub open spec fn advanced_to(s: StateView, id: GlobalId, since: Option<u64>) -> Result<StateView, Fault> {
    let c = s.collections[id];
    if !s.collections.dom().contains(id) {
        Err(Fault::Unknown(id))
    } else if !frontier_lt(c.implied_capability, since) {
        Ok(s)
    } else if !frontier_lt(since, c.write_frontier) {
        Err(Fault::SinceBeyondUpper(id))
    } else {
        with_policies(s, seq![(id, PolicyView::NoPolicy(since))])
    }
}

/// The state once an output holds back what it depends on.
pub open spec fn patched_one(s: StateView, id: GlobalId, deps: Seq<GlobalId>, since: Option<u64>) -> Result<
    StateView,
    Fault,
> {
    match advanced_to(s, id, since) {
        Err(f) => Err(f),
        Ok(now) => {
            let c = now.collections[id];
            if !now.collections.dom().contains(id) {
                Err(Fault::Unknown(id))
            } else if frontier_lt(first_time(c.read_capabilities.counts), c.implied_capability) {
                Err(Fault::HeldBack(id))
            } else {
                let more = CollectionView {
                    storage_dependencies: c.storage_dependencies + deps,
                    ..c
                };
                applied(
                    StateView { collections: now.collections.insert(id, more), ..now },
                    same_for_all(deps, hold_at(c.implied_capability)),
                )
            }
        },
    }
}

fn frontier_at(t: Option<u64>) -> (r: Frontier)
    ensures
        r@ == t,
{
    match t {
        Some(t) => Frontier::from_elem(t),
        None => Frontier::new(),
    }
}

/// What is done about a collection that the controller itself writes.
#[derive(Debug, Copy, Clone, PartialEq, Eq, Structural)]
pub enum IntrospectionAction {
    /// Write down which collections have which shards.
    InitializeShardMapping,
    /// Empty the collection, then write statistics of sources from time to time.
    ScrapeSourceStatistics,
    /// Empty the collection, then write statistics of sinks from time to time.
    ScrapeSinkStatistics,
    /// Remove all but the last entries of each source.
    ReconcileSourceStatusHistory,
    /// Nothing: the collection is append only.
    Nothing,
}

/// What is done about a collection that the controller itself writes.
pub open spec fn action_for(i: IntrospectionType) -> IntrospectionAction {
    match i {
        IntrospectionType::ShardMapping => IntrospectionAction::InitializeShardMapping,
        IntrospectionType::StorageSourceStatistics => IntrospectionAction::ScrapeSourceStatistics,
        IntrospectionType::StorageSinkStatistics => IntrospectionAction::ScrapeSinkStatistics,
        IntrospectionType::SourceStatusHistory => IntrospectionAction::ReconcileSourceStatusHistory,
        IntrospectionType::SinkStatusHistory => IntrospectionAction::Nothing,
    }
}

/// A collection that an ingestion reads or writes, with its metadata.
#[derive(Debug)]
pub struct ShardUse {
    pub id: GlobalId,
    pub output_index: Option<usize>,
    pub metadata: CollectionMetadata,
}

/// What an instance is told to create an ingestion, apart from the ingestion's description.
#[derive(Debug)]
pub struct IngestionCommand {
    pub id: GlobalId,
    pub instance_id: StorageInstanceId,
    pub ingestion_metadata: CollectionMetadata,
    pub source_imports: Vec<ShardUse>,
    pub source_exports: Vec<ShardUse>,
}

/// What an ingestion reads or writes.
pub open spec fn uses_view(uses: Seq<ShardUse>) -> Seq<(GlobalId, Option<usize>, MetadataView)> {
    Seq::new(uses.len(), |k: int| (uses[k].id, uses[k].output_index, uses[k].metadata@))
}

/// What an ingestion reads.
pub open spec fn imports_of(s: StateView, i: IngestionView) -> Seq<(GlobalId, Option<usize>, MetadataView)> {
    Seq::new(
        i.source_imports.len(),
        |k: int|
            (
                i.source_imports[k],
                None::<usize>,
                s.collections[i.source_imports[k]].collection_metadata,
            ),
    )
}

/// What an ingestion writes.
pub open spec fn exports_of(s: StateView, i: IngestionView) -> Seq<(GlobalId, Option<usize>, MetadataView)> {
    Seq::new(
        i.source_exports.len(),
        |k: int|
            (
                i.source_exports[k].id,
                Some(i.source_exports[k].output_index),
                s.collections[i.source_exports[k].id].collection_metadata,
            ),
    )
}

/// The identifiers of outputs.
pub open spec fn output_ids(outputs: Seq<SourceExport>) -> Seq<GlobalId> {
    Seq::new(outputs.len(), |k: int| outputs[k].id)
}

/// What is wrong with an ingestion that is to be created, if anything is.
pub open spec fn ingestion_error(s: StateView, id: GlobalId, i: IngestionView) -> Option<ErrorView> {
    let known = s.collections.dom();
    match crate::storage_client::operations::first_missing(known, i.source_imports) {
        Some(x) => Some(ErrorView::IdentifierMissing(x)),
        None => if i.envelope == (SourceEnvelope::Upsert { disk: true }) && !s.scratch_directory_enabled {
            Some(
                ErrorView::InvalidUsage(
                    "Attempting to render `ON DISK` source without a configured scratch directory. This is a bug."@,
                ),
            )
        } else if !known.contains(id) {
            Some(ErrorView::IdentifierMissing(id))
        } else {
            match crate::storage_client::operations::first_missing(known, output_ids(i.source_exports)) {
                Some(x) => Some(ErrorView::IdentifierMissing(x)),
                None => if !s.clients.contains(i.instance_id) {
                    Some(ErrorView::IngestionInstanceMissing(i.instance_id, id))
                } else {
                    None
                },
            }
        },
    }
}

impl StorageControllerState {
    /// Validates requests to create collections, to avoid corrupting state: it is an error to
    /// create an existing identifier with a new description, or to request one identifier with
    /// different descriptions.
    pub fn validate_collections(&self, requests: Vec<(GlobalId, CollectionDescription)>) -> (r: Result<
        IdMap<CollectionDescription>,
        StorageError,
    >)
        ensures
            match r {
                Ok(m) => {
                    &&& are_requested(requests_view(requests@), descriptions_view(m@))
                    &&& forall|id: GlobalId| !#[trigger] is_ambiguous(requests_view(requests@), id)
                    &&& forall|id: GlobalId| !#[trigger]
                        is_taken(self@, requests_view(requests@), id)
                },
                Err(e) => {
                    &&& e@ matches ErrorView::SourceIdReused(id)
                    &&& is_ambiguous(requests_view(requests@), id) && (forall|x: GlobalId| #[trigger]
                        is_ambiguous(requests_view(requests@), x) ==> id_rank(id) <= id_rank(x))
                        || is_taken(self@, requests_view(requests@), id) && (forall|x: GlobalId|
                        !#[trigger] is_ambiguous(requests_view(requests@), x)) && (forall|
                        x: GlobalId,
                    | #[trigger]
                        is_taken(self@, requests_view(requests@), x) ==> id_rank(id) <= id_rank(x))
                },
            },
    {
        let ghost all = requests_view(requests@);
        let mut left = requests;
        let mut out: IdMap<CollectionDescription> = IdMap::new();
        let mut worst: Option<GlobalId> = None;
        let ghost mut n: int = 0;
        assert(all.take(0) =~= Seq::empty());
        while left.len() > 0
            invariant
                0 <= n <= all.len(),
                requests_view(left@) == all.skip(n),
                are_gathered(all.take(n), descriptions_view(out@), worst),
            decreases left.len(),
        {
            let ghost rest = requests_view(left@);
            let (id, description) = left.remove(0);
            proof {
                assert(requests_view(left@) =~= rest.drop_first());
                assert(rest.drop_first() =~= all.skip(n + 1));
                assert(rest[0] == all[n]);
            }
            let ghost had = descriptions_view(out@);
            let ghost was = worst;
            match out.get(id) {
                Some(d) => {
                    if !d.same(&description) {
                        let first = match worst {
                            Some(w) => rank_of(id) < rank_of(w),
                            None => true,
                        };
                        if first {
                            worst = Some(id);
                        }
                    }
                },
                None => {
                    out.insert(id, description);
                },
            }
            proof {
                let d = description@;
                let done = all.take(n);
                let now = all.take(n + 1);
                assert(now =~= done.push((id, d)));
                let m = descriptions_view(out@);
                lemma_gather_step(done, had, was, id, d, m, worst);
                n = n + 1;
            }
        }
        assert(all.take(n) =~= all);
        if let Some(id) = worst {
            proof {
                assert forall|x: GlobalId| #[trigger] is_ambiguous(all, x) implies id_rank(id) <= id_rank(
                    x,
                ) by {
                    lemma_gathered(all, descriptions_view(out@), worst, x);
                }
            }
            return Err(StorageError::SourceIdReused(id));
        }
        proof {
            assert forall|x: GlobalId| !#[trigger] is_ambiguous(all, x) by {
                if is_ambiguous(all, x) {
                    lemma_gathered(all, descriptions_view(out@), worst, x);
                }
            }
        }
        let ids = out.ids();
        let mut k: usize = 0;
        while k < ids.len()
            invariant
                k <= ids.len(),
                ids@ == in_order(out@.dom()),
                lists(ids@, out@.dom()),
                all == requests_view(requests@),
                are_gathered(all, descriptions_view(out@), None),
                forall|x: GlobalId| !#[trigger] is_ambiguous(all, x),
                forall|j: int| 0 <= j < k ==> !is_taken(self@, all, #[trigger] ids@[j]),
            decreases ids.len() - k,
        {
            let id = ids[k];
            assert(out@.dom().contains(ids@[k as int]));
            if let (Some(description), Ok(collection)) = (out.get(id), self.collection(id)) {
                if collection.dropped || !collection.description.same(description) {
                    proof {
                        assert(descriptions_view(out@).dom().contains(id));
                        let j = choose|j: int|
                            0 <= j < all.len() && #[trigger] all[j] == (id, descriptions_view(out@)[id]);
                        assert(all[j].0 == id);
                        assert(is_taken(self@, all, id));
                        assert forall|x: GlobalId| #[trigger] is_taken(self@, all, x) implies id_rank(id)
                            <= id_rank(x) by {
                            assert(descriptions_view(out@).dom().contains(x));
                            assert(out@.dom().contains(x));
                            assert(ids@.contains(x));
                            let j = ids@.index_of(x);
                            assert(ids@[j] == x);
                            if j < k {
                                assert(!is_taken(self@, all, ids@[j]));
                            } else if k < j {
                                assert(id_rank(ids@[k as int]) < id_rank(ids@[j]));
                            }
                        }
                    }
                    return Err(StorageError::SourceIdReused(id));
                }
            }
            proof {
                if is_taken(self@, all, id) {
                    let j = choose|j: int|
                        0 <= j < all.len() && (#[trigger] all[j]).0 == id && (self@.collections[id].dropped
                            || all[j].1 != self@.collections[id].description);
                    assert(all[j].1 == descriptions_view(out@)[all[j].0]);
                }
            }
            k += 1;
        }
        proof {
            assert forall|x: GlobalId| !#[trigger] is_taken(self@, all, x) by {
                if is_taken(self@, all, x) {
                    assert(descriptions_view(out@).dom().contains(x));
                    assert(out@.dom().contains(x));
                    assert(ids@.contains(x));
                    let j = ids@.index_of(x);
                    assert(ids@[j] == x);
                }
            }
            assert forall|j: int| 0 <= j < all.len() implies descriptions_view(out@).dom().contains(
                (#[trigger] all[j]).0,
            ) && descriptions_view(out@)[all[j].0] == all[j].1 by {
                assert(all[j].0 == all[j].0);
            }
        }
        Ok(out)
    }

    /// Enters a collection whose shard was opened.
    pub fn register_collection(
        &mut self,
        id: GlobalId,
        description: CollectionDescription,
        since: Frontier,
        upper: Frontier,
        metadata: CollectionMetadata,
    )
        ensures
            final(self)@ == (StateView {
                collections: old(self)@.collections.insert(
                    id,
                    new_collection(description@, since@, upper@, metadata@),
                ),
                source_statistics: restarted(
                    old(self)@.source_statistics,
                    measured(description@, id),
                ),
                ..old(self)@
            }),
    {
        let ghost before = self@;
        let ghost wanted = measured(description@, id);
        if let DataSource::Ingestion(i) = &description.data_source {
            let ghost start = self.source_statistics@;
            self.source_statistics.insert(id, Vec::new());
            // Note that `source_exports` contains the subsources as well.
            let mut k: usize = 0;
            while k < i.source_exports.len()
                invariant
                    k <= i.source_exports.len(),
                    before == old(self)@,
                    start == old(self).source_statistics@,
                    self@ == (StateView { source_statistics: self@.source_statistics, ..before }),
                    forall|x: GlobalId| #[trigger]
                        self.source_statistics@.dom().contains(x) == (start.dom().contains(x) || x == id
                            || exists|j: int|
                            0 <= j < k && (#[trigger] i.source_exports@[j]).id == x),
                    forall|x: GlobalId| #[trigger]
                        self.source_statistics@.dom().contains(x) ==> (if x == id || exists|j: int|
                            0 <= j < k && (#[trigger] i.source_exports@[j]).id == x {
                            self.source_statistics@[x]@.len() == 0
                        } else {
                            self.source_statistics@[x] == start[x]
                        }),
                decreases i.source_exports.len() - k,
            {
                let x = i.source_exports[k].id;
                self.source_statistics.insert(x, Vec::new());
                assert(i.source_exports@[k as int].id == x);
                k += 1;
            }
            proof {
                let now = statistics_view(self.source_statistics@);
                let described = restarted(before.source_statistics, wanted);
                assert forall|x: GlobalId| #[trigger] now.dom().contains(x) implies now[x] =~= described[x] by {
                    assert(self.source_statistics@.dom().contains(x));
                }
                assert(now =~= described);
            }
        } else {
            assert(restarted(before.source_statistics, wanted) =~= before.source_statistics);
        }
        let ghost stats = self@.source_statistics;
        let deps: Vec<GlobalId> = Vec::new();
        let state = CollectionState::new(description, since, upper, deps, metadata);
        assert(state@ =~= new_collection(description@, since@, upper@, metadata@));
        self.collections.insert(id, state);
        assert(self@.collections =~= before.collections.insert(id, state@));
    }

    /// Lets an output of an ingestion hold back what it depends on.
    fn patch_output(&mut self, id: GlobalId, deps: &Vec<GlobalId>, since: &Frontier) -> (r: Result<(), Fault>)
        ensures
            is_state(final(self)@, r, patched_one(old(self)@, id, deps@, since@)),
    {
        let (behind, short) = match self.collections.get(id) {
            Some(c) => (c.implied_capability.less_than(since), !since.less_than(&c.write_frontier)),
            None => {
                return Err(Fault::Unknown(id));
            },
        };
        // At the time of collection creation, we did not yet have firm guarantees that the since
        // of our dependencies was not advanced beyond those of its dependents, so we need to
        // patch up the implied_capability/since of the collection.
        if behind {
            if short {
                return Err(Fault::SinceBeyondUpper(id));
            }
            let mut policies: Vec<(GlobalId, ReadPolicy)> = Vec::new();
            policies.push((id, ReadPolicy::NoPolicy { initial_since: since.copy() }));
            assert(policies_view(policies@) =~= seq![(id, PolicyView::NoPolicy(since@))]);
            match self.set_read_policy(policies) {
                Ok(()) => {},
                Err(f) => {
                    return Err(f);
                },
            }
        }
        let ghost now = self@;
        // Fill in the storage dependencies.
        let mut collection = match self.collections.remove(id) {
            Some(c) => c,
            None => {
                return Err(Fault::Unknown(id));
            },
        };
        let ghost was = collection@;
        if frontier_at(collection.read_capabilities.frontier()).less_than(&collection.implied_capability) {
            return Err(Fault::HeldBack(id));
        }
        let mut more = copy_ids(deps);
        collection.storage_dependencies.append(&mut more);
        let hold = collection.implied_capability.copy();
        proof {
            assert(collection@ =~= (CollectionView {
                storage_dependencies: was.storage_dependencies + deps@,
                ..was
            }));
        }
        self.collections.insert(id, collection);
        assert(self@.collections =~= now.collections.insert(id, collection@));
        self.install_read_capabilities(deps, &hold)
    }

    /// Patch up the since of all outputs of an ingestion (which includes the "main"
    /// collection) and install read holds from them on the since of the collections that the
    /// ingestion depends on, the remap collection among them. Other collections have no since to
    /// patch up and no read holds to install.
    pub fn patch_ingestion(&mut self, description: &CollectionDescription) -> (r: Result<
        Result<(), StorageError>,
        Fault,
    >)
        ensures
            match description@.data_source {
                DataSourceView::Ingestion(i) => {
                    let deps = dependencies_of(description@);
                    match since_joined(old(self)@.collections, deps, deps.len() as int) {
                        Err(x) => {
                            &&& r matches Ok(Err(e))
                            &&& e@ == ErrorView::IdentifierMissing(x)
                            &&& final(self)@ == old(self)@
                        },
                        Ok(since) => match patched(old(self)@, i.source_exports, deps, since) {
                            Ok(s) => r matches Ok(Ok(_)) && final(self)@ == s,
                            Err(f) => r matches Err(g) && g == f,
                        },
                    }
                },
                _ => r matches Ok(Ok(_)) && final(self)@ == old(self)@,
            },
    {
        let ingestion = match &description.data_source {
            DataSource::Ingestion(i) => i,
            _ => {
                return Ok(Ok(()));
            },
        };
        let deps = description.get_storage_dependencies();
        let since = match self.determine_collection_since_joins(&deps) {
            Ok(since) => since,
            Err(e) => {
                return Ok(Err(e));
            },
        };
        let outputs = &ingestion.source_exports;
        let mut k: usize = 0;
        assert(outputs@.skip(0) =~= outputs@);
        while k < outputs.len()
            invariant
                k <= outputs.len(),
                patched(old(self)@, outputs@, deps@, since@) == patched(
                    self@,
                    outputs@.skip(k as int),
                    deps@,
                    since@,
                ),
                description@.data_source matches DataSourceView::Ingestion(i) && i.source_exports
                    == outputs@,
                deps@ == dependencies_of(description@),
                since_joined(old(self)@.collections, deps@, deps@.len() as int) == Ok::<
                    Option<u64>,
                    GlobalId,
                >(since@),
            decreases outputs.len() - k,
        {
            assert(outputs@.skip(k as int)[0] == outputs@[k as int]);
            assert(outputs@.skip(k as int).drop_first() =~= outputs@.skip(k + 1));
            match self.patch_output(outputs[k].id, &deps, &since) {
                Ok(()) => {},
                Err(f) => {
                    return Err(f);
                },
            }
            k += 1;
        }
        assert(outputs@.skip(k as int) =~= Seq::empty());
        Ok(Ok(()))
    }

    fn use_of(&self, id: GlobalId, output_index: Option<usize>) -> (r: Result<ShardUse, StorageError>)
        ensures
            match r {
                Ok(u) => self@.collections.dom().contains(id) && u.id == id && u.output_index
                    == output_index && u.metadata@ == self@.collections[id].collection_metadata,
                Err(e) => !self@.collections.dom().contains(id) && e@ == ErrorView::IdentifierMissing(
                    id,
                ),
            },
    {
        match self.collection(id) {
            Ok(c) => Ok(ShardUse { id, output_index, metadata: c.collection_metadata.copy() }),
            Err(e) => Err(e),
        }
    }

    /// What an instance is told to create an ingestion. The collections that it reads and writes
    /// must have been registered before.
    pub fn ingestion_command(&self, id: GlobalId, description: &CollectionDescription) -> (r: Result<
        Option<IngestionCommand>,
        StorageError,
    >)
        ensures
            match description@.data_source {
                DataSourceView::Ingestion(i) => match ingestion_error(self@, id, i) {
                    Some(err) => r matches Err(e) && e@ == err,
                    None => {
                        &&& r matches Ok(Some(c))
                        &&& c.id == id
                        &&& c.instance_id == i.instance_id
                        &&& c.ingestion_metadata@ == self@.collections[id].collection_metadata
                        &&& uses_view(c.source_imports@) == imports_of(self@, i)
                        &&& uses_view(c.source_exports@) == exports_of(self@, i)
                    },
                },
                _ => r matches Ok(None),
            },
    {
        let ingestion = match &description.data_source {
            DataSource::Ingestion(i) => i,
            _ => {
                return Ok(None);
            },
        };
        let ghost view = ingestion@;
        match self.validate_collection_ids(&ingestion.source_imports) {
            Ok(()) => {},
            Err(e) => {
                return Err(e);
            },
        }
        if let SourceEnvelope::Upsert { disk } = ingestion.envelope {
            if disk && !self.scratch_directory_enabled {
                return Err(
                    StorageError::InvalidUsage(
                        String::from_str(
                            "Attempting to render `ON DISK` source without a configured scratch directory. This is a bug.",
                        ),
                    ),
                );
            }
        }
        // The ingestion metadata is simply the collection metadata of the collection with
        // the associated ingestion
        let ingestion_metadata = match self.collection(id) {
            Ok(c) => c.collection_metadata.copy(),
            Err(e) => {
                return Err(e);
            },
        };
        let mut ids: Vec<GlobalId> = Vec::new();
        let mut k: usize = 0;
        while k < ingestion.source_exports.len()
            invariant
                k <= ingestion.source_exports.len(),
                ids.len() == k,
                forall|j: int| 0 <= j < k ==> #[trigger] ids@[j] == ingestion.source_exports@[j].id,
            decreases ingestion.source_exports.len() - k,
        {
            ids.push(ingestion.source_exports[k].id);
            k += 1;
        }
        assert(ids@ =~= output_ids(ingestion.source_exports@));
        match self.validate_collection_ids(&ids) {
            Ok(()) => {},
            Err(e) => {
                return Err(e);
            },
        }
        // The instance must be known.
        if !self.has_instance(ingestion.instance_id) {
            return Err(
                StorageError::IngestionInstanceMissing {
                    storage_instance_id: ingestion.instance_id,
                    ingestion_id: id,
                },
            );
        }
        let mut source_imports: Vec<ShardUse> = Vec::new();
        let mut k: usize = 0;
        while k < ingestion.source_imports.len()
            invariant
                k <= ingestion.source_imports.len(),
                source_imports.len() == k,
                view == ingestion@,
                crate::storage_client::operations::first_missing(
                    self@.collections.dom(),
                    view.source_imports,
                ) is None,
                forall|j: int|
                    0 <= j < k ==> uses_view(source_imports@)[j] == #[trigger] imports_of(self@, view)[j],
            decreases ingestion.source_imports.len() - k,
        {
            proof {
                lemma_none_missing(self@.collections.dom(), view.source_imports, k as int);
            }
            let ghost had = uses_view(source_imports@);
            if let Ok(u) = self.use_of(ingestion.source_imports[k], None) {
                source_imports.push(u);
                assert(uses_view(source_imports@) =~= had.push((u.id, u.output_index, u.metadata@)));
            }
            k += 1;
        }
        assert(uses_view(source_imports@) =~= imports_of(self@, view));
        let mut source_exports: Vec<ShardUse> = Vec::new();
        let mut k: usize = 0;
        while k < ingestion.source_exports.len()
            invariant
                k <= ingestion.source_exports.len(),
                source_exports.len() == k,
                view == ingestion@,
                crate::storage_client::operations::first_missing(
                    self@.collections.dom(),
                    output_ids(view.source_exports),
                ) is None,
                forall|j: int|
                    0 <= j < k ==> uses_view(source_exports@)[j] == #[trigger] exports_of(self@, view)[j],
            decreases ingestion.source_exports.len() - k,
        {
            proof {
                lemma_none_missing(self@.collections.dom(), output_ids(view.source_exports), k as int);
            }
            let ghost had = uses_view(source_exports@);
            let export = ingestion.source_exports[k];
            if let Ok(u) = self.use_of(export.id, Some(export.output_index)) {
                source_exports.push(u);
                assert(uses_view(source_exports@) =~= had.push((u.id, u.output_index, u.metadata@)));
            }
            k += 1;
        }
        assert(uses_view(source_exports@) =~= exports_of(self@, view));
        Ok(
            Some(
                IngestionCommand {
                    id,
                    instance_id: ingestion.instance_id,
                    ingestion_metadata,
                    source_imports,
                    source_exports,
                },
            ),
        )
    }

    /// Enters a collection that the controller itself writes, of a kind of which there is none
    /// yet, and tells what is to be done about it.
    pub fn register_introspection(&mut self, i: IntrospectionType, id: GlobalId) -> (r: IntrospectionAction)
        requires
            introspection_id(old(self)@.introspection_ids, i) is None,
        ensures
            r == action_for(i),
            final(self)@ == (StateView {
                introspection_ids: with_introspection(old(self)@.introspection_ids, i, id),
                ..old(self)@
            }),
    {
        self.introspection_ids = self.introspection_ids.with(i, id);
        match i {
            IntrospectionType::ShardMapping => IntrospectionAction::InitializeShardMapping,
            IntrospectionType::StorageSourceStatistics => IntrospectionAction::ScrapeSourceStatistics,
            IntrospectionType::StorageSinkStatistics => IntrospectionAction::ScrapeSinkStatistics,
            IntrospectionType::SourceStatusHistory => IntrospectionAction::ReconcileSourceStatusHistory,
            IntrospectionType::SinkStatusHistory => IntrospectionAction::Nothing,
        }
    }
}

proof fn lemma_none_missing(set: Set<GlobalId>, ids: Seq<GlobalId>, k: int)
    requires
        crate::storage_client::operations::first_missing(set, ids) is None,
        0 <= k < ids.len(),
    ensures
        set.contains(ids[k]),
    decreases ids.len(),
{
    if k > 0 {
        lemma_none_missing(set, ids.drop_first(), k - 1);
    }
}

proof fn lemma_gather_step(
    done: Seq<(GlobalId, DescriptionView)>,
    had: Map<GlobalId, DescriptionView>,
    was: Option<GlobalId>,
    id: GlobalId,
    d: DescriptionView,
    m: Map<GlobalId, DescriptionView>,
    worst: Option<GlobalId>,
)
    requires
        are_gathered(done, had, was),
        m =~= (if had.dom().contains(id) {
            had
        } else {
            had.insert(id, d)
        }),
        worst == (if had.dom().contains(id) && had[id] != d && (was is None || id_rank(id) < id_rank(
            was->0,
        )) {
            Some(id)
        } else {
            was
        }),
    ensures
        are_gathered(done.push((id, d)), m, worst),
{
    let now = done.push((id, d));
    let n = done.len() as int;
    assert(now[n] == (id, d));
    assert forall|k: int| 0 <= k < n implies now[k] == done[k] by {}
    assert forall|x: GlobalId| #[trigger] m.dom().contains(x) == exists|k: int|
        0 <= k < now.len() && (#[trigger] now[k]).0 == x by {
        if had.dom().contains(x) {
            let k = choose|k: int| 0 <= k < done.len() && (#[trigger] done[k]).0 == x;
            assert(now[k].0 == x);
        }
        if exists|k: int| 0 <= k < now.len() && (#[trigger] now[k]).0 == x {
            let k = choose|k: int| 0 <= k < now.len() && (#[trigger] now[k]).0 == x;
            if k < n {
                assert(done[k].0 == x);
            }
        }
    }
    assert forall|x: GlobalId| #[trigger] m.dom().contains(x) implies exists|k: int|
        0 <= k < now.len() && #[trigger] now[k] == (x, m[x]) by {
        if had.dom().contains(x) {
            let k = choose|k: int| 0 <= k < done.len() && #[trigger] done[k] == (x, had[x]);
            assert(now[k] == (x, m[x]));
        } else {
            assert(now[n] == (x, m[x]));
        }
    }
    assert forall|k: int| 0 <= k < now.len() && (#[trigger] now[k]).1 != m[now[k].0] implies worst
        is Some && id_rank(worst->0) <= id_rank(now[k].0) by {
        if k < n {
            assert(done[k] == now[k]);
            assert(had.dom().contains(done[k].0));
        }
    }
    if let Some(w) = worst {
        if had.dom().contains(id) && had[id] != d && (was is None || id_rank(id) < id_rank(was->0)) {
            let k = choose|k: int| 0 <= k < done.len() && #[trigger] done[k] == (id, had[id]);
            assert(now[k] == (id, had[id]));
            assert(is_ambiguous(now, w));
        } else {
            assert(is_ambiguous(done, w));
            let (i, j) = choose|i: int, j: int|
                0 <= i < done.len() && 0 <= j < done.len() && (#[trigger] done[i]).0 == w && (
                #[trigger] done[j]).0 == w && done[i].1 != done[j].1;
            assert(now[i] == done[i] && now[j] == done[j]);
            assert(is_ambiguous(now, w));
        }
    }
}

} // verus!
