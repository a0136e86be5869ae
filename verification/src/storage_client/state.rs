//! State maintained about collections and exports.

use vstd::prelude::*;

use crate::storage_client::changes::{
    fits, hold_at, is_compact, listed, no_counts, plus, Batch, ReadCapabilities,
};
use crate::storage_client::frontier::Frontier;
use crate::storage_client::ids::{GlobalId, StorageInstanceId};
use crate::storage_client::policy::{PolicyView, ReadPolicy};
use crate::storage_client::types::{
    cluster_of, CollectionDescription, CollectionMetadata, DescriptionView, ExportDescription,
    ExportView, MetadataView,
};

verus! {

/// State maintained about individual collections.
#[derive(Debug)]
pub struct CollectionState {
    /// Description with which the collection was created
    pub description: CollectionDescription,
    /// Accumulation of read capabilities for the collection.
    ///
    /// This accumulation will always contain `self.implied_capability`, but may also contain
    /// capabilities held by others who have read dependencies on this collection.
    pub read_capabilities: ReadCapabilities,
    /// The implicit capability associated with collection creation.  This should never be less
    /// than the since of the associated persist collection.
    pub implied_capability: Frontier,
    /// The policy to use to downgrade `self.implied_capability`.
    pub read_policy: ReadPolicy,
    /// Storage identifiers on which this collection depends.
    pub storage_dependencies: Vec<GlobalId>,
    /// Reported write frontier.
    pub write_frontier: Frontier,
    pub collection_metadata: CollectionMetadata,
    /// Whether the collection was reported as dropped. It is kept, so that its identifier is
    /// not bound to another description.
    pub dropped: bool,
}

/// What a [`CollectionState`] stands for.
#[verifier::ext_equal]
pub struct CollectionView {
    pub description: DescriptionView,
    pub read_capabilities: Batch,
    pub implied_capability: Option<u64>,
    pub read_policy: PolicyView,
    pub storage_dependencies: Seq<GlobalId>,
    pub write_frontier: Option<u64>,
    pub collection_metadata: MetadataView,
    pub dropped: bool,
}

impl View for CollectionState {
    type V = CollectionView;

    open spec fn view(&self) -> CollectionView {
        CollectionView {
            description: self.description@,
            read_capabilities: self.read_capabilities@,
            implied_capability: self.implied_capability@,
            read_policy: self.read_policy@,
            storage_dependencies: self.storage_dependencies@,
            write_frontier: self.write_frontier@,
            collection_metadata: self.collection_metadata@,
            dropped: self.dropped,
        }
    }
}

/// What collections stand for.
pub open spec fn collections_view(collections: Map<GlobalId, CollectionState>) -> Map<GlobalId, CollectionView> {
    Map::new(|id: GlobalId| collections.dom().contains(id), |id: GlobalId| collections[id]@)
}

/// The changes that make one hold at a frontier.
pub fn hold_list(since: &Frontier) -> (r: Vec<(u64, i64)>)
    ensures
        listed(r@) == hold_at(since@),
        is_compact(r@),
        fits(plus(no_counts(), listed(r@))),
{
    let mut list: Vec<(u64, i64)> = Vec::new();
    if let Some(t) = since.time() {
        list.push((t, 1));
        reveal_with_fuel(listed, 2);
        assert(list@.drop_last() =~= Seq::empty());
        assert(listed(list@) =~= hold_at(since@));
    } else {
        assert(listed(list@) =~= hold_at(since@));
    }
    list
}

impl CollectionState {
    /// Creates a new collection state, with an initial read policy valid from `since`.
    pub fn new(
        description: CollectionDescription,
        since: Frontier,
        write_frontier: Frontier,
        storage_dependencies: Vec<GlobalId>,
        metadata: CollectionMetadata,
    ) -> (r: CollectionState)
        ensures
            r.description == description,
            r.read_capabilities@.counts == hold_at(since@),
            r.implied_capability@ == since@,
            r.read_policy@ == PolicyView::NoPolicy(since@),
            r.storage_dependencies == storage_dependencies,
            r.write_frontier == write_frontier,
            r.collection_metadata == metadata,
            !r.dropped,
    {
        let list = hold_list(&since);
        let (read_capabilities, _) = ReadCapabilities::new().update(list);
        assert(plus(no_counts(), hold_at(since@)) =~= hold_at(since@));
        CollectionState {
            description,
            read_capabilities,
            implied_capability: since.copy(),
            read_policy: ReadPolicy::NoPolicy { initial_since: since },
            storage_dependencies,
            write_frontier,
            collection_metadata: metadata,
            dropped: false,
        }
    }

    /// Returns the cluster to which the collection is bound, if applicable.
    pub fn cluster_id(&self) -> (r: Option<StorageInstanceId>)
        ensures
            r == cluster_of(self.description@),
    {
        self.description.cluster_id()
    }
}

/// State maintained about individual exports.
#[derive(Debug)]
pub struct ExportState {
    /// Description with which the export was created
    pub description: ExportDescription,
    /// The capability (hold on the since) that this export needs from its
    /// dependencies (inputs). When the upper of the export changes, we
    /// downgrade this, which in turn downgrades holds we have on our
    /// dependencies' sinces.
    pub read_capability: Frontier,
    /// The policy to use to downgrade `self.read_capability`.
    pub read_policy: ReadPolicy,
    /// Storage identifiers on which this collection depends.
    pub storage_dependencies: Vec<GlobalId>,
    /// Reported write frontier.
    pub write_frontier: Frontier,
}

/// What an [`ExportState`] stands for.
#[verifier::ext_equal]
pub struct ExportStateView {
    pub description: ExportView,
    pub read_capability: Option<u64>,
    pub read_policy: PolicyView,
    pub storage_dependencies: Seq<GlobalId>,
    pub write_frontier: Option<u64>,
}

impl View for ExportState {
    type V = ExportStateView;

    open spec fn view(&self) -> ExportStateView {
        ExportStateView {
            description: self.description@,
            read_capability: self.read_capability@,
            read_policy: self.read_policy@,
            storage_dependencies: self.storage_dependencies@,
            write_frontier: self.write_frontier@,
        }
    }
}

/// What exports stand for.
pub open spec fn exports_view(exports: Map<GlobalId, ExportState>) -> Map<GlobalId, ExportStateView> {
    Map::new(|id: GlobalId| exports.dom().contains(id), |id: GlobalId| exports[id]@)
}

impl ExportState {
    /// Creates a new export state.
    pub fn new(
        description: ExportDescription,
        read_capability: Frontier,
        read_policy: ReadPolicy,
        storage_dependencies: Vec<GlobalId>,
    ) -> (r: ExportState)
        ensures
            r.description == description,
            r.read_capability == read_capability,
            r.read_policy == read_policy,
            r.storage_dependencies == storage_dependencies,
            r.write_frontier@ == Some(0u64),
    {
        ExportState {
            description,
            read_capability,
            read_policy,
            storage_dependencies,
            write_frontier: Frontier::from_elem(0),
        }
    }

    /// Returns the cluster to which the export is bound, if applicable.
    pub fn cluster_id(&self) -> (r: Option<StorageInstanceId>)
        ensures
            r == Some(self.description.instance_id),
    {
        Some(self.description.instance_id)
    }
}

} // verus!
