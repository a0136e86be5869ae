//! The controller's state, and how frontiers, read policies and read holds change it.

use vstd::prelude::*;

use crate::storage_client::capabilities::{
    changes_view, compactions_view, frontiers_view, spread, update_capabilities,
    updated, Fault,
};
use crate::storage_client::changes::{
    count_at, empty_batch, grown, hold_at, listed, moved_hold, no_counts, Batch,
    Changes, fits, is_compact, plus,
};
use crate::storage_client::frontier::{
    frontier_join, frontier_le, frontier_lt, Frontier,
};
use crate::storage_client::id_map::{in_order, IdMap};
use crate::storage_client::ids::{GlobalId, StorageInstanceId};
use crate::storage_client::policy::{
    policy_divides, policy_frontier, PolicyView, ReadPolicy,
};
use crate::storage_client::state::{
    collections_view, exports_view, hold_list, CollectionState, CollectionView, ExportState,
    ExportStateView,
};
use crate::storage_client::types::{
    CreateExportToken, ErrorView, IntrospectionType, StorageError, TokenView,
};

verus! {

/// Which collection is responsible for which [`IntrospectionType`].
#[derive(Debug, Copy, Clone, PartialEq, Eq, Structural)]
pub struct IntrospectionIds {
    pub sink_status_history: Option<GlobalId>,
    pub source_status_history: Option<GlobalId>,
    pub shard_mapping: Option<GlobalId>,
    pub storage_source_statistics: Option<GlobalId>,
    pub storage_sink_statistics: Option<GlobalId>,
}

/// The collection that is responsible for a kind of introspection.
pub open spec fn introspection_id(ids: IntrospectionIds, i: IntrospectionType) -> Option<GlobalId> {
    match i {
        IntrospectionType::SinkStatusHistory => ids.sink_status_history,
        IntrospectionType::SourceStatusHistory => ids.source_status_history,
        IntrospectionType::ShardMapping => ids.shard_mapping,
        IntrospectionType::StorageSourceStatistics => ids.storage_source_statistics,
        IntrospectionType::StorageSinkStatistics => ids.storage_sink_statistics,
    }
}

/// The collections that are responsible once one more is known.
pub open spec fn with_introspection(ids: IntrospectionIds, i: IntrospectionType, id: GlobalId) -> IntrospectionIds {
    match i {
        IntrospectionType::SinkStatusHistory => IntrospectionIds {
            sink_status_history: Some(id),
            ..ids
        },
        IntrospectionType::SourceStatusHistory => IntrospectionIds {
            source_status_history: Some(id),
            ..ids
        },
        IntrospectionType::ShardMapping => IntrospectionIds { shard_mapping: Some(id), ..ids },
        IntrospectionType::StorageSourceStatistics => IntrospectionIds {
            storage_source_statistics: Some(id),
            ..ids
        },
        IntrospectionType::StorageSinkStatistics => IntrospectionIds {
            storage_sink_statistics: Some(id),
            ..ids
        },
    }
}

impl IntrospectionIds {
    /// No collections.
    pub fn none() -> (r: IntrospectionIds)
        ensures
            forall|i: IntrospectionType| (#[trigger] introspection_id(r, i)) is None,
    {
        IntrospectionIds {
            sink_status_history: None,
            source_status_history: None,
            shard_mapping: None,
            storage_source_statistics: None,
            storage_sink_statistics: None,
        }
    }

    /// The collection that is responsible.
    pub fn get(&self, i: IntrospectionType) -> (r: Option<GlobalId>)
        ensures
            r == introspection_id(*self, i),
    {
        match i {
            IntrospectionType::SinkStatusHistory => self.sink_status_history,
            IntrospectionType::SourceStatusHistory => self.source_status_history,
            IntrospectionType::ShardMapping => self.shard_mapping,
            IntrospectionType::StorageSourceStatistics => self.storage_source_statistics,
            IntrospectionType::StorageSinkStatistics => self.storage_sink_statistics,
        }
    }

    /// The collections that are responsible once one more is known.
    pub fn with(self, i: IntrospectionType, id: GlobalId) -> (r: IntrospectionIds)
        ensures
            r == with_introspection(self, i, id),
    {
        match i {
            IntrospectionType::SinkStatusHistory => IntrospectionIds {
                sink_status_history: Some(id),
                ..self
            },
            IntrospectionType::SourceStatusHistory => IntrospectionIds {
                source_status_history: Some(id),
                ..self
            },
            IntrospectionType::ShardMapping => IntrospectionIds { shard_mapping: Some(id), ..self },
            IntrospectionType::StorageSourceStatistics => IntrospectionIds {
                storage_source_statistics: Some(id),
                ..self
            },
            IntrospectionType::StorageSinkStatistics => IntrospectionIds {
                storage_sink_statistics: Some(id),
                ..self
            },
        }
    }
}

/// Statistics of a worker, in their encoded form.
#[derive(Debug)]
pub struct WorkerStatistics {
    pub worker_id: usize,
    pub encoded: Vec<u8>,
}

/// The statistics of workers.
pub open spec fn workers_view(stats: Seq<WorkerStatistics>) -> Seq<(usize, Seq<u8>)> {
    Seq::new(stats.len(), |k: int| (stats[k].worker_id, stats[k].encoded@))
}

/// The statistics of the workers of all objects.
pub open spec fn statistics_view(stats: Map<GlobalId, Vec<WorkerStatistics>>) -> Map<
    GlobalId,
    Seq<(usize, Seq<u8>)>,
> {
    Map::new(|id: GlobalId| stats.dom().contains(id), |id: GlobalId| workers_view(stats[id]@))
}

/// A compaction command to send.
#[derive(Debug)]
pub struct PendingCompaction {
    pub id: GlobalId,
    pub frontier: Frontier,
    pub cluster_id: Option<StorageInstanceId>,
}

/// The commands to send.
pub open spec fn pending_view(commands: Seq<PendingCompaction>) -> Seq<
    (GlobalId, Option<u64>, Option<StorageInstanceId>),
> {
    Seq::new(
        commands.len(),
        |k: int| (commands[k].id, commands[k].frontier@, commands[k].cluster_id),
    )
}

/// The shards to compact.
pub open spec fn downgrades_view(commands: Seq<(GlobalId, Frontier)>) -> Seq<(GlobalId, Option<u64>)> {
    Seq::new(commands.len(), |k: int| (commands[k].0, commands[k].1@))
}

/// The instances themselves.
pub open spec fn instances_view(instances: Seq<StorageInstanceId>) -> Set<StorageInstanceId> {
    Set::new(|id: StorageInstanceId| instances.contains(id))
}

/// Controller state maintained for each storage instance.
#[derive(Debug)]
pub struct StorageControllerState {
    /// The fencing token for this instance of the controller.
    pub envd_epoch: i64,
    /// Collections maintained by the storage controller.
    ///
    /// This collection only grows, although individual collections may be rendered unusable.
    /// This is to prevent the re-binding of identifiers to other descriptions.
    pub collections: IdMap<CollectionState>,
    pub exports: IdMap<ExportState>,
    /// Compaction commands to send when responses are next processed.
    pub pending_compaction_commands: Vec<PendingCompaction>,
    /// Up to which frontiers shards may be compacted, in the order in which that was found.
    pub pending_downgrades: Vec<(GlobalId, Frontier)>,
    /// Tracks which collection is responsible for which [`IntrospectionType`].
    pub introspection_ids: IntrospectionIds,
    /// Consolidated metrics updates of sources to periodically write.
    pub source_statistics: IdMap<Vec<WorkerStatistics>>,
    /// Consolidated metrics updates of sinks to periodically write.
    pub sink_statistics: IdMap<Vec<WorkerStatistics>>,
    /// All known storage instances.
    pub clients: Vec<StorageInstanceId>,
    /// Set to `true` once `initialization_complete` has been called.
    pub initialized: bool,
    /// How many entries of each source are kept in the status history.
    pub keep_n_source_status_history_entries: usize,
    /// Whether clusters have scratch directories enabled.
    pub scratch_directory_enabled: bool,
}

/// What a [`StorageControllerState`] stands for.
#[verifier::ext_equal]
pub struct StateView {
    pub envd_epoch: i64,
    pub collections: Map<GlobalId, CollectionView>,
    pub exports: Map<GlobalId, ExportStateView>,
    pub pending_compaction_commands: Seq<(GlobalId, Option<u64>, Option<StorageInstanceId>)>,
    pub pending_downgrades: Seq<(GlobalId, Option<u64>)>,
    pub introspection_ids: IntrospectionIds,
    pub source_statistics: Map<GlobalId, Seq<(usize, Seq<u8>)>>,
    pub sink_statistics: Map<GlobalId, Seq<(usize, Seq<u8>)>>,
    pub clients: Set<StorageInstanceId>,
    pub initialized: bool,
    pub keep_n_source_status_history_entries: usize,
    pub scratch_directory_enabled: bool,
}

impl View for StorageControllerState {
    type V = StateView;

    open spec fn view(&self) -> StateView {
        StateView {
            envd_epoch: self.envd_epoch,
            collections: collections_view(self.collections@),
            exports: exports_view(self.exports@),
            pending_compaction_commands: pending_view(self.pending_compaction_commands@),
            pending_downgrades: downgrades_view(self.pending_downgrades@),
            introspection_ids: self.introspection_ids,
            source_statistics: statistics_view(self.source_statistics@),
            sink_statistics: statistics_view(self.sink_statistics@),
            clients: instances_view(self.clients@),
            initialized: self.initialized,
            keep_n_source_status_history_entries: self.keep_n_source_status_history_entries,
            scratch_directory_enabled: self.scratch_directory_enabled,
        }
    }
}

/// Commands in the order of identifiers.
pub open spec fn commands_in_order(
    commands: Map<GlobalId, (Option<u64>, Option<StorageInstanceId>)>,
) -> Seq<(GlobalId, Option<u64>, Option<StorageInstanceId>)> {
    let ids = in_order(commands.dom());
    Seq::new(ids.len(), |k: int| (ids[k], commands[ids[k]].0, commands[ids[k]].1))
}

/// Frontiers in the order of identifiers.
pub open spec fn downgrades_in_order(frontiers: Map<GlobalId, Option<u64>>) -> Seq<(GlobalId, Option<u64>)> {
    let ids = in_order(frontiers.dom());
    Seq::new(ids.len(), |k: int| (ids[k], frontiers[ids[k]]))
}

/// The state after changes of read capabilities.
pub open spec fn applied(s: StateView, updates: Map<GlobalId, Batch>) -> Result<StateView, Fault> {
    match updated(s.collections, s.exports, updates) {
        Ok((collections, workers, persist)) => Ok(
            StateView {
                collections,
                pending_compaction_commands: s.pending_compaction_commands + commands_in_order(workers),
                pending_downgrades: s.pending_downgrades + downgrades_in_order(persist),
                ..s
            },
        ),
        Err(f) => Err(f),
    }
}

/// Whether the state after an operation, or the reason that it failed, is the one described.
pub open spec fn is_state(now: StateView, r: Result<(), Fault>, described: Result<StateView, Fault>) -> bool {
    match described {
        Ok(s) => r is Ok && now == s,
        Err(f) => r == Err::<(), Fault>(f),
    }
}

/// Changes with the one that moves a hold.
pub open spec fn moved_changes(
    changes: Map<GlobalId, Batch>,
    id: GlobalId,
    from: Option<u64>,
    to: Option<u64>,
) -> Option<Map<GlobalId, Batch>> {
    if from == to {
        Some(changes)
    } else {
        spread(changes, seq![id], moved_hold(from, to))
    }
}

/// A collection once it has a read policy and a write frontier: its implied capability is
/// advanced to what the policy gives, unless it is ahead already.
pub open spec fn assigned(
    c: CollectionView,
    changes: Map<GlobalId, Batch>,
    id: GlobalId,
    policy: PolicyView,
    upper: Option<u64>,
) -> Result<(CollectionView, Map<GlobalId, Batch>), Fault> {
    if !policy_divides(policy, upper) {
        Err(Fault::NoGranularity(id))
    } else {
        let new = policy_frontier(policy, upper);
        if frontier_le(c.implied_capability, new) {
            match moved_changes(changes, id, c.implied_capability, new) {
                Some(changes) => Ok(
                    (
                        CollectionView {
                            implied_capability: new,
                            read_policy: policy,
                            write_frontier: upper,
                            ..c
                        },
                        changes,
                    ),
                ),
                None => Err(Fault::Overflow),
            }
        } else {
            Ok((CollectionView { read_policy: policy, write_frontier: upper, ..c }, changes))
        }
    }
}

/// Collections once they have read policies, in the order presented, and the changes of read
/// capabilities that follow.
pub open spec fn policies_assigned(
    collections: Map<GlobalId, CollectionView>,
    changes: Map<GlobalId, Batch>,
    policies: Seq<(GlobalId, PolicyView)>,
) -> Result<(Map<GlobalId, CollectionView>, Map<GlobalId, Batch>), Fault>
    decreases policies.len(),
{
    if policies.len() == 0 {
        Ok((collections, changes))
    } else {
        let id = policies[0].0;
        if !collections.dom().contains(id) {
            Err(Fault::Unknown(id))
        } else {
            match assigned(collections[id], changes, id, policies[0].1, collections[id].write_frontier) {
                Ok((c, changes)) => policies_assigned(
                    collections.insert(id, c),
                    changes,
                    policies.drop_first(),
                ),
                Err(f) => Err(f),
            }
        }
    }
}

/// Policies themselves.
pub open spec fn policies_view(policies: Seq<(GlobalId, ReadPolicy)>) -> Seq<(GlobalId, PolicyView)> {
    Seq::new(policies.len(), |k: int| (policies[k].0, policies[k].1@))
}

/// The state once collections have read policies.
pub open spec fn with_policies(s: StateView, policies: Seq<(GlobalId, PolicyView)>) -> Result<StateView, Fault> {
    match policies_assigned(s.collections, Map::empty(), policies) {
        Ok((collections, changes)) => applied(StateView { collections, ..s }, changes),
        Err(f) => Err(f),
    }
}

/// The later one of a write frontier and a reported one.
pub open spec fn advanced(upper: Option<u64>, new_upper: Option<u64>) -> Option<u64> {
    if frontier_lt(upper, new_upper) {
        new_upper
    } else {
        upper
    }
}

/// An export once a write frontier is reported: its read capability is advanced to what its
/// policy gives, or closed if the write frontier is, unless it is ahead already.
pub open spec fn export_written(
    e: ExportStateView,
    changes: Map<GlobalId, Batch>,
    id: GlobalId,
    upper: Option<u64>,
) -> Result<(ExportStateView, Map<GlobalId, Batch>), Fault> {
    if upper is Some && !policy_divides(e.read_policy, upper) {
        Err(Fault::NoGranularity(id))
    } else {
        let new = if upper is None {
            None
        } else {
            policy_frontier(e.read_policy, upper)
        };
        if frontier_le(e.read_capability, new) {
            match moved_changes(changes, id, e.read_capability, new) {
                Some(changes) => Ok(
                    (ExportStateView { read_capability: new, write_frontier: upper, ..e }, changes),
                ),
                None => Err(Fault::Overflow),
            }
        } else {
            Ok((ExportStateView { write_frontier: upper, ..e }, changes))
        }
    }
}

/// The state once write frontiers are reported, in the order presented, before the changes of
/// read capabilities that follow are applied.
pub open spec fn frontiers_written(
    s: StateView,
    changes: Map<GlobalId, Batch>,
    updates: Seq<(GlobalId, Option<u64>)>,
) -> Result<(StateView, Map<GlobalId, Batch>), Fault>
    decreases updates.len(),
{
    if updates.len() == 0 {
        Ok((s, changes))
    } else {
        let (id, new_upper) = updates[0];
        if s.collections.dom().contains(id) {
            let c = s.collections[id];
            match assigned(c, changes, id, c.read_policy, advanced(c.write_frontier, new_upper)) {
                Ok((c, changes)) => frontiers_written(
                    StateView { collections: s.collections.insert(id, c), ..s },
                    changes,
                    updates.drop_first(),
                ),
                Err(f) => Err(f),
            }
        } else if s.exports.dom().contains(id) {
            let e = s.exports[id];
            match export_written(e, changes, id, advanced(e.write_frontier, new_upper)) {
                Ok((e, changes)) => frontiers_written(
                    StateView { exports: s.exports.insert(id, e), ..s },
                    changes,
                    updates.drop_first(),
                ),
                Err(f) => Err(f),
            }
        } else {
            Err(Fault::Unknown(id))
        }
    }
}

/// The state once write frontiers are reported.
pub open spec fn with_frontiers(s: StateView, updates: Seq<(GlobalId, Option<u64>)>) -> Result<StateView, Fault> {
    match frontiers_written(s, Map::empty(), updates) {
        Ok((s, changes)) => applied(s, changes),
        Err(f) => Err(f),
    }
}

/// The frontier from which on all of several collections can be read, or the first identifier
/// that is not a collection.
pub open spec fn since_joined(
    collections: Map<GlobalId, CollectionView>,
    ids: Seq<GlobalId>,
    n: int,
) -> Result<Option<u64>, GlobalId>
    decreases n,
{
    if n <= 0 || n > ids.len() {
        Ok(Some(0))
    } else {
        match since_joined(collections, ids, n - 1) {
            Err(id) => Err(id),
            Ok(since) => if collections.dom().contains(ids[n - 1]) {
                Ok(frontier_join(since, collections[ids[n - 1]].implied_capability))
            } else {
                Err(ids[n - 1])
            },
        }
    }
}

/// Changes that are the same for each of several collections.
pub open spec fn same_for_all(ids: Seq<GlobalId>, counts: Map<u64, int>) -> Map<GlobalId, Batch> {
    Map::new(|id: GlobalId| ids.contains(id), |id: GlobalId| grown(empty_batch(), counts))
}

/// One hold less at a frontier.
pub open spec fn release_at(f: Option<u64>) -> Map<u64, int> {
    match f {
        Some(t) => count_at(t, -1),
        None => no_counts(),
    }
}

fn move_changes(changes: &mut IdMap<Changes>, id: GlobalId, from: &Frontier, to: &Frontier) -> (r: bool)
    ensures
        match moved_changes(changes_view(old(changes)@), id, from@, to@) {
            Some(c) => r && changes_view(final(changes)@) == c,
            None => !r,
        },
{
    if from.same(to) {
        return true;
    }
    let mut list: Vec<(u64, i64)> = Vec::new();
    match (from.time(), to.time()) {
        (Some(a), Some(b)) => if a < b {
            list.push((a, -1));
            list.push((b, 1));
        } else {
            list.push((b, 1));
            list.push((a, -1));
        },
        (Some(a), None) => {
            list.push((a, -1));
        },
        (None, Some(b)) => {
            list.push((b, 1));
        },
        (None, None) => {},
    }
    proof {
        reveal_with_fuel(listed, 3);
        if from@ is Some && to@ is Some {
            assert(list@.drop_last().drop_last() =~= Seq::empty());
            assert(list@.drop_last() =~= seq![list@[0]]);
        } else {
            assert(list@.drop_last() =~= Seq::empty());
        }
        assert(listed(list@) =~= moved_hold(from@, to@));
    }
    let ghost before = changes_view(changes@);
    let c = match changes.remove(id) {
        Some(c) => c,
        None => Changes::new(),
    };
    proof {
        reveal_with_fuel(spread, 2);
        assert(seq![id].drop_last() =~= Seq::<GlobalId>::empty());
    }
    let more = match c.extend(&list) {
        Some(more) => more,
        None => {
            return false;
        },
    };
    changes.insert(id, more);
    assert(changes_view(changes@) =~= before.insert(id, more@));
    true
}

/// A collection once it has a read policy and a write frontier.
fn assign(
    collection: CollectionState,
    changes: &mut IdMap<Changes>,
    id: GlobalId,
    policy: ReadPolicy,
    upper: Frontier,
) -> (r: Result<CollectionState, Fault>)
    ensures
        match assigned(collection@, changes_view(old(changes)@), id, policy@, upper@) {
            Ok((c, ch)) => r matches Ok(n) && n@ == c && changes_view(final(changes)@) == ch,
            Err(f) => r matches Err(g) && g == f,
        },
{
    if !policy.applies(&upper) {
        return Err(Fault::NoGranularity(id));
    }
    let new = policy.frontier(&upper);
    if collection.implied_capability.less_equal(&new) {
        if !move_changes(changes, id, &collection.implied_capability, &new) {
            return Err(Fault::Overflow);
        }
        Ok(
            CollectionState {
                implied_capability: new,
                read_policy: policy,
                write_frontier: upper,
                ..collection
            },
        )
    } else {
        Ok(CollectionState { read_policy: policy, write_frontier: upper, ..collection })
    }
}

/// The same policy.
fn copy_policy(p: &ReadPolicy) -> (r: ReadPolicy)
    ensures
        r@ == p@,
    decreases p,
{
    match p {
        ReadPolicy::NoPolicy { initial_since } => ReadPolicy::NoPolicy {
            initial_since: initial_since.copy(),
        },
        ReadPolicy::ValidFrom(f) => ReadPolicy::ValidFrom(f.copy()),
        ReadPolicy::LagWriteFrontier(lag) => ReadPolicy::LagWriteFrontier(*lag),
        ReadPolicy::Multiple(ps) => {
            let mut out: Vec<ReadPolicy> = Vec::new();
            let mut k: usize = 0;
            while k < ps.len()
                invariant
                    k <= ps.len(),
                    out.len() == k,
                    *p == ReadPolicy::Multiple(*ps),
                    forall|j: int| 0 <= j < k ==> (#[trigger] out@[j])@ == ps@[j]@,
                decreases ps.len() - k,
            {
                assert(decreases_to!(*p => p->Multiple_0));
                assert(decreases_to!(ps@ => ps@[k as int]));
                out.push(copy_policy(&ps[k]));
                k += 1;
            }
            let r = ReadPolicy::Multiple(out);
            assert(r@->Multiple_0 =~= p@->Multiple_0) by {
                assert forall|j: int| 0 <= j < ps.len() implies r@->Multiple_0[j] == p@->Multiple_0[j] by {
                    assert(out@[j]@ == ps@[j]@);
                }
            }
            r
        },
    }
}

impl StorageControllerState {
    /// The state of a controller that knows of nothing yet.
    pub fn new(envd_epoch: i64, keep_n_source_status_history_entries: usize, scratch_directory_enabled: bool) -> (r:
        StorageControllerState)
        ensures
            r@.envd_epoch == envd_epoch,
            r@.collections == Map::<GlobalId, CollectionView>::empty(),
            r@.exports == Map::<GlobalId, ExportStateView>::empty(),
            r@.pending_compaction_commands.len() == 0,
            r@.pending_downgrades.len() == 0,
            forall|i: IntrospectionType| (#[trigger] introspection_id(r@.introspection_ids, i)) is None,
            r@.source_statistics.dom() == Set::<GlobalId>::empty(),
            r@.sink_statistics.dom() == Set::<GlobalId>::empty(),
            r@.clients == Set::<StorageInstanceId>::empty(),
            r.clients@.len() == 0,
            !r@.initialized,
            r@.keep_n_source_status_history_entries == keep_n_source_status_history_entries,
            r@.scratch_directory_enabled == scratch_directory_enabled,
    {
        let r = StorageControllerState {
            envd_epoch,
            collections: IdMap::new(),
            exports: IdMap::new(),
            pending_compaction_commands: Vec::new(),
            pending_downgrades: Vec::new(),
            introspection_ids: IntrospectionIds::none(),
            source_statistics: IdMap::new(),
            sink_statistics: IdMap::new(),
            clients: Vec::new(),
            initialized: false,
            keep_n_source_status_history_entries,
            scratch_directory_enabled,
        };
        assert(r@.collections =~= Map::<GlobalId, CollectionView>::empty());
        assert(r@.exports =~= Map::<GlobalId, ExportStateView>::empty());
        assert(r@.clients =~= Set::<StorageInstanceId>::empty());
        assert(r@.source_statistics.dom() =~= Set::<GlobalId>::empty());
        assert(r@.sink_statistics.dom() =~= Set::<GlobalId>::empty());
        r
    }

    /// Acquire an immutable reference to the collection state, should it exist.
    pub fn collection(&self, id: GlobalId) -> (r: Result<&CollectionState, StorageError>)
        ensures
            match r {
                Ok(c) => self@.collections.dom().contains(id) && c@ == self@.collections[id],
                Err(e) => !self@.collections.dom().contains(id) && e@ == ErrorView::IdentifierMissing(
                    id,
                ),
            },
    {
        match self.collections.get(id) {
            Some(c) => Ok(c),
            None => Err(StorageError::IdentifierMissing(id)),
        }
    }

    /// Acquire an immutable reference to the export state, should it exist.
    pub fn export(&self, id: GlobalId) -> (r: Result<&ExportState, StorageError>)
        ensures
            match r {
                Ok(e) => self@.exports.dom().contains(id) && e@ == self@.exports[id],
                Err(e) => !self@.exports.dom().contains(id) && e@ == ErrorView::IdentifierMissing(id),
            },
    {
        match self.exports.get(id) {
            Some(e) => Ok(e),
            None => Err(StorageError::IdentifierMissing(id)),
        }
    }

    /// Applies `updates` and notes any appropriate compaction command.
    pub fn update_read_capabilities(&mut self, updates: IdMap<Changes>) -> (r: Result<(), Fault>)
        ensures
            is_state(final(self)@, r, applied(old(self)@, changes_view(updates@))),
    {
        let ghost before = self@;
        let ghost described = updated(before.collections, before.exports, changes_view(updates@));
        let c = match update_capabilities(&mut self.collections, &self.exports, updates) {
            Ok(c) => c,
            Err(f) => {
                return Err(f);
            },
        };
        let ghost (collections, workers, persist) = described->Ok_0;
        let ids = c.persist.ids();
        let mut k: usize = 0;
        while k < ids.len()
            invariant
                k <= ids.len(),
                ids@ == in_order(c.persist@.dom()),
                forall|j: int| 0 <= j < ids.len() ==> c.persist@.dom().contains(#[trigger] ids@[j]),
                persist == frontiers_view(c.persist@),
                self@ == (StateView {
                    collections,
                    pending_downgrades: before.pending_downgrades + downgrades_in_order(persist).take(
                        k as int,
                    ),
                    ..before
                }),
            decreases ids.len() - k,
        {
            let id = ids[k];
            assert(persist.dom() =~= c.persist@.dom());
            if let Some(f) = c.persist.get(id) {
                let ghost had = downgrades_view(self.pending_downgrades@);
                self.pending_downgrades.push((id, f.copy()));
                proof {
                    let all = downgrades_in_order(persist);
                    assert(all.take(k + 1) =~= all.take(k as int).push(all[k as int]));
                    assert(downgrades_view(self.pending_downgrades@) =~= had.push((id, f@)));
                    assert(downgrades_view(self.pending_downgrades@) =~= before.pending_downgrades
                        + all.take(k + 1));
                }
            }
            k += 1;
        }
        proof {
            assert(persist.dom() =~= c.persist@.dom());
            assert(downgrades_in_order(persist).take(k as int) =~= downgrades_in_order(persist));
        }
        let ids = c.workers.ids();
        let mut k: usize = 0;
        while k < ids.len()
            invariant
                k <= ids.len(),
                ids@ == in_order(c.workers@.dom()),
                forall|j: int| 0 <= j < ids.len() ==> c.workers@.dom().contains(#[trigger] ids@[j]),
                workers == compactions_view(c.workers@),
                self@ == (StateView {
                    collections,
                    pending_downgrades: before.pending_downgrades + downgrades_in_order(persist),
                    pending_compaction_commands: before.pending_compaction_commands
                        + commands_in_order(workers).take(k as int),
                    ..before
                }),
            decreases ids.len() - k,
        {
            let id = ids[k];
            assert(workers.dom() =~= c.workers@.dom());
            if let Some(command) = c.workers.get(id) {
                let ghost had = pending_view(self.pending_compaction_commands@);
                self.pending_compaction_commands.push(
                    PendingCompaction {
                        id,
                        frontier: command.frontier.copy(),
                        cluster_id: command.cluster_id,
                    },
                );
                proof {
                    let all = commands_in_order(workers);
                    assert(all.take(k + 1) =~= all.take(k as int).push(all[k as int]));
                    assert(pending_view(self.pending_compaction_commands@) =~= had.push(all[k as int]));
                    assert(pending_view(self.pending_compaction_commands@)
                        =~= before.pending_compaction_commands + all.take(k + 1));
                }
            }
            k += 1;
        }
        proof {
            assert(workers.dom() =~= c.workers@.dom());
            assert(commands_in_order(workers).take(k as int) =~= commands_in_order(workers));
        }
        Ok(())
    }

    /// Assigns a read policy to specific identifiers.
    ///
    /// The policies are assigned in the order presented, and repeated identifiers
    /// conclude with the last policy. Changing a policy will immediately downgrade the read
    /// capability if appropriate, but it will not "recover" the read capability if the prior
    /// capability is already ahead of it.
    ///
    /// Identifiers not present in `policies` retain their existing read policies.
    pub fn set_read_policy(&mut self, policies: Vec<(GlobalId, ReadPolicy)>) -> (r: Result<(), Fault>)
        ensures
            is_state(final(self)@, r, with_policies(old(self)@, policies_view(policies@))),
    {
        let ghost before = self@;
        let ghost whole = policies_assigned(before.collections, Map::empty(), policies_view(policies@));
        let mut left = policies;
        let mut changes: IdMap<Changes> = IdMap::new();
        assert(changes_view(changes@) =~= Map::<GlobalId, Batch>::empty());
        while left.len() > 0
            invariant
                before == old(self)@,
                whole == policies_assigned(before.collections, Map::empty(), policies_view(policies@)),
                whole == policies_assigned(
                    self@.collections,
                    changes_view(changes@),
                    policies_view(left@),
                ),
                self@ == (StateView { collections: self@.collections, ..before }),
            decreases left.len(),
        {
            let ghost all = policies_view(left@);
            let (id, policy) = left.remove(0);
            assert(policies_view(left@) =~= all.drop_first());
            let ghost had = self@.collections;
            let collection = match self.collections.remove(id) {
                Some(c) => c,
                None => {
                    return Err(Fault::Unknown(id));
                },
            };
            assert(collection@ == had[id]);
            let upper = collection.write_frontier.copy();
            match assign(collection, &mut changes, id, policy, upper) {
                Ok(c) => {
                    self.collections.insert(id, c);
                    assert(self@.collections =~= had.insert(id, c@));
                },
                Err(f) => {
                    return Err(f);
                },
            }
        }
        self.update_read_capabilities(changes)
    }

    /// Ingests write frontier updates for collections that this controller
    /// maintains and potentially generates updates to read capabilities, which
    /// are applied.
    ///
    /// The so-called "implied capability" is a read capability for a collection
    /// that is updated based on the write frontier and the collections
    /// [`ReadPolicy`]. Advancing the write frontier might change this implied
    /// capability, which in turn might change the overall `since` (a
    /// combination of all read capabilities) of a collection.
    pub fn update_write_frontiers(&mut self, updates: &Vec<(GlobalId, Frontier)>) -> (r: Result<(), Fault>)
        ensures
            is_state(final(self)@, r, with_frontiers(old(self)@, downgrades_view(updates@))),
    {
        let ghost all = downgrades_view(updates@);
        let ghost whole = frontiers_written(self@, Map::empty(), all);
        let mut changes: IdMap<Changes> = IdMap::new();
        let mut k: usize = 0;
        assert(changes_view(changes@) =~= Map::<GlobalId, Batch>::empty());
        assert(all.skip(0) =~= all);
        while k < updates.len()
            invariant
                k <= updates.len(),
                all == downgrades_view(updates@),
                whole == frontiers_written(self@, changes_view(changes@), all.skip(k as int)),
                whole == frontiers_written(old(self)@, Map::empty(), all),
            decreases updates.len() - k,
        {
            let id = updates[k].0;
            let new_upper = &updates[k].1;
            let ghost had = self@;
            proof {
                assert(all.skip(k as int)[0] == (id, new_upper@));
                assert(all.skip(k as int).drop_first() =~= all.skip(k + 1));
            }
            if let Some(collection) = self.collections.remove(id) {
                let upper = if collection.write_frontier.less_than(new_upper) {
                    new_upper.copy()
                } else {
                    collection.write_frontier.copy()
                };
                let policy = copy_policy(&collection.read_policy);
                match assign(collection, &mut changes, id, policy, upper) {
                    Ok(c) => {
                        self.collections.insert(id, c);
                        assert(self@.collections =~= had.collections.insert(id, c@));
                        assert(self@ =~= (StateView {
                            collections: had.collections.insert(id, c@),
                            ..had
                        }));
                    },
                    Err(f) => {
                        return Err(f);
                    },
                }
            } else if let Some(export) = self.exports.remove(id) {
                let upper = if export.write_frontier.less_than(new_upper) {
                    new_upper.copy()
                } else {
                    export.write_frontier.copy()
                };
                // Ignore read policy for sinks whose write frontiers are closed, which identifies
                // the sink is being dropped; we need to advance the read frontier to the empty
                // chain to signal to the dataflow machinery that they should deprovision this
                // object.
                let new = if upper.is_empty() {
                    upper.copy()
                } else {
                    if !export.read_policy.applies(&upper) {
                        return Err(Fault::NoGranularity(id));
                    }
                    export.read_policy.frontier(&upper)
                };
                let e = if export.read_capability.less_equal(&new) {
                    if !move_changes(&mut changes, id, &export.read_capability, &new) {
                        return Err(Fault::Overflow);
                    }
                    ExportState { read_capability: new, write_frontier: upper, ..export }
                } else {
                    ExportState { write_frontier: upper, ..export }
                };
                self.exports.insert(id, e);
                assert(self@.collections =~= had.collections);
                assert(self@.exports =~= had.exports.insert(id, e@));
                assert(self@ =~= (StateView { exports: had.exports.insert(id, e@), ..had }));
            } else {
                return Err(Fault::Unknown(id));
            }
            k += 1;
        }
        assert(all.skip(k as int) =~= Seq::empty());
        self.update_read_capabilities(changes)
    }

    /// Return the since frontier at which we can read from all the given
    /// collections.
    pub fn determine_collection_since_joins(&self, ids: &Vec<GlobalId>) -> (r: Result<Frontier, StorageError>)
        ensures
            match since_joined(self@.collections, ids@, ids@.len() as int) {
                Ok(since) => r matches Ok(f) && f@ == since,
                Err(id) => r matches Err(e) && e@ == ErrorView::IdentifierMissing(id),
            },
    {
        let mut since = Frontier::from_elem(0);
        let mut k: usize = 0;
        while k < ids.len()
            invariant
                k <= ids.len(),
                since_joined(self@.collections, ids@, k as int) == Ok::<Option<u64>, GlobalId>(since@),
            decreases ids.len() - k,
        {
            let collection = match self.collection(ids[k]) {
                Ok(c) => c,
                Err(e) => {
                    proof {
                        lemma_since_missing(self@.collections, ids@, k + 1, ids@.len() as int);
                    }
                    return Err(e);
                },
            };
            since = since.join(&collection.implied_capability);
            k += 1;
        }
        Ok(since)
    }

    fn change_all(&mut self, ids: &Vec<GlobalId>, list: &Vec<(u64, i64)>) -> (r: Result<(), Fault>)
        requires
            is_compact(list@),
            fits(plus(no_counts(), listed(list@))),
        ensures
            is_state(
                final(self)@,
                r,
                applied(old(self)@, same_for_all(ids@, listed(list@))),
            ),
    {
        let mut updates: IdMap<Changes> = IdMap::new();
        let mut k: usize = 0;
        while k < ids.len()
            invariant
                k <= ids.len(),
                is_compact(list@),
                fits(plus(no_counts(), listed(list@))),
                forall|id: GlobalId| #[trigger]
                    updates@.dom().contains(id) == ids@.take(k as int).contains(id),
                forall|id: GlobalId| #[trigger]
                    updates@.dom().contains(id) ==> updates@[id]@ == grown(
                        empty_batch(),
                        listed(list@),
                    ),
            decreases ids.len() - k,
        {
            let id = ids[k];
            if let Some(c) = Changes::new().extend(list) {
                updates.insert(id, c);
            }
            proof {
                assert forall|other: GlobalId| ids@.take(k + 1).contains(other) == (ids@.take(
                    k as int,
                ).contains(other) || other == id) by {
                    if other == id {
                        assert(ids@.take(k + 1)[k as int] == id);
                    } else if ids@.take(k + 1).contains(other) {
                        let j = ids@.take(k + 1).index_of(other);
                        assert(ids@.take(k as int)[j] == other);
                    } else if ids@.take(k as int).contains(other) {
                        let j = ids@.take(k as int).index_of(other);
                        assert(ids@.take(k + 1)[j] == other);
                    }
                }
            }
            k += 1;
        }
        proof {
            assert(ids@.take(k as int) =~= ids@);
            assert(changes_view(updates@) =~= same_for_all(ids@, listed(list@)));
        }
        self.update_read_capabilities(updates)
    }

    /// Install read capabilities on the given `storage_dependencies`.
    pub fn install_read_capabilities(
        &mut self,
        storage_dependencies: &Vec<GlobalId>,
        read_capability: &Frontier,
    ) -> (r: Result<(), Fault>)
        ensures
            is_state(
                final(self)@,
                r,
                applied(
                    old(self)@,
                    same_for_all(
                        storage_dependencies@,
                        hold_at(read_capability@),
                    ),
                ),
            ),
    {
        let list = hold_list(read_capability);
        self.change_all(storage_dependencies, &list)
    }

    /// Removes read holds that were previously acquired via
    /// `install_read_capabilities`. It is a fault if there are no read capabilities at
    /// `capability` for all depended-upon collections.
    pub fn remove_read_capabilities(
        &mut self,
        capability: &Frontier,
        storage_dependencies: &Vec<GlobalId>,
    ) -> (r: Result<(), Fault>)
        ensures
            is_state(
                final(self)@,
                r,
                applied(
                    old(self)@,
                    same_for_all(
                        storage_dependencies@,
                        release_at(capability@),
                    ),
                ),
            ),
    {
        let mut list: Vec<(u64, i64)> = Vec::new();
        if let Some(t) = capability.time() {
            list.push((t, -1));
        }
        proof {
            reveal_with_fuel(listed, 2);
            if capability@ is Some {
                assert(list@.drop_last() =~= Seq::empty());
            }
            assert(listed(list@) =~= release_at(capability@));
        }
        self.change_all(storage_dependencies, &list)
    }

    /// Notify the storage controller to prepare for an export to be created: compaction of the
    /// collection is held back from then on.
    pub fn prepare_export(&mut self, id: GlobalId, from_id: GlobalId) -> (r: Result<
        Result<CreateExportToken, StorageError>,
        Fault,
    >)
        ensures
            if old(self)@.exports.dom().contains(id) {
                &&& r matches Ok(Err(e))
                &&& e@ == ErrorView::SourceIdReused(id)
                &&& final(self)@ == old(self)@
            } else if !old(self)@.collections.dom().contains(from_id) {
                &&& r matches Ok(Err(e))
                &&& e@ == ErrorView::IdentifierMissing(from_id)
                &&& final(self)@ == old(self)@
            } else {
                let since = frontier_join(Some(0), old(self)@.collections[from_id].implied_capability);
                match applied(
                    old(self)@,
                    same_for_all(seq![from_id], hold_at(since)),
                ) {
                    Ok(s) => {
                        &&& r matches Ok(Ok(token))
                        &&& token@ == (TokenView { id, from_id, acquired_since: since })
                        &&& final(self)@ == s
                    },
                    Err(f) => r matches Err(g) && g == f,
                }
            },
    {
        if self.export(id).is_ok() {
            return Ok(Err(StorageError::SourceIdReused(id)));
        }
        let mut ids: Vec<GlobalId> = Vec::new();
        ids.push(from_id);
        assert(ids@ =~= seq![from_id]);
        proof {
            reveal_with_fuel(since_joined, 2);
        }
        let since = match self.determine_collection_since_joins(&ids) {
            Ok(since) => since,
            Err(e) => {
                return Ok(Err(e));
            },
        };
        match self.install_read_capabilities(&ids, &since) {
            Ok(()) => Ok(Ok(CreateExportToken::make(id, from_id, since))),
            Err(f) => Err(f),
        }
    }

    /// Cancel the pending export
    pub fn cancel_prepare_export(&mut self, token: CreateExportToken) -> (r: Result<(), Fault>)
        ensures
            is_state(
                final(self)@,
                r,
                applied(
                    old(self)@,
                    same_for_all(
                        seq![token@.from_id],
                        release_at(token@.acquired_since),
                    ),
                ),
            ),
    {
        let mut ids: Vec<GlobalId> = Vec::new();
        ids.push(token.from_id());
        assert(ids@ =~= seq![token@.from_id]);
        self.remove_read_capabilities(&token.acquired_since(), &ids)
    }
}

proof fn lemma_since_missing(
    collections: Map<GlobalId, CollectionView>,
    ids: Seq<GlobalId>,
    k: int,
    n: int,
)
    requires
        0 <= k <= n <= ids.len(),
        since_joined(collections, ids, k) is Err,
    ensures
        since_joined(collections, ids, n) == since_joined(collections, ids, k),
    decreases n - k,
{
    if k < n {
        lemma_since_missing(collections, ids, k, n - 1);
    }
}

} // verus!
