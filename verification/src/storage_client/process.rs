//! Processing what instances report, and sending what is due.

use vstd::prelude::*;

use crate::storage_client::capabilities::Fault;
use crate::storage_client::controller::{
    downgrades_view, pending_view, statistics_view, with_frontiers, workers_view, StateView,
    StorageControllerState, WorkerStatistics,
};
use crate::storage_client::frontier::Frontier;
use crate::storage_client::growth::{lemma_frontiers_domain, lemma_retired_domain};
use crate::storage_client::id_map::IdMap;
use crate::storage_client::ids::{GlobalId, ShardId, StorageInstanceId};
use crate::storage_client::state::{CollectionState, CollectionView};

verus! {

/// Statistics of an object that a worker reports.
#[derive(Debug)]
pub struct StatisticsUpdate {
    pub id: GlobalId,
    pub statistics: WorkerStatistics,
}

/// What an instance reports.
#[derive(Debug)]
pub enum StorageResponse {
    /// Write frontiers.
    FrontierUppers(Vec<(GlobalId, Frontier)>),
    /// Objects that are gone.
    DroppedIds(Vec<GlobalId>),
    /// Statistics of sources and of sinks.
    StatisticsUpdates(Vec<StatisticsUpdate>, Vec<StatisticsUpdate>),
}

/// Statistics that are reported.
pub open spec fn reported(updates: Seq<StatisticsUpdate>) -> Seq<(GlobalId, usize, Seq<u8>)> {
    Seq::new(
        updates.len(),
        |k: int|
            (updates[k].id, updates[k].statistics.worker_id, updates[k].statistics.encoded@),
    )
}

/// The statistics of workers once one of them reports: they take the place of those that it
/// reported before.
pub open spec fn set_worker(stats: Seq<(usize, Seq<u8>)>, worker: usize, new: Seq<u8>) -> Seq<(usize, Seq<u8>)>
    decreases stats.len(),
{
    if stats.len() == 0 {
        seq![(worker, new)]
    } else if stats[0].0 == worker {
        seq![(worker, new)] + stats.drop_first()
    } else {
        seq![stats[0]] + set_worker(stats.drop_first(), worker, new)
    }
}

/// Statistics once others are reported, in order. Objects that have none any more get none.
pub open spec fn with_reports(
    stats: Map<GlobalId, Seq<(usize, Seq<u8>)>>,
    reports: Seq<(GlobalId, usize, Seq<u8>)>,
) -> Map<GlobalId, Seq<(usize, Seq<u8>)>>
    decreases reports.len(),
{
    if reports.len() == 0 {
        stats
    } else {
        let (id, worker, new) = reports[0];
        with_reports(
            if stats.dom().contains(id) {
                stats.insert(id, set_worker(stats[id], worker, new))
            } else {
                stats
            },
            reports.drop_first(),
        )
    }
}

/// The state once a collection is marked as dropped.
pub open spec fn marked(s: StateView, id: GlobalId) -> StateView {
    let c = CollectionView { dropped: true, ..s.collections[id] };
    StateView { collections: s.collections.insert(id, c), ..s }
}

/// The state once collections are reported as dropped, and the shards of those that were not
/// before, in order.
pub open spec fn retired(s: StateView, ids: Seq<GlobalId>) -> (StateView, Seq<ShardId>)
    decreases ids.len(),
{
    if ids.len() == 0 {
        (s, Seq::empty())
    } else if s.collections.dom().contains(ids[0]) && !s.collections[ids[0]].dropped {
        let (last, shards) = retired(marked(s, ids[0]), ids.drop_first());
        (last, seq![s.collections[ids[0]].collection_metadata.data_shard] + shards)
    } else {
        retired(s, ids.drop_first())
    }
}

fn set_statistics(stats: Vec<WorkerStatistics>, new: WorkerStatistics) -> (r: Vec<WorkerStatistics>)
    ensures
        workers_view(r@) == set_worker(workers_view(stats@), new.worker_id, new.encoded@),
{
    let ghost all = workers_view(stats@);
    let ghost worker = new.worker_id;
    let ghost bytes = new.encoded@;
    let mut stats = stats;
    let mut k: usize = 0;
    assert(all.skip(0) =~= all);
    assert(all.take(0) + set_worker(all, worker, bytes) =~= set_worker(all, worker, bytes));
    while k < stats.len() && stats[k].worker_id != new.worker_id
        invariant
            k <= stats.len(),
            all == workers_view(stats@),
            worker == new.worker_id,
            set_worker(all, worker, bytes) == all.take(k as int) + set_worker(
                all.skip(k as int),
                worker,
                bytes,
            ),
        decreases stats.len() - k,
    {
        proof {
            let rest = all.skip(k as int);
            assert(rest.drop_first() =~= all.skip(k + 1));
            assert(all.take(k + 1) =~= all.take(k as int).push(all[k as int]));
            assert(all.take(k as int) + (seq![rest[0]] + set_worker(rest.drop_first(), worker, bytes))
                =~= all.take(k + 1) + set_worker(all.skip(k + 1), worker, bytes));
        }
        k += 1;
    }
    if k < stats.len() {
        proof {
            let rest = all.skip(k as int);
            assert(rest.drop_first() =~= all.skip(k + 1));
        }
        stats.set(k, new);
        assert(workers_view(stats@) =~= all.take(k as int) + (seq![(worker, bytes)] + all.skip(k + 1)));
    } else {
        stats.push(new);
        assert(all.skip(k as int) =~= Seq::empty());
        assert(workers_view(stats@) =~= all.take(k as int) + seq![(worker, bytes)]);
    }
    stats
}

fn report(stats: &mut IdMap<Vec<WorkerStatistics>>, updates: Vec<StatisticsUpdate>)
    ensures
        statistics_view(final(stats)@) == with_reports(
            statistics_view(old(stats)@),
            reported(updates@),
        ),
{
    let ghost start = statistics_view(stats@);
    let ghost all = reported(updates@);
    let mut left = updates;
    while left.len() > 0
        invariant
            with_reports(start, all) == with_reports(statistics_view(stats@), reported(left@)),
        decreases left.len(),
    {
        let ghost rest = reported(left@);
        let update = left.remove(0);
        assert(reported(left@) =~= rest.drop_first());
        let ghost had = statistics_view(stats@);
        let id = update.id;
        if let Some(old_stats) = stats.remove(id) {
            assert(had[id] == workers_view(old_stats@));
            let new_stats = set_statistics(old_stats, update.statistics);
            stats.insert(id, new_stats);
            assert(statistics_view(stats@) =~= had.insert(id, workers_view(new_stats@)));
        } else {
            assert(statistics_view(stats@) =~= had);
        }
    }
}

/// What instances are told, and what is to be written down.
#[derive(Debug)]
pub struct DueWork {
    /// Up to which frontiers instances may compact what.
    pub compactions: Vec<(StorageInstanceId, GlobalId, Frontier)>,
    /// Sources that were dropped, whose shards and statuses are to be written down.
    pub source_drops: Vec<GlobalId>,
    /// Sinks that were dropped, whose statuses are to be written down.
    pub sink_drops: Vec<GlobalId>,
}

/// What instances are told.
pub open spec fn told(compactions: Seq<(StorageInstanceId, GlobalId, Frontier)>) -> Seq<
    (StorageInstanceId, GlobalId, Option<u64>),
> {
    Seq::new(
        compactions.len(),
        |k: int| (compactions[k].0, compactions[k].1, compactions[k].2@),
    )
}

/// The commands that are sent: those whose instance is still known.
pub open spec fn sent(
    s: StateView,
    commands: Seq<(GlobalId, Option<u64>, Option<StorageInstanceId>)>,
) -> Seq<(StorageInstanceId, GlobalId, Option<u64>)>
    decreases commands.len(),
{
    if commands.len() == 0 {
        Seq::empty()
    } else {
        let (id, frontier, cluster) = commands.last();
        let before = sent(s, commands.drop_last());
        match cluster {
            Some(c) if s.clients.contains(c) => before.push((c, id, frontier)),
            _ => before,
        }
    }
}

/// The sources that are dropped: those that belong to an instance and are compacted altogether.
pub open spec fn dropped_sources(
    s: StateView,
    commands: Seq<(GlobalId, Option<u64>, Option<StorageInstanceId>)>,
) -> Seq<GlobalId>
    decreases commands.len(),
{
    if commands.len() == 0 {
        Seq::empty()
    } else {
        let (id, frontier, cluster) = commands.last();
        let before = dropped_sources(s, commands.drop_last());
        if cluster is Some && frontier is None && s.collections.dom().contains(id) {
            before.push(id)
        } else {
            before
        }
    }
}

/// The sinks that are dropped.
pub open spec fn dropped_sinks(
    s: StateView,
    commands: Seq<(GlobalId, Option<u64>, Option<StorageInstanceId>)>,
) -> Seq<GlobalId>
    decreases commands.len(),
{
    if commands.len() == 0 {
        Seq::empty()
    } else {
        let (id, frontier, cluster) = commands.last();
        let before = dropped_sinks(s, commands.drop_last());
        if cluster is Some && frontier is None && !s.collections.dom().contains(id)
            && s.exports.dom().contains(id) {
            before.push(id)
        } else {
            before
        }
    }
}

/// The statistics of sources without those of collections that are compacted altogether. Sources
/// can have subsources, which don't have associated clusters.
pub open spec fn without_statistics(
    s: StateView,
    commands: Seq<(GlobalId, Option<u64>, Option<StorageInstanceId>)>,
) -> Map<GlobalId, Seq<(usize, Seq<u8>)>>
    decreases commands.len(),
{
    if commands.len() == 0 {
        s.source_statistics
    } else {
        let (id, frontier, _) = commands.last();
        let before = without_statistics(s, commands.drop_last());
        if frontier is None && s.collections.dom().contains(id) {
            before.remove(id)
        } else {
            before
        }
    }
}

/// Statistics without those of several objects.
pub open spec fn removed_all(stats: Map<GlobalId, Seq<(usize, Seq<u8>)>>, ids: Seq<GlobalId>) -> Map<
    GlobalId,
    Seq<(usize, Seq<u8>)>,
>
    decreases ids.len(),
{
    if ids.len() == 0 {
        stats
    } else {
        removed_all(stats, ids.drop_last()).remove(ids.last())
    }
}

/// The first command for an instance that compacts altogether what does not exist.
pub open spec fn first_absent(
    s: StateView,
    commands: Seq<(GlobalId, Option<u64>, Option<StorageInstanceId>)>,
) -> Option<GlobalId>
    decreases commands.len(),
{
    if commands.len() == 0 {
        None
    } else {
        match first_absent(s, commands.drop_last()) {
            Some(id) => Some(id),
            None => {
                let (id, frontier, cluster) = commands.last();
                if cluster is Some && frontier is None && !s.collections.dom().contains(id)
                    && !s.exports.dom().contains(id) {
                    Some(id)
                } else {
                    None
                }
            },
        }
    }
}

proof fn lemma_absent(
    s: StateView,
    commands: Seq<(GlobalId, Option<u64>, Option<StorageInstanceId>)>,
    k: int,
)
    requires
        0 <= k <= commands.len(),
        first_absent(s, commands.take(k)) is Some,
    ensures
        first_absent(s, commands) == first_absent(s, commands.take(k)),
    decreases commands.len() - k,
{
    if k < commands.len() {
        assert(commands.take(k + 1).drop_last() =~= commands.take(k));
        lemma_absent(s, commands, k + 1);
    } else {
        assert(commands.take(k) =~= commands);
    }
}

impl StorageControllerState {
    /// Takes in what an instance reports. The result is the shards to finalize. No collection
    /// is removed; those that are reported as dropped are marked.
    pub fn receive(&mut self, response: StorageResponse) -> (r: Result<Vec<ShardId>, Fault>)
        ensures
            match response {
                StorageResponse::FrontierUppers(updates) => match with_frontiers(
                    old(self)@,
                    downgrades_view(updates@),
                ) {
                    Ok(s) => r matches Ok(shards) && shards.len() == 0 && final(self)@ == s,
                    Err(f) => r matches Err(g) && g == f,
                },
                StorageResponse::DroppedIds(ids) => {
                    let (s, shards) = retired(old(self)@, ids@);
                    r matches Ok(v) && v@ == shards && final(self)@ == s
                },
                StorageResponse::StatisticsUpdates(sources, sinks) => r matches Ok(shards) && shards.len()
                    == 0 && final(self)@ == (StateView {
                    source_statistics: with_reports(
                        old(self)@.source_statistics,
                        reported(sources@),
                    ),
                    sink_statistics: with_reports(old(self)@.sink_statistics, reported(sinks@)),
                    ..old(self)@
                }),
            },
            r is Ok ==> final(self)@.collections.dom() == old(self)@.collections.dom(),
    {
        match response {
            StorageResponse::FrontierUppers(updates) => match self.update_write_frontiers(&updates) {
                Ok(()) => {
                    proof {
                        lemma_frontiers_domain(old(self)@, downgrades_view(updates@));
                    }
                    Ok(Vec::new())
                },
                Err(f) => Err(f),
            },
            StorageResponse::DroppedIds(ids) => {
                let mut shards: Vec<ShardId> = Vec::new();
                let mut k: usize = 0;
                let ghost start = self@;
                assert(ids@.skip(0) =~= ids@);
                assert(shards@ + retired(start, ids@).1 =~= retired(start, ids@).1);
                while k < ids.len()
                    invariant
                        k <= ids.len(),
                        start == old(self)@,
                        retired(start, ids@).0 == retired(self@, ids@.skip(k as int)).0,
                        retired(start, ids@).1 == shards@ + retired(self@, ids@.skip(k as int)).1,
                    decreases ids.len() - k,
                {
                    let id = ids[k];
                    let ghost had = self@;
                    let ghost rest = ids@.skip(k as int);
                    assert(rest[0] == id);
                    assert(rest.drop_first() =~= ids@.skip(k + 1));
                    let ghost before = shards@;
                    let live = match self.collections.get(id) {
                        Some(c) => !c.dropped,
                        None => false,
                    };
                    if live {
                        if let Some(c) = self.collections.remove(id) {
                            assert(c@ == had.collections[id]);
                            shards.push(c.collection_metadata.data_shard);
                            self.collections.insert(id, CollectionState { dropped: true, ..c });
                        }
                        proof {
                            assert(self@.collections =~= marked(had, id).collections);
                            assert(self@ =~= marked(had, id));
                            let tail = retired(self@, ids@.skip(k + 1)).1;
                            let shard = had.collections[id].collection_metadata.data_shard;
                            assert(before + (seq![shard] + tail) =~= shards@ + tail);
                        }
                    }
                    k += 1;
                }
                assert(ids@.skip(k as int) =~= Seq::empty());
                assert(shards@ + Seq::<ShardId>::empty() =~= shards@);
                proof {
                    lemma_retired_domain(old(self)@, ids@);
                }
                Ok(shards)
            },
            StorageResponse::StatisticsUpdates(sources, sinks) => {
                report(&mut self.source_statistics, sources);
                report(&mut self.sink_statistics, sinks);
                Ok(Vec::new())
            },
        }
    }

    /// Takes the compaction commands that are due, and tells what follows: what instances are
    /// told, and which sources and sinks are dropped. Statistics of what is dropped are removed.
    pub fn take_due_work(&mut self) -> (r: Result<DueWork, Fault>)
        ensures
            ({
                let s = old(self)@;
                let commands = s.pending_compaction_commands;
                match first_absent(s, commands) {
                    Some(id) => r matches Err(f) && f == Fault::Unknown(id),
                    None => {
                        &&& r matches Ok(w)
                        &&& told(w.compactions@) == sent(s, commands)
                        &&& w.source_drops@ == dropped_sources(s, commands)
                        &&& w.sink_drops@ == dropped_sinks(s, commands)
                        &&& final(self)@ == (StateView {
                            pending_compaction_commands: Seq::empty(),
                            source_statistics: without_statistics(s, commands),
                            sink_statistics: removed_all(s.sink_statistics, dropped_sinks(s, commands)),
                            ..s
                        })
                    },
                }
            }),
    {
        let ghost s = self@;
        let ghost commands = s.pending_compaction_commands;
        let mut compactions: Vec<(StorageInstanceId, GlobalId, Frontier)> = Vec::new();
        let mut source_drops: Vec<GlobalId> = Vec::new();
        let mut sink_drops: Vec<GlobalId> = Vec::new();
        let mut k: usize = 0;
        assert(commands.take(0) =~= Seq::empty());
        assert(told(compactions@) =~= Seq::empty());
        while k < self.pending_compaction_commands.len()
            invariant
                k <= self.pending_compaction_commands.len(),
                s == old(self)@,
                commands == s.pending_compaction_commands,
                commands == pending_view(self.pending_compaction_commands@),
                self@ == (StateView {
                    source_statistics: without_statistics(s, commands.take(k as int)),
                    ..s
                }),
                first_absent(s, commands.take(k as int)) is None,
                told(compactions@) == sent(s, commands.take(k as int)),
                source_drops@ == dropped_sources(s, commands.take(k as int)),
                sink_drops@ == dropped_sinks(s, commands.take(k as int)),
            decreases self.pending_compaction_commands.len() - k,
        {
            proof {
                assert(commands.take(k + 1).drop_last() =~= commands.take(k as int));
            }
            let id = self.pending_compaction_commands[k].id;
            let cluster = self.pending_compaction_commands[k].cluster_id;
            let frontier = self.pending_compaction_commands[k].frontier.copy();
            assert(commands[k as int] == (id, frontier@, cluster));
            assert(commands.take(k + 1).last() == commands[k as int]);
            let is_collection = self.collection(id).is_ok();
            let is_export = self.export(id).is_ok();
            if cluster.is_some() && frontier.is_empty() {
                if is_collection {
                    source_drops.push(id);
                } else if is_export {
                    sink_drops.push(id);
                } else {
                    proof {
                        lemma_absent(s, commands, k + 1);
                    }
                    return Err(Fault::Unknown(id));
                }
            }
            if frontier.is_empty() && is_collection {
                let ghost had = statistics_view(self.source_statistics@);
                self.source_statistics.remove(id);
                assert(statistics_view(self.source_statistics@) =~= had.remove(id));
            }
            // Note that while collections are dropped, the instance may already
            // be cleared out, before we do this post-processing!
            if let Some(c) = cluster {
                if self.has_instance(c) {
                    let ghost had = told(compactions@);
                    compactions.push((c, id, frontier));
                    assert(told(compactions@) =~= had.push((c, id, frontier@)));
                }
            }
            k += 1;
        }
        assert(commands.take(k as int) =~= commands);
        let mut j: usize = 0;
        assert(sink_drops@.take(0) =~= Seq::empty());
        let ghost sinks = self@.sink_statistics;
        while j < sink_drops.len()
            invariant
                j <= sink_drops.len(),
                s == old(self)@,
                sinks == s.sink_statistics,
                self@ == (StateView {
                    source_statistics: without_statistics(s, commands),
                    sink_statistics: removed_all(sinks, sink_drops@.take(j as int)),
                    ..s
                }),
            decreases sink_drops.len() - j,
        {
            assert(sink_drops@.take(j + 1).drop_last() =~= sink_drops@.take(j as int));
            let ghost had = statistics_view(self.sink_statistics@);
            let id = sink_drops[j];
            self.sink_statistics.remove(id);
            assert(statistics_view(self.sink_statistics@) =~= had.remove(id));
            j += 1;
        }
        assert(sink_drops@.take(j as int) =~= sink_drops@);
        self.pending_compaction_commands = Vec::new();
        assert(pending_view(self.pending_compaction_commands@) =~= Seq::empty());
        Ok(DueWork { compactions, source_drops, sink_drops })
    }
}

} // verus!
