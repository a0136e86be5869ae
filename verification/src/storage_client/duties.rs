//! What holds of what the controller tells instances and keeps for itself.

use vstd::prelude::*;

use crate::storage_client::capabilities::{
    caps_of, dependencies_among, pending_for, settled, spread, updated, Fault,
};
use crate::storage_client::changes::{
    empty_batch, first_time, fits, grown, hold_at, is_first, lemma_first_time, lemma_is_first,
    moved_hold, Batch,
};
use crate::storage_client::controller::{
    applied, assigned, commands_in_order, downgrades_in_order, export_written, frontiers_written,
    introspection_id, moved_changes, policies_assigned, since_joined, with_frontiers,
    with_introspection, with_policies, IntrospectionIds, StateView,
};
use crate::storage_client::frontier::{frontier_join, frontier_le, frontier_lt};
use crate::storage_client::id_map::{ascending, in_order, lemma_in_order, lists};
use crate::storage_client::ids::{GlobalId, StorageInstanceId};
use crate::storage_client::policy::{policy_divides, policy_frontier, Lag, PolicyView};
use crate::storage_client::process::{
    dropped_sinks, dropped_sources, first_absent, marked, removed_all, retired, sent, set_worker,
    with_reports, without_statistics,
};
use crate::storage_client::state::{CollectionView, ExportStateView};
use crate::storage_client::types::{cluster_of, DataSourceView, IntrospectionType};

verus! {

/// A command to compact an object up to a frontier, for an instance if there is one.
pub type Command = (GlobalId, Option<u64>, Option<StorageInstanceId>);

/// Whether a command is for an instance that is known.
pub open spec fn is_deliverable(s: StateView) -> spec_fn(Command) -> bool {
    |c: Command| c.2 is Some && s.clients.contains(c.2->0)
}

/// The pending commands whose instance is known are handed out, in order, each to that instance,
/// with the identifier and the frontier that it has.
pub proof fn law_commands_sent(s: StateView, commands: Seq<Command>)
    ensures
        sent(s, commands) == commands.filter(is_deliverable(s)).map_values(
            |c: Command| (c.2->0, c.0, c.1),
        ),
    decreases commands.len(),
{
    reveal(Seq::filter);
    let f = |c: Command| (c.2->0, c.0, c.1);
    if commands.len() > 0 {
        law_commands_sent(s, commands.drop_last());
        let front = commands.drop_last().filter(is_deliverable(s));
        if is_deliverable(s)(commands.last()) {
            assert(front.push(commands.last()).map_values(f) =~= front.map_values(f).push(
                f(commands.last()),
            ));
        }
    }
    assert(sent(s, commands) =~= commands.filter(is_deliverable(s)).map_values(f));
}

/// Each pending command for a known instance is handed out with its very frontier, and nothing is
/// handed out but such commands.
pub proof fn law_command_unchanged(s: StateView, commands: Seq<Command>, k: int)
    ensures
        0 <= k < commands.len() && commands[k].2 is Some && s.clients.contains(commands[k].2->0) ==> sent(
            s,
            commands,
        ).contains((commands[k].2->0, commands[k].0, commands[k].1)),
        0 <= k < sent(s, commands).len() ==> s.clients.contains(sent(s, commands)[k].0)
            && commands.contains(
            (sent(s, commands)[k].1, sent(s, commands)[k].2, Some(sent(s, commands)[k].0)),
        ),
    decreases commands.len(),
{
    if commands.len() > 0 {
        let front = commands.drop_last();
        law_command_unchanged(s, front, k);
        let before = sent(s, front);
        let now = sent(s, commands);
        let (id, frontier, cluster) = commands.last();
        let entry = (cluster->0, id, frontier);
        if 0 <= k < commands.len() && commands[k].2 is Some && s.clients.contains(commands[k].2->0) {
            if k == front.len() {
                assert(now[before.len() as int] == entry);
            } else {
                assert(front[k] == commands[k]);
                let j = before.index_of((commands[k].2->0, commands[k].0, commands[k].1));
                assert(now[j] == before[j]);
            }
        }
        if 0 <= k < now.len() {
            if k < before.len() {
                let command = (before[k].1, before[k].2, Some(before[k].0));
                assert(now[k] == before[k]);
                let j = front.index_of(command);
                assert(commands[j] == front[j]);
            } else {
                assert(commands[front.len() as int] == commands.last());
            }
        }
    }
}

/// Whether an object is given up for an instance: its command has an empty frontier.
pub open spec fn gives_up() -> spec_fn(Command) -> bool {
    |c: Command| c.2 is Some && c.1 is None
}

/// The sources that are dropped are the collections, and the sinks that are dropped the exports,
/// that are given up for an instance, in order.
pub proof fn law_drops(s: StateView, commands: Seq<Command>)
    ensures
        dropped_sources(s, commands) == commands.filter(
            |c: Command| gives_up()(c) && s.collections.dom().contains(c.0),
        ).map_values(|c: Command| c.0),
        dropped_sinks(s, commands) == commands.filter(
            |c: Command|
                gives_up()(c) && !s.collections.dom().contains(c.0) && s.exports.dom().contains(c.0),
        ).map_values(|c: Command| c.0),
    decreases commands.len(),
{
    reveal(Seq::filter);
    let id = |c: Command| c.0;
    let source = |c: Command| gives_up()(c) && s.collections.dom().contains(c.0);
    let sink = |c: Command|
        gives_up()(c) && !s.collections.dom().contains(c.0) && s.exports.dom().contains(c.0);
    if commands.len() > 0 {
        let front = commands.drop_last();
        let last = commands.last();
        law_drops(s, front);
        assert(front.filter(source).push(last).map_values(id) =~= front.filter(source).map_values(id).push(
            last.0,
        ));
        assert(front.filter(sink).push(last).map_values(id) =~= front.filter(sink).map_values(id).push(
            last.0,
        ));
    }
    assert(dropped_sources(s, commands) =~= commands.filter(source).map_values(id));
    assert(dropped_sinks(s, commands) =~= commands.filter(sink).map_values(id));
}

/// An instance is told to give up an object only where the object is among the sources and sinks
/// that are dropped.
pub proof fn law_only_dropped_given_up(s: StateView, commands: Seq<Command>, k: int)
    requires
        first_absent(s, commands) is None,
        0 <= k < sent(s, commands).len(),
        sent(s, commands)[k].2 is None,
    ensures
        dropped_sources(s, commands).contains(sent(s, commands)[k].1) || dropped_sinks(
            s,
            commands,
        ).contains(sent(s, commands)[k].1),
    decreases commands.len(),
{
    if commands.len() > 0 {
        let front = commands.drop_last();
        let before = sent(s, front);
        let sources = dropped_sources(s, front);
        let sinks = dropped_sinks(s, front);
        let x = sent(s, commands)[k].1;
        if k < before.len() {
            law_only_dropped_given_up(s, front, k);
            if sources.contains(x) {
                let j = sources.index_of(x);
                assert(dropped_sources(s, commands)[j] == x);
            } else {
                let j = sinks.index_of(x);
                assert(dropped_sinks(s, commands)[j] == x);
            }
        } else if s.collections.dom().contains(x) {
            assert(dropped_sources(s, commands)[sources.len() as int] == x);
        } else {
            assert(dropped_sinks(s, commands)[sinks.len() as int] == x);
        }
    }
}

/// Handing work out fails exactly where an object that does not exist is given up.
pub proof fn law_absent(s: StateView, commands: Seq<Command>)
    ensures
        (first_absent(s, commands) is None) == (forall|k: int|
            0 <= k < commands.len() && gives_up()(#[trigger] commands[k]) ==> s.collections.dom().contains(
                commands[k].0,
            ) || s.exports.dom().contains(commands[k].0)),
    decreases commands.len(),
{
    if commands.len() > 0 {
        let front = commands.drop_last();
        law_absent(s, front);
        assert forall|k: int| 0 <= k < front.len() implies #[trigger] front[k] == commands[k] by {}
        if first_absent(s, front) is Some {
            let k = choose|k: int|
                0 <= k < front.len() && gives_up()(#[trigger] front[k]) && !(s.collections.dom().contains(
                    front[k].0,
                ) || s.exports.dom().contains(front[k].0));
            assert(gives_up()(commands[k]));
        } else {
            assert(commands[commands.len() - 1] == commands.last());
            if first_absent(s, commands) is None {
                assert forall|k: int|
                    0 <= k < commands.len() && gives_up()(#[trigger] commands[k]) implies s.collections.dom().contains(
                commands[k].0) || s.exports.dom().contains(commands[k].0) by {
                    if k < front.len() {
                        assert(gives_up()(front[k]));
                    }
                }
            } else {
                assert(gives_up()(commands[commands.len() - 1]));
            }
        }
    }
}

/// The statistics of a source are removed exactly where it is compacted altogether; all others
/// stay as they are.
pub proof fn law_statistics_kept(s: StateView, commands: Seq<Command>, id: GlobalId)
    ensures
        without_statistics(s, commands).dom().contains(id) == (s.source_statistics.dom().contains(id)
            && !(s.collections.dom().contains(id) && exists|k: int|
            0 <= k < commands.len() && (#[trigger] commands[k]).0 == id && commands[k].1 is None)),
        without_statistics(s, commands).dom().contains(id) ==> without_statistics(s, commands)[id]
            == s.source_statistics[id],
    decreases commands.len(),
{
    if commands.len() > 0 {
        let front = commands.drop_last();
        law_statistics_kept(s, front, id);
        let last = commands.len() - 1;
        assert forall|k: int| 0 <= k < front.len() implies #[trigger] front[k] == commands[k] by {}
        if exists|k: int| 0 <= k < front.len() && (#[trigger] front[k]).0 == id && front[k].1 is None {
            let k = choose|k: int| 0 <= k < front.len() && (#[trigger] front[k]).0 == id && front[k].1 is None;
            assert(commands[k].0 == id && commands[k].1 is None);
        } else if exists|k: int|
            0 <= k < commands.len() && (#[trigger] commands[k]).0 == id && commands[k].1 is None {
            let k = choose|k: int|
                0 <= k < commands.len() && (#[trigger] commands[k]).0 == id && commands[k].1 is None;
            if k < last {
                assert(front[k].0 == id && front[k].1 is None);
            }
        }
        if commands[last].0 == id && commands[last].1 is None {
            assert(commands.last().0 == id);
        }
    }
}

/// Statistics of objects that are removed are gone, all others are as they were.
pub proof fn law_removed_all(stats: Map<GlobalId, Seq<(usize, Seq<u8>)>>, ids: Seq<GlobalId>, id: GlobalId)
    ensures
        removed_all(stats, ids).dom().contains(id) == (stats.dom().contains(id) && !ids.contains(id)),
        removed_all(stats, ids).dom().contains(id) ==> removed_all(stats, ids)[id] == stats[id],
    decreases ids.len(),
{
    if ids.len() > 0 {
        let front = ids.drop_last();
        law_removed_all(stats, front, id);
        if front.contains(id) {
            let k = front.index_of(id);
            assert(ids[k] == id);
        } else if ids.contains(id) {
            let k = ids.index_of(id);
            if k < front.len() {
                assert(front[k] == id);
            }
        }
        assert(ids[ids.len() - 1] == ids.last());
    }
}

/// A worker that reports has the statistics that it reported last, and all other workers have
/// those that they had.
pub proof fn law_worker_reports(stats: Seq<(usize, Seq<u8>)>, worker: usize, new: Seq<u8>, other: (usize, Seq<u8>))
    ensures
        set_worker(stats, worker, new).contains((worker, new)),
        other.0 != worker ==> set_worker(stats, worker, new).contains(other) == stats.contains(other),
    decreases stats.len(),
{
    let now = set_worker(stats, worker, new);
    if stats.len() == 0 {
        assert(now[0] == (worker, new));
        if now.contains(other) {
            let k = now.index_of(other);
            assert(now[k] == other);
        }
    } else {
        let rest = stats.drop_first();
        if stats[0].0 == worker {
            assert(now[0] == (worker, new));
            assert forall|k: int| 1 <= k < stats.len() implies #[trigger] now[k] == stats[k] by {}
            if other.0 != worker {
                if stats.contains(other) {
                    let k = stats.index_of(other);
                    assert(now[k] == other);
                }
                if now.contains(other) {
                    let k = now.index_of(other);
                    assert(stats[k] == other);
                }
            }
        } else {
            law_worker_reports(rest, worker, new, other);
            let tail = set_worker(rest, worker, new);
            let k = tail.index_of((worker, new));
            assert(now[k + 1] == (worker, new));
            if other.0 != worker {
                if stats.contains(other) {
                    let k = stats.index_of(other);
                    if k > 0 {
                        assert(rest[k - 1] == other);
                        let j = tail.index_of(other);
                        assert(now[j + 1] == other);
                    } else {
                        assert(now[0] == other);
                    }
                }
                if now.contains(other) {
                    let k = now.index_of(other);
                    if k > 0 {
                        assert(tail[k - 1] == other);
                        let j = rest.index_of(other);
                        assert(stats[j + 1] == other);
                    } else {
                        assert(stats[0] == other);
                    }
                }
            }
        }
    }
}

/// A report goes to its object if that has statistics at all, and to no other object.
pub proof fn law_report_goes_to(
    stats: Map<GlobalId, Seq<(usize, Seq<u8>)>>,
    report: (GlobalId, usize, Seq<u8>),
    other: GlobalId,
)
    ensures
        ({
            let now = with_reports(stats, seq![report]);
            &&& now.dom() == stats.dom()
            &&& stats.dom().contains(report.0) ==> now[report.0].contains((report.1, report.2))
            &&& other != report.0 && stats.dom().contains(other) ==> now[other] == stats[other]
        }),
{
    let now = with_reports(stats, seq![report]);
    let rest = seq![report].drop_first();
    assert(rest =~= Seq::empty());
    reveal_with_fuel(with_reports, 2);
    if stats.dom().contains(report.0) {
        law_worker_reports(stats[report.0], report.1, report.2, report_entry(report));
        assert(now.dom() =~= stats.dom());
    }
}

spec fn report_entry(report: (GlobalId, usize, Seq<u8>)) -> (usize, Seq<u8>) {
    (report.1, report.2)
}

/// After a change of read capabilities, commands are due for the collections that can be read
/// from another time on than before, and each of them has the frontier from which on the
/// collection can be read now, and the instance of the collection; shards may be compacted up to
/// the same frontier. The commands for exports have the read capability of the export and its
/// instance.
pub proof fn law_commands_follow(
    collections: Map<GlobalId, CollectionView>,
    exports: Map<GlobalId, ExportStateView>,
    updates: Map<GlobalId, Batch>,
    id: GlobalId,
)
    requires
        updated(collections, exports, updates) is Ok,
    ensures
        ({
            let (now, commands, shards) = updated(collections, exports, updates)->Ok_0;
            let before = first_time(collections[id].read_capabilities.counts);
            let after = first_time(now[id].read_capabilities.counts);
            &&& now.dom() == collections.dom()
            &&& collections.dom().contains(id) ==> now[id] == (CollectionView {
                read_capabilities: now[id].read_capabilities,
                ..collections[id]
            })
            &&& collections.dom().contains(id) && before != after ==> commands.dom().contains(id)
                && shards.dom().contains(id) && shards[id] == after
            &&& shards.dom().contains(id) && collections.dom().contains(id) ==> before != after
            &&& collections.dom().contains(id) && !exports.dom().contains(id) && commands.dom().contains(
                id,
            ) ==> before != after && commands[id] == (
                after,
                match collections[id].description.data_source {
                    DataSourceView::Ingestion(i) => Some(i.instance_id),
                    _ => None,
                },
            )
            &&& !collections.dom().contains(id) && commands.dom().contains(id) ==> commands[id] == (
                exports[id].read_capability,
                Some(exports[id].description.instance_id),
            )
        }),
{
    let deps = dependencies_among(collections, exports);
    let caps = caps_of(collections);
    let steps = u64::MAX as nat;
    lemma_settled_domain(deps, caps, updates, Map::empty(), steps);
    let (now, commands, shards) = updated(collections, exports, updates)->Ok_0;
    assert(now.dom() =~= collections.dom());
}

proof fn lemma_settled_domain(
    deps: crate::storage_client::capabilities::Dependencies,
    caps: Map<GlobalId, Batch>,
    pending: Map<GlobalId, Batch>,
    passed: Map<GlobalId, Batch>,
    steps: nat,
)
    ensures
        settled(deps, caps, pending, passed, steps) matches Ok((after, given)) ==> {
            &&& after.dom() == caps.dom()
            &&& forall|id: GlobalId| #[trigger]
                given.dom().contains(id) ==> passed.dom().contains(id) || (deps.exports.dom().contains(id)
                    && !caps.dom().contains(id))
        },
    decreases steps,
{
    let ids = in_order(pending.dom());
    if ids.len() > 0 && steps > 0 {
        let key = ids.last();
        let update = pending[key];
        let rest = pending.remove(key);
        let less = (steps - 1) as nat;
        if caps.dom().contains(key) {
            let now = grown(caps[key], update.counts);
            let from = first_time(caps[key].counts);
            let to = first_time(now.counts);
            if let Some(p) = spread(rest, deps.collections[key], moved_hold(from, to)) {
                lemma_settled_domain(deps, caps.insert(key, now), p, passed, less);
                assert(caps.insert(key, now).dom() =~= caps.dom());
            }
        } else if deps.exports.dom().contains(key) {
            if let Some(p) = spread(rest, deps.exports[key], update.counts) {
                let more = grown(pending_for(passed, key), update.counts);
                lemma_settled_domain(deps, caps, p, passed.insert(key, more), less);
            }
        }
    }
}

/// What is pending stays pending, before what a change of read capabilities adds; and what it
/// adds are the commands that follow, in the order of identifiers, each once.
pub proof fn law_pending_grows(s: StateView, updates: Map<GlobalId, Batch>, ids: Seq<GlobalId>, shard_ids: Seq<GlobalId>)
    requires
        updated(s.collections, s.exports, updates) is Ok,
        lists(ids, updated(s.collections, s.exports, updates)->Ok_0.1.dom()),
        lists(shard_ids, updated(s.collections, s.exports, updates)->Ok_0.2.dom()),
    ensures
        ({
            let (now, commands, shards) = updated(s.collections, s.exports, updates)->Ok_0;
            &&& applied(s, updates) matches Ok(t)
            &&& t.collections == now
            &&& t.exports == s.exports
            &&& t.pending_compaction_commands == s.pending_compaction_commands + ids.map_values(
                |id: GlobalId| (id, commands[id].0, commands[id].1),
            )
            &&& t.pending_downgrades == s.pending_downgrades + shard_ids.map_values(
                |id: GlobalId| (id, shards[id]),
            )
            &&& t.clients == s.clients
            &&& t.source_statistics == s.source_statistics
            &&& t.sink_statistics == s.sink_statistics
        }),
{
    let (now, commands, shards) = updated(s.collections, s.exports, updates)->Ok_0;
    lemma_in_order(ids, commands.dom());
    lemma_in_order(shard_ids, shards.dom());
    assert(commands_in_order(commands) =~= ids.map_values(
        |id: GlobalId| (id, commands[id].0, commands[id].1),
    ));
    assert(downgrades_in_order(shards) =~= shard_ids.map_values(|id: GlobalId| (id, shards[id])));
}

proof fn lemma_one_listed(id: GlobalId, set: Set<GlobalId>)
    requires
        forall|x: GlobalId| #[trigger] set.contains(x) == (x == id),
    ensures
        lists(seq![id], set),
        in_order(set) == seq![id],
{
    let ids = seq![id];
    assert(ascending(ids));
    assert forall|x: GlobalId| #[trigger] set.contains(x) implies ids.contains(x) by {
        assert(ids[0] == x);
    }
    lemma_in_order(ids, set);
}

/// A read policy is passed on. Where a collection depends on nothing and nothing but its implied
/// capability holds it, and a policy that is assigned to it gives a later frontier, then the
/// collection can be read from that frontier on, its instance is told exactly that, and its shard
/// may be compacted up to there; nothing else changes.
pub proof fn law_policy_passed_on(s: StateView, id: GlobalId, policy: PolicyView)
    requires
        s.collections.dom().contains(id),
        s.collections[id].storage_dependencies.len() == 0,
        s.collections[id].read_capabilities.counts == hold_at(s.collections[id].implied_capability),
        policy_divides(policy, s.collections[id].write_frontier),
        frontier_lt(
            s.collections[id].implied_capability,
            policy_frontier(policy, s.collections[id].write_frontier),
        ),
    ensures
        ({
            let c = s.collections[id];
            let new = policy_frontier(policy, c.write_frontier);
            &&& with_policies(s, seq![(id, policy)]) matches Ok(t)
            &&& t.collections.dom() == s.collections.dom()
            &&& t.collections[id] == (CollectionView {
                implied_capability: new,
                read_policy: policy,
                read_capabilities: t.collections[id].read_capabilities,
                ..c
            })
            &&& first_time(t.collections[id].read_capabilities.counts) == new
            &&& t.pending_compaction_commands == s.pending_compaction_commands.push(
                (id, new, cluster_of(c.description)),
            )
            &&& t.pending_downgrades == s.pending_downgrades.push((id, new))
            &&& t.exports == s.exports
            &&& forall|other: GlobalId|
                other != id && #[trigger] s.collections.dom().contains(other) ==> t.collections[other]
                    == s.collections[other]
        }),
{
    let c = s.collections[id];
    let old = c.implied_capability;
    let new = policy_frontier(policy, c.write_frontier);
    let policies = seq![(id, policy)];
    reveal_with_fuel(policies_assigned, 2);
    assert(policies.drop_first() =~= Seq::empty());
    lemma_single_move(s.collections, s.exports, id, old, new, CollectionView {
        implied_capability: new,
        read_policy: policy,
        ..c
    });
    let mid = CollectionView { implied_capability: new, read_policy: policy, ..c };
    let m = moved_hold(old, new);
    let changes = map![id => grown(empty_batch(), m)];
    assert(moved_changes(Map::empty(), id, old, new) == Some(changes));
    let now = s.collections.insert(id, mid);
    assert(policies_assigned(s.collections, Map::empty(), policies) == Ok::<
        (Map<GlobalId, CollectionView>, Map<GlobalId, Batch>),
        Fault,
    >((now, changes)));
    let (after, commands, shards) = updated(now, s.exports, changes)->Ok_0;
    lemma_one_listed(id, commands.dom());
    lemma_one_listed(id, shards.dom());
    assert(s.pending_compaction_commands + commands_in_order(commands) =~= s.pending_compaction_commands.push(
        (id, new, cluster_of(c.description)),
    ));
    assert(s.pending_downgrades + downgrades_in_order(shards) =~= s.pending_downgrades.push((id, new)));
    assert(after.dom() =~= s.collections.dom());
}

/// What comes of moving the only hold on a collection without dependencies.
proof fn lemma_single_move(
    collections: Map<GlobalId, CollectionView>,
    exports: Map<GlobalId, ExportStateView>,
    id: GlobalId,
    old: Option<u64>,
    new: Option<u64>,
    mid: CollectionView,
)
    requires
        collections.dom().contains(id),
        mid.storage_dependencies.len() == 0,
        mid.read_capabilities == collections[id].read_capabilities,
        mid.read_capabilities.counts == hold_at(old),
        frontier_lt(old, new),
    ensures
        spread(Map::empty(), seq![id], moved_hold(old, new)) == Some(
            map![id => grown(empty_batch(), moved_hold(old, new))],
        ),
        ({
            let now = collections.insert(id, mid);
            let changes = map![id => grown(empty_batch(), moved_hold(old, new))];
            &&& updated(now, exports, changes) matches Ok((after, commands, shards))
            &&& after.dom() == now.dom()
            &&& forall|x: GlobalId| #[trigger] commands.dom().contains(x) == (x == id)
            &&& forall|x: GlobalId| #[trigger] shards.dom().contains(x) == (x == id)
            &&& commands[id] == (new, cluster_of(mid.description))
            &&& shards[id] == new
            &&& first_time(after[id].read_capabilities.counts) == new
            &&& after[id] == (CollectionView { read_capabilities: after[id].read_capabilities, ..mid })
            &&& forall|x: GlobalId|
                x != id && #[trigger] collections.dom().contains(x) ==> after[x] == collections[x]
        }),
{
    let m = moved_hold(old, new);
    let none = Map::<GlobalId, Batch>::empty();
    let batch = grown(empty_batch(), m);
    let changes = map![id => batch];
    reveal_with_fuel(spread, 2);
    assert(seq![id].drop_last() =~= Seq::empty());
    assert(pending_for(none, id) == empty_batch());
    assert(fits(batch.counts));
    assert(none.insert(id, batch) =~= changes);
    let now = collections.insert(id, mid);
    let deps = dependencies_among(now, exports);
    let caps = caps_of(now);
    let steps = u64::MAX as nat;
    lemma_one_listed(id, changes.dom());
    let counts = caps[id].counts;
    assert(counts == hold_at(old));
    let later = grown(caps[id], batch.counts);
    assert forall|t: u64| #[trigger] later.counts[t] == hold_at(new)[t] by {
        assert(batch.counts[t] == m[t]);
        assert(m[t] == hold_at(new)[t] - hold_at(old)[t]);
    }
    lemma_hold_first(counts, old);
    lemma_hold_first(later.counts, new);
    assert(fits(later.counts));
    assert(crate::storage_client::capabilities::is_valid(counts, batch.counts));
    assert(changes.remove(id) =~= none);
    assert(deps.collections[id].len() == 0);
    let after = caps.insert(id, later);
    assert(in_order(none.dom()).len() == 0) by {
        assert(lists(Seq::<GlobalId>::empty(), none.dom()));
        lemma_in_order(Seq::<GlobalId>::empty(), none.dom());
    }
    reveal_with_fuel(settled, 3);
    assert(settled(deps, caps, changes, none, steps) == Ok::<
        (Map<GlobalId, Batch>, Map<GlobalId, Batch>),
        Fault,
    >((after, none)));
    let (final_collections, commands, shards) = updated(now, exports, changes)->Ok_0;
    assert(final_collections.dom() =~= now.dom());
    assert forall|x: GlobalId| x != id && #[trigger] collections.dom().contains(x) implies final_collections[x]
        == collections[x] by {
        assert(after[x] == caps[x]);
    }
}

proof fn lemma_hold_first(counts: Map<u64, int>, f: Option<u64>)
    requires
        forall|t: u64| #[trigger] counts[t] == hold_at(f)[t],
    ensures
        first_time(counts) == f,
{
    lemma_first_time(counts);
    match f {
        Some(t) => {
            assert(counts[t] == 1);
            assert(is_first(counts, t)) by {
                assert forall|s: u64| #[trigger] counts[s] > 0 implies t <= s by {
                    assert(counts[s] == hold_at(f)[s]);
                }
            }
            lemma_is_first(counts, t);
        },
        None => {
            if let Some(t) = first_time(counts) {
                assert(counts[t] == hold_at(f)[t]);
            }
        },
    }
}

/// A policy without a rule keeps a frontier, one that names a frontier gives it, whatever was
/// written.
pub proof fn law_fixed_policies(f: Option<u64>, upper: Option<u64>)
    ensures
        policy_frontier(PolicyView::NoPolicy(f), upper) == f,
        policy_frontier(PolicyView::ValidFrom(f), upper) == f,
        policy_divides(PolicyView::NoPolicy(f), upper),
        policy_divides(PolicyView::ValidFrom(f), upper),
{
}

/// A policy that is assigned is the collection's policy, and the collection's implied capability
/// becomes the later one of what it was and what the policy gives.
pub proof fn law_policy_assigned(
    c: CollectionView,
    changes: Map<GlobalId, Batch>,
    id: GlobalId,
    policy: PolicyView,
    upper: Option<u64>,
)
    ensures
        assigned(c, changes, id, policy, upper) matches Ok((now, more)) ==> {
            &&& now.read_policy == policy
            &&& now.write_frontier == upper
            &&& now.description == c.description
            &&& now.read_capabilities == c.read_capabilities
            &&& frontier_le(c.implied_capability, now.implied_capability)
            &&& frontier_le(policy_frontier(policy, upper), now.implied_capability)
            &&& now.implied_capability == c.implied_capability || now.implied_capability == policy_frontier(
                policy,
                upper,
            )
            &&& now.implied_capability == c.implied_capability ==> more == changes
        },
{
}

/// The write frontier of a collection or of an export is the latest that was reported: what is
/// reported earlier than it does not count.
pub proof fn law_reported_uppers(s: StateView, id: GlobalId, upper: Option<u64>)
    ensures
        with_frontiers(s, seq![(id, upper)]) matches Ok(t) ==> {
            &&& s.collections.dom().contains(id) || s.exports.dom().contains(id)
            &&& s.collections.dom().contains(id) ==> t.collections[id].write_frontier == frontier_join(
                s.collections[id].write_frontier,
                upper,
            ) && t.exports == s.exports
            &&& !s.collections.dom().contains(id) ==> t.exports[id].write_frontier == frontier_join(
                s.exports[id].write_frontier,
                upper,
            ) && t.exports.dom() == s.exports.dom()
            &&& forall|other: GlobalId|
                other != id && #[trigger] s.collections.dom().contains(other) ==> t.collections[other]
                    == (CollectionView {
                    read_capabilities: t.collections[other].read_capabilities,
                    ..s.collections[other]
                })
            &&& forall|other: GlobalId|
                other != id && #[trigger] s.exports.dom().contains(other) ==> t.exports[other]
                    == s.exports[other]
        },
{
    let updates = seq![(id, upper)];
    assert(updates.drop_first() =~= Seq::empty());
    reveal_with_fuel(frontiers_written, 2);
    if let Ok(t) = with_frontiers(s, updates) {
        let (mid, changes) = frontiers_written(s, Map::empty(), updates)->Ok_0;
        lemma_settled_domain(
            dependencies_among(mid.collections, mid.exports),
            caps_of(mid.collections),
            changes,
            Map::empty(),
            u64::MAX as nat,
        );
        if !s.collections.dom().contains(id) {
            assert(mid.exports.dom() =~= s.exports.dom());
        }
    }
}

/// The read capability of an export never moves back. Where it moves, it moves to what the policy
/// of the export gives for its write frontier, or is given up where nothing will be written any
/// more.
pub proof fn law_export_advances(
    e: ExportStateView,
    changes: Map<GlobalId, Batch>,
    id: GlobalId,
    upper: Option<u64>,
)
    ensures
        export_written(e, changes, id, upper) matches Ok((now, more)) ==> {
            &&& now.write_frontier == upper
            &&& now.description == e.description
            &&& frontier_le(e.read_capability, now.read_capability)
            &&& upper is None ==> now.read_capability is None
            &&& upper is Some && now.read_capability != e.read_capability ==> now.read_capability
                == policy_frontier(e.read_policy, upper)
            &&& upper is Some ==> frontier_le(policy_frontier(e.read_policy, upper), now.read_capability)
            &&& upper is Some && upper->0 > 0 && e.read_policy == PolicyView::LagWriteFrontier(
                Lag::StepBack,
            ) && e.read_capability == Some(0u64) ==> now.read_capability == Some((upper->0 - 1) as u64)
        },
{
}

/// Collections can be read together from the latest of their implied capabilities on.
pub proof fn law_since_joined(collections: Map<GlobalId, CollectionView>, ids: Seq<GlobalId>, n: int, k: int)
    requires
        0 <= k < n <= ids.len(),
    ensures
        since_joined(collections, ids, n) matches Ok(since) ==> collections.dom().contains(ids[k])
            && frontier_le(collections[ids[k]].implied_capability, since) && (since == Some(0u64) || exists|
            j: int,
        |
            0 <= j < n && since == collections[#[trigger] ids[j]].implied_capability),
        since_joined(collections, ids, n) matches Err(x) ==> !collections.dom().contains(x)
            && ids.contains(x),
    decreases n,
{
    if n > 1 {
        if k < n - 1 {
            law_since_joined(collections, ids, n - 1, k);
        } else {
            law_since_joined(collections, ids, n - 1, 0);
        }
        if let Ok(since) = since_joined(collections, ids, n - 1) {
            if since != Some(0u64) {
                let j = choose|j: int|
                    0 <= j < n - 1 && since == collections[#[trigger] ids[j]].implied_capability;
                assert(since == collections[ids[j]].implied_capability);
            }
        }
    }
    assert(ids[n - 1] == ids[n - 1]);
    reveal_with_fuel(since_joined, 2);
}

/// A collection that comes to be responsible for a kind of introspection is the one that is
/// responsible for it, and all other kinds keep theirs.
pub proof fn law_introspection(ids: IntrospectionIds, i: IntrospectionType, other: IntrospectionType, id: GlobalId)
    ensures
        introspection_id(with_introspection(ids, i, id), i) == Some(id),
        other != i ==> introspection_id(with_introspection(ids, i, id), other) == introspection_id(
            ids,
            other,
        ),
{
}

/// Reporting collections as dropped marks those and no others, and hands out the shard of each
/// that was not marked before.
pub proof fn law_retired(s: StateView, ids: Seq<GlobalId>, id: GlobalId)
    requires
        s.collections.dom().contains(id),
    ensures
        ({
            let (t, shards) = retired(s, ids);
            &&& t.collections.dom() == s.collections.dom()
            &&& t.collections[id] == (CollectionView {
                dropped: s.collections[id].dropped || ids.contains(id),
                ..s.collections[id]
            })
            &&& ids.contains(id) && !s.collections[id].dropped ==> shards.contains(
                s.collections[id].collection_metadata.data_shard,
            )
            &&& t.exports == s.exports
            &&& t.pending_compaction_commands == s.pending_compaction_commands
        }),
    decreases ids.len(),
{
    if ids.len() > 0 {
        let rest = ids.drop_first();
        assert(ids.contains(id) == (ids[0] == id || rest.contains(id))) by {
            if ids.contains(id) {
                let k = ids.index_of(id);
                if k > 0 {
                    assert(rest[k - 1] == id);
                }
            }
            if rest.contains(id) {
                let k = rest.index_of(id);
                assert(ids[k + 1] == id);
            }
            if ids[0] == id {
                assert(ids.contains(ids[0]));
            }
        }
        if s.collections.dom().contains(ids[0]) && !s.collections[ids[0]].dropped {
            let mid = marked(s, ids[0]);
            assert(mid.collections.dom() =~= s.collections.dom());
            law_retired(mid, rest, id);
            let (t, shards) = retired(mid, rest);
            let first = s.collections[ids[0]].collection_metadata.data_shard;
            let all = seq![first] + shards;
            assert(all[0] == first);
            let shard = s.collections[id].collection_metadata.data_shard;
            if shards.contains(shard) {
                let k = shards.index_of(shard);
                assert(all[k + 1] == shard);
            }
        } else {
            law_retired(s, rest, id);
        }
    }
}

} // verus!
