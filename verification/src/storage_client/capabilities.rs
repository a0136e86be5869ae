//! Passing changes of read capabilities on to dependencies.

use vstd::prelude::*;

use crate::storage_client::changes::{
    fits,
    empty_batch, first_time, grown, is_compact, is_zero, lemma_listed_at, listed, moved_hold,
    Batch, Changes, ReadCapabilities,
};
use crate::storage_client::frontier::Frontier;
use crate::storage_client::id_map::{in_order, lists, IdMap};
use crate::storage_client::ids::{GlobalId, StorageInstanceId};
use crate::storage_client::state::{
    collections_view, exports_view, CollectionState, CollectionView, ExportState, ExportStateView,
};
use crate::storage_client::types::cluster_of;

verus! {

/// Why read capabilities cannot be changed. The controller's state is then not to be used any
/// more.
#[derive(Debug, Copy, Clone, PartialEq, Eq, Structural)]
pub enum Fault {
    /// There is neither a collection nor an export of that name.
    Unknown(GlobalId),
    /// There would be less than no read capabilities at some time, or there would be some
    /// before the current frontier of read capabilities.
    Invalid(GlobalId),
    /// A read policy has no frontier, as it rounds to multiples of nothing.
    NoGranularity(GlobalId),
    /// A collection was written up to a frontier that is not beyond the one from which on its
    /// dependencies can be read.
    SinceBeyondUpper(GlobalId),
    /// A collection is held back before its implied capability.
    HeldBack(GlobalId),
    /// More changes than can be counted.
    Overflow,
    /// Dependencies do not come to an end.
    Endless,
}

/// What depends on what: the dependencies of collections and of exports.
#[verifier::ext_equal]
pub struct Dependencies {
    pub collections: Map<GlobalId, Seq<GlobalId>>,
    pub exports: Map<GlobalId, Seq<GlobalId>>,
}

/// Whether changes leave no count below zero and make none positive before the first time that
/// was positive.
pub open spec fn is_valid(counts: Map<u64, int>, changes: Map<u64, int>) -> bool {
    forall|t: u64|
        #[trigger] changes[t] != 0 ==> counts[t] + changes[t] >= 0 && (counts[t] + changes[t] > 0 ==> (
        first_time(counts) matches Some(f) && f <= t))
}

/// The changes that are pending for an identifier.
pub open spec fn pending_for(pending: Map<GlobalId, Batch>, id: GlobalId) -> Batch {
    if pending.dom().contains(id) {
        pending[id]
    } else {
        empty_batch()
    }
}

/// Pending changes with others for each of several dependencies, if they can be counted.
pub open spec fn spread(
    pending: Map<GlobalId, Batch>,
    deps: Seq<GlobalId>,
    counts: Map<u64, int>,
) -> Option<Map<GlobalId, Batch>>
    decreases deps.len(),
{
    if deps.len() == 0 {
        Some(pending)
    } else {
        match spread(pending, deps.drop_last(), counts) {
            None => None,
            Some(p) => {
                let b = pending_for(p, deps.last());
                if fits(grown(b, counts).counts) {
                    Some(p.insert(deps.last(), grown(b, counts)))
                } else {
                    None
                }
            },
        }
    }
}

/// What comes of pending changes: the capabilities of the collections, and the changes of the
/// exports that were passed on. Changes for the last identifier are taken first. The changes of
/// a collection are added to its capabilities, and where its first time moves, so do the holds
/// on its dependencies. The changes of an export are passed on to its dependencies.
pub open spec fn settled(
    deps: Dependencies,
    caps: Map<GlobalId, Batch>,
    pending: Map<GlobalId, Batch>,
    passed: Map<GlobalId, Batch>,
    steps: nat,
) -> Result<(Map<GlobalId, Batch>, Map<GlobalId, Batch>), Fault>
    decreases steps,
{
    let ids = in_order(pending.dom());
    if ids.len() == 0 {
        Ok((caps, passed))
    } else if steps == 0 {
        Err(Fault::Endless)
    } else {
        let key = ids.last();
        let update = pending[key];
        let rest = pending.remove(key);
        if caps.dom().contains(key) {
            if !is_valid(caps[key].counts, update.counts) {
                Err(Fault::Invalid(key))
            } else if !fits(grown(caps[key], update.counts).counts) {
                Err(Fault::Overflow)
            } else {
                let now = grown(caps[key], update.counts);
                let from = first_time(caps[key].counts);
                let to = first_time(now.counts);
                match spread(rest, deps.collections[key], moved_hold(from, to)) {
                    None => Err(Fault::Overflow),
                    Some(p) => settled(deps, caps.insert(key, now), p, passed, (steps - 1) as nat),
                }
            }
        } else if deps.exports.dom().contains(key) {
            let before = pending_for(passed, key);
            match spread(rest, deps.exports[key], update.counts) {
                None => Err(Fault::Overflow),
                Some(p) => if !fits(grown(before, update.counts).counts) {
                    Err(Fault::Overflow)
                } else {
                    settled(
                        deps,
                        caps,
                        p,
                        passed.insert(key, grown(before, update.counts)),
                        (steps - 1) as nat,
                    )
                },
            }
        } else {
            Err(Fault::Unknown(key))
        }
    }
}

/// The capabilities of collections.
pub open spec fn caps_of(collections: Map<GlobalId, CollectionView>) -> Map<GlobalId, Batch> {
    Map::new(
        |id: GlobalId| collections.dom().contains(id),
        |id: GlobalId| collections[id].read_capabilities,
    )
}

spec fn caps_view(collections: Map<GlobalId, CollectionState>) -> Map<GlobalId, Batch> {
    caps_of(collections_view(collections))
}

/// Pending changes themselves.
pub open spec fn changes_view(changes: Map<GlobalId, Changes>) -> Map<GlobalId, Batch> {
    Map::new(|id: GlobalId| changes.dom().contains(id), |id: GlobalId| changes[id]@)
}

/// What depends on what.
pub open spec fn dependencies_among(
    collections: Map<GlobalId, CollectionView>,
    exports: Map<GlobalId, ExportStateView>,
) -> Dependencies {
    Dependencies {
        collections: Map::new(
            |id: GlobalId| collections.dom().contains(id),
            |id: GlobalId| collections[id].storage_dependencies,
        ),
        exports: Map::new(
            |id: GlobalId| exports.dom().contains(id),
            |id: GlobalId| exports[id].storage_dependencies,
        ),
    }
}

spec fn dependencies_view(
    collections: Map<GlobalId, CollectionState>,
    exports: Map<GlobalId, ExportState>,
) -> Dependencies {
    dependencies_among(collections_view(collections), exports_view(exports))
}

/// Collections with other capabilities.
pub open spec fn with_caps(
    collections: Map<GlobalId, CollectionView>,
    caps: Map<GlobalId, Batch>,
) -> Map<GlobalId, CollectionView> {
    Map::new(
        |id: GlobalId| collections.dom().contains(id),
        |id: GlobalId| CollectionView { read_capabilities: caps[id], ..collections[id] },
    )
}

/// Whether nothing but read capabilities differs.
spec fn same_but_capabilities(
    before: Map<GlobalId, CollectionState>,
    after: Map<GlobalId, CollectionState>,
) -> bool {
    &&& before.dom() == after.dom()
    &&& forall|id: GlobalId| #[trigger]
        after.dom().contains(id) ==> after[id] == (CollectionState {
            read_capabilities: after[id].read_capabilities,
            ..before[id]
        })
}

/// A command to compact: up to which frontier, and the instance that is told.
#[derive(Debug)]
pub struct Compaction {
    pub frontier: Frontier,
    pub cluster_id: Option<StorageInstanceId>,
}

impl View for Compaction {
    type V = (Option<u64>, Option<StorageInstanceId>);

    open spec fn view(&self) -> (Option<u64>, Option<StorageInstanceId>) {
        (self.frontier@, self.cluster_id)
    }
}

/// Whether a collection's frontier moved.
pub open spec fn frontier_moved(before: Map<GlobalId, Batch>, after: Map<GlobalId, Batch>, id: GlobalId) -> bool {
    after.dom().contains(id) && first_time(before[id].counts) != first_time(after[id].counts)
}

/// Whether changes of an export were passed on that do not cancel out.
pub open spec fn export_moved(passed: Map<GlobalId, Batch>, id: GlobalId) -> bool {
    passed.dom().contains(id) && !is_zero(passed[id].counts)
}

/// The commands that follow upon a change of capabilities: for each collection whose frontier
/// moved, and for each export whose changes do not cancel out.
pub open spec fn compactions(
    collections: Map<GlobalId, CollectionView>,
    exports: Map<GlobalId, ExportStateView>,
    after: Map<GlobalId, Batch>,
    passed: Map<GlobalId, Batch>,
) -> Map<GlobalId, (Option<u64>, Option<StorageInstanceId>)> {
    Map::new(
        |id: GlobalId|
            frontier_moved(caps_of(collections), after, id) || export_moved(passed, id),
        |id: GlobalId|
            if export_moved(passed, id) {
                (exports[id].read_capability, Some(exports[id].description.instance_id))
            } else {
                (first_time(after[id].counts), cluster_of(collections[id].description))
            },
    )
}

/// The commands themselves.
pub open spec fn compactions_view(commands: Map<GlobalId, Compaction>) -> Map<
    GlobalId,
    (Option<u64>, Option<StorageInstanceId>),
> {
    Map::new(|id: GlobalId| commands.dom().contains(id), |id: GlobalId| commands[id]@)
}

/// Whether changes are valid for capabilities.
fn check_update(caps: &ReadCapabilities, list: &Vec<(u64, i64)>) -> (r: bool)
    requires
        is_compact(list@),
    ensures
        r == is_valid(caps@.counts, listed(list@)),
{
    let frontier = caps.frontier();
    let mut k: usize = 0;
    while k < list.len()
        invariant
            k <= list.len(),
            is_compact(list@),
            frontier == first_time(caps@.counts),
            forall|j: int|
                0 <= j < k ==> {
                    let t = (#[trigger] list@[j]).0;
                    let n = caps@.counts[t] + list@[j].1;
                    n >= 0 && (n > 0 ==> (first_time(caps@.counts) matches Some(f) && f <= t))
                },
        decreases list.len() - k,
    {
        let (t, n) = list[k];
        let sum: i128 = caps.count_for(t) as i128 + n as i128;
        let behind = match frontier {
            Some(f) => f <= t,
            None => false,
        };
        if sum < 0 || (sum > 0 && !behind) {
            proof {
                lemma_listed_at(list@, t);
                assert(list@[k as int].0 == t);
                assert(listed(list@)[t] == n);
                assert(list@[k as int].1 != 0);
            }
            return false;
        }
        k += 1;
    }
    proof {
        let changes = listed(list@);
        assert forall|t: u64| #[trigger] changes[t] != 0 implies caps@.counts[t] + changes[t] >= 0 && (
        caps@.counts[t] + changes[t] > 0 ==> (first_time(caps@.counts) matches Some(f) && f <= t)) by {
            lemma_listed_at(list@, t);
            let j = choose|j: int| 0 <= j < list@.len() && (#[trigger] list@[j]).0 == t;
            assert(changes[t] == list@[j].1);
        }
    }
    true
}

/// Adds changes to those that are pending for each of several dependencies, if they can be
/// counted.
fn spread_changes(
    pending: &mut IdMap<Changes>,
    deps: &Vec<GlobalId>,
    list: &Vec<(u64, i64)>,
) -> (r: bool)
    requires
        is_compact(list@),
    ensures
        match spread(changes_view(old(pending)@), deps@, listed(list@)) {
            Some(p) => r && changes_view(final(pending)@) == p,
            None => !r,
        },
{
    let ghost start = changes_view(pending@);
    let mut k: usize = 0;
    assert(deps@.take(0) =~= Seq::empty());
    while k < deps.len()
        invariant
            k <= deps.len(),
            start == changes_view(old(pending)@),
            is_compact(list@),
            spread(start, deps@.take(k as int), listed(list@)) == Some(
                changes_view(pending@),
            ),
        decreases deps.len() - k,
    {
        assert(deps@.take(k + 1).drop_last() =~= deps@.take(k as int));
        let id = deps[k];
        let ghost before = changes_view(pending@);
        let changes = match pending.remove(id) {
            Some(c) => c,
            None => Changes::new(),
        };
        assert(changes@ == pending_for(before, id));
        let more = match changes.extend(list) {
            Some(more) => more,
            None => {
                proof {
                    lemma_spread_none(start, deps@, k + 1, listed(list@));
                }
                return false;
            },
        };
        pending.insert(id, more);
        assert(changes_view(pending@) =~= before.insert(id, more@));
        k += 1;
    }
    assert(deps@.take(k as int) =~= deps@);
    true
}

proof fn lemma_spread_none(
    pending: Map<GlobalId, Batch>,
    deps: Seq<GlobalId>,
    k: int,
    counts: Map<u64, int>,
)
    requires
        0 <= k <= deps.len(),
        spread(pending, deps.take(k), counts) is None,
    ensures
        spread(pending, deps, counts) is None,
    decreases deps.len() - k,
{
    if k < deps.len() {
        assert(deps.take(k + 1).drop_last() =~= deps.take(k));
        lemma_spread_none(pending, deps, k + 1, counts);
    } else {
        assert(deps.take(k) =~= deps);
    }
}

/// What followed upon a change of capabilities.
#[derive(Debug)]
pub struct Consequences {
    /// What instances are told.
    pub workers: IdMap<Compaction>,
    /// Up to which frontier the shards of collections may be compacted.
    pub persist: IdMap<Frontier>,
}

/// The commands for shards: for each collection whose frontier moved.
pub open spec fn persist_commands(
    collections: Map<GlobalId, CollectionView>,
    after: Map<GlobalId, Batch>,
) -> Map<GlobalId, Option<u64>> {
    Map::new(
        |id: GlobalId| frontier_moved(caps_of(collections), after, id),
        |id: GlobalId| first_time(after[id].counts),
    )
}

/// Frontiers themselves.
pub open spec fn frontiers_view(frontiers: Map<GlobalId, Frontier>) -> Map<GlobalId, Option<u64>> {
    Map::new(|id: GlobalId| frontiers.dom().contains(id), |id: GlobalId| frontiers[id]@)
}

fn frontier_of(t: Option<u64>) -> (r: Frontier)
    ensures
        r@ == t,
{
    match t {
        Some(t) => Frontier::from_elem(t),
        None => Frontier::new(),
    }
}

/// Whether the first frontiers of collections are noted, as far as their capabilities changed.
spec fn are_noted(
    start: Map<GlobalId, CollectionState>,
    now: Map<GlobalId, CollectionState>,
    noted: Map<GlobalId, Option<u64>>,
) -> bool {
    &&& forall|id: GlobalId| #[trigger]
        noted.dom().contains(id) ==> start.dom().contains(id) && noted[id] == first_time(
            start[id].read_capabilities@.counts,
        )
    &&& forall|id: GlobalId| #[trigger]
        start.dom().contains(id) && !noted.dom().contains(id) ==> now[id] == start[id]
}

/// Whether the exports of which changes were passed on are exports.
spec fn are_exports(exports: Map<GlobalId, ExportState>, collections: Map<GlobalId, CollectionState>, passed: Map<GlobalId, Changes>) -> bool {
    forall|id: GlobalId| #[trigger]
        passed.dom().contains(id) ==> exports.dom().contains(id) && !collections.dom().contains(id)
}

/// Applies changes of read capabilities and passes them on to dependencies.
fn settle(
    collections: &mut IdMap<CollectionState>,
    exports: &IdMap<ExportState>,
    updates: IdMap<Changes>,
) -> (r: Result<(IdMap<Changes>, IdMap<Option<u64>>), Fault>)
    ensures
        match settled(
            dependencies_view(old(collections)@, exports@),
            caps_view(old(collections)@),
            changes_view(updates@),
            Map::empty(),
            u64::MAX as nat,
        ) {
            Ok((caps, passed)) => {
                &&& r matches Ok((p, noted))
                &&& changes_view(p@) == passed
                &&& caps_view(final(collections)@) == caps
                &&& are_noted(old(collections)@, final(collections)@, noted@)
                &&& are_exports(exports@, old(collections)@, p@)
            },
            Err(f) => r matches Err(g) && g == f,
        },
        same_but_capabilities(old(collections)@, final(collections)@) || r is Err,
{
    let ghost start = collections@;
    let ghost deps = dependencies_view(start, exports@);
    let ghost whole = settled(
        deps,
        caps_view(start),
        changes_view(updates@),
        Map::empty(),
        u64::MAX as nat,
    );
    let mut pending = updates;
    let mut passed: IdMap<Changes> = IdMap::new();
    let mut noted: IdMap<Option<u64>> = IdMap::new();
    let mut steps: u64 = u64::MAX;
    assert(changes_view(passed@) =~= Map::<GlobalId, Batch>::empty());
    loop
        invariant
            deps == dependencies_view(start, exports@),
            same_but_capabilities(start, collections@),
            are_noted(start, collections@, noted@),
            are_exports(exports@, start, passed@),
            whole == settled(
                deps,
                caps_view(collections@),
                changes_view(pending@),
                changes_view(passed@),
                steps as nat,
            ),
            whole == settled(
                dependencies_view(start, exports@),
                caps_view(start),
                changes_view(updates@),
                Map::empty(),
                u64::MAX as nat,
            ),
            start == old(collections)@,
        decreases steps,
    {
        assert(changes_view(pending@).dom() =~= pending@.dom());
        // Repeatedly extract the maximum id, and updates for it.
        let key = match pending.last_id() {
            Some(key) => key,
            None => {
                return Ok((passed, noted));
            },
        };
        if steps == 0 {
            return Err(Fault::Endless);
        }
        let ghost held = changes_view(pending@);
        let ghost caps = caps_view(collections@);
        let update = match pending.remove(key) {
            Some(update) => update,
            None => Changes::new(),
        };
        assert(changes_view(pending@) =~= held.remove(key));
        if let Some(collection) = collections.remove(key) {
            let ghost was = collection;
            let list = update.into_list();
            if !check_update(&collection.read_capabilities, &list) {
                return Err(Fault::Invalid(key));
            }
            if !collection.read_capabilities.has_room(&list) {
                return Err(Fault::Overflow);
            }
            let first = collection.read_capabilities.frontier();
            let ghost now = grown(collection.read_capabilities@, listed(list@));
            let (caps_now, moved) = collection.read_capabilities.update(list);
            if !spread_changes(&mut pending, &collection.storage_dependencies, &moved) {
                return Err(Fault::Overflow);
            }
            let collection = CollectionState { read_capabilities: caps_now, ..collection };
            collections.insert(key, collection);
            assert(caps_view(collections@) =~= caps.insert(key, now));
            assert(collections@.dom() =~= start.dom());
            if !noted.contains(key) {
                noted.insert(key, first);
            }
            assert(deps.collections[key] == was.storage_dependencies@);
        } else if let Some(export) = exports.get(key) {
            // Exports are not depended upon by other storage objects. We
            // only need to report changes in our own read_capability to our
            // dependencies.
            let list = update.into_list();
            if !spread_changes(&mut pending, &export.storage_dependencies, &list) {
                return Err(Fault::Overflow);
            }
            let ghost sent = changes_view(passed@);
            let before = match passed.remove(key) {
                Some(c) => c,
                None => Changes::new(),
            };
            let more = match before.extend(&list) {
                Some(more) => more,
                None => {
                    return Err(Fault::Overflow);
                },
            };
            passed.insert(key, more);
            assert(changes_view(passed@) =~= sent.insert(key, more@));
            assert(caps_view(collections@) =~= caps);
            assert(collections@.dom() =~= start.dom());
        } else {
            return Err(Fault::Unknown(key));
        }
        steps -= 1;
    }
}

/// The commands that follow upon a change of capabilities.
fn consequences(
    collections: &IdMap<CollectionState>,
    exports: &IdMap<ExportState>,
    noted: &IdMap<Option<u64>>,
    passed: IdMap<Changes>,
    Ghost(start): Ghost<Map<GlobalId, CollectionState>>,
) -> (r: Consequences)
    requires
        same_but_capabilities(start, collections@),
        are_noted(start, collections@, noted@),
        are_exports(exports@, start, passed@),
    ensures
        compactions_view(r.workers@) == compactions(
            collections_view(start),
            exports_view(exports@),
            caps_view(collections@),
            changes_view(passed@),
        ),
        frontiers_view(r.persist@) == persist_commands(
            collections_view(start),
            caps_view(collections@),
        ),
{
    let ghost after = caps_view(collections@);
    let ghost sent = changes_view(passed@);
    let mut workers: IdMap<Compaction> = IdMap::new();
    let mut persist: IdMap<Frontier> = IdMap::new();
    let ids = noted.ids();
    let mut k: usize = 0;
    while k < ids.len()
        invariant
            k <= ids.len(),
            ids@ == in_order(noted@.dom()),
            lists(ids@, noted@.dom()),
            same_but_capabilities(start, collections@),
            are_noted(start, collections@, noted@),
            after == caps_view(collections@),
            forall|id: GlobalId| #[trigger]
                workers@.dom().contains(id) == (ids@.take(k as int).contains(id) && frontier_moved(
                    caps_view(start),
                    after,
                    id,
                )),
            forall|id: GlobalId| #[trigger]
                persist@.dom().contains(id) == (ids@.take(k as int).contains(id) && frontier_moved(
                    caps_view(start),
                    after,
                    id,
                )),
            forall|id: GlobalId| #[trigger]
                workers@.dom().contains(id) ==> workers@[id]@ == (
                    first_time(after[id].counts),
                    cluster_of(start[id].description@),
                ),
            forall|id: GlobalId| #[trigger]
                persist@.dom().contains(id) ==> persist@[id]@ == first_time(after[id].counts),
        decreases ids.len() - k,
    {
        let id = ids[k];
        proof {
            assert(noted@.dom().contains(ids@[k as int]));
            assert(ids@.take(k + 1) =~= ids@.take(k as int).push(id));
            assert forall|other: GlobalId| ids@.take(k + 1).contains(other) == (ids@.take(
                k as int,
            ).contains(other) || other == id) by {
                if other == id {
                    assert(ids@.take(k + 1)[k as int] == id);
                } else if ids@.take(k + 1).contains(other) {
                    let j = ids@.take(k + 1).index_of(other);
                    assert(ids@.take(k as int)[j] == other);
                } else if ids@.take(k as int).contains(other) {
                    let j = ids@.take(k as int).index_of(other);
                    assert(ids@.take(k + 1)[j] == other);
                }
            }
            assert(start.dom().contains(id));
            assert(collections@.dom().contains(id));
        }
        if let (Some(first), Some(collection)) = (noted.get(id), collections.get(id)) {
            let last = collection.read_capabilities.frontier();
            if *first != last {
                let command = Compaction {
                    frontier: frontier_of(last),
                    cluster_id: collection.cluster_id(),
                };
                workers.insert(id, command);
                persist.insert(id, frontier_of(last));
            }
        }
        k += 1;
    }
    proof {
        assert(ids@.take(k as int) =~= ids@);
        assert forall|id: GlobalId| frontier_moved(caps_view(start), after, id) implies ids@.contains(id) by {
            if !noted@.dom().contains(id) {
                assert(start.dom().contains(id));
                assert(collections@[id] == start[id]);
            }
        }
        assert(frontiers_view(persist@) =~= persist_commands(collections_view(start), after));
    }
    let mut left = passed;
    let ghost mut done: Set<GlobalId> = Set::empty();
    assert(changes_view(left@) =~= sent);
    loop
        invariant_except_break
            forall|id: GlobalId| #[trigger]
                left@.dom().contains(id) ==> sent.dom().contains(id) && !done.contains(id) && left@[id]@
                    == sent[id],
            forall|id: GlobalId| #[trigger]
                sent.dom().contains(id) ==> left@.dom().contains(id) || done.contains(id),
            forall|id: GlobalId| #[trigger] done.contains(id) ==> sent.dom().contains(id),
        invariant
            are_exports(exports@, start, passed@),
            sent == changes_view(passed@),
            after == caps_view(collections@),
            same_but_capabilities(start, collections@),
            forall|id: GlobalId| #[trigger]
                workers@.dom().contains(id) == (frontier_moved(caps_view(start), after, id) || (
                done.contains(id) && export_moved(sent, id))),
            forall|id: GlobalId| #[trigger]
                workers@.dom().contains(id) ==> workers@[id]@ == (if export_moved(sent, id) {
                    (exports@[id].read_capability@, Some(exports@[id].description.instance_id))
                } else {
                    (first_time(after[id].counts), cluster_of(start[id].description@))
                }),
        ensures
            forall|id: GlobalId| #[trigger] sent.dom().contains(id) == done.contains(id),
        decreases in_order(left@.dom()).len(),
    {
        match left.pop_last() {
            None => {
                break;
            },
            Some((id, changes)) => {
                let (_, empty) = changes.is_empty();
                proof {
                    assert(sent.dom().contains(id));
                    assert(passed@.dom().contains(id));
                    done = done.insert(id);
                }
                if !empty {
                    if let Some(export) = exports.get(id) {
                        let command = Compaction {
                            frontier: export.read_capability.copy(),
                            cluster_id: export.cluster_id(),
                        };
                        workers.insert(id, command);
                    }
                }
            },
        }
    }
    assert(compactions_view(workers@) =~= compactions(
        collections_view(start),
        exports_view(exports@),
        after,
        sent,
    ));
    Consequences { workers, persist }
}

/// What comes of changes of the read capabilities of collections and exports: the collections
/// after it, what instances are told, and up to which frontiers shards may be compacted.
pub open spec fn updated(
    collections: Map<GlobalId, CollectionView>,
    exports: Map<GlobalId, ExportStateView>,
    updates: Map<GlobalId, Batch>,
) -> Result<
    (
        Map<GlobalId, CollectionView>,
        Map<GlobalId, (Option<u64>, Option<StorageInstanceId>)>,
        Map<GlobalId, Option<u64>>,
    ),
    Fault,
> {
    match settled(
        dependencies_among(collections, exports),
        caps_of(collections),
        updates,
        Map::empty(),
        u64::MAX as nat,
    ) {
        Ok((caps, passed)) => Ok(
            (
                with_caps(collections, caps),
                compactions(collections, exports, caps, passed),
                persist_commands(collections, caps),
            ),
        ),
        Err(f) => Err(f),
    }
}

/// Applies changes of read capabilities, passes them on to dependencies, and tells what
/// follows.
pub fn update_capabilities(
    collections: &mut IdMap<CollectionState>,
    exports: &IdMap<ExportState>,
    updates: IdMap<Changes>,
) -> (r: Result<Consequences, Fault>)
    ensures
        match updated(
            collections_view(old(collections)@),
            exports_view(exports@),
            changes_view(updates@),
        ) {
            Ok((after, workers, persist)) => {
                &&& r matches Ok(c)
                &&& collections_view(final(collections)@) == after
                &&& compactions_view(c.workers@) == workers
                &&& frontiers_view(c.persist@) == persist
            },
            Err(f) => r matches Err(g) && g == f,
        },
{
    let ghost start = collections@;
    match settle(collections, exports, updates) {
        Ok((passed, noted)) => {
            let c = consequences(collections, exports, &noted, passed, Ghost(start));
            proof {
                let caps = caps_view(collections@);
                let after = collections_view(collections@);
                let described = with_caps(collections_view(start), caps);
                assert forall|id: GlobalId| #[trigger] after.dom().contains(id) implies after[id]
                    =~= described[id] by {
                    assert(collections@.dom().contains(id));
                }
                assert(after =~= described);
            }
            Ok(c)
        },
        Err(f) => Err(f),
    }
}

} // verus!
