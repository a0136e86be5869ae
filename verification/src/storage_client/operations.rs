//! Dropping sources and sinks, instances, and checks on what is appended.

use vstd::prelude::*;

use crate::storage_client::capabilities::Fault;
use crate::storage_client::changes::Batch;
use crate::storage_client::controller::{
    advanced, assigned, downgrades_view, export_written, frontiers_written, instances_view, is_state,
    policies_assigned, policies_view, with_frontiers, with_policies, StateView, StorageControllerState,
};
use crate::storage_client::frontier::Frontier;
use crate::storage_client::holds::law_policies_assigned;
use crate::storage_client::ids::{GlobalId, StorageInstanceId};
use crate::storage_client::policy::{PolicyView, ReadPolicy};
use crate::storage_client::state::CollectionView;
use crate::storage_client::types::{ErrorView, StorageError};

verus! {

/// The first of several identifiers that is not in a set.
pub open spec fn first_missing(set: Set<GlobalId>, ids: Seq<GlobalId>) -> Option<GlobalId>
    decreases ids.len(),
{
    if ids.len() == 0 {
        None
    } else if !set.contains(ids[0]) {
        Some(ids[0])
    } else {
        first_missing(set, ids.drop_first())
    }
}

/// The policies that drop those of several collections that exist.
pub open spec fn drop_policies(s: StateView, ids: Seq<GlobalId>) -> Seq<(GlobalId, PolicyView)>
    decreases ids.len(),
{
    if ids.len() == 0 {
        Seq::empty()
    } else if s.collections.dom().contains(ids.last()) {
        drop_policies(s, ids.drop_last()).push((ids.last(), PolicyView::ValidFrom(None)))
    } else {
        drop_policies(s, ids.drop_last())
    }
}

/// The state once those of several exports that exist are dropped: their write frontiers are
/// closed, one after the other.
pub open spec fn sinks_dropped(s: StateView, ids: Seq<GlobalId>) -> Result<StateView, Fault>
    decreases ids.len(),
{
    if ids.len() == 0 {
        Ok(s)
    } else if s.exports.dom().contains(ids[0]) {
        match with_frontiers(s, seq![(ids[0], None::<u64>)]) {
            Ok(now) => sinks_dropped(now, ids.drop_first()),
            Err(f) => Err(f),
        }
    } else {
        sinks_dropped(s, ids.drop_first())
    }
}

/// The first command with an update that is not before its upper.
pub open spec fn first_beyond(commands: Seq<(GlobalId, Vec<u64>, u64)>) -> Option<GlobalId>
    decreases commands.len(),
{
    if commands.len() == 0 {
        None
    } else if has_beyond(commands[0].1@, commands[0].2) {
        Some(commands[0].0)
    } else {
        first_beyond(commands.drop_first())
    }
}

/// Whether some time is not before an upper.
pub open spec fn has_beyond(times: Seq<u64>, upper: u64) -> bool {
    exists|k: int| 0 <= k < times.len() && #[trigger] times[k] >= upper
}

/// Checks batches of updates before they are appended: an update must be before the upper of
/// its batch.
pub fn check_append(commands: &Vec<(GlobalId, Vec<u64>, u64)>) -> (r: Result<(), StorageError>)
    ensures
        match first_beyond(commands@) {
            None => r is Ok,
            Some(id) => r matches Err(e) && e@ == ErrorView::UpdateBeyondUpper(id),
        },
{
    let mut k: usize = 0;
    assert(commands@.skip(0) =~= commands@);
    while k < commands.len()
        invariant
            k <= commands.len(),
            first_beyond(commands@) == first_beyond(commands@.skip(k as int)),
        decreases commands.len() - k,
    {
        let ghost rest = commands@.skip(k as int);
        assert(rest[0] == commands@[k as int]);
        assert(rest.drop_first() =~= commands@.skip(k + 1));
        let times = &commands[k].1;
        let upper = commands[k].2;
        let mut j: usize = 0;
        while j < times.len()
            invariant
                j <= times.len(),
                k < commands.len(),
                *times == commands@[k as int].1,
                upper == commands@[k as int].2,
                rest[0] == commands@[k as int],
                rest.len() > 0,
                first_beyond(commands@) == first_beyond(rest),
                forall|i: int| 0 <= i < j ==> #[trigger] times@[i] < upper,
            decreases times.len() - j,
        {
            if times[j] >= upper {
                assert(has_beyond(times@, upper));
                return Err(StorageError::UpdateBeyondUpper(commands[k].0));
            }
            j += 1;
        }
        k += 1;
    }
    Ok(())
}

/// Instances without one of them.
pub open spec fn without_instance(ids: Seq<StorageInstanceId>, id: StorageInstanceId) -> Seq<
    StorageInstanceId,
>
    decreases ids.len(),
{
    if ids.len() == 0 {
        ids
    } else {
        let rest = without_instance(ids.drop_last(), id);
        if ids.last() == id {
            rest
        } else {
            rest.push(ids.last())
        }
    }
}

proof fn lemma_instance_added(ids: Seq<StorageInstanceId>, id: StorageInstanceId)
    ensures
        forall|other: StorageInstanceId| #[trigger]
            ids.push(id).contains(other) == (ids.contains(other) || other == id),
        ids.no_duplicates() && !ids.contains(id) ==> ids.push(id).no_duplicates(),
{
    let now = ids.push(id);
    assert forall|other: StorageInstanceId| #[trigger] now.contains(other) == (ids.contains(other) || other
        == id) by {
        if other == id {
            assert(now[ids.len() as int] == id);
        } else if ids.contains(other) {
            let k = ids.index_of(other);
            assert(now[k] == other);
        } else if now.contains(other) {
            let k = now.index_of(other);
            assert(ids[k] == other);
        }
    }
    if ids.no_duplicates() && !ids.contains(id) {
        assert forall|i: int, j: int| 0 <= i < now.len() && 0 <= j < now.len() && i != j implies now[i]
            != now[j] by {
            if i < ids.len() && j < ids.len() {
                assert(ids[i] != ids[j]);
            } else if i < ids.len() {
                assert(ids.contains(ids[i]));
            } else if j < ids.len() {
                assert(ids.contains(ids[j]));
            }
        }
    }
}

proof fn lemma_instance_removed(ids: Seq<StorageInstanceId>, id: StorageInstanceId)
    ensures
        forall|other: StorageInstanceId| #[trigger]
            without_instance(ids, id).contains(other) == (ids.contains(other) && other != id),
        ids.no_duplicates() ==> without_instance(ids, id).no_duplicates(),
    decreases ids.len(),
{
    if ids.len() > 0 {
        let front = ids.drop_last();
        lemma_instance_removed(front, id);
        lemma_instance_added(front, ids.last());
        lemma_instance_added(without_instance(front, id), ids.last());
        assert(front.push(ids.last()) =~= ids);
        if ids.no_duplicates() {
            assert(front.no_duplicates());
            assert(!front.contains(ids.last())) by {
                if front.contains(ids.last()) {
                    let k = front.index_of(ids.last());
                    assert(ids[k] == ids[ids.len() - 1]);
                }
            }
        }
    }
}

impl StorageControllerState {
    /// Validate that a collection exists for all identifiers, and error if any do not.
    pub fn validate_collection_ids(&self, ids: &Vec<GlobalId>) -> (r: Result<(), StorageError>)
        ensures
            match first_missing(self@.collections.dom(), ids@) {
                None => r is Ok,
                Some(id) => r matches Err(e) && e@ == ErrorView::IdentifierMissing(id),
            },
    {
        let mut k: usize = 0;
        assert(ids@.skip(0) =~= ids@);
        while k < ids.len()
            invariant
                k <= ids.len(),
                first_missing(self@.collections.dom(), ids@) == first_missing(
                    self@.collections.dom(),
                    ids@.skip(k as int),
                ),
            decreases ids.len() - k,
        {
            assert(ids@.skip(k as int).drop_first() =~= ids@.skip(k + 1));
            match self.collection(ids[k]) {
                Ok(_) => {},
                Err(e) => {
                    return Err(e);
                },
            }
            k += 1;
        }
        Ok(())
    }

    /// Validate that an export exists for all identifiers, and error if any do not.
    pub fn validate_export_ids(&self, ids: &Vec<GlobalId>) -> (r: Result<(), StorageError>)
        ensures
            match first_missing(self@.exports.dom(), ids@) {
                None => r is Ok,
                Some(id) => r matches Err(e) && e@ == ErrorView::IdentifierMissing(id),
            },
    {
        let mut k: usize = 0;
        assert(ids@.skip(0) =~= ids@);
        while k < ids.len()
            invariant
                k <= ids.len(),
                first_missing(self@.exports.dom(), ids@) == first_missing(
                    self@.exports.dom(),
                    ids@.skip(k as int),
                ),
            decreases ids.len() - k,
        {
            assert(ids@.skip(k as int).drop_first() =~= ids@.skip(k + 1));
            match self.export(ids[k]) {
                Ok(_) => {},
                Err(e) => {
                    return Err(e);
                },
            }
            k += 1;
        }
        Ok(())
    }

    /// Drops the read capability for the sources that exist and allows their resources to be
    /// reclaimed.
    pub fn drop_sources_unvalidated(&mut self, identifiers: &Vec<GlobalId>) -> (r: Result<(), Fault>)
        ensures
            is_state(
                final(self)@,
                r,
                with_policies(old(self)@, drop_policies(old(self)@, identifiers@)),
            ),
    {
        // Read capabilities are not removed explicitly. Downgrading the
        // frontier of the source to `[]` (the empty frontier), will propagate
        // to the storage dependencies.
        let mut policies: Vec<(GlobalId, ReadPolicy)> = Vec::new();
        let mut k: usize = 0;
        assert(policies_view(policies@) =~= Seq::empty());
        assert(identifiers@.take(0) =~= Seq::empty());
        while k < identifiers.len()
            invariant
                k <= identifiers.len(),
                self@ == old(self)@,
                policies_view(policies@) == drop_policies(old(self)@, identifiers@.take(k as int)),
            decreases identifiers.len() - k,
        {
            assert(identifiers@.take(k + 1).drop_last() =~= identifiers@.take(k as int));
            let id = identifiers[k];
            if self.collection(id).is_ok() {
                let ghost had = policies_view(policies@);
                policies.push((id, ReadPolicy::ValidFrom(Frontier::new())));
                assert(policies_view(policies@) =~= had.push((id, PolicyView::ValidFrom(None))));
            }
            k += 1;
        }
        assert(identifiers@.take(k as int) =~= identifiers@);
        self.set_read_policy(policies)
    }

    /// Drops the read capability for the sources and allows their resources to be reclaimed.
    pub fn drop_sources(&mut self, identifiers: &Vec<GlobalId>) -> (r: Result<Result<(), StorageError>, Fault>)
        ensures
            match first_missing(old(self)@.collections.dom(), identifiers@) {
                Some(id) => {
                    &&& r matches Ok(Err(e))
                    &&& e@ == ErrorView::IdentifierMissing(id)
                    &&& final(self)@ == old(self)@
                },
                None => match with_policies(old(self)@, drop_policies(old(self)@, identifiers@)) {
                    Ok(s) => r matches Ok(Ok(_)) && final(self)@ == s,
                    Err(f) => r matches Err(g) && g == f,
                },
            },
    {
        match self.validate_collection_ids(identifiers) {
            Ok(()) => {},
            Err(e) => {
                return Ok(Err(e));
            },
        }
        match self.drop_sources_unvalidated(identifiers) {
            Ok(()) => Ok(Ok(())),
            Err(f) => Err(f),
        }
    }

    /// Drops the read capability for the sinks that exist and allows their resources to be
    /// reclaimed.
    pub fn drop_sinks_unvalidated(&mut self, identifiers: &Vec<GlobalId>) -> (r: Result<(), Fault>)
        ensures
            is_state(final(self)@, r, sinks_dropped(old(self)@, identifiers@)),
    {
        let mut k: usize = 0;
        assert(identifiers@.skip(0) =~= identifiers@);
        while k < identifiers.len()
            invariant
                k <= identifiers.len(),
                sinks_dropped(old(self)@, identifiers@) == sinks_dropped(
                    self@,
                    identifiers@.skip(k as int),
                ),
            decreases identifiers.len() - k,
        {
            assert(identifiers@.skip(k as int).drop_first() =~= identifiers@.skip(k + 1));
            let id = identifiers[k];
            // Already removed.
            if self.export(id).is_ok() {
                // Remove sink by removing its write frontier and arranging for deprovisioning.
                let mut updates: Vec<(GlobalId, Frontier)> = Vec::new();
                updates.push((id, Frontier::new()));
                assert(downgrades_view(updates@) =~= seq![(id, None::<u64>)]);
                match self.update_write_frontiers(&updates) {
                    Ok(()) => {},
                    Err(f) => {
                        return Err(f);
                    },
                }
            }
            k += 1;
        }
        assert(identifiers@.skip(k as int) =~= Seq::empty());
        Ok(())
    }

    /// Drops the read capability for the sinks and allows their resources to be reclaimed.
    pub fn drop_sinks(&mut self, identifiers: &Vec<GlobalId>) -> (r: Result<Result<(), StorageError>, Fault>)
        ensures
            match first_missing(old(self)@.exports.dom(), identifiers@) {
                Some(id) => {
                    &&& r matches Ok(Err(e))
                    &&& e@ == ErrorView::IdentifierMissing(id)
                    &&& final(self)@ == old(self)@
                },
                None => match sinks_dropped(old(self)@, identifiers@) {
                    Ok(s) => r matches Ok(Ok(_)) && final(self)@ == s,
                    Err(f) => r matches Err(g) && g == f,
                },
            },
    {
        match self.validate_export_ids(identifiers) {
            Ok(()) => {},
            Err(e) => {
                return Ok(Err(e));
            },
        }
        match self.drop_sinks_unvalidated(identifiers) {
            Ok(()) => Ok(Ok(())),
            Err(f) => Err(f),
        }
    }

    /// Marks the end of any initialization commands. All instances are to be told.
    pub fn initialization_complete(&mut self) -> (r: Vec<StorageInstanceId>)
        ensures
            r@ == old(self).clients@,
            final(self).clients@ == old(self).clients@,
            final(self)@ == (StateView { initialized: true, ..old(self)@ }),
    {
        self.initialized = true;
        copy_instances(&self.clients)
    }

    /// The instances that are to be told of a new configuration.
    pub fn update_configuration(&mut self, keep_n_source_status_history_entries: usize) -> (r: Vec<
        StorageInstanceId,
    >)
        ensures
            r@ == old(self).clients@,
            final(self).clients@ == old(self).clients@,
            final(self)@ == (StateView { keep_n_source_status_history_entries, ..old(self)@ }),
    {
        self.keep_n_source_status_history_entries = keep_n_source_status_history_entries;
        copy_instances(&self.clients)
    }

    /// Whether an instance is known.
    pub fn has_instance(&self, id: StorageInstanceId) -> (r: bool)
        ensures
            r == self@.clients.contains(id),
    {
        let mut k: usize = 0;
        while k < self.clients.len()
            invariant
                k <= self.clients.len(),
                forall|j: int| 0 <= j < k ==> #[trigger] self.clients@[j] != id,
            decreases self.clients.len() - k,
        {
            if self.clients[k] == id {
                assert(self.clients@[k as int] == id);
                return true;
            }
            k += 1;
        }
        false
    }

    /// Creates a storage instance with the specified ID, which must be new. The result is
    /// whether it is to be told that initialization is complete; it is told of the
    /// configuration in any case.
    pub fn create_instance(&mut self, id: StorageInstanceId) -> (r: bool)
        requires
            !old(self)@.clients.contains(id),
        ensures
            r == old(self)@.initialized,
            final(self)@ == (StateView { clients: old(self)@.clients.insert(id), ..old(self)@ }),
            final(self).clients@ == old(self).clients@.push(id),
            old(self).clients@.no_duplicates() ==> final(self).clients@.no_duplicates(),
    {
        let ghost before = self.clients@;
        self.clients.push(id);
        proof {
            lemma_instance_added(before, id);
            assert(instances_view(self.clients@) =~= instances_view(before).insert(id));
        }
        self.initialized
    }

    /// Drops the storage instance with the given ID, which must exist.
    pub fn drop_instance(&mut self, id: StorageInstanceId)
        requires
            old(self)@.clients.contains(id),
        ensures
            final(self)@ == (StateView { clients: old(self)@.clients.remove(id), ..old(self)@ }),
            final(self).clients@ == without_instance(old(self).clients@, id),
            old(self).clients@.no_duplicates() ==> final(self).clients@.no_duplicates(),
    {
        let ghost before = self.clients@;
        let mut left: Vec<StorageInstanceId> = Vec::new();
        let mut k: usize = 0;
        while k < self.clients.len()
            invariant
                k <= self.clients.len(),
                self@ == old(self)@,
                self.clients@ == before,
                left@ == without_instance(before.take(k as int), id),
            decreases self.clients.len() - k,
        {
            let here = self.clients[k];
            assert(before.take(k + 1).drop_last() =~= before.take(k as int));
            if here != id {
                left.push(here);
            }
            k += 1;
        }
        assert(before.take(k as int) =~= before);
        self.clients = left;
        proof {
            lemma_instance_removed(before, id);
            assert(instances_view(self.clients@) =~= instances_view(before).remove(id));
        }
    }
}

fn copy_instances(ids: &Vec<StorageInstanceId>) -> (r: Vec<StorageInstanceId>)
    ensures
        r@ == ids@,
{
    let mut out: Vec<StorageInstanceId> = Vec::new();
    let mut k: usize = 0;
    while k < ids.len()
        invariant
            k <= ids.len(),
            out@ == ids@.take(k as int),
        decreases ids.len() - k,
    {
        out.push(ids[k]);
        k += 1;
        assert(ids@.take(k as int) =~= ids@.take(k - 1).push(ids@[k - 1]));
    }
    assert(ids@.take(k as int) =~= ids@);
    out
}

proof fn lemma_drop_listed(s: StateView, ids: Seq<GlobalId>, id: GlobalId) -> (k: int)
    requires
        ids.contains(id),
        s.collections.dom().contains(id),
    ensures
        0 <= k < drop_policies(s, ids).len(),
        drop_policies(s, ids)[k] == (id, PolicyView::ValidFrom(None)),
    decreases ids.len(),
{
    if ids.last() == id {
        drop_policies(s, ids).len() - 1
    } else {
        let j = ids.index_of(id);
        assert(ids.drop_last()[j] == id);
        lemma_drop_listed(s, ids.drop_last(), id)
    }
}

proof fn lemma_released(
    collections: Map<GlobalId, CollectionView>,
    changes: Map<GlobalId, Batch>,
    policies: Seq<(GlobalId, PolicyView)>,
    id: GlobalId,
    k: int,
)
    requires
        0 <= k < policies.len(),
        policies[k] == (id, PolicyView::ValidFrom(None)),
    ensures
        policies_assigned(collections, changes, policies) matches Ok((after, _)) ==> after.dom().contains(
            id,
        ) && after[id].implied_capability is None,
    decreases policies.len(),
{
    let first = policies[0].0;
    if collections.dom().contains(first) {
        let c = collections[first];
        if let Ok((c2, ch2)) = assigned(c, changes, first, policies[0].1, c.write_frontier) {
            let rest = policies.drop_first();
            if k == 0 {
                law_policies_assigned(collections.insert(first, c2), ch2, rest, id);
            } else {
                assert(rest[k - 1] == policies[k]);
                lemma_released(collections.insert(first, c2), ch2, rest, id, k - 1);
            }
        }
    }
}

/// Dropped sources imply no read capability any more.
pub proof fn law_dropped_sources_released(s: StateView, ids: Seq<GlobalId>, id: GlobalId)
    requires
        ids.contains(id),
        s.collections.dom().contains(id),
    ensures
        with_policies(s, drop_policies(s, ids)) matches Ok(now) ==> now.collections.dom().contains(id)
            && now.collections[id].implied_capability is None,
{
    let k = lemma_drop_listed(s, ids, id);
    lemma_released(s.collections, Map::empty(), drop_policies(s, ids), id, k);
}

proof fn lemma_sink_closed(s: StateView, x: GlobalId, id: GlobalId)
    requires
        s.exports.dom().contains(x),
        !s.collections.dom().contains(x),
        s.exports.dom().contains(id),
    ensures
        with_frontiers(s, seq![(x, None::<u64>)]) matches Ok(now) ==> {
            &&& now.exports.dom() == s.exports.dom()
            &&& id == x || s.exports[id].read_capability is None
                ==> now.exports[id].read_capability is None
            &&& now.collections.dom() == s.collections.dom()
        },
{
    reveal_with_fuel(frontiers_written, 2);
    let updates = seq![(x, None::<u64>)];
    assert(updates.drop_first() =~= Seq::empty());
    assert(updates[0] == (x, None::<u64>));
    if let Ok((e, _)) = export_written(
        s.exports[x],
        Map::empty(),
        x,
        advanced(s.exports[x].write_frontier, None),
    ) {
        assert(s.exports.insert(x, e).dom() =~= s.exports.dom());
        if let Ok(now) = with_frontiers(s, updates) {
            assert(now.collections.dom() =~= s.collections.dom());
        }
    }
}

/// Dropped sinks hold no read capability any more.
pub proof fn law_dropped_sinks_released(s: StateView, ids: Seq<GlobalId>, id: GlobalId)
    requires
        ids.contains(id) || s.exports[id].read_capability is None,
        s.exports.dom().contains(id),
        forall|x: GlobalId| #[trigger] s.exports.dom().contains(x) ==> !s.collections.dom().contains(x),
    ensures
        sinks_dropped(s, ids) matches Ok(now) ==> now.exports.dom().contains(id)
            && now.exports[id].read_capability is None,
    decreases ids.len(),
{
    if ids.len() > 0 {
        let rest = ids.drop_first();
        if ids.contains(id) && ids[0] != id {
            let k = ids.index_of(id);
            assert(rest[k - 1] == id);
        }
        if s.exports.dom().contains(ids[0]) {
            lemma_sink_closed(s, ids[0], id);
            if let Ok(now) = with_frontiers(s, seq![(ids[0], None::<u64>)]) {
                law_dropped_sinks_released(now, rest, id);
            }
        } else {
            law_dropped_sinks_released(s, rest, id);
        }
    }
}

} // verus!
