//! Collections are never removed, nor bound to other descriptions.

use vstd::prelude::*;

use crate::storage_client::changes::Batch;
use crate::storage_client::collections::{
    advanced_to, is_taken, new_collection, patched, patched_one,
};
use crate::storage_client::controller::{
    advanced, applied, assigned, export_written, frontiers_written, policies_assigned,
    with_frontiers, with_policies, StateView,
};
use crate::storage_client::exports::export_created;
use crate::storage_client::history::with_metadata;
use crate::storage_client::ids::{GlobalId, ShardId};
use crate::storage_client::operations::sinks_dropped;
use crate::storage_client::policy::PolicyView;
use crate::storage_client::process::{marked, retired};
use crate::storage_client::state::CollectionView;
use crate::storage_client::types::{
    DescriptionView, DurableCollectionMetadata, ExportView, MetadataView, SourceExport, TokenView,
};

verus! {

/// Whether the same collections exist, each with the description that it had, and what was
/// dropped is still marked so.
pub open spec fn keeps(
    before: Map<GlobalId, CollectionView>,
    after: Map<GlobalId, CollectionView>,
) -> bool {
    &&& after.dom() == before.dom()
    &&& forall|id: GlobalId| #[trigger]
        before.dom().contains(id) ==> after[id].description == before[id].description && (
        before[id].dropped ==> after[id].dropped)
}

proof fn lemma_applied_keeps(s: StateView, updates: Map<GlobalId, Batch>)
    ensures
        applied(s, updates) matches Ok(now) ==> keeps(s.collections, now.collections),
{
    if let Ok(now) = applied(s, updates) {
        assert(now.collections.dom() =~= s.collections.dom());
    }
}

proof fn lemma_policies_keep(
    collections: Map<GlobalId, CollectionView>,
    changes: Map<GlobalId, Batch>,
    policies: Seq<(GlobalId, PolicyView)>,
)
    ensures
        policies_assigned(collections, changes, policies) matches Ok((after, _)) ==> keeps(
            collections,
            after,
        ),
    decreases policies.len(),
{
    if policies.len() > 0 {
        let id = policies[0].0;
        if collections.dom().contains(id) {
            let c = collections[id];
            if let Ok((c2, ch2)) = assigned(c, changes, id, policies[0].1, c.write_frontier) {
                let mid = collections.insert(id, c2);
                assert(mid.dom() =~= collections.dom());
                lemma_policies_keep(mid, ch2, policies.drop_first());
                if let Ok((after, _)) = policies_assigned(collections, changes, policies) {
                    assert(keeps(collections, mid));
                    lemma_keeps_through(collections, mid, after);
                }
            }
        }
    }
}

proof fn lemma_with_policies_keeps(s: StateView, policies: Seq<(GlobalId, PolicyView)>)
    ensures
        with_policies(s, policies) matches Ok(now) ==> keeps(s.collections, now.collections),
{
    lemma_policies_keep(s.collections, Map::empty(), policies);
    if let Ok((collections, changes)) = policies_assigned(s.collections, Map::empty(), policies) {
        let mid = StateView { collections, ..s };
        lemma_applied_keeps(mid, changes);
        lemma_keeps_twice(s, mid, applied(mid, changes));
    }
}

/// What is kept twice is kept.
proof fn lemma_keeps_through(
    a: Map<GlobalId, CollectionView>,
    b: Map<GlobalId, CollectionView>,
    c: Map<GlobalId, CollectionView>,
)
    requires
        keeps(a, b),
        keeps(b, c),
    ensures
        keeps(a, c),
{
    assert forall|x: GlobalId| #[trigger] a.dom().contains(x) implies c[x].description == a[x].description
        && (a[x].dropped ==> c[x].dropped) by {
        assert(b.dom().contains(x));
    }
}

proof fn lemma_keeps_twice<E>(a: StateView, b: StateView, c: Result<StateView, E>)
    requires
        keeps(a.collections, b.collections),
        c matches Ok(now) ==> keeps(b.collections, now.collections),
    ensures
        c matches Ok(now) ==> keeps(a.collections, now.collections),
{
    if let Ok(now) = c {
        lemma_keeps_through(a.collections, b.collections, now.collections);
    }
}

proof fn lemma_frontiers_keep(
    s: StateView,
    changes: Map<GlobalId, Batch>,
    updates: Seq<(GlobalId, Option<u64>)>,
)
    ensures
        frontiers_written(s, changes, updates) matches Ok((now, _)) ==> keeps(
            s.collections,
            now.collections,
        ),
    decreases updates.len(),
{
    if updates.len() > 0 {
        let (id, new_upper) = updates[0];
        if s.collections.dom().contains(id) {
            let c = s.collections[id];
            let upper = advanced(c.write_frontier, new_upper);
            if let Ok((c2, ch2)) = assigned(c, changes, id, c.read_policy, upper) {
                let mid = StateView { collections: s.collections.insert(id, c2), ..s };
                assert(mid.collections.dom() =~= s.collections.dom());
                lemma_frontiers_keep(mid, ch2, updates.drop_first());
                if let Ok((now, _)) = frontiers_written(s, changes, updates) {
                    lemma_keeps_twice::<()>(s, mid, Ok(now));
                }
            }
        } else if s.exports.dom().contains(id) {
            let e = s.exports[id];
            if let Ok((e2, ch2)) = export_written(e, changes, id, advanced(e.write_frontier, new_upper)) {
                let mid = StateView { exports: s.exports.insert(id, e2), ..s };
                lemma_frontiers_keep(mid, ch2, updates.drop_first());
            }
        }
    }
}

proof fn lemma_with_frontiers_keeps(s: StateView, updates: Seq<(GlobalId, Option<u64>)>)
    ensures
        with_frontiers(s, updates) matches Ok(now) ==> keeps(s.collections, now.collections),
{
    lemma_frontiers_keep(s, Map::empty(), updates);
    if let Ok((mid, changes)) = frontiers_written(s, Map::empty(), updates) {
        lemma_applied_keeps(mid, changes);
        lemma_keeps_twice(s, mid, applied(mid, changes));
    }
}

/// Reported write frontiers leave the collections in place.
pub(crate) proof fn lemma_frontiers_domain(s: StateView, updates: Seq<(GlobalId, Option<u64>)>)
    ensures
        with_frontiers(s, updates) matches Ok(now) ==> now.collections.dom() == s.collections.dom(),
{
    lemma_with_frontiers_keeps(s, updates);
}

/// Reports of dropped collections leave the collections in place.
pub(crate) proof fn lemma_retired_domain(s: StateView, ids: Seq<GlobalId>)
    ensures
        keeps(s.collections, retired(s, ids).0.collections),
        retired(s, ids).0.collections.dom() == s.collections.dom(),
    decreases ids.len(),
{
    if ids.len() > 0 {
        if s.collections.dom().contains(ids[0]) && !s.collections[ids[0]].dropped {
            let mid = marked(s, ids[0]);
            assert(mid.collections.dom() =~= s.collections.dom());
            lemma_retired_domain(mid, ids.drop_first());
            lemma_keeps_twice::<()>(s, mid, Ok(retired(s, ids).0));
        } else {
            lemma_retired_domain(s, ids.drop_first());
        }
    }
}

proof fn lemma_sinks_keep(s: StateView, ids: Seq<GlobalId>)
    ensures
        sinks_dropped(s, ids) matches Ok(now) ==> keeps(s.collections, now.collections),
    decreases ids.len(),
{
    if ids.len() > 0 {
        if s.exports.dom().contains(ids[0]) {
            lemma_with_frontiers_keeps(s, seq![(ids[0], None::<u64>)]);
            if let Ok(mid) = with_frontiers(s, seq![(ids[0], None::<u64>)]) {
                lemma_sinks_keep(mid, ids.drop_first());
                lemma_keeps_twice(s, mid, sinks_dropped(mid, ids.drop_first()));
            }
        } else {
            lemma_sinks_keep(s, ids.drop_first());
        }
    }
}

proof fn lemma_output_keeps(s: StateView, id: GlobalId, deps: Seq<GlobalId>, since: Option<u64>)
    ensures
        patched_one(s, id, deps, since) matches Ok(now) ==> keeps(s.collections, now.collections),
{
    lemma_with_policies_keeps(s, seq![(id, PolicyView::NoPolicy(since))]);
    if let Ok(mid) = advanced_to(s, id, since) {
        assert(keeps(s.collections, mid.collections));
        if let Ok(now) = patched_one(s, id, deps, since) {
            let c = mid.collections[id];
            let more = CollectionView { storage_dependencies: c.storage_dependencies + deps, ..c };
            let last = StateView { collections: mid.collections.insert(id, more), ..mid };
            assert(last.collections.dom() =~= mid.collections.dom());
            lemma_keeps_twice::<()>(s, mid, Ok(last));
            assert(now.collections.dom() =~= last.collections.dom());
            lemma_keeps_twice::<()>(s, last, Ok(now));
        }
    }
}

proof fn lemma_outputs_keep(
    s: StateView,
    outputs: Seq<SourceExport>,
    deps: Seq<GlobalId>,
    since: Option<u64>,
)
    ensures
        patched(s, outputs, deps, since) matches Ok(now) ==> keeps(s.collections, now.collections),
    decreases outputs.len(),
{
    if outputs.len() > 0 {
        lemma_output_keeps(s, outputs[0].id, deps, since);
        if let Ok(mid) = patched_one(s, outputs[0].id, deps, since) {
            lemma_outputs_keep(mid, outputs.drop_first(), deps, since);
            lemma_keeps_twice(s, mid, patched(mid, outputs.drop_first(), deps, since));
        }
    }
}

/// The collections only grow, although individual collections may be rendered unusable: what
/// changes read capabilities, assigns policies, reports write frontiers, drops sources or
/// sinks, reports what was dropped, or creates ingestions or exports, leaves each collection in
/// place, with the description that it was created with.
pub proof fn law_collections_stay(
    s: StateView,
    updates: Map<GlobalId, Batch>,
    policies: Seq<(GlobalId, PolicyView)>,
    frontiers: Seq<(GlobalId, Option<u64>)>,
    ids: Seq<GlobalId>,
    outputs: Seq<SourceExport>,
    deps: Seq<GlobalId>,
    since: Option<u64>,
    token: TokenView,
    d: ExportView,
    current: Map<GlobalId, DurableCollectionMetadata>,
    upsert: Map<GlobalId, DurableCollectionMetadata>,
)
    ensures
        applied(s, updates) matches Ok(now) ==> keeps(s.collections, now.collections),
        with_policies(s, policies) matches Ok(now) ==> keeps(s.collections, now.collections),
        with_frontiers(s, frontiers) matches Ok(now) ==> keeps(s.collections, now.collections),
        sinks_dropped(s, ids) matches Ok(now) ==> keeps(s.collections, now.collections),
        keeps(s.collections, retired(s, ids).0.collections),
        patched(s, outputs, deps, since) matches Ok(now) ==> keeps(s.collections, now.collections),
        keeps(s.collections, export_created(s, token, d).0.collections),
        keeps(s.collections, with_metadata(s, current, upsert).collections),
{
    lemma_applied_keeps(s, updates);
    lemma_with_policies_keeps(s, policies);
    lemma_with_frontiers_keeps(s, frontiers);
    lemma_sinks_keep(s, ids);
    lemma_retired_domain(s, ids);
    lemma_outputs_keep(s, outputs, deps, since);
    assert(with_metadata(s, current, upsert).collections.dom() =~= s.collections.dom());
}

/// Requests that are accepted name no collection that was dropped, and none with another
/// description than it has: once they are entered, all collections are there that were, each
/// with the description that it was created with.
pub proof fn law_accepted_requests_keep(
    s: StateView,
    requests: Seq<(GlobalId, DescriptionView)>,
    k: int,
    since: Option<u64>,
    upper: Option<u64>,
    m: MetadataView,
    id: GlobalId,
)
    requires
        0 <= k < requests.len(),
        forall|x: GlobalId| !#[trigger] is_taken(s, requests, x),
        s.collections.dom().contains(id),
    ensures
        s.collections[id].dropped ==> requests[k].0 != id,
        s.collections.insert(
            requests[k].0,
            new_collection(requests[k].1, since, upper, m),
        ).dom().contains(id),
        s.collections.insert(
            requests[k].0,
            new_collection(requests[k].1, since, upper, m),
        )[id].description == s.collections[id].description,
{
    assert(!is_taken(s, requests, id));
}

/// A collection that was reported as dropped stays marked, whatever is reported then, and hands
/// its shard out no more.
pub proof fn law_dropped_once(s: StateView, ids: Seq<GlobalId>, id: GlobalId)
    requires
        s.collections.dom().contains(id),
        ids.contains(id) || s.collections[id].dropped,
    ensures
        retired(s, ids).0.collections.dom().contains(id),
        retired(s, ids).0.collections[id].dropped,
        retired(retired(s, ids).0, seq![id]) == (retired(s, ids).0, Seq::<ShardId>::empty()),
    decreases ids.len(),
{
    reveal_with_fuel(retired, 2);
    if ids.len() > 0 {
        let rest = ids.drop_first();
        let mid = if s.collections.dom().contains(ids[0]) && !s.collections[ids[0]].dropped {
            marked(s, ids[0])
        } else {
            s
        };
        if ids.contains(id) && ids[0] != id {
            let k = ids.index_of(id);
            assert(rest[k - 1] == id);
        }
        law_dropped_once(mid, rest, id);
    }
    assert(seq![id].drop_first() =~= Seq::empty());
}

} // verus!
