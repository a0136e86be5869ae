//! How read capabilities are accounted for as collections and exports come.

use vstd::arithmetic::mul::lemma_mul_is_distributive_add_other_way;
use vstd::prelude::*;

use crate::storage_client::capabilities::{
    caps_of, dependencies_among, pending_for, settled, with_caps,
};
use crate::storage_client::changes::{first_time, hold_at, lemma_first_time, Batch};
use crate::storage_client::collections::{advanced_to, new_collection, patched, patched_one};
use crate::storage_client::controller::{applied, policies_assigned, same_for_all, with_policies, StateView};
use crate::storage_client::exports::export_created;
use crate::storage_client::holds::{
    export_holds, is_sound, law_implied_contained, law_policies_assigned, law_policies_keep_accounts, lemma_none_listed,
    lemma_occurrences_positive, lemma_passed_leaf, lemma_passed_sum, unaccounted,
};
use crate::storage_client::id_map::{in_order, lemma_in_order, lists};
use crate::storage_client::ids::{id_rank, GlobalId};
use crate::storage_client::laws::{
    holds_of, law_capabilities_conserved, lemma_insert_listed, occurrences,
};
use crate::storage_client::policy::PolicyView;
use crate::storage_client::process::marked;
use crate::storage_client::state::{CollectionView, ExportStateView};
use crate::storage_client::types::{DescriptionView, ExportView, MetadataView, SourceExport, TokenView};

verus! {

/// Changes of collections are all that the accounts change by.
proof fn lemma_applied(s: StateView, changes: Map<GlobalId, Batch>, on: GlobalId, t: u64)
    requires
        is_sound(s),
        s.collections.dom().contains(on),
        lists(in_order(changes.dom()), changes.dom()),
        forall|id: GlobalId| #[trigger] changes.dom().contains(id) ==> !s.exports.dom().contains(id),
    ensures
        applied(s, changes) matches Ok(now) ==> {
            &&& unaccounted(now, on, t) == unaccounted(s, on, t) + pending_for(changes, on).counts[t]
            &&& is_sound(now)
            &&& now.collections.dom() == s.collections.dom()
            &&& now.exports == s.exports
        },
{
    let deps = dependencies_among(s.collections, s.exports);
    let caps = caps_of(s.collections);
    let steps = u64::MAX as nat;
    let ids = in_order(s.collections.dom());
    let ex = in_order(s.exports.dom());
    if let Ok((after, sent)) = settled(deps, caps, changes, Map::empty(), steps) {
        assert(caps.dom() =~= s.collections.dom());
        assert(deps.exports.dom() =~= s.exports.dom());
        law_capabilities_conserved(deps, caps, changes, Map::empty(), steps, ids, ex, on, t);
        let now = applied(s, changes)->Ok_0;
        assert(now.collections == with_caps(s.collections, after));
        assert(now.collections.dom() =~= s.collections.dom());
        assert(caps_of(now.collections) =~= after);
        assert(dependencies_among(now.collections, now.exports) =~= deps) by {
            assert(dependencies_among(now.collections, now.exports).collections =~= deps.collections);
        }
        assert forall|k: int| 0 <= k < ex.len() implies {
            let e = #[trigger] ex[k];
            &&& deps.exports[e] == s.exports[e].storage_dependencies
            &&& pending_for(sent, e).counts[t] == 0
            &&& pending_for(Map::empty(), e).counts[t] == 0
        } by {
            let e = ex[k];
            assert(s.exports.dom().contains(e));
            assert(!s.collections.dom().contains(e));
            assert forall|id: GlobalId| #[trigger] caps.dom().contains(id) implies !deps.collections[id].contains(
                e,
            ) by {
                assert(s.collections.dom().contains(id));
                if deps.collections[id].contains(e) {
                    let j = deps.collections[id].index_of(e);
                    assert(s.collections[id].storage_dependencies[j] == e);
                }
            }
            assert forall|id: GlobalId| #[trigger] deps.exports.dom().contains(id) implies !deps.exports[id].contains(
                e,
            ) by {
                assert(s.exports.dom().contains(id));
                if deps.exports[id].contains(e) {
                    let j = deps.exports[id].index_of(e);
                    assert(s.exports[id].storage_dependencies[j] == e);
                }
            }
            lemma_passed_leaf(deps, caps, changes, Map::empty(), steps, e, t);
        }
        lemma_passed_sum(ex, s.exports, s.exports, deps.exports, sent, on, t);
        lemma_passed_sum(ex, s.exports, s.exports, deps.exports, Map::empty(), on, t);
        assert(is_sound(now)) by {
            assert forall|id: GlobalId, k: int|
                now.collections.dom().contains(id) && 0 <= k
                    < now.collections[id].storage_dependencies.len() implies !now.exports.dom().contains(
                #[trigger] now.collections[id].storage_dependencies[k],
            ) by {
                assert(s.collections.dom().contains(id));
                assert(!s.exports.dom().contains(s.collections[id].storage_dependencies[k]));
            }
        }
    }
}

proof fn lemma_same_for_all_listed(ids: Seq<GlobalId>, counts: Map<u64, int>)
    ensures
        lists(
            in_order(same_for_all(ids, counts).dom()),
            same_for_all(ids, counts).dom(),
        ),
    decreases ids.len(),
{
    let set = same_for_all(ids, counts).dom();
    if ids.len() == 0 {
        lemma_none_listed();
        assert(set =~= Map::<GlobalId, Batch>::empty().dom());
    } else {
        let rest = ids.drop_last();
        let less = same_for_all(rest, counts).dom();
        lemma_same_for_all_listed(rest, counts);
        lemma_insert_listed(in_order(less), less, ids.last());
        assert(set =~= less.insert(ids.last())) by {
            assert forall|id: GlobalId| set.contains(id) == less.insert(ids.last()).contains(id) by {
                if ids.contains(id) {
                    let k = ids.index_of(id);
                    if k < rest.len() {
                        assert(rest[k] == id);
                    }
                }
                if rest.contains(id) {
                    let k = rest.index_of(id);
                    assert(ids[k] == id);
                }
                assert(ids[ids.len() - 1] == ids.last());
            }
        }
    }
}

/// Preparing an export adds one hold, at the frontier from which the collection can be read, to
/// what the accounts of that collection leave open, and nothing to those of others.
pub proof fn law_prepare_opens_account(s: StateView, from_id: GlobalId, since: Option<u64>, on: GlobalId, t: u64)
    requires
        is_sound(s),
        s.collections.dom().contains(from_id),
        s.collections.dom().contains(on),
    ensures
        applied(s, same_for_all(seq![from_id], hold_at(since))) matches Ok(now) ==> {
            &&& unaccounted(now, on, t) == unaccounted(s, on, t) + if on == from_id {
                hold_at(since)[t]
            } else {
                0
            }
            &&& is_sound(now)
        },
{
    let ids = seq![from_id];
    let changes = same_for_all(ids, hold_at(since));
    assert(ids[0] == from_id);
    lemma_same_for_all_listed(ids, hold_at(since));
    assert forall|id: GlobalId| #[trigger] changes.dom().contains(id) implies !s.exports.dom().contains(id) by {
        if s.exports.dom().contains(id) {
            assert(!s.collections.dom().contains(id));
        }
    }
    lemma_applied(s, changes, on, t);
}

proof fn lemma_holds_without(
    ids: Seq<GlobalId>,
    k: int,
    deps: Map<GlobalId, Seq<GlobalId>>,
    caps: Map<GlobalId, Batch>,
    on: GlobalId,
    t: u64,
)
    requires
        0 <= k < ids.len(),
    ensures
        holds_of(ids, deps, caps, on, t) == holds_of(ids.remove(k), deps, caps, on, t) + occurrences(
            deps[ids[k]],
            on,
        ) * hold_at(first_time(caps[ids[k]].counts))[t],
    decreases ids.len(),
{
    if k == ids.len() - 1 {
        assert(ids.remove(k) =~= ids.drop_last());
    } else {
        lemma_holds_without(ids.drop_last(), k, deps, caps, on, t);
        assert(ids.remove(k).drop_last() =~= ids.drop_last().remove(k));
        assert(ids.remove(k).last() == ids.last());
    }
}

proof fn lemma_holds_same(
    ids: Seq<GlobalId>,
    deps: Map<GlobalId, Seq<GlobalId>>,
    caps: Map<GlobalId, Batch>,
    deps2: Map<GlobalId, Seq<GlobalId>>,
    caps2: Map<GlobalId, Batch>,
    on: GlobalId,
    t: u64,
)
    requires
        forall|k: int| 0 <= k < ids.len() ==> deps[#[trigger] ids[k]] == deps2[ids[k]] && caps[ids[k]] == caps2[ids[k]],
    ensures
        holds_of(ids, deps, caps, on, t) == holds_of(ids, deps2, caps2, on, t),
    decreases ids.len(),
{
    if ids.len() > 0 {
        let rest = ids.drop_last();
        assert forall|k: int| 0 <= k < rest.len() implies deps[#[trigger] rest[k]] == deps2[rest[k]]
            && caps[rest[k]] == caps2[rest[k]] by {
            assert(rest[k] == ids[k]);
        }
        lemma_holds_same(rest, deps, caps, deps2, caps2, on, t);
        assert(ids[ids.len() - 1] == ids.last());
    }
}

proof fn lemma_exports_without(
    ids: Seq<GlobalId>,
    k: int,
    exports: Map<GlobalId, ExportStateView>,
    on: GlobalId,
    t: u64,
)
    requires
        0 <= k < ids.len(),
    ensures
        export_holds(ids, exports, on, t) == export_holds(ids.remove(k), exports, on, t) + occurrences(
            exports[ids[k]].storage_dependencies,
            on,
        ) * hold_at(exports[ids[k]].read_capability)[t],
    decreases ids.len(),
{
    if k == ids.len() - 1 {
        assert(ids.remove(k) =~= ids.drop_last());
    } else {
        lemma_exports_without(ids.drop_last(), k, exports, on, t);
        assert(ids.remove(k).drop_last() =~= ids.drop_last().remove(k));
        assert(ids.remove(k).last() == ids.last());
    }
}

proof fn lemma_exports_same(
    ids: Seq<GlobalId>,
    exports: Map<GlobalId, ExportStateView>,
    exports2: Map<GlobalId, ExportStateView>,
    on: GlobalId,
    t: u64,
)
    requires
        forall|k: int| 0 <= k < ids.len() ==> exports[#[trigger] ids[k]] == exports2[ids[k]],
    ensures
        export_holds(ids, exports, on, t) == export_holds(ids, exports2, on, t),
    decreases ids.len(),
{
    if ids.len() > 0 {
        let rest = ids.drop_last();
        assert forall|k: int| 0 <= k < rest.len() implies exports[#[trigger] rest[k]] == exports2[rest[k]] by {
            assert(rest[k] == ids[k]);
        }
        lemma_exports_same(rest, exports, exports2, on, t);
        assert(ids[ids.len() - 1] == ids.last());
    }
}

/// A listing of a set, without one of the identifiers, lists the set without it.
proof fn lemma_remove_listed(ids: Seq<GlobalId>, set: Set<GlobalId>, k: int)
    requires
        lists(ids, set),
        0 <= k < ids.len(),
    ensures
        lists(ids.remove(k), set.remove(ids[k])),
{
    let less = ids.remove(k);
    let rest = set.remove(ids[k]);
    assert forall|i: int, j: int| 0 <= i < j < less.len() implies id_rank(#[trigger] less[i]) < id_rank(
        #[trigger] less[j],
    ) by {
        let a = if i < k { i } else { i + 1 };
        let b = if j < k { j } else { j + 1 };
        assert(less[i] == ids[a] && less[j] == ids[b]);
    }
    assert forall|i: int| 0 <= i < less.len() implies rest.contains(#[trigger] less[i]) by {
        let a = if i < k { i } else { i + 1 };
        assert(less[i] == ids[a]);
        if a < k {
            assert(id_rank(ids[a]) < id_rank(ids[k]));
        } else {
            assert(id_rank(ids[k]) < id_rank(ids[a]));
        }
    }
    assert forall|x: GlobalId| #[trigger] rest.contains(x) implies less.contains(x) by {
        let a = ids.index_of(x);
        if a < k {
            assert(less[a] == x);
        } else {
            assert(less[a - 1] == x);
        }
    }
}

/// A listing of a set with one more identifier, without that identifier, lists the set.
proof fn lemma_listed_without(ids: Seq<GlobalId>, set: Set<GlobalId>, id: GlobalId) -> (k: int)
    requires
        lists(ids, set),
        !set.contains(id),
    ensures
        lists(in_order(set.insert(id)), set.insert(id)),
        0 <= k < in_order(set.insert(id)).len(),
        in_order(set.insert(id))[k] == id,
        in_order(set.insert(id)).remove(k) == ids,
{
    lemma_insert_listed(ids, set, id);
    let more = in_order(set.insert(id));
    assert(set.insert(id).contains(id));
    assert(more.contains(id));
    let k = more.index_of(id);
    lemma_remove_listed(more, set.insert(id), k);
    assert(set.insert(id).remove(id) =~= set);
    lemma_in_order(more.remove(k), set);
    lemma_in_order(ids, set);
    k
}

/// Whether nothing depends on an identifier.
pub open spec fn is_free(s: StateView, id: GlobalId) -> bool {
    &&& forall|x: GlobalId| #[trigger]
        s.collections.dom().contains(x) ==> !s.collections[x].storage_dependencies.contains(id)
    &&& forall|x: GlobalId| #[trigger]
        s.exports.dom().contains(x) ==> !s.exports[x].storage_dependencies.contains(id)
}

proof fn lemma_not_held(
    ids: Seq<GlobalId>,
    deps: Map<GlobalId, Seq<GlobalId>>,
    caps: Map<GlobalId, Batch>,
    on: GlobalId,
    t: u64,
)
    requires
        forall|k: int| 0 <= k < ids.len() ==> !deps[#[trigger] ids[k]].contains(on),
    ensures
        holds_of(ids, deps, caps, on, t) == 0,
    decreases ids.len(),
{
    if ids.len() > 0 {
        let rest = ids.drop_last();
        assert forall|k: int| 0 <= k < rest.len() implies !deps[#[trigger] rest[k]].contains(on) by {
            assert(rest[k] == ids[k]);
        }
        lemma_not_held(rest, deps, caps, on, t);
        assert(ids[ids.len() - 1] == ids.last());
        lemma_occurrences_positive(deps[ids.last()], on);
        let n = hold_at(first_time(caps[ids.last()].counts))[t];
        assert(0 * n == 0) by (nonlinear_arith);
    }
}

proof fn lemma_not_exported(ids: Seq<GlobalId>, exports: Map<GlobalId, ExportStateView>, on: GlobalId, t: u64)
    requires
        forall|k: int|
            0 <= k < ids.len() ==> !exports[#[trigger] ids[k]].storage_dependencies.contains(on),
    ensures
        export_holds(ids, exports, on, t) == 0,
    decreases ids.len(),
{
    if ids.len() > 0 {
        let rest = ids.drop_last();
        assert forall|k: int| 0 <= k < rest.len() implies !exports[#[trigger] rest[k]].storage_dependencies.contains(
            on,
        ) by {
            assert(rest[k] == ids[k]);
        }
        lemma_not_exported(rest, exports, on, t);
        assert(ids[ids.len() - 1] == ids.last());
        lemma_occurrences_positive(exports[ids.last()].storage_dependencies, on);
        let n = hold_at(exports[ids.last()].read_capability)[t];
        assert(0 * n == 0) by (nonlinear_arith);
    }
}

/// A new collection starts with all its read capabilities accounted for, and the accounts of
/// others stay as they are.
pub proof fn law_new_collection_accounted(
    s: StateView,
    now: StateView,
    id: GlobalId,
    d: DescriptionView,
    since: Option<u64>,
    upper: Option<u64>,
    m: MetadataView,
    on: GlobalId,
    t: u64,
)
    requires
        is_sound(s),
        !s.collections.dom().contains(id),
        !s.exports.dom().contains(id),
        is_free(s, id),
        now.collections == s.collections.insert(id, new_collection(d, since, upper, m)),
        now.exports == s.exports,
        now.collections.dom().contains(on),
    ensures
        is_sound(now),
        unaccounted(now, on, t) == if on == id {
            0
        } else {
            unaccounted(s, on, t)
        },
{
    let ids = in_order(s.collections.dom());
    let ex = in_order(s.exports.dom());
    let deps = dependencies_among(s.collections, s.exports).collections;
    let deps2 = dependencies_among(now.collections, now.exports).collections;
    let caps = caps_of(s.collections);
    let caps2 = caps_of(now.collections);
    assert(now.collections.dom() =~= s.collections.dom().insert(id));
    let k = lemma_listed_without(ids, s.collections.dom(), id);
    let more = in_order(now.collections.dom());
    lemma_holds_without(more, k, deps2, caps2, on, t);
    assert forall|j: int| 0 <= j < ids.len() implies deps2[#[trigger] ids[j]] == deps[ids[j]] && caps2[ids[j]]
        == caps[ids[j]] by {
        assert(s.collections.dom().contains(ids[j]));
    }
    lemma_holds_same(ids, deps2, caps2, deps, caps, on, t);
    assert(deps2[id] =~= Seq::empty());
    assert(now.collections.dom().contains(id));
    let n = hold_at(first_time(caps2[id].counts))[t];
    assert(0 * n == 0) by (nonlinear_arith);
    if on == id {
        assert forall|j: int| 0 <= j < ids.len() implies !deps[#[trigger] ids[j]].contains(id) by {
            assert(s.collections.dom().contains(ids[j]));
        }
        lemma_not_held(ids, deps, caps, id, t);
        assert forall|j: int| 0 <= j < ex.len() implies !s.exports[#[trigger] ex[j]].storage_dependencies.contains(
            id,
        ) by {
            assert(s.exports.dom().contains(ex[j]));
        }
        lemma_not_exported(ex, s.exports, id, t);
    }
    assert(is_sound(now)) by {
        assert forall|x: GlobalId, j: int|
            now.collections.dom().contains(x) && 0 <= j < now.collections[x].storage_dependencies.len() implies !now.exports.dom().contains(
            #[trigger] now.collections[x].storage_dependencies[j],
        ) by {
            if x != id {
                assert(s.collections.dom().contains(x));
                assert(!s.exports.dom().contains(s.collections[x].storage_dependencies[j]));
            }
        }
    }
}

/// Creating an export accounts for the hold that was acquired when it was prepared.
pub proof fn law_create_settles_account(s: StateView, token: TokenView, d: ExportView, on: GlobalId, t: u64)
    requires
        is_sound(s),
        s.collections.dom().contains(token.from_id),
        s.collections.dom().contains(on),
        !s.collections.dom().contains(token.id),
        !s.exports.dom().contains(token.id),
        is_free(s, token.id),
    ensures
        is_sound(export_created(s, token, d).0),
        unaccounted(export_created(s, token, d).0, on, t) == unaccounted(s, on, t) - if on
            == token.from_id {
            hold_at(token.acquired_since)[t]
        } else {
            0
        },
{
    let now = export_created(s, token, d).0;
    let id = token.id;
    let ex = in_order(s.exports.dom());
    assert(now.exports.dom() =~= s.exports.dom().insert(id));
    let k = lemma_listed_without(ex, s.exports.dom(), id);
    lemma_exports_without(in_order(now.exports.dom()), k, now.exports, on, t);
    assert forall|j: int| 0 <= j < ex.len() implies now.exports[#[trigger] ex[j]] == s.exports[ex[j]] by {
        assert(s.exports.dom().contains(ex[j]));
    }
    lemma_exports_same(ex, now.exports, s.exports, on, t);
    let own = seq![token.from_id];
    assert(now.exports[id].storage_dependencies == own);
    assert(occurrences(own, on) == if on == token.from_id { 1int } else { 0 }) by {
        assert(own.drop_last() =~= Seq::empty());
        reveal_with_fuel(occurrences, 2);
    }
    let n = hold_at(token.acquired_since)[t];
    assert(1 * n == n && 0 * n == 0) by (nonlinear_arith);
    assert(dependencies_among(now.collections, now.exports).collections =~= dependencies_among(
        s.collections,
        s.exports,
    ).collections);
    assert(is_sound(now)) by {
        assert forall|x: GlobalId, j: int|
            now.collections.dom().contains(x) && 0 <= j < now.collections[x].storage_dependencies.len() implies !now.exports.dom().contains(
            #[trigger] now.collections[x].storage_dependencies[j],
        ) by {
            assert(!s.exports.dom().contains(s.collections[x].storage_dependencies[j]));
            assert(s.collections[x].storage_dependencies.contains(
                s.collections[x].storage_dependencies[j],
            ));
        }
        assert forall|x: GlobalId, j: int|
            now.exports.dom().contains(x) && 0 <= j < now.exports[x].storage_dependencies.len() implies !now.exports.dom().contains(
            #[trigger] now.exports[x].storage_dependencies[j],
        ) by {
            if x != id {
                assert(s.exports.dom().contains(x));
                assert(!s.exports.dom().contains(s.exports[x].storage_dependencies[j]));
                assert(s.exports[x].storage_dependencies.contains(
                    s.exports[x].storage_dependencies[j],
                ));
            } else {
                if s.exports.dom().contains(token.from_id) {
                    assert(!s.collections.dom().contains(token.from_id));
                }
            }
        }
    }
}

proof fn lemma_policies_domain(s: StateView, policies: Seq<(GlobalId, PolicyView)>, id: GlobalId)
    requires
        s.collections.dom().contains(id),
    ensures
        with_policies(s, policies) matches Ok(now) ==> now.collections.dom().contains(id) && now.exports
            == s.exports,
{
    law_policies_assigned(s.collections, Map::empty(), policies, id);
}

proof fn lemma_occurrences_joined(a: Seq<GlobalId>, b: Seq<GlobalId>, id: GlobalId)
    ensures
        occurrences(a + b, id) == occurrences(a, id) + occurrences(b, id),
    decreases b.len(),
{
    if b.len() == 0 {
        assert(a + b =~= a);
    } else {
        lemma_occurrences_joined(a, b.drop_last(), id);
        assert((a + b).drop_last() =~= a + b.drop_last());
        assert((a + b).last() == b.last());
    }
}

proof fn lemma_occurs_once(ids: Seq<GlobalId>, id: GlobalId)
    requires
        ids.no_duplicates(),
    ensures
        occurrences(ids, id) == if ids.contains(id) {
            1int
        } else {
            0
        },
    decreases ids.len(),
{
    lemma_occurrences_positive(ids, id);
    if ids.len() > 0 {
        let rest = ids.drop_last();
        lemma_occurs_once(rest, id);
        assert(ids[ids.len() - 1] == ids.last());
        if rest.contains(id) {
            let k = rest.index_of(id);
            assert(ids[k] == id);
        } else if ids.contains(id) {
            let k = ids.index_of(id);
            if k < rest.len() {
                assert(rest[k] == id);
            }
        }
    }
}

/// The state once a collection depends on others as well.
spec fn with_dependencies(s: StateView, id: GlobalId, deps: Seq<GlobalId>) -> StateView {
    let c = s.collections[id];
    let more = CollectionView { storage_dependencies: c.storage_dependencies + deps, ..c };
    StateView { collections: s.collections.insert(id, more), ..s }
}

/// A collection that comes to depend on others as well is counted on to hold them back at its
/// frontier.
proof fn lemma_more_dependencies(s: StateView, id: GlobalId, deps: Seq<GlobalId>, on: GlobalId, t: u64)
    requires
        is_sound(s),
        s.collections.dom().contains(id),
        s.collections.dom().contains(on),
        forall|k: int| 0 <= k < deps.len() ==> s.collections.dom().contains(#[trigger] deps[k]),
    ensures
        is_sound(with_dependencies(s, id, deps)),
        with_dependencies(s, id, deps).collections.dom() == s.collections.dom(),
        unaccounted(with_dependencies(s, id, deps), on, t) == unaccounted(s, on, t) - occurrences(
            deps,
            on,
        ) * hold_at(first_time(s.collections[id].read_capabilities.counts))[t],
{
    let now = with_dependencies(s, id, deps);
    let ids = in_order(s.collections.dom());
    let had = dependencies_among(s.collections, s.exports).collections;
    let has = dependencies_among(now.collections, now.exports).collections;
    let caps = caps_of(s.collections);
    let caps2 = caps_of(now.collections);
    assert(now.collections.dom() =~= s.collections.dom());
    assert(caps2 =~= caps);
    assert(ids.contains(id));
    let k = ids.index_of(id);
    lemma_holds_without(ids, k, had, caps, on, t);
    lemma_holds_without(ids, k, has, caps, on, t);
    let rest = ids.remove(k);
    assert forall|j: int| 0 <= j < rest.len() implies had[#[trigger] rest[j]] == has[rest[j]] by {
        let a = if j < k { j } else { j + 1 };
        assert(rest[j] == ids[a]);
        assert(s.collections.dom().contains(ids[a]));
        if ids[a] == id {
            if a < k {
                assert(id_rank(ids[a]) < id_rank(ids[k]));
            } else {
                assert(id_rank(ids[k]) < id_rank(ids[a]));
            }
        }
    }
    lemma_holds_same(rest, had, caps, has, caps, on, t);
    lemma_occurrences_joined(had[id], deps, on);
    lemma_mul_is_distributive_add_other_way(
        hold_at(first_time(caps[id].counts))[t],
        occurrences(had[id], on),
        occurrences(deps, on),
    );
    assert(is_sound(now)) by {
        assert forall|x: GlobalId, j: int|
            now.collections.dom().contains(x) && 0 <= j < now.collections[x].storage_dependencies.len() implies !now.exports.dom().contains(
            #[trigger] now.collections[x].storage_dependencies[j],
        ) by {
            let own = s.collections[x].storage_dependencies;
            if j < own.len() {
                assert(!s.exports.dom().contains(own[j]));
            } else {
                let dep = deps[j - own.len()];
                assert(s.collections.dom().contains(dep));
            }
        }
    }
}

/// An output of an ingestion that holds back what it depends on keeps all accounts.
proof fn lemma_output_accounted(
    s: StateView,
    id: GlobalId,
    deps: Seq<GlobalId>,
    since: Option<u64>,
    on: GlobalId,
    t: u64,
)
    requires
        is_sound(s),
        forall|u: u64| s.collections.dom().contains(id) ==> #[trigger] unaccounted(s, id, u) >= 0,
        deps.no_duplicates(),
        forall|k: int| 0 <= k < deps.len() ==> s.collections.dom().contains(#[trigger] deps[k]),
        s.collections.dom().contains(on),
    ensures
        patched_one(s, id, deps, since) matches Ok(now) ==> {
            &&& is_sound(now)
            &&& now.collections.dom().contains(on)
            &&& unaccounted(now, on, t) == unaccounted(s, on, t)
        },
{
    if let Ok(mid) = advanced_to(s, id, since) {
        let policies = seq![(id, PolicyView::NoPolicy(since))];
        assert forall|x: GlobalId, u: u64| s.collections.dom().contains(x) implies mid.collections.dom().contains(x)
            && #[trigger] unaccounted(mid, x, u) == unaccounted(s, x, u) by {
            law_policies_keep_accounts(s, policies, x, u);
            lemma_policies_domain(s, policies, x);
        }
        law_policies_keep_accounts(s, policies, on, t);
        assert(is_sound(mid));
        assert(unaccounted(mid, on, t) == unaccounted(s, on, t));
        let c = mid.collections[id];
        let f = c.implied_capability;
        let counts = c.read_capabilities.counts;
        if patched_one(s, id, deps, since) is Ok {
            assert(s.collections.dom().contains(id));
            assert forall|u: u64| #[trigger] unaccounted(mid, id, u) >= 0 by {
                assert(unaccounted(s, id, u) >= 0);
            }
            law_implied_contained(mid, id);
            lemma_first_time(counts);
            assert(first_time(counts) == f);
            assert forall|k: int| 0 <= k < deps.len() implies mid.collections.dom().contains(
                #[trigger] deps[k],
            ) by {
                assert(unaccounted(mid, deps[k], t) == unaccounted(s, deps[k], t));
            }
            lemma_more_dependencies(mid, id, deps, on, t);
            let more = with_dependencies(mid, id, deps);
            let changes = same_for_all(deps, hold_at(f));
            lemma_same_for_all_listed(deps, hold_at(f));
            assert forall|x: GlobalId| #[trigger] changes.dom().contains(x) implies !more.exports.dom().contains(x) by {
                let k = deps.index_of(x);
                assert(mid.collections.dom().contains(deps[k]));
            }
            lemma_applied(more, changes, on, t);
            lemma_occurs_once(deps, on);
            let n = hold_at(f)[t];
            assert(1 * n == n && 0 * n == 0) by (nonlinear_arith);
        }
    }
}

proof fn lemma_patched_domain(s: StateView, id: GlobalId, deps: Seq<GlobalId>, since: Option<u64>, x: GlobalId)
    ensures
        patched_one(s, id, deps, since) matches Ok(now) ==> (now.collections.dom().contains(x)
            ==> s.collections.dom().contains(x)),
{
    let policies = seq![(id, PolicyView::NoPolicy(since))];
    reveal_with_fuel(policies_assigned, 2);
    assert(policies.drop_first() =~= Seq::empty());
}

/// Without collections there is nothing to account for.
pub proof fn law_start_accounted(s: StateView)
    requires
        s.collections == Map::<GlobalId, CollectionView>::empty(),
        s.exports == Map::<GlobalId, ExportStateView>::empty(),
    ensures
        is_sound(s),
        is_accounted(s),
{
    assert(lists(Seq::<GlobalId>::empty(), s.collections.dom()));
    assert(lists(Seq::<GlobalId>::empty(), s.exports.dom()));
}

/// Marking a collection as dropped keeps all accounts.
pub proof fn law_mark_keeps_accounts(s: StateView, id: GlobalId, on: GlobalId, t: u64)
    requires
        is_sound(s),
        s.collections.dom().contains(id),
        s.collections.dom().contains(on),
    ensures
        is_sound(marked(s, id)),
        unaccounted(marked(s, id), on, t) == unaccounted(s, on, t),
{
    let now = marked(s, id);
    assert(now.collections.dom() =~= s.collections.dom());
    assert(caps_of(now.collections) =~= caps_of(s.collections));
    assert(dependencies_among(now.collections, now.exports).collections =~= dependencies_among(
        s.collections,
        s.exports,
    ).collections);
    assert(is_sound(now)) by {
        assert forall|x: GlobalId, j: int|
            now.collections.dom().contains(x) && 0 <= j < now.collections[x].storage_dependencies.len() implies !now.exports.dom().contains(
            #[trigger] now.collections[x].storage_dependencies[j],
        ) by {
            assert(!s.exports.dom().contains(s.collections[x].storage_dependencies[j]));
        }
    }
}

/// Whether the accounts of all collections leave nothing owed.
pub open spec fn is_accounted(s: StateView) -> bool {
    forall|on: GlobalId, t: u64|
        s.collections.dom().contains(on) ==> #[trigger] unaccounted(s, on, t) >= 0
}

/// The outputs of an ingestion that come to hold back the collections that it depends on keep
/// all accounts, if no collection is named twice among those.
pub proof fn law_ingestion_keeps_accounts(
    s: StateView,
    outputs: Seq<SourceExport>,
    deps: Seq<GlobalId>,
    since: Option<u64>,
    on: GlobalId,
    t: u64,
)
    requires
        is_sound(s),
        is_accounted(s),
        deps.no_duplicates(),
        forall|k: int| 0 <= k < deps.len() ==> s.collections.dom().contains(#[trigger] deps[k]),
        s.collections.dom().contains(on),
    ensures
        patched(s, outputs, deps, since) matches Ok(now) ==> is_sound(now) && unaccounted(now, on, t)
            == unaccounted(s, on, t),
    decreases outputs.len(),
{
    if outputs.len() > 0 {
        let id = outputs[0].id;
        if let Ok(now) = patched_one(s, id, deps, since) {
            assert forall|u: u64| s.collections.dom().contains(id) implies #[trigger] unaccounted(s, id, u) >= 0 by {}
            assert forall|x: GlobalId, u: u64| s.collections.dom().contains(x) implies now.collections.dom().contains(x)
                && #[trigger] unaccounted(now, x, u) == unaccounted(s, x, u) by {
                lemma_output_accounted(s, id, deps, since, x, u);
            }
            lemma_output_accounted(s, id, deps, since, on, t);
            assert forall|k: int| 0 <= k < deps.len() implies now.collections.dom().contains(#[trigger] deps[k]) by {
                assert(unaccounted(now, deps[k], t) == unaccounted(s, deps[k], t));
            }
            assert(is_accounted(now)) by {
                assert forall|x: GlobalId, u: u64| now.collections.dom().contains(x) implies #[trigger] unaccounted(
                    now,
                    x,
                    u,
                ) >= 0 by {
                    lemma_patched_domain(s, id, deps, since, x);
                    assert(unaccounted(now, x, u) == unaccounted(s, x, u));
                    assert(unaccounted(s, x, u) >= 0);
                }
            }
            law_ingestion_keeps_accounts(now, outputs.drop_first(), deps, since, on, t);
        }
    }
}

} // verus!
