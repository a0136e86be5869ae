//! What the read capabilities of a collection are made of.

use vstd::arithmetic::mul::lemma_mul_is_distributive_sub;
use vstd::prelude::*;

use crate::storage_client::capabilities::{
    caps_of, dependencies_among, is_valid, pending_for, settled, spread, with_caps,
    Dependencies,
};
use crate::storage_client::changes::{first_time, grown, hold_at, moved_hold, Batch};
use crate::storage_client::controller::{
    advanced, applied, assigned, export_written, frontiers_written, moved_changes, policies_assigned,
    with_frontiers, with_policies, StateView,
};
use crate::storage_client::frontier::frontier_le;
use crate::storage_client::id_map::{in_order, lists};
use crate::storage_client::ids::GlobalId;
use crate::storage_client::laws::{
    holds_of, law_capabilities_conserved, lemma_rest_listed, lemma_spread_count,
    lemma_spread_listed, occurrences, passed_on,
};
use crate::storage_client::policy::PolicyView;
use crate::storage_client::state::{CollectionView, ExportStateView};

verus! {

/// The holds at a time that exports keep on one of their dependencies: one each at their read
/// capabilities.
pub open spec fn export_holds(
    ids: Seq<GlobalId>,
    exports: Map<GlobalId, ExportStateView>,
    on: GlobalId,
    t: u64,
) -> int
    decreases ids.len(),
{
    if ids.len() == 0 {
        0
    } else {
        export_holds(ids.drop_last(), exports, on, t) + occurrences(
            exports[ids.last()].storage_dependencies,
            on,
        ) * hold_at(exports[ids.last()].read_capability)[t]
    }
}

/// The read capabilities of a collection at a time beyond those that the controller accounts
/// for: its implied capability, the holds of collections that depend on it, and the holds of
/// exports that do. What remains are the holds for exports that are being prepared.
pub open spec fn unaccounted(s: StateView, on: GlobalId, t: u64) -> int {
    let deps = dependencies_among(s.collections, s.exports);
    s.collections[on].read_capabilities.counts[t] - hold_at(s.collections[on].implied_capability)[t]
        - holds_of(
        in_order(s.collections.dom()),
        deps.collections,
        caps_of(s.collections),
        on,
        t,
    ) - export_holds(in_order(s.exports.dom()), s.exports, on, t)
}

/// Whether a state can be one of a controller: there are finitely many collections and exports,
/// nothing is both, and no export is depended upon.
pub open spec fn is_sound(s: StateView) -> bool {
    &&& lists(in_order(s.collections.dom()), s.collections.dom())
    &&& lists(in_order(s.exports.dom()), s.exports.dom())
    &&& forall|id: GlobalId| #[trigger]
        s.exports.dom().contains(id) ==> !s.collections.dom().contains(id)
    &&& forall|id: GlobalId, k: int|
        s.collections.dom().contains(id) && 0 <= k < s.collections[id].storage_dependencies.len()
            ==> !s.exports.dom().contains(#[trigger] s.collections[id].storage_dependencies[k])
    &&& forall|id: GlobalId, k: int|
        s.exports.dom().contains(id) && 0 <= k < s.exports[id].storage_dependencies.len()
            ==> !s.exports.dom().contains(#[trigger] s.exports[id].storage_dependencies[k])
}

/// Where all holds are accounted for, or more than that, the capabilities of a collection
/// contain its implied capability.
pub proof fn law_implied_contained(s: StateView, on: GlobalId)
    requires
        s.collections.dom().contains(on),
        forall|t: u64| unaccounted(s, on, t) >= 0,
    ensures
        s.collections[on].implied_capability matches Some(t)
            ==> s.collections[on].read_capabilities.counts[t] >= 1,
{
    if let Some(t) = s.collections[on].implied_capability {
        assert(unaccounted(s, on, t) >= 0);
        lemma_holds_positive(
            in_order(s.collections.dom()),
            dependencies_among(s.collections, s.exports).collections,
            caps_of(s.collections),
            on,
            t,
        );
        lemma_export_holds_positive(in_order(s.exports.dom()), s.exports, on, t);
    }
}

pub(crate) proof fn lemma_occurrences_positive(ids: Seq<GlobalId>, id: GlobalId)
    ensures
        occurrences(ids, id) >= 0,
        !ids.contains(id) ==> occurrences(ids, id) == 0,
    decreases ids.len(),
{
    if ids.len() > 0 {
        lemma_occurrences_positive(ids.drop_last(), id);
        if !ids.contains(id) {
            assert(ids.last() != id);
            assert(!ids.drop_last().contains(id)) by {
                assert forall|k: int| 0 <= k < ids.drop_last().len() implies ids.drop_last()[k] != id by {
                    assert(ids[k] != id);
                }
            }
        }
    }
}

proof fn lemma_holds_positive(
    ids: Seq<GlobalId>,
    deps: Map<GlobalId, Seq<GlobalId>>,
    caps: Map<GlobalId, Batch>,
    on: GlobalId,
    t: u64,
)
    ensures
        holds_of(ids, deps, caps, on, t) >= 0,
    decreases ids.len(),
{
    if ids.len() > 0 {
        lemma_holds_positive(ids.drop_last(), deps, caps, on, t);
        lemma_occurrences_positive(deps[ids.last()], on);
        let n = occurrences(deps[ids.last()], on);
        let h = hold_at(first_time(caps[ids.last()].counts))[t];
        assert(n * h >= 0) by (nonlinear_arith)
            requires
                n >= 0,
                h >= 0,
        ;
    }
}

proof fn lemma_export_holds_positive(
    ids: Seq<GlobalId>,
    exports: Map<GlobalId, ExportStateView>,
    on: GlobalId,
    t: u64,
)
    ensures
        export_holds(ids, exports, on, t) >= 0,
    decreases ids.len(),
{
    if ids.len() > 0 {
        lemma_export_holds_positive(ids.drop_last(), exports, on, t);
        lemma_occurrences_positive(exports[ids.last()].storage_dependencies, on);
        let n = occurrences(exports[ids.last()].storage_dependencies, on);
        let h = hold_at(exports[ids.last()].read_capability)[t];
        assert(n * h >= 0) by (nonlinear_arith)
            requires
                n >= 0,
                h >= 0,
        ;
    }
}

/// What an export that nothing depends on passes on is what was asked for.
pub(crate) proof fn lemma_passed_leaf(
    deps: Dependencies,
    caps: Map<GlobalId, Batch>,
    pending: Map<GlobalId, Batch>,
    passed: Map<GlobalId, Batch>,
    steps: nat,
    e: GlobalId,
    t: u64,
)
    requires
        lists(in_order(pending.dom()), pending.dom()),
        !caps.dom().contains(e),
        forall|id: GlobalId| #[trigger]
            caps.dom().contains(id) ==> !deps.collections[id].contains(e),
        forall|id: GlobalId| #[trigger]
            deps.exports.dom().contains(id) ==> !deps.exports[id].contains(e),
    ensures
        settled(deps, caps, pending, passed, steps) matches Ok((_, sent)) ==> pending_for(
            sent,
            e,
        ).counts[t] == pending_for(passed, e).counts[t] + pending_for(pending, e).counts[t],
    decreases steps,
{
    let ids = in_order(pending.dom());
    if ids.len() == 0 {
        if pending.dom().contains(e) {
            assert(ids.contains(e));
        }
    } else if steps > 0 {
        let key = ids.last();
        assert(pending.dom().contains(key));
        let update = pending[key];
        let rest = pending.remove(key);
        let less = (steps - 1) as nat;
        lemma_rest_listed(pending);
        if caps.dom().contains(key) {
            if is_valid(caps[key].counts, update.counts) {
                let now = grown(caps[key], update.counts);
                let from = first_time(caps[key].counts);
                let to = first_time(now.counts);
                let m = moved_hold(from, to);
                lemma_occurrences_positive(deps.collections[key], e);
                lemma_spread_count(rest, deps.collections[key], m, e, t);
                lemma_spread_listed(rest, deps.collections[key], m);
                if let Some(p) = spread(rest, deps.collections[key], m) {
                    lemma_passed_leaf(deps, caps.insert(key, now), p, passed, less, e, t);
                }
            }
        } else if deps.exports.dom().contains(key) {
            lemma_occurrences_positive(deps.exports[key], e);
            lemma_spread_count(rest, deps.exports[key], update.counts, e, t);
            lemma_spread_listed(rest, deps.exports[key], update.counts);
            if let Some(p) = spread(rest, deps.exports[key], update.counts) {
                let more = grown(pending_for(passed, key), update.counts);
                lemma_passed_leaf(deps, caps, p, passed.insert(key, more), less, e, t);
            }
        }
    }
}

pub(crate) proof fn lemma_passed_sum(
    ids: Seq<GlobalId>,
    before: Map<GlobalId, ExportStateView>,
    after: Map<GlobalId, ExportStateView>,
    deps: Map<GlobalId, Seq<GlobalId>>,
    sent: Map<GlobalId, Batch>,
    on: GlobalId,
    t: u64,
)
    requires
        forall|k: int|
            0 <= k < ids.len() ==> {
                let e = #[trigger] ids[k];
                &&& deps[e] == before[e].storage_dependencies
                &&& after[e].storage_dependencies == before[e].storage_dependencies
                &&& pending_for(sent, e).counts[t] == hold_at(after[e].read_capability)[t] - hold_at(
                    before[e].read_capability,
                )[t]
            },
    ensures
        passed_on(ids, deps, sent, on, t) == export_holds(ids, after, on, t) - export_holds(
            ids,
            before,
            on,
            t,
        ),
    decreases ids.len(),
{
    if ids.len() > 0 {
        let rest = ids.drop_last();
        assert forall|k: int| 0 <= k < rest.len() implies {
            let e = #[trigger] rest[k];
            &&& deps[e] == before[e].storage_dependencies
            &&& after[e].storage_dependencies == before[e].storage_dependencies
            &&& pending_for(sent, e).counts[t] == hold_at(after[e].read_capability)[t] - hold_at(
                before[e].read_capability,
            )[t]
        } by {
            assert(rest[k] == ids[k]);
        }
        lemma_passed_sum(rest, before, after, deps, sent, on, t);
        let e = ids.last();
        assert(ids[ids.len() - 1] == e);
        lemma_mul_is_distributive_sub(
            occurrences(deps[e], on),
            hold_at(after[e].read_capability)[t],
            hold_at(before[e].read_capability)[t],
        );
    }
}

/// Whether pending changes are those that move the implied capabilities of collections and the
/// read capabilities of exports from what they were to what they are.
spec fn are_moves(
    was: StateView,
    now: StateView,
    had: Map<GlobalId, Batch>,
    changes: Map<GlobalId, Batch>,
    t: u64,
) -> bool {
    &&& now.collections.dom() == was.collections.dom()
    &&& now.exports.dom() == was.exports.dom()
    &&& forall|id: GlobalId| #[trigger]
        was.collections.dom().contains(id) ==> now.collections[id].read_capabilities
            == was.collections[id].read_capabilities && now.collections[id].storage_dependencies
            == was.collections[id].storage_dependencies && pending_for(changes, id).counts[t]
            == pending_for(had, id).counts[t] + hold_at(now.collections[id].implied_capability)[t]
            - hold_at(was.collections[id].implied_capability)[t]
    &&& forall|id: GlobalId| #[trigger]
        was.exports.dom().contains(id) && !was.collections.dom().contains(id)
            ==> now.exports[id].storage_dependencies == was.exports[id].storage_dependencies
            && pending_for(changes, id).counts[t] == pending_for(had, id).counts[t] + hold_at(
            now.exports[id].read_capability,
        )[t] - hold_at(was.exports[id].read_capability)[t]
    &&& forall|id: GlobalId| #[trigger]
        was.exports.dom().contains(id) ==> now.exports[id].storage_dependencies
            == was.exports[id].storage_dependencies
}

proof fn lemma_moved_changes(
    changes: Map<GlobalId, Batch>,
    id: GlobalId,
    from: Option<u64>,
    to: Option<u64>,
    other: GlobalId,
    t: u64,
)
    requires
        lists(in_order(changes.dom()), changes.dom()),
    ensures
        moved_changes(changes, id, from, to) matches Some(c) ==> lists(in_order(c.dom()), c.dom())
            && pending_for(c, other).counts[t] == pending_for(changes, other).counts[t] + (if other == id {
            hold_at(to)[t] - hold_at(from)[t]
        } else {
            0
        }),
{
    if from != to {
        let ids = seq![id];
        lemma_spread_count(changes, ids, moved_hold(from, to), other, t);
        lemma_spread_listed(changes, ids, moved_hold(from, to));
        reveal_with_fuel(occurrences, 2);
        assert(ids.drop_last() =~= Seq::<GlobalId>::empty());
        let n = occurrences(ids, other);
        let m = moved_hold(from, to)[t];
        assert(n * m == (if other == id {
            m
        } else {
            0
        })) by (nonlinear_arith)
            requires
                n == (if other == id {
                    1int
                } else {
                    0
                }),
        ;
    }
}

proof fn lemma_policies_moves(
    s: StateView,
    changes: Map<GlobalId, Batch>,
    policies: Seq<(GlobalId, PolicyView)>,
    t: u64,
)
    requires
        lists(in_order(changes.dom()), changes.dom()),
    ensures
        policies_assigned(s.collections, changes, policies) matches Ok((collections, more)) ==> are_moves(
            s,
            (StateView { collections, ..s }),
            changes,
            more,
            t,
        ) && lists(in_order(more.dom()), more.dom()),
    decreases policies.len(),
{
    if policies.len() > 0 {
        let id = policies[0].0;
        if s.collections.dom().contains(id) {
            let c = s.collections[id];
            if let Ok((c2, ch2)) = assigned(c, changes, id, policies[0].1, c.write_frontier) {
                let s2 = StateView { collections: s.collections.insert(id, c2), ..s };
                assert forall|other: GlobalId|
                    pending_for(ch2, other).counts[t] == pending_for(changes, other).counts[t] + (if other
                        == id {
                        hold_at(c2.implied_capability)[t] - hold_at(c.implied_capability)[t]
                    } else {
                        0
                    }) && lists(in_order(ch2.dom()), ch2.dom()) by {
                    lemma_moved_changes(
                        changes,
                        id,
                        c.implied_capability,
                        c2.implied_capability,
                        other,
                        t,
                    );
                }
                lemma_moved_changes(changes, id, c.implied_capability, c2.implied_capability, id, t);
                lemma_policies_moves(s2, ch2, policies.drop_first(), t);
                if let Ok((collections, more)) = policies_assigned(
                    s2.collections,
                    ch2,
                    policies.drop_first(),
                ) {
                    let last = StateView { collections, ..s };
                    let last2 = StateView { collections, ..s2 };
                    assert(are_moves(s2, last2, ch2, more, t));
                    assert(s2.collections.dom() =~= s.collections.dom());
                    assert forall|other: GlobalId| #[trigger] s.collections.dom().contains(other) implies {
                        &&& last.collections[other].read_capabilities
                            == s.collections[other].read_capabilities
                        &&& last.collections[other].storage_dependencies
                            == s.collections[other].storage_dependencies
                        &&& pending_for(more, other).counts[t] == pending_for(changes, other).counts[t]
                            + hold_at(last.collections[other].implied_capability)[t] - hold_at(
                            s.collections[other].implied_capability,
                        )[t]
                    } by {
                        assert(s2.collections.dom().contains(other));
                    }
                    assert forall|other: GlobalId| #[trigger]
                        s.exports.dom().contains(other) && !s.collections.dom().contains(other) implies pending_for(
                        more,
                        other,
                    ).counts[t] == pending_for(changes, other).counts[t] by {
                        assert(s2.exports.dom().contains(other));
                        assert(!s2.collections.dom().contains(other));
                    }
                }
            }
        }
    }
}

proof fn lemma_frontiers_moves(
    s: StateView,
    changes: Map<GlobalId, Batch>,
    updates: Seq<(GlobalId, Option<u64>)>,
    t: u64,
)
    requires
        lists(in_order(changes.dom()), changes.dom()),
    ensures
        frontiers_written(s, changes, updates) matches Ok((now, more)) ==> are_moves(
            s,
            now,
            changes,
            more,
            t,
        ) && lists(in_order(more.dom()), more.dom()),
    decreases updates.len(),
{
    if updates.len() > 0 {
        let (id, new_upper) = updates[0];
        if s.collections.dom().contains(id) {
            let c = s.collections[id];
            let upper = advanced(c.write_frontier, new_upper);
            if let Ok((c2, ch2)) = assigned(c, changes, id, c.read_policy, upper) {
                let s2 = StateView { collections: s.collections.insert(id, c2), ..s };
                assert forall|other: GlobalId| pending_for(ch2, other).counts[t] == pending_for(
                    changes,
                    other,
                ).counts[t] + (if other == id {
                    hold_at(c2.implied_capability)[t] - hold_at(c.implied_capability)[t]
                } else {
                    0
                }) by {
                    lemma_moved_changes(
                        changes,
                        id,
                        c.implied_capability,
                        c2.implied_capability,
                        other,
                        t,
                    );
                }
                lemma_moved_changes(changes, id, c.implied_capability, c2.implied_capability, id, t);
                lemma_frontiers_moves(s2, ch2, updates.drop_first(), t);
                if let Ok((now, more)) = frontiers_written(s2, ch2, updates.drop_first()) {
                    assert(s2.collections.dom() =~= s.collections.dom());
                    lemma_moves_chained(s, s2, now, changes, ch2, more, t);
                }
            }
        } else if s.exports.dom().contains(id) {
            let e = s.exports[id];
            let upper = advanced(e.write_frontier, new_upper);
            if let Ok((e2, ch2)) = export_written(e, changes, id, upper) {
                let s2 = StateView { exports: s.exports.insert(id, e2), ..s };
                assert forall|other: GlobalId| pending_for(ch2, other).counts[t] == pending_for(
                    changes,
                    other,
                ).counts[t] + (if other == id {
                    hold_at(e2.read_capability)[t] - hold_at(e.read_capability)[t]
                } else {
                    0
                }) by {
                    lemma_moved_changes(changes, id, e.read_capability, e2.read_capability, other, t);
                }
                lemma_moved_changes(changes, id, e.read_capability, e2.read_capability, id, t);
                lemma_frontiers_moves(s2, ch2, updates.drop_first(), t);
                if let Ok((now, more)) = frontiers_written(s2, ch2, updates.drop_first()) {
                    assert(s2.exports.dom() =~= s.exports.dom());
                    lemma_moves_chained(s, s2, now, changes, ch2, more, t);
                }
            }
        }
    }
}

proof fn lemma_moves_chained(
    a: StateView,
    b: StateView,
    c: StateView,
    x: Map<GlobalId, Batch>,
    y: Map<GlobalId, Batch>,
    z: Map<GlobalId, Batch>,
    t: u64,
)
    requires
        are_moves(a, b, x, y, t),
        are_moves(b, c, y, z, t),
    ensures
        are_moves(a, c, x, z, t),
{
    assert forall|id: GlobalId| #[trigger] a.collections.dom().contains(id) implies {
        &&& c.collections[id].read_capabilities == a.collections[id].read_capabilities
        &&& c.collections[id].storage_dependencies == a.collections[id].storage_dependencies
        &&& pending_for(z, id).counts[t] == pending_for(x, id).counts[t] + hold_at(
            c.collections[id].implied_capability,
        )[t] - hold_at(a.collections[id].implied_capability)[t]
    } by {
        assert(b.collections.dom().contains(id));
    }
    assert forall|id: GlobalId| #[trigger]
        a.exports.dom().contains(id) && !a.collections.dom().contains(id) implies {
        &&& c.exports[id].storage_dependencies == a.exports[id].storage_dependencies
        &&& pending_for(z, id).counts[t] == pending_for(x, id).counts[t] + hold_at(
            c.exports[id].read_capability,
        )[t] - hold_at(a.exports[id].read_capability)[t]
    } by {
        assert(b.exports.dom().contains(id));
        assert(!b.collections.dom().contains(id));
    }
    assert forall|id: GlobalId| #[trigger] a.exports.dom().contains(id) implies c.exports[id].storage_dependencies
        == a.exports[id].storage_dependencies by {
        assert(b.exports.dom().contains(id));
    }
}

/// What remains once the moves of frontiers are applied is what remained before.
proof fn lemma_moves_applied(
    was: StateView,
    mid: StateView,
    changes: Map<GlobalId, Batch>,
    on: GlobalId,
    t: u64,
)
    requires
        is_sound(was),
        was.collections.dom().contains(on),
        are_moves(was, mid, Map::empty(), changes, t),
        lists(in_order(changes.dom()), changes.dom()),
    ensures
        applied(mid, changes) matches Ok(now) ==> unaccounted(now, on, t) == unaccounted(was, on, t)
            && is_sound(now),
{
    let deps = dependencies_among(mid.collections, mid.exports);
    let deps0 = dependencies_among(was.collections, was.exports);
    let caps = caps_of(mid.collections);
    let caps0 = caps_of(was.collections);
    let steps = u64::MAX as nat;
    let ids = in_order(was.collections.dom());
    let ex = in_order(was.exports.dom());
    assert(deps =~= deps0) by {
        assert forall|id: GlobalId| #[trigger] was.collections.dom().contains(id) implies deps.collections[id]
            == deps0.collections[id] by {}
        assert forall|id: GlobalId| #[trigger] was.exports.dom().contains(id) implies deps.exports[id]
            == deps0.exports[id] by {}
        assert(deps.collections =~= deps0.collections);
        assert(deps.exports =~= deps0.exports);
    }
    assert(caps =~= caps0);
    if let Ok((after, sent)) = settled(deps, caps, changes, Map::empty(), steps) {
        assert(caps.dom() =~= was.collections.dom());
        assert(deps.exports.dom() =~= was.exports.dom());
        law_capabilities_conserved(deps, caps, changes, Map::empty(), steps, ids, ex, on, t);
        let now = applied(mid, changes)->Ok_0;
        assert(now.collections == with_caps(mid.collections, after));
        assert(now.collections.dom() =~= was.collections.dom());
        assert(caps_of(now.collections) =~= after);
        assert(dependencies_among(now.collections, now.exports) =~= deps) by {
            assert(dependencies_among(now.collections, now.exports).collections =~= deps.collections);
        }
        assert forall|k: int| 0 <= k < ex.len() implies {
            let e = #[trigger] ex[k];
            &&& deps.exports[e] == was.exports[e].storage_dependencies
            &&& now.exports[e].storage_dependencies == was.exports[e].storage_dependencies
            &&& pending_for(sent, e).counts[t] == hold_at(now.exports[e].read_capability)[t] - hold_at(
                was.exports[e].read_capability,
            )[t]
        } by {
            let e = ex[k];
            assert(was.exports.dom().contains(e));
            assert(!was.collections.dom().contains(e));
            assert forall|id: GlobalId| #[trigger] caps.dom().contains(id) implies !deps.collections[id].contains(
                e,
            ) by {
                assert(was.collections.dom().contains(id));
                if deps.collections[id].contains(e) {
                    let j = deps.collections[id].index_of(e);
                    assert(was.collections[id].storage_dependencies[j] == e);
                }
            }
            assert forall|id: GlobalId| #[trigger] deps.exports.dom().contains(id) implies !deps.exports[id].contains(
                e,
            ) by {
                assert(was.exports.dom().contains(id));
                if deps.exports[id].contains(e) {
                    let j = deps.exports[id].index_of(e);
                    assert(was.exports[id].storage_dependencies[j] == e);
                }
            }
            lemma_passed_leaf(deps, caps, changes, Map::empty(), steps, e, t);
        }
        lemma_passed_sum(ex, was.exports, now.exports, deps.exports, sent, on, t);
        lemma_passed_none(ex, deps.exports, on, t);
        assert(is_sound(now)) by {
            assert forall|id: GlobalId, k: int|
                now.collections.dom().contains(id) && 0 <= k
                    < now.collections[id].storage_dependencies.len() implies !now.exports.dom().contains(
                #[trigger] now.collections[id].storage_dependencies[k],
            ) by {
                assert(was.collections.dom().contains(id));
                assert(now.collections[id].storage_dependencies
                    == was.collections[id].storage_dependencies);
                assert(!was.exports.dom().contains(was.collections[id].storage_dependencies[k]));
            }
            assert forall|id: GlobalId, k: int|
                now.exports.dom().contains(id) && 0 <= k < now.exports[id].storage_dependencies.len() implies !now.exports.dom().contains(
                #[trigger] now.exports[id].storage_dependencies[k],
            ) by {
                assert(was.exports.dom().contains(id));
                assert(!was.exports.dom().contains(was.exports[id].storage_dependencies[k]));
            }
        }
    }
}

proof fn lemma_passed_none(ids: Seq<GlobalId>, deps: Map<GlobalId, Seq<GlobalId>>, on: GlobalId, t: u64)
    ensures
        passed_on(ids, deps, Map::empty(), on, t) == 0,
    decreases ids.len(),
{
    if ids.len() > 0 {
        lemma_passed_none(ids.drop_last(), deps, on, t);
        let n = occurrences(deps[ids.last()], on);
        assert(n * 0 == 0) by (nonlinear_arith);
        assert(pending_for(Map::empty(), ids.last()).counts[t] == 0);
    }
}

pub(crate) proof fn lemma_none_listed()
    ensures
        lists(in_order(Map::<GlobalId, Batch>::empty().dom()), Map::<GlobalId, Batch>::empty().dom()),
{
    assert(lists(Seq::<GlobalId>::empty(), Map::<GlobalId, Batch>::empty().dom()));
}

/// Assigning read policies keeps all accounts: the capabilities of each collection stay those
/// that its implied capability, the collections and the exports that depend on it, and the
/// exports in preparation account for.
pub proof fn law_policies_keep_accounts(
    s: StateView,
    policies: Seq<(GlobalId, PolicyView)>,
    on: GlobalId,
    t: u64,
)
    requires
        is_sound(s),
        s.collections.dom().contains(on),
    ensures
        with_policies(s, policies) matches Ok(now) ==> unaccounted(now, on, t) == unaccounted(s, on, t)
            && is_sound(now),
{
    lemma_none_listed();
    lemma_policies_moves(s, Map::empty(), policies, t);
    if let Ok((collections, changes)) = policies_assigned(s.collections, Map::empty(), policies) {
        lemma_moves_applied(s, StateView { collections, ..s }, changes, on, t);
    }
}

/// Reporting write frontiers keeps all accounts.
pub proof fn law_frontiers_keep_accounts(
    s: StateView,
    updates: Seq<(GlobalId, Option<u64>)>,
    on: GlobalId,
    t: u64,
)
    requires
        is_sound(s),
        s.collections.dom().contains(on),
    ensures
        with_frontiers(s, updates) matches Ok(now) ==> unaccounted(now, on, t) == unaccounted(s, on, t)
            && is_sound(now),
{
    lemma_none_listed();
    lemma_frontiers_moves(s, Map::empty(), updates, t);
    if let Ok((mid, changes)) = frontiers_written(s, Map::empty(), updates) {
        lemma_moves_applied(s, mid, changes, on, t);
    }
}

/// The policy that a collection has once policies are assigned: the last one for it, or the
/// one that it had.
pub open spec fn last_policy(policies: Seq<(GlobalId, PolicyView)>, id: GlobalId, had: PolicyView) -> PolicyView
    decreases policies.len(),
{
    if policies.len() == 0 {
        had
    } else if policies.last().0 == id {
        policies.last().1
    } else {
        last_policy(policies.drop_last(), id, had)
    }
}

/// Repeated identifiers conclude with the last policy, identifiers that are not named retain
/// their policies, and no implied capability moves backward.
pub proof fn law_policies_assigned(
    collections: Map<GlobalId, CollectionView>,
    changes: Map<GlobalId, Batch>,
    policies: Seq<(GlobalId, PolicyView)>,
    id: GlobalId,
)
    requires
        collections.dom().contains(id),
    ensures
        policies_assigned(collections, changes, policies) matches Ok((after, _)) ==> after.dom().contains(
            id,
        ) && after[id].read_policy == last_policy(policies, id, collections[id].read_policy)
            && frontier_le(collections[id].implied_capability, after[id].implied_capability),
    decreases policies.len(),
{
    if policies.len() > 0 {
        let first = policies[0].0;
        if collections.dom().contains(first) {
            let c = collections[first];
            if let Ok((c2, ch2)) = assigned(c, changes, first, policies[0].1, c.write_frontier) {
                law_policies_assigned(collections.insert(first, c2), ch2, policies.drop_first(), id);
                lemma_last_policy(policies, id, collections[id].read_policy);
            }
        }
    }
}

proof fn lemma_last_policy(policies: Seq<(GlobalId, PolicyView)>, id: GlobalId, had: PolicyView)
    requires
        policies.len() > 0,
    ensures
        last_policy(policies, id, had) == last_policy(
            policies.drop_first(),
            id,
            if policies[0].0 == id {
                policies[0].1
            } else {
                had
            },
        ),
    decreases policies.len(),
{
    if policies.len() == 1 {
        assert(policies.drop_last() =~= Seq::empty());
        assert(policies.drop_first() =~= Seq::empty());
    } else {
        let rest = policies.drop_first();
        assert(rest.last() == policies.last());
        assert(rest.drop_last() =~= policies.drop_last().drop_first());
        lemma_last_policy(policies.drop_last(), id, had);
    }
}

/// Reported write frontiers move no write frontier of a collection backward.
pub proof fn law_uppers_advance(
    s: StateView,
    changes: Map<GlobalId, Batch>,
    updates: Seq<(GlobalId, Option<u64>)>,
    id: GlobalId,
)
    requires
        s.collections.dom().contains(id),
    ensures
        frontiers_written(s, changes, updates) matches Ok((now, _)) ==> now.collections.dom().contains(id)
            && frontier_le(s.collections[id].write_frontier, now.collections[id].write_frontier),
    decreases updates.len(),
{
    if updates.len() > 0 {
        let (first, new_upper) = updates[0];
        if s.collections.dom().contains(first) {
            let c = s.collections[first];
            let upper = advanced(c.write_frontier, new_upper);
            if let Ok((c2, ch2)) = assigned(c, changes, first, c.read_policy, upper) {
                let s2 = StateView { collections: s.collections.insert(first, c2), ..s };
                law_uppers_advance(s2, ch2, updates.drop_first(), id);
            }
        } else if s.exports.dom().contains(first) {
            let e = s.exports[first];
            let upper = advanced(e.write_frontier, new_upper);
            if let Ok((e2, ch2)) = export_written(e, changes, first, upper) {
                let s2 = StateView { exports: s.exports.insert(first, e2), ..s };
                law_uppers_advance(s2, ch2, updates.drop_first(), id);
            }
        }
    }
}

} // verus!
