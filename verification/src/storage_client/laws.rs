//! What holds of read capabilities as a whole.

use vstd::arithmetic::mul::{lemma_mul_is_distributive_add, lemma_mul_is_distributive_sub};
use vstd::prelude::*;

use crate::storage_client::capabilities::{
    caps_of, dependencies_among, is_valid, pending_for, settled, spread, with_caps,
    Dependencies,
};
use crate::storage_client::changes::{
    empty_batch, first_time, fits, grown, hold_at, is_first, is_zero, lemma_first_time, lemma_is_first,
    moved_hold, plus, Batch,
};
use crate::storage_client::controller::{applied, release_at, same_for_all, StateView};
use crate::storage_client::frontier::frontier_le;
use crate::storage_client::id_map::{ascending, in_order, lemma_in_order, lists};
use crate::storage_client::ids::{id_rank, GlobalId};

verus! {

/// Whether no count is below zero.
pub open spec fn no_debts(caps: Map<GlobalId, Batch>) -> bool {
    forall|id: GlobalId, t: u64|
        caps.dom().contains(id) ==> #[trigger] caps[id].counts[t] >= 0
}

proof fn lemma_valid_advances(counts: Map<u64, int>, changes: Map<u64, int>)
    requires
        is_valid(counts, changes),
    ensures
        frontier_le(first_time(counts), first_time(plus(counts, changes))),
{
    let now = plus(counts, changes);
    lemma_first_time(counts);
    lemma_first_time(now);
    if let Some(t) = first_time(now) {
        assert(now[t] > 0);
        if changes[t] == 0 {
            assert(counts[t] > 0);
        }
    }
}

/// A change of read capabilities never moves the frontier of a collection backward: what may
/// have been compacted away stays away.
pub proof fn law_frontiers_advance(
    deps: Dependencies,
    caps: Map<GlobalId, Batch>,
    pending: Map<GlobalId, Batch>,
    passed: Map<GlobalId, Batch>,
    steps: nat,
    id: GlobalId,
)
    requires
        caps.dom().contains(id),
    ensures
        settled(deps, caps, pending, passed, steps) matches Ok((after, _)) ==> after.dom().contains(id)
            && frontier_le(first_time(caps[id].counts), first_time(after[id].counts)),
    decreases steps,
{
    let ids = in_order(pending.dom());
    if ids.len() > 0 && steps > 0 {
        let key = ids.last();
        let update = pending[key];
        let rest = pending.remove(key);
        let less = (steps - 1) as nat;
        if caps.dom().contains(key) {
            if is_valid(caps[key].counts, update.counts) {
                let now = grown(caps[key], update.counts);
                let from = first_time(caps[key].counts);
                let to = first_time(now.counts);
                lemma_valid_advances(caps[key].counts, update.counts);
                if let Some(p) = spread(
                    rest,
                    deps.collections[key],
                    moved_hold(from, to),
                ) {
                    law_frontiers_advance(deps, caps.insert(key, now), p, passed, less, id);
                }
            }
        } else if deps.exports.dom().contains(key) {
            if let Some(p) = spread(rest, deps.exports[key], update.counts) {
                let more = grown(pending_for(passed, key), update.counts);
                law_frontiers_advance(deps, caps, p, passed.insert(key, more), less, id);
            }
        }
    }
}

/// A change of read capabilities leaves no collection with less than no capabilities at some
/// time.
pub proof fn law_no_debts(
    deps: Dependencies,
    caps: Map<GlobalId, Batch>,
    pending: Map<GlobalId, Batch>,
    passed: Map<GlobalId, Batch>,
    steps: nat,
)
    requires
        no_debts(caps),
    ensures
        settled(deps, caps, pending, passed, steps) matches Ok((after, _)) ==> no_debts(after),
    decreases steps,
{
    let ids = in_order(pending.dom());
    if ids.len() > 0 && steps > 0 {
        let key = ids.last();
        let update = pending[key];
        let rest = pending.remove(key);
        let less = (steps - 1) as nat;
        if caps.dom().contains(key) {
            if is_valid(caps[key].counts, update.counts) {
                let now = grown(caps[key], update.counts);
                let from = first_time(caps[key].counts);
                let to = first_time(now.counts);
                let caps2 = caps.insert(key, now);
                assert forall|id: GlobalId, t: u64| caps2.dom().contains(id) implies #[trigger] caps2[id].counts[t]
                    >= 0 by {
                    if id == key {
                        assert(caps[key].counts[t] >= 0);
                        if update.counts[t] != 0 {
                            assert(caps[key].counts[t] + update.counts[t] >= 0);
                        }
                    } else {
                        assert(caps[id].counts[t] >= 0);
                    }
                }
                if let Some(p) = spread(
                    rest,
                    deps.collections[key],
                    moved_hold(from, to),
                ) {
                    law_no_debts(deps, caps2, p, passed, less);
                }
            }
        } else if deps.exports.dom().contains(key) {
            if let Some(p) = spread(rest, deps.exports[key], update.counts) {
                let more = grown(pending_for(passed, key), update.counts);
                law_no_debts(deps, caps, p, passed.insert(key, more), less);
            }
        }
    }
}

/// How often an identifier occurs in a list.
pub open spec fn occurrences(ids: Seq<GlobalId>, id: GlobalId) -> int
    decreases ids.len(),
{
    if ids.len() == 0 {
        0
    } else {
        occurrences(ids.drop_last(), id) + if ids.last() == id {
            1int
        } else {
            0
        }
    }
}

/// The holds at a time that collections keep on one of their dependencies: one each at their
/// own frontiers.
pub open spec fn holds_of(
    ids: Seq<GlobalId>,
    deps: Map<GlobalId, Seq<GlobalId>>,
    caps: Map<GlobalId, Batch>,
    on: GlobalId,
    t: u64,
) -> int
    decreases ids.len(),
{
    if ids.len() == 0 {
        0
    } else {
        holds_of(ids.drop_last(), deps, caps, on, t) + occurrences(deps[ids.last()], on) * hold_at(
            first_time(caps[ids.last()].counts),
        )[t]
    }
}

/// The changes at a time that exports passed on to one of their dependencies.
pub open spec fn passed_on(
    ids: Seq<GlobalId>,
    deps: Map<GlobalId, Seq<GlobalId>>,
    passed: Map<GlobalId, Batch>,
    on: GlobalId,
    t: u64,
) -> int
    decreases ids.len(),
{
    if ids.len() == 0 {
        0
    } else {
        passed_on(ids.drop_last(), deps, passed, on, t) + occurrences(deps[ids.last()], on)
            * pending_for(passed, ids.last()).counts[t]
    }
}

pub proof fn lemma_spread_count(
    pending: Map<GlobalId, Batch>,
    deps: Seq<GlobalId>,
    counts: Map<u64, int>,
    on: GlobalId,
    t: u64,
)
    ensures
        spread(pending, deps, counts) matches Some(p) ==> pending_for(p, on).counts[t]
            == pending_for(pending, on).counts[t] + occurrences(deps, on) * counts[t],
    decreases deps.len(),
{
    if deps.len() > 0 {
        let rest = deps.drop_last();
        lemma_spread_count(pending, rest, counts, on, t);
        let last: int = if deps.last() == on {
            1
        } else {
            0
        };
        lemma_mul_is_distributive_add(counts[t], occurrences(rest, on), last);
        assert(occurrences(deps, on) * counts[t] == occurrences(rest, on) * counts[t] + last * counts[t])
            by (nonlinear_arith)
            requires
                occurrences(deps, on) == occurrences(rest, on) + last,
        ;
    }
}

proof fn lemma_holds_without(
    ids: Seq<GlobalId>,
    deps: Map<GlobalId, Seq<GlobalId>>,
    caps: Map<GlobalId, Batch>,
    key: GlobalId,
    now: Batch,
    on: GlobalId,
    t: u64,
)
    requires
        !ids.contains(key),
    ensures
        holds_of(ids, deps, caps.insert(key, now), on, t) == holds_of(ids, deps, caps, on, t),
    decreases ids.len(),
{
    if ids.len() > 0 {
        assert(ids.last() != key);
        assert forall|k: int| 0 <= k < ids.drop_last().len() implies ids.drop_last()[k] != key by {
            assert(ids[k] != key);
        }
        lemma_holds_without(ids.drop_last(), deps, caps, key, now, on, t);
    }
}

proof fn lemma_holds_moved(
    ids: Seq<GlobalId>,
    deps: Map<GlobalId, Seq<GlobalId>>,
    caps: Map<GlobalId, Batch>,
    key: GlobalId,
    now: Batch,
    on: GlobalId,
    t: u64,
)
    requires
        ascending(ids),
        ids.contains(key),
    ensures
        holds_of(ids, deps, caps.insert(key, now), on, t) == holds_of(ids, deps, caps, on, t)
            + occurrences(deps[key], on) * moved_hold(
            first_time(caps[key].counts),
            first_time(now.counts),
        )[t],
    decreases ids.len(),
{
    let rest = ids.drop_last();
    let from = hold_at(first_time(caps[key].counts))[t];
    let to = hold_at(first_time(now.counts))[t];
    if ids.last() == key {
        assert forall|k: int| 0 <= k < rest.len() implies rest[k] != key by {
            assert(id_rank(ids[k]) < id_rank(ids.last()));
        }
        lemma_holds_without(rest, deps, caps, key, now, on, t);
        lemma_mul_is_distributive_sub(occurrences(deps[key], on), to, from);
    } else {
        let k = ids.index_of(key);
        assert(rest[k] == key);
        assert(ascending(rest)) by {
            assert forall|i: int, j: int| 0 <= i < j < rest.len() implies id_rank(#[trigger] rest[i])
                < id_rank(#[trigger] rest[j]) by {
                assert(ids[i] == rest[i] && ids[j] == rest[j]);
            }
        }
        lemma_holds_moved(rest, deps, caps, key, now, on, t);
    }
}

proof fn lemma_passed_without(
    ids: Seq<GlobalId>,
    deps: Map<GlobalId, Seq<GlobalId>>,
    passed: Map<GlobalId, Batch>,
    key: GlobalId,
    now: Batch,
    on: GlobalId,
    t: u64,
)
    requires
        !ids.contains(key),
    ensures
        passed_on(ids, deps, passed.insert(key, now), on, t) == passed_on(ids, deps, passed, on, t),
    decreases ids.len(),
{
    if ids.len() > 0 {
        assert(ids.last() != key);
        assert forall|k: int| 0 <= k < ids.drop_last().len() implies ids.drop_last()[k] != key by {
            assert(ids[k] != key);
        }
        lemma_passed_without(ids.drop_last(), deps, passed, key, now, on, t);
    }
}

proof fn lemma_passed_more(
    ids: Seq<GlobalId>,
    deps: Map<GlobalId, Seq<GlobalId>>,
    passed: Map<GlobalId, Batch>,
    key: GlobalId,
    counts: Map<u64, int>,
    on: GlobalId,
    t: u64,
)
    requires
        ascending(ids),
        ids.contains(key),
    ensures
        passed_on(
            ids,
            deps,
            passed.insert(key, grown(pending_for(passed, key), counts)),
            on,
            t,
        ) == passed_on(ids, deps, passed, on, t) + occurrences(deps[key], on) * counts[t],
    decreases ids.len(),
{
    let rest = ids.drop_last();
    let now = grown(pending_for(passed, key), counts);
    if ids.last() == key {
        assert forall|k: int| 0 <= k < rest.len() implies rest[k] != key by {
            assert(id_rank(ids[k]) < id_rank(ids.last()));
        }
        lemma_passed_without(rest, deps, passed, key, now, on, t);
        lemma_mul_is_distributive_add(
            occurrences(deps[key], on),
            pending_for(passed, key).counts[t],
            counts[t],
        );
    } else {
        let k = ids.index_of(key);
        assert(rest[k] == key);
        assert(ascending(rest)) by {
            assert forall|i: int, j: int| 0 <= i < j < rest.len() implies id_rank(#[trigger] rest[i])
                < id_rank(#[trigger] rest[j]) by {
                assert(ids[i] == rest[i] && ids[j] == rest[j]);
            }
        }
        lemma_passed_more(rest, deps, passed, key, counts, on, t);
    }
}

/// Read capabilities are conserved. What a collection has of them at a time, less the holds
/// that other collections keep on it at their own frontiers and less what exports passed on to
/// it, changes by nothing but what was asked for. So however far frontiers move, a collection
/// that others depend on is held back at the frontiers that they have in the end.
pub proof fn law_capabilities_conserved(
    deps: Dependencies,
    caps: Map<GlobalId, Batch>,
    pending: Map<GlobalId, Batch>,
    passed: Map<GlobalId, Batch>,
    steps: nat,
    collections: Seq<GlobalId>,
    exports: Seq<GlobalId>,
    on: GlobalId,
    t: u64,
)
    requires
        lists(collections, caps.dom()),
        lists(exports, deps.exports.dom()),
        lists(in_order(pending.dom()), pending.dom()),
        caps.dom().contains(on),
    ensures
        settled(deps, caps, pending, passed, steps) matches Ok((after, sent)) ==> after.dom() == caps.dom()
            && after[on].counts[t] - holds_of(collections, deps.collections, after, on, t) - passed_on(
            exports,
            deps.exports,
            sent,
            on,
            t,
        ) == caps[on].counts[t] + pending_for(pending, on).counts[t] - holds_of(
            collections,
            deps.collections,
            caps,
            on,
            t,
        ) - passed_on(exports, deps.exports, passed, on, t),
    decreases steps,
{
    let ids = in_order(pending.dom());
    if ids.len() == 0 {
        if pending.dom().contains(on) {
            assert(ids.contains(on));
        }
    } else if steps > 0 {
        let key = ids.last();
        assert(pending.dom().contains(key));
        let update = pending[key];
        let rest = pending.remove(key);
        let less = (steps - 1) as nat;
        if caps.dom().contains(key) {
            if is_valid(caps[key].counts, update.counts) {
                let now = grown(caps[key], update.counts);
                let from = first_time(caps[key].counts);
                let to = first_time(now.counts);
                let caps2 = caps.insert(key, now);
                let m = moved_hold(from, to);
                if let Some(p) = spread(rest, deps.collections[key], m) {
                    assert(caps2.dom() =~= caps.dom());
                    lemma_spread_count(rest, deps.collections[key], m, on, t);
                    lemma_holds_moved(collections, deps.collections, caps, key, now, on, t);
                    lemma_spread_listed(rest, deps.collections[key], m);
                    lemma_rest_listed(pending);
                    law_capabilities_conserved(
                        deps,
                        caps2,
                        p,
                        passed,
                        less,
                        collections,
                        exports,
                        on,
                        t,
                    );
                }
            }
        } else if deps.exports.dom().contains(key) {
            if let Some(p) = spread(rest, deps.exports[key], update.counts) {
                let more = grown(pending_for(passed, key), update.counts);
                lemma_spread_count(rest, deps.exports[key], update.counts, on, t);
                lemma_passed_more(
                    exports,
                    deps.exports,
                    passed,
                    key,
                    update.counts,
                    on,
                    t,
                );
                lemma_spread_listed(rest, deps.exports[key], update.counts);
                lemma_rest_listed(pending);
                law_capabilities_conserved(
                    deps,
                    caps,
                    p,
                    passed.insert(key, more),
                    less,
                    collections,
                    exports,
                    on,
                    t,
                );
            }
        }
    }
}

pub proof fn lemma_rest_listed(pending: Map<GlobalId, Batch>)
    requires
        lists(in_order(pending.dom()), pending.dom()),
        in_order(pending.dom()).len() > 0,
    ensures
        exists|ids: Seq<GlobalId>|
            lists(ids, pending.remove(in_order(pending.dom()).last()).dom()),
{
    let ids = in_order(pending.dom());
    let key = ids.last();
    let rest = ids.drop_last();
    let set = pending.remove(key).dom();
    assert(lists(rest, set)) by {
        assert forall|k: int| 0 <= k < rest.len() implies set.contains(#[trigger] rest[k]) by {
            assert(id_rank(ids[k]) < id_rank(ids.last()));
            assert(pending.dom().contains(ids[k]));
        }
        assert forall|id: GlobalId| #[trigger] set.contains(id) implies rest.contains(id) by {
            assert(pending.dom().contains(id));
            let k = ids.index_of(id);
            assert(ids[k] == id);
            assert(rest[k] == id);
        }
        assert forall|i: int, j: int| 0 <= i < j < rest.len() implies id_rank(#[trigger] rest[i])
            < id_rank(#[trigger] rest[j]) by {
            assert(ids[i] == rest[i] && ids[j] == rest[j]);
        }
    }
}

/// Where an identifier is put in order, and what stands before and behind it.
pub(crate) proof fn lemma_insert_listed(ids: Seq<GlobalId>, set: Set<GlobalId>, id: GlobalId)
    requires
        lists(ids, set),
    ensures
        exists|more: Seq<GlobalId>| lists(more, set.insert(id)),
    decreases ids.len(),
{
    broadcast use crate::storage_client::ids::lemma_id_rank;

    if set.contains(id) {
        assert(set.insert(id) =~= set);
    } else if ids.len() == 0 {
        let more = seq![id];
        assert(lists(more, set.insert(id))) by {
            assert forall|other: GlobalId| #[trigger] set.insert(id).contains(other) implies more.contains(
                other,
            ) by {
                if other != id {
                    assert(set.contains(other));
                    assert(ids.contains(other));
                }
                assert(more[0] == id);
            }
        }
    } else if id_rank(ids.last()) < id_rank(id) {
        let more = ids.push(id);
        assert(lists(more, set.insert(id))) by {
            assert forall|k: int| 0 <= k < more.len() implies set.insert(id).contains(#[trigger] more[k]) by {
                if k < ids.len() {
                    assert(more[k] == ids[k]);
                }
            }
            assert forall|other: GlobalId| #[trigger] set.insert(id).contains(other) implies more.contains(
                other,
            ) by {
                if other == id {
                    assert(more[ids.len() as int] == id);
                } else {
                    let k = ids.index_of(other);
                    assert(ids.contains(other));
                    assert(more[k] == other);
                }
            }
            assert forall|i: int, j: int| 0 <= i < j < more.len() implies id_rank(#[trigger] more[i])
                < id_rank(#[trigger] more[j]) by {
                assert(more[i] == ids[i]);
                if j == ids.len() {
                    if i < ids.len() - 1 {
                        assert(id_rank(ids[i]) < id_rank(ids.last()));
                    }
                } else {
                    assert(more[j] == ids[j]);
                }
            }
        }
    } else {
        let last = ids.last();
        assert(set.contains(last));
        let rest = ids.drop_last();
        let less = set.remove(last);
        assert(lists(rest, less)) by {
            assert forall|k: int| 0 <= k < rest.len() implies less.contains(#[trigger] rest[k]) by {
                assert(id_rank(ids[k]) < id_rank(ids.last()));
                assert(set.contains(ids[k]));
            }
            assert forall|other: GlobalId| #[trigger] less.contains(other) implies rest.contains(other) by {
                let k = ids.index_of(other);
                assert(ids.contains(other));
                assert(ids[k] == other);
                assert(rest[k] == other);
            }
            assert forall|i: int, j: int| 0 <= i < j < rest.len() implies id_rank(#[trigger] rest[i])
                < id_rank(#[trigger] rest[j]) by {
                assert(ids[i] == rest[i] && ids[j] == rest[j]);
            }
        }
        lemma_insert_listed(rest, less, id);
        let before = choose|more: Seq<GlobalId>| lists(more, less.insert(id));
        let more = before.push(last);
        assert(lists(more, set.insert(id))) by {
            assert forall|k: int| 0 <= k < more.len() implies set.insert(id).contains(#[trigger] more[k]) by {
                if k < before.len() {
                    assert(more[k] == before[k]);
                    assert(less.insert(id).contains(before[k]));
                }
            }
            assert forall|other: GlobalId| #[trigger] set.insert(id).contains(other) implies more.contains(
                other,
            ) by {
                if other == last {
                    assert(more[before.len() as int] == last);
                } else {
                    assert(less.insert(id).contains(other));
                    let k = before.index_of(other);
                    assert(more[k] == other);
                }
            }
            assert forall|i: int, j: int| 0 <= i < j < more.len() implies id_rank(#[trigger] more[i])
                < id_rank(#[trigger] more[j]) by {
                assert(more[i] == before[i]);
                if j < before.len() {
                    assert(more[j] == before[j]);
                } else {
                    assert(less.insert(id).contains(before[i]));
                    if before[i] != id {
                        assert(less.contains(before[i]));
                        let k = rest.index_of(before[i]);
                        assert(rest.contains(before[i]));
                        assert(ids[k] == before[i]);
                        assert(id_rank(ids[k]) < id_rank(ids.last()));
                    }
                }
            }
        }
    }
}

pub proof fn lemma_spread_listed(
    pending: Map<GlobalId, Batch>,
    deps: Seq<GlobalId>,
    counts: Map<u64, int>,
)
    ensures
        (exists|ids: Seq<GlobalId>| lists(ids, pending.dom())) ==> (spread(
            pending,
            deps,
            counts,
        ) matches Some(p) ==> lists(in_order(p.dom()), p.dom())),
    decreases deps.len(),
{
    if exists|ids: Seq<GlobalId>| lists(ids, pending.dom()) {
        if deps.len() > 0 {
            lemma_spread_listed(pending, deps.drop_last(), counts);
            if let Some(p) = spread(pending, deps.drop_last(), counts) {
                lemma_insert_listed(in_order(p.dom()), p.dom(), deps.last());
                if let Some(q) = spread(pending, deps, counts) {
                    assert(q.dom() =~= p.dom().insert(deps.last()));
                }
            }
        }
    }
}

/// Whether two collections of counts are the same at each time.
pub open spec fn same_counts(a: Map<u64, int>, b: Map<u64, int>) -> bool {
    forall|t: u64| #[trigger] a[t] == b[t]
}

/// Whether all counts of collections are the same at each time.
pub open spec fn same_caps(a: Map<GlobalId, Batch>, b: Map<GlobalId, Batch>) -> bool {
    a.dom() == b.dom() && forall|id: GlobalId| #[trigger]
        b.dom().contains(id) ==> same_counts(a[id].counts, b[id].counts)
}

/// Whether all pending changes cancel out.
spec fn is_quiet(pending: Map<GlobalId, Batch>) -> bool {
    forall|id: GlobalId| #[trigger] pending.dom().contains(id) ==> is_zero(pending[id].counts)
}

proof fn lemma_first_same(a: Map<u64, int>, b: Map<u64, int>)
    requires
        same_counts(a, b),
    ensures
        first_time(a) == first_time(b),
{
    lemma_first_time(a);
    lemma_first_time(b);
    if let Some(t) = first_time(a) {
        assert(is_first(b, t)) by {
            assert(a[t] == b[t]);
            assert forall|s: u64| #[trigger] b[s] > 0 implies t <= s by {
                assert(a[s] == b[s]);
            }
        }
        lemma_is_first(b, t);
    } else if let Some(t) = first_time(b) {
        assert(a[t] == b[t]);
    }
}

proof fn lemma_spread_quiet(
    pending: Map<GlobalId, Batch>,
    deps: Seq<GlobalId>,
    counts: Map<u64, int>,
)
    requires
        is_quiet(pending),
        is_zero(counts),
    ensures
        spread(pending, deps, counts) matches Some(p) ==> is_quiet(p),
    decreases deps.len(),
{
    if deps.len() > 0 {
        lemma_spread_quiet(pending, deps.drop_last(), counts);
        if let Some(p) = spread(pending, deps.drop_last(), counts) {
            let b = pending_for(p, deps.last());
            assert(is_zero(b.counts));
            assert(is_zero(grown(b, counts).counts)) by {
                assert forall|t: u64| #[trigger] grown(b, counts).counts[t] == 0 by {
                    assert(b.counts[t] == 0 && counts[t] == 0);
                }
            }
        }
    }
}

proof fn lemma_quiet(
    deps: Dependencies,
    caps: Map<GlobalId, Batch>,
    pending: Map<GlobalId, Batch>,
    passed: Map<GlobalId, Batch>,
    steps: nat,
)
    requires
        is_quiet(pending),
        lists(in_order(pending.dom()), pending.dom()),
    ensures
        settled(deps, caps, pending, passed, steps) matches Ok((after, _)) ==> same_caps(after, caps),
    decreases steps,
{
    let ids = in_order(pending.dom());
    if ids.len() > 0 && steps > 0 {
        let key = ids.last();
        assert(pending.dom().contains(key));
        let update = pending[key];
        let rest = pending.remove(key);
        let less = (steps - 1) as nat;
        lemma_rest_listed(pending);
        if caps.dom().contains(key) {
            let now = grown(caps[key], update.counts);
            assert(same_counts(now.counts, caps[key].counts)) by {
                assert forall|t: u64| #[trigger] now.counts[t] == caps[key].counts[t] by {
                    assert(update.counts[t] == 0);
                }
            }
            lemma_first_same(now.counts, caps[key].counts);
            let f = first_time(caps[key].counts);
            let m = moved_hold(f, f);
            assert(is_zero(m));
            lemma_spread_quiet(rest, deps.collections[key], m);
            lemma_spread_listed(rest, deps.collections[key], m);
            if let Some(p) = spread(rest, deps.collections[key], m) {
                let caps2 = caps.insert(key, now);
                lemma_quiet(deps, caps2, p, passed, less);
                if let Ok((after, _)) = settled(deps, caps2, p, passed, less) {
                    assert(caps2.dom() =~= caps.dom());
                    assert forall|id: GlobalId| #[trigger] caps.dom().contains(id) implies same_counts(
                        after[id].counts,
                        caps[id].counts,
                    ) by {
                        assert(caps2.dom().contains(id));
                        assert(same_counts(caps2[id].counts, caps[id].counts));
                        assert forall|t: u64| #[trigger] after[id].counts[t] == caps[id].counts[t] by {
                            assert(after[id].counts[t] == caps2[id].counts[t]);
                            assert(caps2[id].counts[t] == caps[id].counts[t]);
                        }
                    }
                }
            }
        } else if deps.exports.dom().contains(key) {
            lemma_spread_quiet(rest, deps.exports[key], update.counts);
            lemma_spread_listed(rest, deps.exports[key], update.counts);
            if let Some(p) = spread(rest, deps.exports[key], update.counts) {
                let more = grown(pending_for(passed, key), update.counts);
                lemma_quiet(deps, caps, p, passed.insert(key, more), less);
            }
        }
    } else {
        assert forall|id: GlobalId| #[trigger] caps.dom().contains(id) implies same_counts(
            caps[id].counts,
            caps[id].counts,
        ) by {}
    }
}

/// Changes of one collection that do not move its frontier reach no other collection: its own
/// counts change, and no others.
pub proof fn law_still_frontier(
    deps: Dependencies,
    caps: Map<GlobalId, Batch>,
    id: GlobalId,
    update: Batch,
    steps: nat,
)
    requires
        caps.dom().contains(id),
        first_time(plus(caps[id].counts, update.counts)) == first_time(caps[id].counts),
    ensures
        settled(deps, caps, map![id => update], Map::empty(), steps) matches Ok((after, _)) ==> same_caps(
            after,
            caps.insert(id, grown(caps[id], update.counts)),
        ),
{
    let pending: Map<GlobalId, Batch> = map![id => update];
    let ids = seq![id];
    assert(lists(ids, pending.dom())) by {
        assert forall|k: int| 0 <= k < ids.len() implies pending.dom().contains(#[trigger] ids[k]) by {}
        assert forall|other: GlobalId| #[trigger] pending.dom().contains(other) implies ids.contains(other) by {
            assert(ids[0] == id);
        }
    }
    lemma_in_order(ids, pending.dom());
    let rest = pending.remove(id);
    assert(rest =~= Map::<GlobalId, Batch>::empty());
    let now = grown(caps[id], update.counts);
    let f = first_time(caps[id].counts);
    let m = moved_hold(f, f);
    let none = Seq::<GlobalId>::empty();
    assert(lists(none, rest.dom()));
    lemma_spread_quiet(rest, deps.collections[id], m);
    lemma_spread_listed(rest, deps.collections[id], m);
    if steps > 0 {
        if let Some(p) = spread(rest, deps.collections[id], m) {
            lemma_quiet(deps, caps.insert(id, now), p, Map::empty(), (steps - 1) as nat);
        }
    }
}

proof fn lemma_spread_alike(
    p: Map<GlobalId, Batch>,
    q: Map<GlobalId, Batch>,
    deps: Seq<GlobalId>,
    m: Map<u64, int>,
    n: Map<u64, int>,
)
    requires
        is_quiet(p),
        is_quiet(q),
        p.dom() == q.dom(),
        is_zero(m),
        is_zero(n),
    ensures
        spread(p, deps, m) matches Some(a) && spread(q, deps, n) matches Some(b) && a.dom() == b.dom(),
    decreases deps.len(),
{
    if deps.len() > 0 {
        lemma_spread_alike(p, q, deps.drop_last(), m, n);
        lemma_spread_quiet(p, deps.drop_last(), m);
        lemma_spread_quiet(q, deps.drop_last(), n);
        let a = spread(p, deps.drop_last(), m)->Some_0;
        let b = spread(q, deps.drop_last(), n)->Some_0;
        let x = pending_for(a, deps.last());
        let y = pending_for(b, deps.last());
        assert forall|t: u64| #[trigger] grown(x, m).counts[t] == 0 by {
            assert(x.counts[t] == 0 && m[t] == 0);
        }
        assert forall|t: u64| #[trigger] grown(y, n).counts[t] == 0 by {
            assert(y.counts[t] == 0 && n[t] == 0);
        }
        assert(a.insert(deps.last(), grown(x, m)).dom() =~= b.insert(deps.last(), grown(y, n)).dom());
    }
}

/// Changes that cancel out come to an end wherever others for the same identifiers do.
proof fn lemma_quiet_alike(
    deps: Dependencies,
    caps: Map<GlobalId, Batch>,
    other: Map<GlobalId, Batch>,
    pending: Map<GlobalId, Batch>,
    more: Map<GlobalId, Batch>,
    passed: Map<GlobalId, Batch>,
    given: Map<GlobalId, Batch>,
    steps: nat,
)
    requires
        is_quiet(pending),
        is_quiet(more),
        pending.dom() == more.dom(),
        lists(in_order(pending.dom()), pending.dom()),
        caps.dom() == other.dom(),
        forall|id: GlobalId| #[trigger]
            caps.dom().contains(id) && fits(caps[id].counts) ==> fits(other[id].counts),
        forall|id: GlobalId| #[trigger] given.dom().contains(id) ==> fits(given[id].counts),
    ensures
        settled(deps, caps, pending, passed, steps) is Ok ==> settled(deps, other, more, given, steps) is Ok,
    decreases steps,
{
    let ids = in_order(pending.dom());
    if ids.len() > 0 && steps > 0 {
        let key = ids.last();
        assert(pending.dom().contains(key));
        let update = pending[key].counts;
        let change = more[key].counts;
        let p = pending.remove(key);
        let q = more.remove(key);
        let less = (steps - 1) as nat;
        lemma_rest_listed(pending);
        assert(p.dom() =~= q.dom());
        assert forall|t: u64| update[t] == 0 && #[trigger] change[t] == 0 by {
            assert(is_zero(pending[key].counts) && is_zero(more[key].counts));
        }
        if caps.dom().contains(key) {
            let now = grown(caps[key], update);
            let then_now = grown(other[key], change);
            assert(same_counts(now.counts, caps[key].counts)) by {
                assert forall|t: u64| #[trigger] now.counts[t] == caps[key].counts[t] by {
                    assert(change[t] == 0);
                }
            }
            assert(same_counts(then_now.counts, other[key].counts)) by {
                assert forall|t: u64| #[trigger] then_now.counts[t] == other[key].counts[t] by {
                    assert(change[t] == 0);
                }
            }
            lemma_first_same(now.counts, caps[key].counts);
            lemma_first_same(then_now.counts, other[key].counts);
            let m = moved_hold(first_time(caps[key].counts), first_time(now.counts));
            let n = moved_hold(first_time(other[key].counts), first_time(then_now.counts));
            lemma_spread_alike(p, q, deps.collections[key], m, n);
            lemma_spread_quiet(p, deps.collections[key], m);
            lemma_spread_quiet(q, deps.collections[key], n);
            lemma_spread_listed(p, deps.collections[key], m);
            if fits(now.counts) {
                assert(fits(caps[key].counts)) by {
                    assert forall|t: u64| i64::MIN <= #[trigger] caps[key].counts[t] <= i64::MAX by {
                        assert(now.counts[t] == caps[key].counts[t]);
                    }
                }
                assert(fits(then_now.counts)) by {
                    assert forall|t: u64| i64::MIN <= #[trigger] then_now.counts[t] <= i64::MAX by {
                        assert(then_now.counts[t] == other[key].counts[t]);
                    }
                }
                assert(is_valid(other[key].counts, change));
                let a = caps.insert(key, now);
                let b = other.insert(key, then_now);
                assert(a.dom() =~= b.dom());
                lemma_quiet_alike(
                    deps,
                    a,
                    b,
                    spread(p, deps.collections[key], m)->Some_0,
                    spread(q, deps.collections[key], n)->Some_0,
                    passed,
                    given,
                    less,
                );
            }
        } else if deps.exports.dom().contains(key) {
            lemma_spread_alike(p, q, deps.exports[key], update, change);
            lemma_spread_quiet(p, deps.exports[key], update);
            lemma_spread_quiet(q, deps.exports[key], change);
            lemma_spread_listed(p, deps.exports[key], update);
            let now = grown(pending_for(given, key), change);
            assert(fits(now.counts)) by {
                assert forall|t: u64| i64::MIN <= #[trigger] now.counts[t] <= i64::MAX by {
                    assert(change[t] == 0);
                    assert(now.counts[t] == pending_for(given, key).counts[t]);
                }
            }
            lemma_quiet_alike(
                deps,
                caps,
                other,
                spread(p, deps.exports[key], update)->Some_0,
                spread(q, deps.exports[key], change)->Some_0,
                passed.insert(key, grown(pending_for(passed, key), update)),
                given.insert(key, now),
                less,
            );
        }
    }
}

/// A hold that is installed can be removed again, and that leaves the counts of all collections
/// as they were: cancelling the preparation of an export reports no fault and undoes it.
pub proof fn law_cancel_undoes_prepare(s: StateView, from_id: GlobalId, since: Option<u64>)
    requires
        s.collections.dom().contains(from_id),
        forall|t: u64| #[trigger] s.collections[from_id].read_capabilities.counts[t] >= 0,
    ensures
        applied(s, same_for_all(seq![from_id], hold_at(since))) matches Ok(held) ==> (
        applied(held, same_for_all(seq![from_id], release_at(since))) matches Ok(
            free,
        ) && same_caps(caps_of(free.collections), caps_of(s.collections))),
{
    let ids = seq![from_id];
    let deps = dependencies_among(s.collections, s.exports);
    let caps = caps_of(s.collections);
    let steps = u64::MAX as nat;
    let hold = grown(empty_batch(), hold_at(since));
    let free = grown(empty_batch(), release_at(since));
    let holds = same_for_all(ids, hold_at(since));
    let frees = same_for_all(ids, release_at(since));
    assert(holds =~= map![from_id => hold]) by {
        assert forall|id: GlobalId| ids.contains(id) == (id == from_id) by {
            assert(ids[0] == from_id);
        }
    }
    assert(frees =~= map![from_id => free]) by {
        assert forall|id: GlobalId| ids.contains(id) == (id == from_id) by {
            assert(ids[0] == from_id);
        }
    }
    if let Ok((after, passed)) = settled(deps, caps, holds, Map::empty(), steps) {
        let now = grown(caps[from_id], hold.counts);
        lemma_one_step(deps, caps, from_id, hold, steps);
        lemma_first_kept(caps[from_id].counts, hold.counts);
        law_still_frontier(deps, caps, from_id, hold, steps);
        let caps2 = caps.insert(from_id, now);
        let mid = with_caps(s.collections, after);
        let held = applied(s, holds)->Ok_0;
        assert(held.collections == mid);
        assert(caps_of(mid) =~= after) by {
            assert(after.dom() =~= caps2.dom());
            assert(caps2.dom() =~= caps.dom());
        }
        assert(dependencies_among(mid, held.exports) =~= deps);
        lemma_release(deps, caps, after, from_id, since, steps);
        if let Ok((last, _)) = settled(deps, after, frees, Map::empty(), steps) {
            let back = grown(after[from_id], free.counts);
            assert(caps2.dom().contains(from_id));
            assert(same_counts(back.counts, caps[from_id].counts)) by {
                assert forall|t: u64| #[trigger] back.counts[t] == caps[from_id].counts[t] by {
                    assert(after[from_id].counts[t] == caps2[from_id].counts[t]);
                }
            }
            lemma_first_same(back.counts, caps[from_id].counts);
            lemma_first_same(after[from_id].counts, now.counts);
            law_still_frontier(deps, after, from_id, free, steps);
            let caps3 = after.insert(from_id, back);
            assert(caps3.dom() =~= caps.dom());
            assert(caps_of(with_caps(mid, last)) =~= last) by {
                assert(last.dom() =~= caps.dom());
            }
            assert forall|id: GlobalId| #[trigger] caps.dom().contains(id) implies same_counts(
                last[id].counts,
                caps[id].counts,
            ) by {
                assert(caps3.dom().contains(id));
                assert(caps2.dom().contains(id));
                assert forall|t: u64| #[trigger] last[id].counts[t] == caps[id].counts[t] by {
                    assert(last[id].counts[t] == caps3[id].counts[t]);
                    if id != from_id {
                        assert(after[id].counts[t] == caps2[id].counts[t]);
                    } else {
                        assert(back.counts[t] == caps[id].counts[t]);
                    }
                }
            }
        }
    }
}

/// Where a hold was installed, it can be removed.
proof fn lemma_release(
    deps: Dependencies,
    caps: Map<GlobalId, Batch>,
    after: Map<GlobalId, Batch>,
    id: GlobalId,
    since: Option<u64>,
    steps: nat,
)
    requires
        caps.dom().contains(id),
        forall|t: u64| #[trigger] caps[id].counts[t] >= 0,
        settled(
            deps,
            caps,
            map![id => grown(empty_batch(), hold_at(since))],
            Map::empty(),
            steps,
        ) matches Ok((a, _)) && a == after,
    ensures
        settled(
            deps,
            after,
            map![id => grown(empty_batch(), release_at(since))],
            Map::empty(),
            steps,
        ) is Ok,
{
    let hold = grown(empty_batch(), hold_at(since));
    let free = grown(empty_batch(), release_at(since));
    let pending: Map<GlobalId, Batch> = map![id => hold];
    let more: Map<GlobalId, Batch> = map![id => free];
    let ids = seq![id];
    assert(pending.dom() =~= more.dom());
    assert(lists(ids, pending.dom())) by {
        assert forall|other: GlobalId| #[trigger] pending.dom().contains(other) implies ids.contains(other) by {
            assert(ids[0] == id);
        }
    }
    lemma_in_order(ids, pending.dom());
    let none = Map::<GlobalId, Batch>::empty();
    assert(pending.remove(id) =~= none);
    assert(more.remove(id) =~= none);
    assert(lists(Seq::<GlobalId>::empty(), none.dom()));
    let now = grown(caps[id], hold.counts);
    lemma_one_step(deps, caps, id, hold, steps);
    lemma_first_kept(caps[id].counts, hold.counts);
    law_still_frontier(deps, caps, id, hold, steps);
    let caps2 = caps.insert(id, now);
    assert(caps2.dom().contains(id));
    assert(same_counts(after[id].counts, now.counts));
    let back = grown(after[id], free.counts);
    assert(same_counts(back.counts, caps[id].counts)) by {
        assert forall|t: u64| #[trigger] back.counts[t] == caps[id].counts[t] by {
            assert(after[id].counts[t] == now.counts[t]);
        }
    }
    lemma_first_same(back.counts, caps[id].counts);
    lemma_first_same(after[id].counts, now.counts);
    assert(is_valid(after[id].counts, free.counts)) by {
        assert forall|t: u64| #[trigger] free.counts[t] != 0 implies after[id].counts[t] + free.counts[t]
            >= 0 && (after[id].counts[t] + free.counts[t] > 0 ==> (first_time(after[id].counts) matches Some(
            f,
        ) && f <= t)) by {
            assert(back.counts[t] == caps[id].counts[t]);
            lemma_first_time(caps[id].counts);
        }
    }
    assert(fits(back.counts)) by {
        assert forall|t: u64| i64::MIN <= #[trigger] back.counts[t] <= i64::MAX by {
            assert(back.counts[t] == caps[id].counts[t]);
            assert(now.counts[t] <= i64::MAX);
        }
    }
    let f = first_time(caps[id].counts);
    let m = moved_hold(f, f);
    lemma_spread_alike(none, none, deps.collections[id], m, m);
    lemma_spread_quiet(none, deps.collections[id], m);
    lemma_spread_listed(none, deps.collections[id], m);
    let p = spread(none, deps.collections[id], m)->Some_0;
    let other = after.insert(id, back);
    assert(caps2.dom() =~= other.dom());
    assert forall|x: GlobalId| #[trigger] caps2.dom().contains(x) && fits(caps2[x].counts) implies fits(
        other[x].counts,
    ) by {
        if x != id {
            assert(same_counts(after[x].counts, caps2[x].counts));
            assert forall|t: u64| i64::MIN <= #[trigger] other[x].counts[t] <= i64::MAX by {
                assert(after[x].counts[t] == caps2[x].counts[t]);
            }
        }
    }
    if steps > 0 {
        lemma_quiet_alike(deps, caps2, other, p, p, none, none, (steps - 1) as nat);
    }
}

proof fn lemma_first_kept(counts: Map<u64, int>, hold: Map<u64, int>)
    requires
        is_valid(counts, hold),
        forall|t: u64| #[trigger] hold[t] >= 0,
    ensures
        first_time(plus(counts, hold)) == first_time(counts),
{
    let now = plus(counts, hold);
    lemma_first_time(counts);
    lemma_first_time(now);
    lemma_valid_advances(counts, hold);
    if let Some(f) = first_time(counts) {
        assert(hold[f] >= 0);
        assert(now[f] > 0);
    }
}

proof fn lemma_one_step(
    deps: Dependencies,
    caps: Map<GlobalId, Batch>,
    id: GlobalId,
    update: Batch,
    steps: nat,
)
    requires
        caps.dom().contains(id),
    ensures
        settled(deps, caps, map![id => update], Map::empty(), steps) is Ok ==> is_valid(
            caps[id].counts,
            update.counts,
        ),
{
    let pending: Map<GlobalId, Batch> = map![id => update];
    let ids = seq![id];
    assert(lists(ids, pending.dom())) by {
        assert forall|other: GlobalId| #[trigger] pending.dom().contains(other) implies ids.contains(other) by {
            assert(ids[0] == id);
        }
    }
    lemma_in_order(ids, pending.dom());
}

} // verus!
