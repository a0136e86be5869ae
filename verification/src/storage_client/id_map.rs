//! A map from identifiers, in the order of identifiers.

use vstd::prelude::*;

use crate::storage_client::ids::{id_rank, lemma_id_rank, rank_of, GlobalId};

verus! {

/// Whether identifiers are in strictly ascending order.
pub open spec fn ascending(ids: Seq<GlobalId>) -> bool {
    forall|i: int, j: int|
        0 <= i < j < ids.len() ==> id_rank(#[trigger] ids[i]) < id_rank(#[trigger] ids[j])
}

/// Whether identifiers are those of a set, in order.
pub open spec fn lists(ids: Seq<GlobalId>, set: Set<GlobalId>) -> bool {
    &&& ascending(ids)
    &&& forall|k: int| 0 <= k < ids.len() ==> set.contains(#[trigger] ids[k])
    &&& forall|id: GlobalId| #[trigger] set.contains(id) ==> ids.contains(id)
}

/// The identifiers of a set, in order.
pub open spec fn in_order(set: Set<GlobalId>) -> Seq<GlobalId> {
    choose|ids: Seq<GlobalId>| lists(ids, set)
}

/// There is one way to list a set in order.
pub proof fn lemma_lists_unique(a: Seq<GlobalId>, b: Seq<GlobalId>, set: Set<GlobalId>)
    requires
        lists(a, set),
        lists(b, set),
    ensures
        a == b,
    decreases a.len(),
{
    broadcast use lemma_id_rank;

    if a.len() == 0 {
        if b.len() > 0 {
            assert(set.contains(b[0]));
        }
        assert(a =~= b);
    } else {
        assert(set.contains(a.last()));
        let j = b.index_of(a.last());
        assert(b[j] == a.last());
        assert(set.contains(b.last()));
        let i = a.index_of(b.last());
        assert(a[i] == b.last());
        if j < b.len() - 1 {
            assert(id_rank(b[j]) < id_rank(b.last()));
            if i < a.len() - 1 {
                assert(id_rank(a[i]) < id_rank(a.last()));
            }
        }
        assert(a.last() == b.last());
        let rest = set.remove(a.last());
        let c = a.drop_last();
        let d = b.drop_last();
        assert(lists(c, rest)) by {
            assert forall|k: int| 0 <= k < c.len() implies rest.contains(#[trigger] c[k]) by {
                assert(id_rank(a[k]) < id_rank(a.last()));
                assert(set.contains(a[k]));
            }
            assert forall|id: GlobalId| #[trigger] rest.contains(id) implies c.contains(id) by {
                let k = a.index_of(id);
                assert(a[k] == id);
                assert(c[k] == id);
            }
        }
        assert(lists(d, rest)) by {
            assert forall|k: int| 0 <= k < d.len() implies rest.contains(#[trigger] d[k]) by {
                assert(id_rank(b[k]) < id_rank(b.last()));
                assert(set.contains(b[k]));
            }
            assert forall|id: GlobalId| #[trigger] rest.contains(id) implies d.contains(id) by {
                let k = b.index_of(id);
                assert(b[k] == id);
                assert(d[k] == id);
            }
        }
        lemma_lists_unique(c, d, rest);
        assert(a =~= c.push(a.last()));
        assert(b =~= d.push(b.last()));
    }
}

/// What is listed in order is the set in order.
pub proof fn lemma_in_order(ids: Seq<GlobalId>, set: Set<GlobalId>)
    requires
        lists(ids, set),
    ensures
        in_order(set) == ids,
{
    lemma_lists_unique(ids, in_order(set), set);
}

/// A map from identifiers.
#[derive(Debug)]
pub struct IdMap<V> {
    entries: Vec<(GlobalId, V)>,
}

/// The identifiers of entries.
spec fn entry_ids<V>(entries: Seq<(GlobalId, V)>) -> Seq<GlobalId> {
    Seq::new(entries.len(), |k: int| entries[k].0)
}

/// The map that entries are.
spec fn entry_map<V>(entries: Seq<(GlobalId, V)>) -> Map<GlobalId, V> {
    Map::new(
        |id: GlobalId| entry_ids(entries).contains(id),
        |id: GlobalId| entries[entry_ids(entries).index_of(id)].1,
    )
}

impl<V> View for IdMap<V> {
    type V = Map<GlobalId, V>;

    closed spec fn view(&self) -> Map<GlobalId, V> {
        entry_map(self.entries@)
    }
}

proof fn lemma_entry<V>(entries: Seq<(GlobalId, V)>, k: int)
    requires
        ascending(entry_ids(entries)),
        0 <= k < entries.len(),
    ensures
        entry_map(entries).dom().contains(entries[k].0),
        entry_map(entries)[entries[k].0] == entries[k].1,
{
    let ids = entry_ids(entries);
    assert(ids[k] == entries[k].0);
    let j = ids.index_of(entries[k].0);
    assert(ids.contains(entries[k].0));
    assert(ids[j] == ids[k]);
    if j < k {
        assert(id_rank(ids[j]) < id_rank(ids[k]));
    } else if k < j {
        assert(id_rank(ids[k]) < id_rank(ids[j]));
    }
}

proof fn lemma_absent<V>(entries: Seq<(GlobalId, V)>, id: GlobalId, at: int)
    requires
        ascending(entry_ids(entries)),
        0 <= at <= entries.len(),
        forall|k: int| 0 <= k < at ==> id_rank((#[trigger] entries[k]).0) < id_rank(id),
        forall|k: int| at <= k < entries.len() ==> id_rank(id) <= id_rank((#[trigger] entries[k]).0),
        at == entries.len() || entries[at].0 != id,
    ensures
        !entry_map(entries).dom().contains(id),
{
    let ids = entry_ids(entries);
    if ids.contains(id) {
        let k = ids.index_of(id);
        assert(ids[k] == id);
        assert(entries[k].0 == id);
        if at < k {
            assert(id_rank(ids[at]) < id_rank(ids[k]));
            assert(entries[at].0 == ids[at]);
        }
    }
}

proof fn lemma_entries_listed<V>(entries: Seq<(GlobalId, V)>)
    requires
        ascending(entry_ids(entries)),
    ensures
        lists(entry_ids(entries), entry_map(entries).dom()),
        in_order(entry_map(entries).dom()) == entry_ids(entries),
{
    let ids = entry_ids(entries);
    assert forall|k: int| 0 <= k < ids.len() implies entry_map(entries).dom().contains(
        #[trigger] ids[k],
    ) by {
        assert(ids.contains(ids[k]));
    }
    lemma_in_order(ids, entry_map(entries).dom());
}

impl<V> IdMap<V> {
    #[verifier::type_invariant]
    spec fn sorted(self) -> bool {
        ascending(entry_ids(self.entries@))
    }

    /// The map without entries.
    pub fn new() -> (r: IdMap<V>)
        ensures
            r@ == Map::<GlobalId, V>::empty(),
    {
        let r = IdMap { entries: Vec::new() };
        assert(r@ =~= Map::<GlobalId, V>::empty());
        r
    }

    /// How many entries there are.
    pub fn len(&self) -> (r: usize)
        ensures
            r == in_order(self@.dom()).len(),
    {
        proof {
            use_type_invariant(self);
            lemma_entries_listed(self.entries@);
        }
        self.entries.len()
    }

    /// The identifiers in order.
    pub fn ids(&self) -> (r: Vec<GlobalId>)
        ensures
            r@ == in_order(self@.dom()),
            lists(r@, self@.dom()),
    {
        proof {
            use_type_invariant(self);
            lemma_entries_listed(self.entries@);
        }
        let mut out: Vec<GlobalId> = Vec::new();
        let mut k: usize = 0;
        while k < self.entries.len()
            invariant
                k <= self.entries.len(),
                out.len() == k,
                forall|j: int| 0 <= j < k ==> #[trigger] out@[j] == self.entries@[j].0,
            decreases self.entries.len() - k,
        {
            out.push(self.entries[k].0);
            k += 1;
        }
        assert(out@ =~= entry_ids(self.entries@));
        out
    }

    /// Where an identifier is in the order, or where it would be.
    fn position(&self, id: GlobalId) -> (r: usize)
        ensures
            r <= self.entries.len(),
            forall|k: int| 0 <= k < r ==> id_rank((#[trigger] self.entries@[k]).0) < id_rank(id),
            forall|k: int|
                r <= k < self.entries.len() ==> id_rank(id) <= id_rank((#[trigger] self.entries@[k]).0),
    {
        proof {
            use_type_invariant(self);
        }
        let rank = rank_of(id);
        let mut low: usize = 0;
        let mut high: usize = self.entries.len();
        while low < high
            invariant
                low <= high <= self.entries.len(),
                rank == id_rank(id),
                ascending(entry_ids(self.entries@)),
                forall|k: int|
                    0 <= k < low ==> id_rank((#[trigger] self.entries@[k]).0) < id_rank(id),
                forall|k: int|
                    high <= k < self.entries.len() ==> id_rank(id) <= id_rank(
                        (#[trigger] self.entries@[k]).0,
                    ),
            decreases high - low,
        {
            let mid = low + (high - low) / 2;
            let ghost ids = entry_ids(self.entries@);
            if rank_of(self.entries[mid].0) < rank {
                assert forall|k: int| 0 <= k < mid + 1 implies id_rank((#[trigger] self.entries@[k]).0)
                    < id_rank(id) by {
                    assert(ids[k] == self.entries@[k].0);
                    assert(ids[mid as int] == self.entries@[mid as int].0);
                }
                low = mid + 1;
            } else {
                assert forall|k: int| mid <= k < self.entries.len() implies id_rank(id) <= id_rank(
                    (#[trigger] self.entries@[k]).0,
                ) by {
                    assert(ids[k] == self.entries@[k].0);
                    assert(ids[mid as int] == self.entries@[mid as int].0);
                }
                high = mid;
            }
        }
        low
    }

    /// Whether there is an entry for an identifier.
    pub fn contains(&self, id: GlobalId) -> (r: bool)
        ensures
            r == self@.dom().contains(id),
    {
        self.get(id).is_some()
    }

    /// The value for an identifier.
    pub fn get(&self, id: GlobalId) -> (r: Option<&V>)
        ensures
            match r {
                Some(v) => self@.dom().contains(id) && *v == self@[id],
                None => !self@.dom().contains(id),
            },
    {
        let at = self.position(id);
        if at < self.entries.len() && self.entries[at].0 == id {
            proof {
                use_type_invariant(self);
                lemma_entry(self.entries@, at as int);
            }
            Some(&self.entries[at].1)
        } else {
            proof {
                use_type_invariant(self);
                lemma_absent(self.entries@, id, at as int);
            }
            None
        }
    }

    /// The largest identifier.
    pub fn last_id(&self) -> (r: Option<GlobalId>)
        ensures
            match r {
                Some(id) => in_order(self@.dom()).len() > 0 && id == in_order(self@.dom()).last()
                    && self@.dom().contains(id),
                None => in_order(self@.dom()).len() == 0 && self@ == Map::<GlobalId, V>::empty(),
            },
    {
        proof {
            use_type_invariant(self);
            lemma_entries_listed(self.entries@);
        }
        let n = self.entries.len();
        if n > 0 {
            proof {
                lemma_entry(self.entries@, n - 1);
            }
            Some(self.entries[n - 1].0)
        } else {
            assert(self@ =~= Map::<GlobalId, V>::empty());
            None
        }
    }

    /// Removes the last entry.
    pub fn pop_last(&mut self) -> (r: Option<(GlobalId, V)>)
        ensures
            match r {
                Some((id, v)) => {
                    &&& in_order(old(self)@.dom()).len() > 0
                    &&& id == in_order(old(self)@.dom()).last()
                    &&& old(self)@.dom().contains(id)
                    &&& v == old(self)@[id]
                    &&& final(self)@ == old(self)@.remove(id)
                    &&& in_order(final(self)@.dom()) == in_order(old(self)@.dom()).drop_last()
                },
                None => old(self)@ == Map::<GlobalId, V>::empty() && final(self)@ == old(self)@,
            },
    {
        proof {
            use_type_invariant(&*self);
            lemma_entries_listed(self.entries@);
        }
        let n = self.entries.len();
        if n == 0 {
            assert(self@ =~= Map::<GlobalId, V>::empty());
            return None;
        }
        let ghost before = self.entries@;
        let id = self.entries[n - 1].0;
        let mut entries: Vec<(GlobalId, V)> = Vec::new();
        std::mem::swap(&mut entries, &mut self.entries);
        let (_, v) = entries.remove(n - 1);
        proof {
            lemma_entry(before, n - 1);
            lemma_removed(before, entries@, n - 1);
            lemma_entries_listed(entries@);
            assert(entry_ids(entries@) =~= entry_ids(before).drop_last());
        }
        self.entries = entries;
        Some((id, v))
    }

    /// Removes the entry for an identifier, and returns its value.
    pub fn remove(&mut self, id: GlobalId) -> (r: Option<V>)
        ensures
            final(self)@ == old(self)@.remove(id),
            match r {
                Some(v) => old(self)@.dom().contains(id) && v == old(self)@[id],
                None => !old(self)@.dom().contains(id),
            },
    {
        let at = self.position(id);
        proof {
            use_type_invariant(&*self);
        }
        if at < self.entries.len() && self.entries[at].0 == id {
            let ghost before = self.entries@;
            let mut entries: Vec<(GlobalId, V)> = Vec::new();
            std::mem::swap(&mut entries, &mut self.entries);
            let (_, v) = entries.remove(at);
            proof {
                lemma_entry(before, at as int);
                lemma_removed(before, entries@, at as int);
            }
            self.entries = entries;
            Some(v)
        } else {
            proof {
                lemma_absent(self.entries@, id, at as int);
                assert(self@ =~= self@.remove(id));
            }
            None
        }
    }

    /// Enters a value for an identifier, in place of the one that it had.
    pub fn insert(&mut self, id: GlobalId, v: V)
        ensures
            final(self)@ == old(self)@.insert(id, v),
    {
        self.remove(id);
        let at = self.position(id);
        proof {
            use_type_invariant(&*self);
        }
        let ghost before = self.entries@;
        assert(!entry_ids(before).contains(id)) by {
            assert(!self@.dom().contains(id));
        }
        let mut entries: Vec<(GlobalId, V)> = Vec::new();
        std::mem::swap(&mut entries, &mut self.entries);
        entries.insert(at, (id, v));
        proof {
            lemma_inserted(before, entries@, at as int);
        }
        self.entries = entries;
        assert(self@ =~= old(self)@.insert(id, v));
    }
}

proof fn lemma_removed<V>(before: Seq<(GlobalId, V)>, now: Seq<(GlobalId, V)>, at: int)
    requires
        ascending(entry_ids(before)),
        0 <= at < before.len(),
        now == before.remove(at),
    ensures
        ascending(entry_ids(now)),
        entry_map(now) == entry_map(before).remove(before[at].0),
{
    let ids = entry_ids(before);
    let now_ids = entry_ids(now);
    assert forall|i: int, j: int| 0 <= i < j < now_ids.len() implies id_rank(#[trigger] now_ids[i])
        < id_rank(#[trigger] now_ids[j]) by {
        let i0 = if i < at {
            i
        } else {
            i + 1
        };
        let j0 = if j < at {
            j
        } else {
            j + 1
        };
        assert(ids[i0] == now_ids[i]);
        assert(ids[j0] == now_ids[j]);
    }
    assert forall|id: GlobalId| entry_map(now).dom().contains(id) == #[trigger] entry_map(before).remove(
        before[at].0,
    ).dom().contains(id) by {
        if now_ids.contains(id) {
            let k = now_ids.index_of(id);
            let k0 = if k < at {
                k
            } else {
                k + 1
            };
            assert(now_ids[k] == id);
            assert(ids[k0] == id);
            assert(ids.contains(id));
            assert(ids[at] == before[at].0);
            if k0 < at {
                assert(id_rank(ids[k0]) < id_rank(ids[at]));
            } else {
                assert(id_rank(ids[at]) < id_rank(ids[k0]));
            }
        } else if ids.contains(id) && id != before[at].0 {
            let k0 = ids.index_of(id);
            assert(ids[k0] == id);
            let k = if k0 < at {
                k0
            } else {
                k0 - 1
            };
            assert(now_ids[k] == id);
        }
    }
    assert forall|id: GlobalId| #[trigger] entry_map(now).dom().contains(id) implies entry_map(now)[id]
        == entry_map(before).remove(before[at].0)[id] by {
        let k = now_ids.index_of(id);
        assert(now_ids[k] == id);
        let k0 = if k < at {
            k
        } else {
            k + 1
        };
        lemma_entry(now, k);
        lemma_entry(before, k0);
        assert(entry_map(before).remove(before[at].0).dom().contains(id));
    }
    assert(entry_map(now) =~= entry_map(before).remove(before[at].0));
}

proof fn lemma_inserted<V>(before: Seq<(GlobalId, V)>, now: Seq<(GlobalId, V)>, at: int)
    requires
        ascending(entry_ids(before)),
        0 <= at <= before.len(),
        now.len() == before.len() + 1,
        now == before.insert(at, now[at]),
        !entry_ids(before).contains(now[at].0),
        forall|k: int| 0 <= k < at ==> id_rank((#[trigger] before[k]).0) < id_rank(now[at].0),
        forall|k: int|
            at <= k < before.len() ==> id_rank(now[at].0) <= id_rank((#[trigger] before[k]).0),
    ensures
        ascending(entry_ids(now)),
        entry_map(now) == entry_map(before).insert(now[at].0, now[at].1),
{
    broadcast use lemma_id_rank;

    let ids = entry_ids(before);
    let now_ids = entry_ids(now);
    assert forall|i: int, j: int| 0 <= i < j < now_ids.len() implies id_rank(#[trigger] now_ids[i])
        < id_rank(#[trigger] now_ids[j]) by {
        if i == at {
            assert(ids[j - 1] == now_ids[j]);
            assert(before[j - 1].0 == now_ids[j]);
            assert(ids.contains(ids[j - 1]));
        } else if j == at {
            assert(before[i].0 == now_ids[i]);
        } else {
            let i0 = if i < at {
                i
            } else {
                i - 1
            };
            let j0 = if j < at {
                j
            } else {
                j - 1
            };
            assert(ids[i0] == now_ids[i]);
            assert(ids[j0] == now_ids[j]);
        }
    }
    assert(now.remove(at) =~= before);
    lemma_removed(now, before, at);
    lemma_entry(now, at);
    assert(entry_map(now) =~= entry_map(before).insert(now[at].0, now[at].1));
}

} // verus!
