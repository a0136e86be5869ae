//! From where on a source is resumed.

use vstd::prelude::*;

use crate::storage_client::capabilities::frontiers_view;
use crate::storage_client::frontier::{frontier_le, frontier_meet, Frontier};
use crate::storage_client::id_map::{in_order, lists, IdMap};
use crate::storage_client::ids::GlobalId;

verus! {

/// Holds the last effective upper we want to use for a shard.
///
/// We use the term "effective upper" because we might want to "move the upper backward" so that the
/// shard's upper appears to be the resumption frontier.
#[derive(Debug)]
pub struct UpperState {
    last_upper: Frontier,
}

impl UpperState {
    /// The last effective upper.
    pub closed spec fn upper(self) -> Option<u64> {
        self.last_upper@
    }

    /// A shard of which nothing is known yet.
    pub fn new() -> (r: UpperState)
        ensures
            r.upper() == Some(0u64),
    {
        UpperState { last_upper: Frontier::from_elem(0) }
    }

    /// The last effective upper.
    pub fn last_upper(&self) -> (r: Frontier)
        ensures
            r@ == self.upper(),
    {
        self.last_upper.copy()
    }

    fn at(upper: Frontier) -> (r: UpperState)
        ensures
            r.upper() == upper@,
    {
        UpperState { last_upper: upper }
    }
}

/// The last effective uppers.
pub open spec fn uppers_view(states: Map<GlobalId, UpperState>) -> Map<GlobalId, Option<u64>> {
    Map::new(|id: GlobalId| states.dom().contains(id), |id: GlobalId| states[id].upper())
}

/// Provides convenience method to to efficiently calculate a new _resumption frontier_ from the
/// shards desribed by its `upper_states.
///
/// For details about the resumption frontier calculation logic, see
/// [`Self::calculate_resumption_frontier`]'s implementation.
#[derive(Debug)]
pub struct ResumptionFrontierCalculator {
    initial_frontier: Frontier,
    upper_states: IdMap<UpperState>,
}

/// The earliest of a frontier and the uppers of the first `n` of several shards.
pub open spec fn least_upper(
    initial: Option<u64>,
    uppers: Map<GlobalId, Option<u64>>,
    ids: Seq<GlobalId>,
    n: int,
) -> Option<u64>
    decreases n,
{
    if n <= 0 || n > ids.len() {
        initial
    } else {
        frontier_meet(least_upper(initial, uppers, ids, n - 1), uppers[ids[n - 1]])
    }
}

/// The resumption frontier: the earliest of the initial frontier and all uppers.
pub open spec fn resumption_frontier(initial: Option<u64>, uppers: Map<GlobalId, Option<u64>>) -> Option<u64> {
    let ids = in_order(uppers.dom());
    least_upper(initial, uppers, ids, ids.len() as int)
}

/// Uppers as they are reported: those that were fetched, the others as they were.
pub open spec fn refreshed(uppers: Map<GlobalId, Option<u64>>, fetched: Map<GlobalId, Option<u64>>) -> Map<
    GlobalId,
    Option<u64>,
> {
    Map::new(
        |id: GlobalId| uppers.dom().contains(id),
        |id: GlobalId|
            if fetched.dom().contains(id) {
                fetched[id]
            } else {
                uppers[id]
            },
    )
}

/// Uppers with none beyond a frontier.
pub open spec fn capped(uppers: Map<GlobalId, Option<u64>>, at: Option<u64>) -> Map<GlobalId, Option<u64>> {
    Map::new(|id: GlobalId| uppers.dom().contains(id), |id: GlobalId| frontier_meet(uppers[id], at))
}

/// The resumption frontier is no later than the initial frontier and no later than any upper.
pub proof fn law_resumption_frontier(
    initial: Option<u64>,
    uppers: Map<GlobalId, Option<u64>>,
    id: GlobalId,
)
    requires
        lists(in_order(uppers.dom()), uppers.dom()),
        uppers.dom().contains(id),
    ensures
        frontier_le(resumption_frontier(initial, uppers), initial),
        frontier_le(resumption_frontier(initial, uppers), uppers[id]),
{
    let ids = in_order(uppers.dom());
    assert(ids.contains(id));
    let k = ids.index_of(id);
    assert(ids[k] == id);
    lemma_least_upper(initial, uppers, ids, k, ids.len() as int);
}

proof fn lemma_least_upper(
    initial: Option<u64>,
    uppers: Map<GlobalId, Option<u64>>,
    ids: Seq<GlobalId>,
    k: int,
    n: int,
)
    requires
        0 <= n <= ids.len(),
        0 <= k,
    ensures
        frontier_le(least_upper(initial, uppers, ids, n), initial),
        k < n ==> frontier_le(least_upper(initial, uppers, ids, n), uppers[ids[k]]),
    decreases n,
{
    if n > 0 {
        lemma_least_upper(initial, uppers, ids, k, n - 1);
    }
}

impl ResumptionFrontierCalculator {
    /// The frontier that no resumption frontier exceeds.
    pub closed spec fn initial(self) -> Option<u64> {
        self.initial_frontier@
    }

    /// The last effective uppers.
    pub closed spec fn uppers(self) -> Map<GlobalId, Option<u64>> {
        uppers_view(self.upper_states@)
    }

    /// A calculator for several shards.
    pub fn new(initial_frontier: Frontier, upper_states: IdMap<UpperState>) -> (r: ResumptionFrontierCalculator)
        ensures
            r.initial() == initial_frontier@,
            r.uppers() == uppers_view(upper_states@),
    {
        ResumptionFrontierCalculator { initial_frontier, upper_states }
    }

    /// The shards whose uppers are to be fetched.
    pub fn shards(&self) -> (r: Vec<GlobalId>)
        ensures
            r@ == in_order(self.uppers().dom()),
            lists(r@, self.uppers().dom()),
    {
        assert(self.uppers().dom() =~= self.upper_states@.dom());
        self.upper_states.ids()
    }

    /// Determine the resumption frontier of an ingestion comprised of the shards described by
    /// `upper_states`, given their recent uppers.
    pub fn calculate_resumption_frontier(&mut self, fetched: &IdMap<Frontier>) -> (r: Frontier)
        ensures
            ({
                let uppers = refreshed(old(self).uppers(), frontiers_view(fetched@));
                let resume = resumption_frontier(old(self).initial(), uppers);
                &&& r@ == resume
                &&& final(self).uppers() == capped(uppers, resume)
                &&& final(self).initial() == old(self).initial()
            }),
    {
        let ghost start = self.uppers();
        let ghost got = frontiers_view(fetched@);
        let ghost uppers = refreshed(start, got);
        let ids = self.upper_states.ids();
        assert(start.dom() =~= self.upper_states@.dom());
        assert(uppers.dom() =~= start.dom());
        // Refresh all uppers.
        let mut k: usize = 0;
        let mut resume = self.initial_frontier.copy();
        while k < ids.len()
            invariant
                k <= ids.len(),
                lists(ids@, start.dom()),
                start.dom() == self.upper_states@.dom(),
                got == frontiers_view(fetched@),
                uppers == refreshed(start, got),
                self.initial_frontier == old(self).initial_frontier,
                resume@ == least_upper(old(self).initial(), uppers, ids@, k as int),
                forall|j: int|
                    0 <= j < k ==> self.upper_states@[#[trigger] ids@[j]].upper() == uppers[ids@[j]],
                forall|j: int|
                    k <= j < ids.len() ==> self.upper_states@[#[trigger] ids@[j]].upper()
                        == start[ids@[j]],
            decreases ids.len() - k,
        {
            let id = ids[k];
            assert(start.dom().contains(ids@[k as int]));
            let last = match self.upper_states.get(id) {
                Some(state) => state.last_upper(),
                None => Frontier::new(),
            };
            let upper = match fetched.get(id) {
                Some(f) => f.copy(),
                None => last,
            };
            // The resumption frontier is the min of (the stored initial frontier, all uppers).
            if let Some(t) = upper.time() {
                resume = resume.insert(t);
            }
            let ghost before = self.upper_states@;
            self.upper_states.insert(id, UpperState::at(upper));
            proof {
                assert(self.upper_states@.dom() =~= before.dom());
                assert forall|j: int| 0 <= j < ids.len() && j != k implies self.upper_states@[#[trigger] ids@[j]]
                    == before[ids@[j]] by {
                    lemma_distinct(ids@, j, k as int);
                }
            }
            k += 1;
        }
        // Ensure no upper exceeds the resume upper; however, uppers are permitted to be below it.
        let mut k: usize = 0;
        while k < ids.len()
            invariant
                k <= ids.len(),
                lists(ids@, start.dom()),
                start.dom() == self.upper_states@.dom(),
                uppers.dom() == start.dom(),
                self.initial_frontier == old(self).initial_frontier,
                forall|j: int|
                    0 <= j < k ==> self.upper_states@[#[trigger] ids@[j]].upper() == frontier_meet(
                        uppers[ids@[j]],
                        resume@,
                    ),
                forall|j: int|
                    k <= j < ids.len() ==> self.upper_states@[#[trigger] ids@[j]].upper()
                        == uppers[ids@[j]],
            decreases ids.len() - k,
        {
            let id = ids[k];
            assert(start.dom().contains(ids@[k as int]));
            let last = match self.upper_states.get(id) {
                Some(state) => state.last_upper(),
                None => Frontier::new(),
            };
            let upper = if resume.less_than(&last) {
                resume.copy()
            } else {
                last
            };
            let ghost before = self.upper_states@;
            self.upper_states.insert(id, UpperState::at(upper));
            proof {
                assert(self.upper_states@.dom() =~= before.dom());
                assert forall|j: int| 0 <= j < ids.len() && j != k implies self.upper_states@[#[trigger] ids@[j]]
                    == before[ids@[j]] by {
                    lemma_distinct(ids@, j, k as int);
                }
            }
            k += 1;
        }
        proof {
            let described = capped(uppers, resume@);
            assert forall|id: GlobalId| #[trigger] uppers.dom().contains(id) implies self.uppers()[id]
                == described[id] by {
                assert(ids@.contains(id));
                let j = ids@.index_of(id);
                assert(ids@[j] == id);
            }
            assert(self.uppers() =~= described);
        }
        resume
    }

    /// Get the most recent uppers of the shards used to generate the last resumption frontier.
    pub fn get_uppers(&self) -> (r: IdMap<Frontier>)
        ensures
            frontiers_view(r@) == self.uppers(),
    {
        let mut out: IdMap<Frontier> = IdMap::new();
        let ids = self.upper_states.ids();
        let mut k: usize = 0;
        while k < ids.len()
            invariant
                k <= ids.len(),
                lists(ids@, self.upper_states@.dom()),
                forall|id: GlobalId| #[trigger]
                    out@.dom().contains(id) == ids@.take(k as int).contains(id),
                forall|id: GlobalId| #[trigger]
                    out@.dom().contains(id) ==> out@[id]@ == self.upper_states@[id].upper(),
            decreases ids.len() - k,
        {
            let id = ids[k];
            assert(self.upper_states@.dom().contains(ids@[k as int]));
            if let Some(state) = self.upper_states.get(id) {
                out.insert(id, state.last_upper());
            }
            proof {
                assert forall|other: GlobalId| ids@.take(k + 1).contains(other) == (ids@.take(
                    k as int,
                ).contains(other) || other == id) by {
                    if other == id {
                        assert(ids@.take(k + 1)[k as int] == id);
                    } else if ids@.take(k + 1).contains(other) {
                        let j = ids@.take(k + 1).index_of(other);
                        assert(ids@.take(k as int)[j] == other);
                    } else if ids@.take(k as int).contains(other) {
                        let j = ids@.take(k as int).index_of(other);
                        assert(ids@.take(k + 1)[j] == other);
                    }
                }
            }
            k += 1;
        }
        assert(ids@.take(k as int) =~= ids@);
        assert(frontiers_view(out@) =~= self.uppers());
        out
    }
}

proof fn lemma_distinct(ids: Seq<GlobalId>, j: int, k: int)
    requires
        crate::storage_client::id_map::ascending(ids),
        0 <= j < ids.len(),
        0 <= k < ids.len(),
        j != k,
    ensures
        ids[j] != ids[k],
{
    if j < k {
        assert(crate::storage_client::ids::id_rank(ids[j]) < crate::storage_client::ids::id_rank(ids[k]));
    } else {
        assert(crate::storage_client::ids::id_rank(ids[k]) < crate::storage_client::ids::id_rank(ids[j]));
    }
}

} // verus!
