//! Which times of a collection stay readable.

use vstd::prelude::*;

use crate::storage_client::frontier::{frontier_le, frontier_meet, Frontier};

verus! {

/// How a read capability follows a write frontier.
#[derive(Debug, Copy, Clone, PartialEq, Eq, Structural)]
pub enum Lag {
    /// One step behind.
    StepBack,
    /// Behind by `lag`, rounded down to a multiple of `lag` or of `max_granularity`, whichever
    /// is less.
    WritesBy { lag: u64, max_granularity: u64 },
}

/// Compaction policies for collections.
#[derive(Debug)]
pub enum ReadPolicy {
    /// No-one has yet requested a `ReadPolicy` from us, which means that we can
    /// still change the implied_capability/the collection since if we need
    /// to.
    NoPolicy { initial_since: Frontier },
    /// Maintain the collection as valid from this frontier onward.
    ValidFrom(Frontier),
    /// Maintain the collection as valid from a function of the write frontier.
    LagWriteFrontier(Lag),
    /// Allows one to express multiple read policies, taking the least of
    /// the resulting frontiers.
    Multiple(Vec<ReadPolicy>),
}

/// What a [`ReadPolicy`] stands for.
pub enum PolicyView {
    NoPolicy(Option<u64>),
    ValidFrom(Option<u64>),
    LagWriteFrontier(Lag),
    Multiple(Seq<PolicyView>),
}

/// What a policy stands for.
pub open spec fn policy_view(p: ReadPolicy) -> PolicyView
    decreases p,
{
    match p {
        ReadPolicy::NoPolicy { initial_since } => PolicyView::NoPolicy(initial_since@),
        ReadPolicy::ValidFrom(f) => PolicyView::ValidFrom(f@),
        ReadPolicy::LagWriteFrontier(lag) => PolicyView::LagWriteFrontier(lag),
        ReadPolicy::Multiple(ps) => PolicyView::Multiple(
            Seq::new(
                ps@.len(),
                |k: int|
                    if 0 <= k < ps@.len() {
                        policy_view(ps@[k])
                    } else {
                        PolicyView::NoPolicy(None)
                    },
            ),
        ),
    }
}

impl View for ReadPolicy {
    type V = PolicyView;

    open spec fn view(&self) -> PolicyView {
        policy_view(*self)
    }
}

/// The smaller one of two numbers.
pub open spec fn lesser(a: u64, b: u64) -> u64 {
    if a <= b {
        a
    } else {
        b
    }
}

/// The frontier that follows a write frontier.
pub open spec fn lagged(lag: Lag, upper: Option<u64>) -> Option<u64> {
    match (lag, upper) {
        (_, None) => Some(0),
        (Lag::StepBack, Some(t)) => Some(
            if t == 0 {
                0
            } else {
                (t - 1) as u64
            },
        ),
        (Lag::WritesBy { lag, max_granularity }, Some(t)) => Some(
            if lag == 0 {
                t
            } else {
                let time = if t < lag {
                    0
                } else {
                    t - lag
                };
                (time - time % (lesser(lag, max_granularity) as int)) as u64
            },
        ),
    }
}

/// The earliest of the frontiers that the first `n` policies give.
pub open spec fn least_frontier(policies: Seq<PolicyView>, n: int, upper: Option<u64>) -> Option<u64>
    decreases policies, n,
{
    if n <= 0 || n > policies.len() {
        None
    } else {
        frontier_meet(
            least_frontier(policies, n - 1, upper),
            policy_frontier(policies[n - 1], upper),
        )
    }
}

/// The frontier that a policy gives for a write frontier.
pub open spec fn policy_frontier(p: PolicyView, upper: Option<u64>) -> Option<u64>
    decreases p, 0int,
{
    match p {
        PolicyView::NoPolicy(since) => since,
        PolicyView::ValidFrom(f) => f,
        PolicyView::LagWriteFrontier(lag) => lagged(lag, upper),
        PolicyView::Multiple(ps) => least_frontier(ps, ps.len() as int, upper),
    }
}

/// Whether a way to follow a write frontier divides by zero.
pub open spec fn lag_divides(lag: Lag, upper: Option<u64>) -> bool {
    match lag {
        Lag::WritesBy { lag, max_granularity } => upper is Some && lag != 0 ==> max_granularity != 0,
        Lag::StepBack => true,
    }
}

/// Whether a policy gives a frontier for a write frontier.
pub open spec fn policy_divides(p: PolicyView, upper: Option<u64>) -> bool
    decreases p,
{
    match p {
        PolicyView::LagWriteFrontier(lag) => lag_divides(lag, upper),
        PolicyView::Multiple(ps) => forall|k: int|
            0 <= k < ps.len() ==> policy_divides(#[trigger] ps[k], upper),
        _ => true,
    }
}

impl ReadPolicy {
    /// Creates a read policy that lags the write frontier "by one".
    pub fn step_back() -> (r: ReadPolicy)
        ensures
            r@ == PolicyView::LagWriteFrontier(Lag::StepBack),
    {
        ReadPolicy::LagWriteFrontier(Lag::StepBack)
    }

    /// Creates a read policy that lags the write frontier by the indicated amount, rounded down
    /// to (at most) the specified value. The rounding down is done to reduce the number of
    /// changes the capability undergoes.
    pub fn lag_writes_by(lag: u64, max_granularity: u64) -> (r: ReadPolicy)
        ensures
            r@ == PolicyView::LagWriteFrontier(Lag::WritesBy { lag, max_granularity }),
    {
        ReadPolicy::LagWriteFrontier(Lag::WritesBy { lag, max_granularity })
    }

    /// Whether the policy gives a frontier for a write frontier.
    pub fn applies(&self, write_frontier: &Frontier) -> (r: bool)
        ensures
            r == policy_divides(self@, write_frontier@),
        decreases self,
    {
        match self {
            ReadPolicy::NoPolicy { .. } => true,
            ReadPolicy::ValidFrom(_) => true,
            ReadPolicy::LagWriteFrontier(lag) => match lag {
                Lag::StepBack => true,
                Lag::WritesBy { lag, max_granularity } => write_frontier.is_empty() || *lag == 0
                    || *max_granularity != 0,
            },
            ReadPolicy::Multiple(policies) => {
                let ghost views = policy_view(*self)->Multiple_0;
                let mut k: usize = 0;
                while k < policies.len()
                    invariant
                        k <= policies.len(),
                        *self == ReadPolicy::Multiple(*policies),
                        views == policy_view(*self)->Multiple_0,
                        views.len() == policies.len(),
                        policy_view(*self) is Multiple,
                        forall|j: int|
                            0 <= j < k ==> policy_divides(#[trigger] views[j], write_frontier@),
                    decreases policies.len() - k,
                {
                    assert(decreases_to!(*self => self->Multiple_0));
                    assert(decreases_to!(policies@ => policies@[k as int]));
                    assert(views[k as int] == policies@[k as int]@);
                    if !policies[k].applies(write_frontier) {
                        assert(!policy_divides(views[k as int], write_frontier@));
                        return false;
                    }
                    k += 1;
                }
                true
            },
        }
    }

    /// The frontier that the policy gives for a write frontier.
    pub fn frontier(&self, write_frontier: &Frontier) -> (r: Frontier)
        requires
            policy_divides(self@, write_frontier@),
        ensures
            r@ == policy_frontier(self@, write_frontier@),
        decreases self,
    {
        match self {
            ReadPolicy::NoPolicy { initial_since } => initial_since.copy(),
            ReadPolicy::ValidFrom(frontier) => frontier.copy(),
            ReadPolicy::LagWriteFrontier(lag) => match write_frontier.time() {
                None => Frontier::from_elem(0),
                Some(upper) => match lag {
                    Lag::StepBack => if upper == 0 {
                        Frontier::from_elem(0)
                    } else {
                        Frontier::from_elem(upper - 1)
                    },
                    Lag::WritesBy { lag, max_granularity } => {
                        // Subtract the lag from the time, and then round down to a multiple of
                        // `granularity` to cut chatter.
                        let mut time: u64 = upper;
                        if *lag != 0 {
                            time = time.saturating_sub(*lag);
                            // It makes little sense to refuse to compact if the user genuinely
                            // sets a smaller compaction window than the default, so honor it
                            // here.
                            let granularity: u64 = if *lag <= *max_granularity {
                                *lag
                            } else {
                                *max_granularity
                            };
                            let over: u64 = time % granularity;
                            assert(over <= time) by (nonlinear_arith)
                                requires
                                    over == time % granularity,
                                    granularity > 0,
                            ;
                            time = time.saturating_sub(over);
                        }
                        Frontier::from_elem(time)
                    },
                },
            },
            ReadPolicy::Multiple(policies) => {
                let ghost views = policy_view(*self)->Multiple_0;
                let mut frontier = Frontier::new();
                let mut k: usize = 0;
                while k < policies.len()
                    invariant
                        k <= policies.len(),
                        *self == ReadPolicy::Multiple(*policies),
                        views == policy_view(*self)->Multiple_0,
                        policy_view(*self) is Multiple,
                        views.len() == policies.len(),
                        policy_divides(self@, write_frontier@),
                        frontier@ == least_frontier(views, k as int, write_frontier@),
                    decreases policies.len() - k,
                {
                    assert(decreases_to!(*self => self->Multiple_0));
                    assert(decreases_to!(policies@ => policies@[k as int]));
                    assert(views[k as int] == policies@[k as int]@);
                    let f = policies[k].frontier(write_frontier);
                    if let Some(t) = f.time() {
                        frontier = frontier.insert(t);
                    }
                    k += 1;
                }
                frontier
            },
        }
    }
}

/// A policy that lags by one step gives a frontier that is no later than the write frontier,
/// and at most one step earlier.
pub proof fn law_step_back(upper: u64)
    ensures
        lagged(Lag::StepBack, Some(upper)) matches Some(t) && t <= upper && upper <= t + 1,
{
}

/// A policy that lags by an amount gives a frontier that is earlier than the write frontier
/// by at least that amount, as far as there are times that early, and by less than that amount
/// and the granularity together; it is a multiple of the granularity.
pub proof fn law_lag_writes_by(lag: u64, max_granularity: u64, upper: u64)
    requires
        lag != 0,
        max_granularity != 0,
    ensures
        lagged(Lag::WritesBy { lag, max_granularity }, Some(upper)) matches Some(t) && t <= upper && (t
            + lag <= upper || t == 0) && upper < t + lag + lesser(lag, max_granularity) && t % lesser(
            lag,
            max_granularity,
        ) == 0,
{
    let g = lesser(lag, max_granularity) as int;
    let time: int = if upper < lag {
        0
    } else {
        upper - lag
    };
    assert(0 <= time % g < g && time % g <= time) by (nonlinear_arith)
        requires
            g > 0,
            time >= 0,
    ;
    assert((time - time % g) % g == 0) by (nonlinear_arith)
        requires
            g > 0,
            time >= 0,
    ;
}

/// The least of several policies is no later than any of them.
pub proof fn law_multiple(policies: Seq<PolicyView>, k: int, upper: Option<u64>)
    requires
        0 <= k < policies.len(),
    ensures
        frontier_le(
            policy_frontier(PolicyView::Multiple(policies), upper),
            policy_frontier(policies[k], upper),
        ),
{
    lemma_least(policies, k, policies.len() as int, upper);
}

proof fn lemma_least(policies: Seq<PolicyView>, k: int, n: int, upper: Option<u64>)
    requires
        0 <= k < n <= policies.len(),
    ensures
        frontier_le(least_frontier(policies, n, upper), policy_frontier(policies[k], upper)),
    decreases n,
{
    if k < n - 1 {
        lemma_least(policies, k, n - 1, upper);
    }
}

/// Where the write frontier advances, a policy that follows it does not give an earlier
/// frontier, as long as it does not close.
pub proof fn law_lag_monotone(lag: Lag, earlier: u64, later: u64)
    requires
        earlier <= later,
        lag_divides(lag, Some(earlier)),
    ensures
        frontier_le(lagged(lag, Some(earlier)), lagged(lag, Some(later))),
{
    match lag {
        Lag::StepBack => {},
        Lag::WritesBy { lag, max_granularity } => {
            if lag != 0 {
                let g = lesser(lag, max_granularity) as int;
                let a: int = if earlier < lag {
                    0
                } else {
                    earlier - lag
                };
                let b: int = if later < lag {
                    0
                } else {
                    later - lag
                };
                assert(0 <= a - a % g <= b - b % g <= b) by (nonlinear_arith)
                    requires
                        g > 0,
                        0 <= a <= b,
                ;
            }
        },
    }
}

} // verus!
