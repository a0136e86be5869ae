//! Frontiers: the time from which on something holds.

use vstd::prelude::*;

verus! {

/// A set of mutually incomparable times.
#[verifier::external_type_specification]
#[verifier::external_body]
#[verifier::reject_recursive_types(T)]
pub struct ExAntichain<T>(timely::progress::Antichain<T>);

/// The times of an antichain.
pub uninterp spec fn antichain_times(a: timely::progress::Antichain<u64>) -> Seq<u64>;

/// The times of an antichain once another one is put in: unless some time is no later, it
/// takes the place of all later ones.
pub open spec fn with_time(times: Seq<u64>, t: u64) -> Seq<u64> {
    if exists|k: int| 0 <= k < times.len() && #[trigger] times[k] <= t {
        times
    } else {
        times.filter(|x: u64| !(t <= x)).push(t)
    }
}

/// Whether each of the times `b` is no earlier than one of the times `a`.
pub open spec fn times_le(a: Seq<u64>, b: Seq<u64>) -> bool {
    forall|j: int|
        0 <= j < b.len() ==> exists|i: int| 0 <= i < a.len() && #[trigger] a[i] <= #[trigger] b[j]
}

/// `timely::progress::Antichain::new` has no times.
#[verifier::external_body]
fn antichain_new() -> (r: timely::progress::Antichain<u64>)
    ensures
        antichain_times(r) == Seq::<u64>::empty(),
{
    timely::progress::Antichain::new()
}

/// `timely::progress::Antichain::from_elem` has one time.
#[verifier::external_body]
fn antichain_from_elem(t: u64) -> (r: timely::progress::Antichain<u64>)
    ensures
        antichain_times(r) == seq![t],
{
    timely::progress::Antichain::from_elem(t)
}

/// `timely::progress::Antichain::insert` puts a time in, unless some time is no later, and
/// takes later ones out.
#[verifier::external_body]
fn antichain_insert(a: &mut timely::progress::Antichain<u64>, t: u64)
    ensures
        antichain_times(*final(a)) == with_time(antichain_times(*old(a)), t),
{
    a.insert(t);
}

/// `timely::progress::Antichain::elements` gives the times.
#[verifier::external_body]
fn antichain_elements(a: &timely::progress::Antichain<u64>) -> (r: Vec<u64>)
    ensures
        r@ == antichain_times(*a),
{
    a.elements().to_vec()
}

/// Cloning a `timely::progress::Antichain` keeps its times.
#[verifier::external_body]
fn antichain_clone(a: &timely::progress::Antichain<u64>) -> (r: timely::progress::Antichain<u64>)
    ensures
        antichain_times(r) == antichain_times(*a),
{
    a.clone()
}

/// `timely::order::PartialOrder::less_equal` on antichains: each time of the second is no
/// earlier than one of the first.
#[verifier::external_body]
fn antichain_less_equal(
    a: &timely::progress::Antichain<u64>,
    b: &timely::progress::Antichain<u64>,
) -> (r: bool)
    ensures
        r == times_le(antichain_times(*a), antichain_times(*b)),
{
    timely::order::PartialOrder::less_equal(a, b)
}

/// `timely::order::PartialOrder::less_than` on antichains with one time at most: the order
/// holds and they are not equal.
#[verifier::external_body]
fn antichain_less_than(
    a: &timely::progress::Antichain<u64>,
    b: &timely::progress::Antichain<u64>,
) -> (r: bool)
    requires
        antichain_times(*a).len() <= 1,
        antichain_times(*b).len() <= 1,
    ensures
        r == (times_le(antichain_times(*a), antichain_times(*b)) && antichain_times(*a)
            != antichain_times(*b)),
{
    timely::order::PartialOrder::less_than(a, b)
}

/// `differential_dataflow::lattice::Lattice::join` on antichains with one time at most: the
/// later time, or none if one of them has none.
#[verifier::external_body]
fn antichain_join(
    a: &timely::progress::Antichain<u64>,
    b: &timely::progress::Antichain<u64>,
) -> (r: timely::progress::Antichain<u64>)
    requires
        antichain_times(*a).len() <= 1,
        antichain_times(*b).len() <= 1,
    ensures
        antichain_times(r) == (if antichain_times(*a).len() == 0 || antichain_times(*b).len() == 0 {
            Seq::<u64>::empty()
        } else if antichain_times(*a)[0] <= antichain_times(*b)[0] {
            antichain_times(*b)
        } else {
            antichain_times(*a)
        }),
{
    differential_dataflow::lattice::Lattice::join(a, b)
}

/// A frontier: the first of the times at which something can still happen, or none where
/// nothing can happen any more.
#[derive(Debug)]
pub struct Frontier {
    inner: timely::progress::Antichain<u64>,
}

impl View for Frontier {
    type V = Option<u64>;

    closed spec fn view(&self) -> Option<u64> {
        if antichain_times(self.inner).len() > 0 {
            Some(antichain_times(self.inner)[0])
        } else {
            None
        }
    }
}

/// Whether a frontier is no later than another: the frontier without a time is the last one.
pub open spec fn frontier_le(a: Option<u64>, b: Option<u64>) -> bool {
    match (a, b) {
        (_, None) => true,
        (None, Some(_)) => false,
        (Some(a), Some(b)) => a <= b,
    }
}

/// Whether a frontier is earlier than another.
pub open spec fn frontier_lt(a: Option<u64>, b: Option<u64>) -> bool {
    frontier_le(a, b) && a != b
}

/// The later one of two frontiers.
pub open spec fn frontier_join(a: Option<u64>, b: Option<u64>) -> Option<u64> {
    if frontier_le(a, b) {
        b
    } else {
        a
    }
}

/// The earlier one of two frontiers.
pub open spec fn frontier_meet(a: Option<u64>, b: Option<u64>) -> Option<u64> {
    if frontier_le(a, b) {
        a
    } else {
        b
    }
}

proof fn lemma_one_time(times: Seq<u64>, t: u64)
    requires
        times.len() <= 1,
    ensures
        with_time(times, t).len() == 1,
        with_time(times, t)[0] == (if times.len() == 1 && times[0] <= t {
            times[0]
        } else {
            t
        }),
{
    if times.len() == 1 && times[0] > t {
        let keep = |x: u64| !(t <= x);
        assert(times.drop_last() =~= Seq::<u64>::empty());
        reveal_with_fuel(Seq::filter, 2);
        assert(times.filter(keep) =~= Seq::<u64>::empty());
    } else if times.len() == 0 {
        reveal_with_fuel(Seq::filter, 1);
        assert(times.filter(|x: u64| !(t <= x)) =~= Seq::<u64>::empty());
    }
}

impl Frontier {
    #[verifier::type_invariant]
    spec fn single(self) -> bool {
        antichain_times(self.inner).len() <= 1
    }

    /// The frontier without a time.
    pub fn new() -> (r: Frontier)
        ensures
            r@ == None::<u64>,
    {
        Frontier { inner: antichain_new() }
    }

    /// The frontier at a time.
    pub fn from_elem(t: u64) -> (r: Frontier)
        ensures
            r@ == Some(t),
    {
        Frontier { inner: antichain_from_elem(t) }
    }

    /// The frontier's time.
    pub fn time(&self) -> (r: Option<u64>)
        ensures
            r == self@,
    {
        let times = antichain_elements(&self.inner);
        if times.len() > 0 {
            Some(times[0])
        } else {
            None
        }
    }

    /// Whether the frontier has no time.
    pub fn is_empty(&self) -> (r: bool)
        ensures
            r == (self@ is None),
    {
        self.time().is_none()
    }

    /// The same frontier.
    pub fn copy(&self) -> (r: Frontier)
        ensures
            r@ == self@,
    {
        proof {
            use_type_invariant(self);
        }
        Frontier { inner: antichain_clone(&self.inner) }
    }

    /// The frontier with a time put in: the earlier of the two.
    pub fn insert(self, t: u64) -> (r: Frontier)
        ensures
            r@ == frontier_meet(self@, Some(t)),
    {
        proof {
            use_type_invariant(&self);
            lemma_one_time(antichain_times(self.inner), t);
        }
        let mut inner = self.inner;
        antichain_insert(&mut inner, t);
        Frontier { inner }
    }

    /// Whether the frontier is no later than another.
    pub fn less_equal(&self, other: &Frontier) -> (r: bool)
        ensures
            r == frontier_le(self@, other@),
    {
        proof {
            use_type_invariant(self);
            use_type_invariant(other);
            lemma_times_le(antichain_times(self.inner), antichain_times(other.inner));
        }
        antichain_less_equal(&self.inner, &other.inner)
    }

    /// Whether the frontier is earlier than another.
    pub fn less_than(&self, other: &Frontier) -> (r: bool)
        ensures
            r == frontier_lt(self@, other@),
    {
        proof {
            use_type_invariant(self);
            use_type_invariant(other);
            let a = antichain_times(self.inner);
            let b = antichain_times(other.inner);
            lemma_times_le(a, b);
            if self@ == other@ {
                assert(a =~= b);
            }
        }
        antichain_less_than(&self.inner, &other.inner)
    }

    /// The later one of two frontiers.
    pub fn join(&self, other: &Frontier) -> (r: Frontier)
        ensures
            r@ == frontier_join(self@, other@),
    {
        proof {
            use_type_invariant(self);
            use_type_invariant(other);
        }
        Frontier { inner: antichain_join(&self.inner, &other.inner) }
    }

    /// Whether two frontiers are the same.
    pub fn same(&self, other: &Frontier) -> (r: bool)
        ensures
            r == (self@ == other@),
    {
        self.less_equal(other) && other.less_equal(self)
    }
}

proof fn lemma_times_le(a: Seq<u64>, b: Seq<u64>)
    requires
        a.len() <= 1,
        b.len() <= 1,
    ensures
        times_le(a, b) == (b.len() == 0 || (a.len() == 1 && a[0] <= b[0])),
{
    if b.len() == 1 && a.len() == 1 && a[0] <= b[0] {
        assert forall|j: int| 0 <= j < b.len() implies exists|i: int|
            0 <= i < a.len() && #[trigger] a[i] <= #[trigger] b[j] by {
            assert(a[0] <= b[j]);
        }
    } else if b.len() == 1 && times_le(a, b) {
        let i = choose|i: int| 0 <= i < a.len() && #[trigger] a[i] <= #[trigger] b[0];
        assert(a[i] <= b[0]);
    }
}

} // verus!
