//! Counting what holds a collection back, time by time.

use vstd::prelude::*;

verus! {

/// Counts per time, all zero.
pub open spec fn no_counts() -> Map<u64, int> {
    Map::new(|t: u64| true, |t: u64| 0int)
}

/// Counts per time: `n` at one time, zero at all others.
pub open spec fn count_at(at: u64, n: int) -> Map<u64, int> {
    Map::new(
        |t: u64| true,
        |t: u64|
            if t == at {
                n
            } else {
                0
            },
    )
}

/// The sums of two counts, time by time.
pub open spec fn plus(a: Map<u64, int>, b: Map<u64, int>) -> Map<u64, int> {
    Map::new(|t: u64| true, |t: u64| a[t] + b[t])
}

/// The differences of two counts, time by time.
pub open spec fn minus(a: Map<u64, int>, b: Map<u64, int>) -> Map<u64, int> {
    Map::new(|t: u64| true, |t: u64| a[t] - b[t])
}

/// Whether all counts are zero.
pub open spec fn is_zero(a: Map<u64, int>) -> bool {
    forall|t: u64| #[trigger] a[t] == 0
}

/// Whether there is a count for each time.
pub open spec fn is_total(a: Map<u64, int>) -> bool {
    forall|t: u64| #[trigger] a.dom().contains(t)
}

/// The counts that a list of changes adds up to.
pub open spec fn listed(changes: Seq<(u64, i64)>) -> Map<u64, int>
    decreases changes.len(),
{
    if changes.len() == 0 {
        no_counts()
    } else {
        plus(listed(changes.drop_last()), count_at(changes.last().0, changes.last().1 as int))
    }
}

/// Whether all counts are 64-bit numbers.
pub open spec fn fits(counts: Map<u64, int>) -> bool {
    forall|t: u64| i64::MIN <= #[trigger] counts[t] <= i64::MAX
}

/// Whether a list has one change for each time with one, none of them zero, in the order of
/// time.
pub open spec fn is_compact(changes: Seq<(u64, i64)>) -> bool {
    &&& forall|i: int, j: int|
        0 <= i < j < changes.len() ==> (#[trigger] changes[i]).0 < (#[trigger] changes[j]).0
    &&& forall|k: int| 0 <= k < changes.len() ==> (#[trigger] changes[k]).1 != 0
}

/// Whether a time is the first one with a positive count.
pub open spec fn is_first(counts: Map<u64, int>, t: u64) -> bool {
    counts[t] > 0 && forall|s: u64| #[trigger] counts[s] > 0 ==> t <= s
}

/// The first time with a positive count.
pub open spec fn first_time(counts: Map<u64, int>) -> Option<u64> {
    if exists|t: u64| #[trigger] counts[t] > 0 {
        Some(choose|t: u64| is_first(counts, t))
    } else {
        None
    }
}

/// One hold at a frontier.
pub open spec fn hold_at(f: Option<u64>) -> Map<u64, int> {
    match f {
        Some(t) => count_at(t, 1),
        None => no_counts(),
    }
}

/// How holds change where a frontier moves.
pub open spec fn moved_hold(from: Option<u64>, to: Option<u64>) -> Map<u64, int> {
    minus(hold_at(to), hold_at(from))
}

/// There is a first time with a positive count if there is one at all.
pub proof fn lemma_first_time(counts: Map<u64, int>)
    ensures
        match first_time(counts) {
            Some(t) => is_first(counts, t),
            None => forall|t: u64| #[trigger] counts[t] <= 0,
        },
{
    if exists|t: u64| #[trigger] counts[t] > 0 {
        let t = choose|t: u64| #[trigger] counts[t] > 0;
        lemma_first_below(counts, t);
    }
}

proof fn lemma_first_below(counts: Map<u64, int>, t: u64)
    requires
        counts[t] > 0,
    ensures
        exists|s: u64| is_first(counts, s),
    decreases t,
{
    if exists|s: u64| s < t && #[trigger] counts[s] > 0 {
        let s = choose|s: u64| s < t && #[trigger] counts[s] > 0;
        lemma_first_below(counts, s);
    } else {
        assert(is_first(counts, t));
    }
}

/// A time that is first is the first time.
pub proof fn lemma_is_first(counts: Map<u64, int>, t: u64)
    requires
        is_first(counts, t),
    ensures
        first_time(counts) == Some(t),
{
    lemma_first_time(counts);
    let s = first_time(counts)->0;
    assert(counts[s] > 0);
    assert(counts[t] > 0);
}

/// The counts of a list at a time.
pub proof fn lemma_listed_at(changes: Seq<(u64, i64)>, t: u64)
    requires
        is_compact(changes),
    ensures
        forall|k: int|
            0 <= k < changes.len() && (#[trigger] changes[k]).0 == t ==> listed(changes)[t]
                == changes[k].1,
        (forall|k: int| 0 <= k < changes.len() ==> (#[trigger] changes[k]).0 != t) ==> listed(changes)[t]
            == 0,
    decreases changes.len(),
{
    if changes.len() > 0 {
        let rest = changes.drop_last();
        assert(is_compact(rest)) by {
            assert forall|k: int| 0 <= k < rest.len() implies (#[trigger] rest[k]).1 != 0 by {
                assert(rest[k] == changes[k]);
            }
            assert forall|i: int, j: int| 0 <= i < j < rest.len() implies (#[trigger] rest[i]).0 < (
            #[trigger] rest[j]).0 by {
                assert(rest[i] == changes[i]);
                assert(rest[j] == changes[j]);
            }
        }
        lemma_listed_at(rest, t);
        assert forall|k: int| 0 <= k < changes.len() && (#[trigger] changes[k]).0 == t implies listed(
            changes,
        )[t] == changes[k].1 by {
            if k < rest.len() {
                assert(rest[k] == changes[k]);
                assert(changes[k].0 < changes.last().0);
            } else {
                assert forall|j: int| 0 <= j < rest.len() implies (#[trigger] rest[j]).0 != t by {
                    assert(rest[j] == changes[j]);
                }
            }
        }
        if forall|k: int| 0 <= k < changes.len() ==> (#[trigger] changes[k]).0 != t {
            assert forall|j: int| 0 <= j < rest.len() implies (#[trigger] rest[j]).0 != t by {
                assert(rest[j] == changes[j]);
            }
            assert(changes.last().0 != t);
        }
    }
}

/// A collection of changes.
#[verifier::external_type_specification]
#[verifier::external_body]
#[verifier::reject_recursive_types(T)]
pub struct ExChangeBatch<T>(timely::progress::ChangeBatch<T>);

/// The counts that a batch of changes adds up to.
pub uninterp spec fn batch_counts(b: timely::progress::ChangeBatch<u64>) -> Map<u64, int>;

/// Whether the changes that a batch was made of, none of them zero, add up to 64-bit numbers
/// time by time, however far one goes in the order in which they came.
pub uninterp spec fn batch_sound(b: timely::progress::ChangeBatch<u64>) -> bool;

/// `timely::progress::ChangeBatch::new` has no changes.
#[verifier::external_body]
fn batch_new() -> (r: timely::progress::ChangeBatch<u64>)
    ensures
        batch_counts(r) == no_counts(),
        batch_sound(r),
{
    timely::progress::ChangeBatch::new()
}

/// `timely::progress::ChangeBatch::update` adds a change. The sums that it computes are those of
/// the changes at one time, in the order in which they came.
#[verifier::external_body]
fn batch_update(b: &mut timely::progress::ChangeBatch<u64>, t: u64, n: i64)
    requires
        batch_sound(*old(b)),
        n != 0,
        i64::MIN <= batch_counts(*old(b))[t] + n <= i64::MAX,
    ensures
        batch_counts(*final(b)) == plus(batch_counts(*old(b)), count_at(t, n as int)),
        batch_sound(*final(b)),
{
    b.update(t, n);
}

/// `timely::progress::ChangeBatch::is_empty` tells whether the changes cancel out.
#[verifier::external_body]
fn batch_is_empty(b: &mut timely::progress::ChangeBatch<u64>) -> (r: bool)
    requires
        batch_sound(*old(b)),
    ensures
        r == is_zero(batch_counts(*old(b))),
        batch_counts(*final(b)) == batch_counts(*old(b)),
        batch_sound(*final(b)),
{
    b.is_empty()
}

/// `timely::progress::ChangeBatch::iter` gives one change for each time with one, in the order
/// of time.
#[verifier::external_body]
fn batch_iter(b: &mut timely::progress::ChangeBatch<u64>) -> (r: Vec<(u64, i64)>)
    requires
        batch_sound(*old(b)),
    ensures
        is_compact(r@),
        listed(r@) == batch_counts(*old(b)),
        batch_counts(*final(b)) == batch_counts(*old(b)),
        batch_sound(*final(b)),
{
    b.iter().copied().collect()
}

/// Counts per time.
#[verifier::ext_equal]
pub struct Batch {
    pub counts: Map<u64, int>,
}

/// No counts.
pub open spec fn empty_batch() -> Batch {
    Batch { counts: no_counts() }
}

/// Counts with others added to them.
pub open spec fn grown(b: Batch, counts: Map<u64, int>) -> Batch {
    Batch { counts: plus(b.counts, counts) }
}

/// A collection of changes to counts.
#[derive(Debug)]
pub struct Changes {
    inner: timely::progress::ChangeBatch<u64>,
}

impl View for Changes {
    type V = Batch;

    closed spec fn view(&self) -> Batch {
        Batch { counts: batch_counts(self.inner) }
    }
}

/// The change at a time that is listed.
fn change_at(list: &Vec<(u64, i64)>, t: u64) -> (r: i64)
    requires
        is_compact(list@),
    ensures
        r == listed(list@)[t],
{
    proof {
        lemma_listed_at(list@, t);
    }
    let mut k: usize = 0;
    while k < list.len()
        invariant
            k <= list.len(),
            forall|j: int| 0 <= j < k ==> (#[trigger] list@[j]).0 != t,
            forall|j: int|
                0 <= j < list.len() && (#[trigger] list@[j]).0 == t ==> listed(list@)[t] == list@[j].1,
        decreases list.len() - k,
    {
        if list[k].0 == t {
            return list[k].1;
        }
        k += 1;
    }
    0
}

proof fn lemma_compact_part(list: Seq<(u64, i64)>, k: int)
    requires
        is_compact(list),
        0 <= k <= list.len(),
    ensures
        is_compact(list.take(k)),
{
    let part = list.take(k);
    assert forall|j: int| 0 <= j < part.len() implies (#[trigger] part[j]).1 != 0 by {
        assert(part[j] == list[j]);
    }
    assert forall|i: int, j: int| 0 <= i < j < part.len() implies (#[trigger] part[i]).0 < (
    #[trigger] part[j]).0 by {
        assert(part[i] == list[i] && part[j] == list[j]);
    }
}

impl Changes {
    #[verifier::type_invariant]
    spec fn bounded(self) -> bool {
        batch_sound(self.inner) && is_total(batch_counts(self.inner)) && fits(batch_counts(self.inner))
    }

    /// No changes.
    pub fn new() -> (r: Changes)
        ensures
            r@ == empty_batch(),
    {
        Changes { inner: batch_new() }
    }

    /// The changes with those of a list, if all counts are then 64-bit numbers.
    pub fn extend(self, list: &Vec<(u64, i64)>) -> (r: Option<Changes>)
        requires
            is_compact(list@),
        ensures
            match r {
                Some(c) => c@ == grown(self@, listed(list@)) && fits(c@.counts),
                None => !fits(grown(self@, listed(list@)).counts),
            },
    {
        proof {
            use_type_invariant(&self);
        }
        let ghost before = batch_counts(self.inner);
        let mut inner = self.inner;
        let have = batch_iter(&mut inner);
        let mut k: usize = 0;
        proof {
            assert(list@.take(0) =~= Seq::empty());
            assert(plus(before, listed(list@.take(0))) =~= before);
        }
        while k < list.len()
            invariant
                k <= list.len(),
                is_compact(list@),
                is_compact(have@),
                listed(have@) == before,
                before == self@.counts,
                batch_counts(inner) == plus(before, listed(list@.take(k as int))),
                batch_sound(inner),
                fits(batch_counts(inner)),
            decreases list.len() - k,
        {
            let (t, n) = list[k];
            let ghost done = list@.take(k as int);
            proof {
                lemma_compact_part(list@, k as int);
                lemma_listed_at(done, t);
                assert forall|j: int| 0 <= j < done.len() implies (#[trigger] done[j]).0 != t by {
                    assert(list@[j].0 < list@[k as int].0);
                }
                lemma_listed_at(list@, t);
                assert(list@[k as int].0 == t);
                assert(list@[k as int].1 != 0);
                assert(list@.take(k + 1).drop_last() =~= done);
                assert(list@.take(k + 1).last() == (t, n));
            }
            let sum: i128 = change_at(&have, t) as i128 + n as i128;
            if sum > i64::MAX as i128 || sum < i64::MIN as i128 {
                assert(!fits(grown(self@, listed(list@)).counts)) by {
                    assert(grown(self@, listed(list@)).counts[t] == sum);
                }
                return None;
            }
            batch_update(&mut inner, t, n);
            proof {
                assert(batch_counts(inner) =~= plus(before, listed(list@.take(k + 1))));
                assert forall|x: u64| i64::MIN <= #[trigger] batch_counts(inner)[x] <= i64::MAX by {
                    assert(i64::MIN <= plus(before, listed(done))[x] <= i64::MAX);
                }
            }
            k += 1;
        }
        assert(list@.take(k as int) =~= list@);
        Some(Changes { inner })
    }

    /// Whether the changes cancel out, and the changes.
    pub fn is_empty(self) -> (r: (Changes, bool))
        ensures
            r.0@ == self@,
            r.1 == is_zero(self@.counts),
    {
        proof {
            use_type_invariant(&self);
        }
        let mut inner = self.inner;
        let empty = batch_is_empty(&mut inner);
        (Changes { inner }, empty)
    }

    /// One change for each time with one, in the order of time.
    pub fn into_list(self) -> (r: Vec<(u64, i64)>)
        ensures
            is_compact(r@),
            listed(r@) == self@.counts,
            fits(self@.counts),
    {
        proof {
            use_type_invariant(&self);
        }
        let mut inner = self.inner;
        batch_iter(&mut inner)
    }
}

/// An antichain based on counts, to which whole lists of changes are applied.
#[verifier::external_body]
#[derive(Debug)]
pub struct CountedTimes {
    inner: timely::progress::frontier::MutableAntichain<u64>,
}

/// The counts of such an antichain.
pub uninterp spec fn mutable_counts(m: CountedTimes) -> Map<u64, int>;

/// Whether the changes that the antichain was made of add up to 64-bit numbers time by time,
/// however far one goes in the order in which they came.
pub uninterp spec fn mutable_sound(m: CountedTimes) -> bool;

/// `timely::progress::frontier::MutableAntichain::new` has no counts.
#[verifier::external_body]
fn mutable_new() -> (r: CountedTimes)
    ensures
        mutable_counts(r) == no_counts(),
        mutable_sound(r),
{
    CountedTimes { inner: timely::progress::frontier::MutableAntichain::new() }
}

/// `timely::progress::frontier::MutableAntichain::update_iter` adds changes to the counts, and
/// tells how the first time with a positive count moves. The sums that it computes are those of
/// the changes at one time, in the order in which they came.
#[verifier::external_body]
fn mutable_update(
    m: &mut CountedTimes,
    changes: Vec<(u64, i64)>,
) -> (r: Vec<(u64, i64)>)
    requires
        mutable_sound(*old(m)),
        is_compact(changes@),
        fits(plus(mutable_counts(*old(m)), listed(changes@))),
    ensures
        mutable_counts(*final(m)) == plus(mutable_counts(*old(m)), listed(changes@)),
        mutable_sound(*final(m)),
        is_compact(r@),
        listed(r@) == moved_hold(
            first_time(mutable_counts(*old(m))),
            first_time(mutable_counts(*final(m))),
        ),
{
    m.inner.update_iter(changes).collect()
}

/// `timely::progress::frontier::MutableAntichain::frontier` is the first time with a positive
/// count.
#[verifier::external_body]
fn mutable_frontier(m: &CountedTimes) -> (r: Option<u64>)
    ensures
        r == first_time(mutable_counts(*m)),
{
    m.inner.frontier().first().copied()
}

/// `timely::progress::frontier::MutableAntichain::count_for` is the count at a time.
#[verifier::external_body]
fn mutable_count_for(m: &CountedTimes, t: u64) -> (r: i64)
    requires
        mutable_sound(*m),
    ensures
        r == mutable_counts(*m)[t],
{
    m.inner.count_for(&t)
}

/// The read capabilities of a collection: how many there are for each time.
#[derive(Debug)]
pub struct ReadCapabilities {
    inner: CountedTimes,
}

impl View for ReadCapabilities {
    type V = Batch;

    closed spec fn view(&self) -> Batch {
        Batch { counts: mutable_counts(self.inner) }
    }
}

impl ReadCapabilities {
    #[verifier::type_invariant]
    spec fn bounded(self) -> bool {
        mutable_sound(self.inner) && fits(mutable_counts(self.inner))
    }

    /// No capabilities.
    pub fn new() -> (r: ReadCapabilities)
        ensures
            r@ == empty_batch(),
    {
        ReadCapabilities { inner: mutable_new() }
    }

    /// Whether all counts are 64-bit numbers once changes are applied.
    pub fn has_room(&self, list: &Vec<(u64, i64)>) -> (r: bool)
        requires
            is_compact(list@),
        ensures
            r == fits(grown(self@, listed(list@)).counts),
    {
        proof {
            use_type_invariant(self);
        }
        let ghost now = grown(self@, listed(list@)).counts;
        let mut k: usize = 0;
        while k < list.len()
            invariant
                k <= list.len(),
                is_compact(list@),
                now == grown(self@, listed(list@)).counts,
                forall|j: int|
                    0 <= j < k ==> i64::MIN <= now[(#[trigger] list@[j]).0] <= i64::MAX,
            decreases list.len() - k,
        {
            let (t, n) = list[k];
            proof {
                lemma_listed_at(list@, t);
                assert(list@[k as int].0 == t);
            }
            let sum: i128 = self.count_for(t) as i128 + n as i128;
            assert(now[t] == sum);
            if sum > i64::MAX as i128 || sum < i64::MIN as i128 {
                return false;
            }
            k += 1;
        }
        assert forall|t: u64| i64::MIN <= #[trigger] now[t] <= i64::MAX by {
            lemma_listed_at(list@, t);
            if exists|j: int| 0 <= j < list@.len() && (#[trigger] list@[j]).0 == t {
                let j = choose|j: int| 0 <= j < list@.len() && (#[trigger] list@[j]).0 == t;
                assert(i64::MIN <= now[list@[j].0] <= i64::MAX);
            } else {
                assert(i64::MIN <= mutable_counts(self.inner)[t] <= i64::MAX);
            }
        }
        true
    }

    /// The first time at which there is a capability.
    pub fn frontier(&self) -> (r: Option<u64>)
        ensures
            r == first_time(self@.counts),
    {
        mutable_frontier(&self.inner)
    }

    /// How many capabilities there are at a time.
    pub fn count_for(&self, t: u64) -> (r: i64)
        ensures
            r == self@.counts[t],
    {
        proof {
            use_type_invariant(self);
        }
        mutable_count_for(&self.inner, t)
    }

    /// The capabilities after changes, and how the first time at which there is one moves.
    pub fn update(self, changes: Vec<(u64, i64)>) -> (r: (ReadCapabilities, Vec<(u64, i64)>))
        requires
            is_compact(changes@),
            fits(grown(self@, listed(changes@)).counts),
        ensures
            r.0@ == grown(self@, listed(changes@)),
            is_compact(r.1@),
            listed(r.1@) == moved_hold(first_time(self@.counts), first_time(r.0@.counts)),
    {
        proof {
            use_type_invariant(&self);
        }
        let mut inner = self.inner;
        let moved = mutable_update(&mut inner, changes);
        (ReadCapabilities { inner }, moved)
    }
}

} // verus!
