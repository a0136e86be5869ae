//! Keeping the controller's own records in order.

use vstd::prelude::*;

use crate::storage_client::controller::{StateView, StorageControllerState};
use crate::storage_client::id_map::in_order;
use crate::storage_client::ids::{id_text, shard_text, GlobalId};
use crate::storage_client::types::{same_bytes, IntrospectionType};

verus! {

// Shard mappings.

/// A row that tells which shard a collection has, and whether it is entered or taken out.
#[derive(Debug)]
pub struct MappingUpdate {
    pub global_id: String,
    pub shard_id: String,
    pub diff: i64,
}

/// Rows themselves.
pub open spec fn mappings_view(rows: Seq<MappingUpdate>) -> Seq<(Seq<char>, Seq<char>, i64)> {
    Seq::new(rows.len(), |k: int| (rows[k].global_id@, rows[k].shard_id@, rows[k].diff))
}

/// The rows for several collections.
pub open spec fn mappings_for(s: StateView, ids: Seq<GlobalId>, diff: i64) -> Seq<(Seq<char>, Seq<char>, i64)> {
    Seq::new(
        ids.len(),
        |k: int|
            (
                id_text(ids[k]),
                shard_text(s.collections[ids[k]].collection_metadata.data_shard),
                diff,
            ),
    )
}

/// Those of several collections that were not dropped.
pub open spec fn not_dropped(s: StateView, ids: Seq<GlobalId>) -> Seq<GlobalId>
    decreases ids.len(),
{
    if ids.len() == 0 {
        Seq::empty()
    } else if s.collections[ids.last()].dropped {
        not_dropped(s, ids.drop_last())
    } else {
        not_dropped(s, ids.drop_last()).push(ids.last())
    }
}

/// The time before a frontier, at which the contents of a collection are to be read: none if
/// the collection is closed or has no contents yet.
pub open spec fn truncation_time(upper: Option<u64>) -> Option<u64> {
    match upper {
        Some(t) if t > 0 => Some((t - 1) as u64),
        _ => None,
    }
}

impl StorageControllerState {
    fn mappings(&self, ids: &Vec<GlobalId>, diff: i64) -> (r: Vec<MappingUpdate>)
        requires
            forall|k: int|
                0 <= k < ids.len() ==> self@.collections.dom().contains(#[trigger] ids@[k]),
        ensures
            mappings_view(r@) == mappings_for(self@, ids@, diff),
    {
        let mut out: Vec<MappingUpdate> = Vec::new();
        let mut k: usize = 0;
        while k < ids.len()
            invariant
                k <= ids.len(),
                out.len() == k,
                forall|k: int|
                    0 <= k < ids.len() ==> self@.collections.dom().contains(#[trigger] ids@[k]),
                forall|j: int|
                    0 <= j < k ==> mappings_view(out@)[j] == #[trigger] mappings_for(
                        self@,
                        ids@,
                        diff,
                    )[j],
            decreases ids.len() - k,
        {
            let id = ids[k];
            assert(self@.collections.dom().contains(ids@[k as int]));
            let ghost had = mappings_view(out@);
            if let Some(c) = self.collections.get(id) {
                let row = MappingUpdate {
                    global_id: id.to_text(),
                    shard_id: c.collection_metadata.data_shard.to_text(),
                    diff,
                };
                out.push(row);
                assert(mappings_view(out@) =~= had.push((row.global_id@, row.shard_id@, row.diff)));
            }
            k += 1;
        }
        assert(mappings_view(out@) =~= mappings_for(self@, ids@, diff));
        out
    }

    /// The rows that tell which shards collections have, and the collection that they are
    /// appended to. Use a `diff` of 1 to append a new entry; -1 to retract an existing
    /// entry.
    ///
    /// However, data is written iff we know of the `GlobalId` of the
    /// `IntrospectionType::ShardMapping` collection; in other cases, data is
    /// dropped on the floor. In these cases, the data is later written by
    /// [`Self::initialize_shard_mapping`].
    pub fn append_shard_mappings(&self, global_ids: &Vec<GlobalId>, diff: i64) -> (r: Option<
        (GlobalId, Vec<MappingUpdate>),
    >)
        requires
            diff == 1 || diff == -1,
            self@.introspection_ids.shard_mapping is Some ==> forall|k: int|
                0 <= k < global_ids.len() ==> self@.collections.dom().contains(
                    #[trigger] global_ids@[k],
                ),
        ensures
            match self@.introspection_ids.shard_mapping {
                None => r is None,
                Some(id) => r matches Some((to, rows)) && to == id && mappings_view(rows@)
                    == mappings_for(self@, global_ids@, diff),
            },
    {
        match self.introspection_ids.get(IntrospectionType::ShardMapping) {
            Some(id) => Some((id, self.mappings(global_ids, diff))),
            None => None,
        }
    }

    /// The rows that tell which shards all collections have that were not dropped. Necessary
    /// because we cannot write any of these mappings that we discover before the shard mapping
    /// collection exists.
    pub fn initialize_shard_mapping(&self) -> (r: Vec<MappingUpdate>)
        ensures
            mappings_view(r@) == mappings_for(
                self@,
                not_dropped(self@, in_order(self@.collections.dom())),
                1,
            ),
    {
        let ids = self.collections.ids();
        assert(self@.collections.dom() =~= self.collections@.dom());
        let mut live: Vec<GlobalId> = Vec::new();
        let mut k: usize = 0;
        assert(ids@.take(0) =~= Seq::empty());
        while k < ids.len()
            invariant
                k <= ids.len(),
                live@ == not_dropped(self@, ids@.take(k as int)),
                forall|j: int|
                    0 <= j < ids.len() ==> self@.collections.dom().contains(#[trigger] ids@[j]),
                forall|j: int|
                    0 <= j < live.len() ==> self@.collections.dom().contains(#[trigger] live@[j]),
            decreases ids.len() - k,
        {
            assert(self@.collections.dom().contains(ids@[k as int]));
            assert(ids@.take(k + 1).drop_last() =~= ids@.take(k as int));
            if let Some(c) = self.collections.get(ids[k]) {
                if !c.dropped {
                    live.push(ids[k]);
                }
            }
            k += 1;
        }
        assert(ids@.take(k as int) =~= ids@);
        self.mappings(&live, 1)
    }

    /// The time at which the contents of a collection are to be read before it is truncated.
    pub fn truncation_time_of(&self, id: GlobalId) -> (r: Option<u64>)
        requires
            self@.collections.dom().contains(id),
        ensures
            r == truncation_time(self@.collections[id].write_frontier),
    {
        match self.collections.get(id) {
            Some(c) => match c.write_frontier.time() {
                Some(t) => if t > 0 {
                    Some(t - 1)
                } else {
                    None
                },
                None => None,
            },
            None => None,
        }
    }
}

// Managed collections.

/// A row, in its encoded form, and how often it is entered or taken out.
#[derive(Debug)]
pub struct RowUpdate {
    pub row: Vec<u8>,
    pub diff: i64,
}

/// Rows themselves.
pub open spec fn rows_view(rows: Seq<RowUpdate>) -> Seq<(Seq<u8>, i64)> {
    Seq::new(rows.len(), |k: int| (rows[k].row@, rows[k].diff))
}

/// How often a row is entered by updates, less how often it is taken out.
pub open spec fn row_count(rows: Seq<(Seq<u8>, i64)>, row: Seq<u8>) -> int
    decreases rows.len(),
{
    if rows.len() == 0 {
        0
    } else {
        row_count(rows.drop_last(), row) + if rows.last().0 == row {
            rows.last().1 as int
        } else {
            0
        }
    }
}

/// Whether updates have one entry for each row with one, none of them zero.
pub open spec fn is_consolidated(rows: Seq<(Seq<u8>, i64)>) -> bool {
    &&& forall|i: int, j: int|
        0 <= i < j < rows.len() ==> (#[trigger] rows[i]).0 != (#[trigger] rows[j]).0
    &&& forall|k: int| 0 <= k < rows.len() ==> (#[trigger] rows[k]).1 != 0
}

/// A number, reduced to 64 bits.
spec fn wrapped(n: int) -> int {
    (n + 0x8000_0000_0000_0000) % 0x1_0000_0000_0000_0000 - 0x8000_0000_0000_0000
}

/// Sums that are kept row by row, reduced to 64 bits.
spec fn are_sums(sums: Seq<RowUpdate>, total: spec_fn(Seq<u8>) -> int) -> bool {
    &&& forall|i: int, j: int|
        0 <= i < j < sums.len() ==> (#[trigger] sums[i]).row@ != (#[trigger] sums[j]).row@
    &&& forall|k: int|
        0 <= k < sums.len() ==> (#[trigger] sums[k]).diff == wrapped(total(sums[k].row@))
    &&& forall|row: Seq<u8>|
        (forall|k: int| 0 <= k < sums.len() ==> (#[trigger] sums[k]).row@ != row) ==> #[trigger] total(row)
            == 0
}

/// Sums once a row is counted.
spec fn plus_row(total: spec_fn(Seq<u8>) -> int, row: Seq<u8>, diff: int) -> spec_fn(Seq<u8>) -> int {
    |x: Seq<u8>|
        total(x) + if x == row {
            diff
        } else {
            0
        }
}

fn add_row(
    sums: Vec<RowUpdate>,
    row: Vec<u8>,
    diff: i64,
    Ghost(total): Ghost<spec_fn(Seq<u8>) -> int>,
    Ghost(change): Ghost<int>,
) -> (r: Vec<RowUpdate>)
    requires
        are_sums(sums@, total),
        diff == wrapped(change),
    ensures
        are_sums(r@, plus_row(total, row@, change)),
{
    let mut sums = sums;
    let ghost start = sums@;
    let ghost now = plus_row(total, row@, change);
    let mut k: usize = 0;
    #[verifier::loop_isolation(false)]
    while k < sums.len()
        invariant
            k <= sums.len(),
            sums@ == start,
            forall|j: int| 0 <= j < k ==> (#[trigger] sums@[j]).row@ != row@,
        decreases sums.len() - k,
    {
        if same_bytes(&sums[k].row, &row) {
            assert(sums@[k as int].diff == wrapped(total(row@)));
            let sum: i64 = sums[k].diff.wrapping_add(diff);
            assert(sum == wrapped(total(row@) + change));
            let entry = RowUpdate { row, diff: sum };
            sums.set(k, entry);
            proof {
                assert forall|i: int, j: int| 0 <= i < j < sums@.len() implies (#[trigger] sums@[i]).row@
                    != (#[trigger] sums@[j]).row@ by {
                    assert(start[i].row@ != start[j].row@);
                }
                assert forall|j: int| 0 <= j < sums@.len() implies (#[trigger] sums@[j]).diff == wrapped(
                    now(sums@[j].row@),
                ) by {
                    if j != k {
                        assert(sums@[j] == start[j]);
                        assert(start[j].row@ != start[k as int].row@);
                        assert(start[j].diff == wrapped(total(start[j].row@)));
                    }
                }
                assert forall|x: Seq<u8>|
                    (forall|j: int| 0 <= j < sums@.len() ==> (#[trigger] sums@[j]).row@ != x) implies #[trigger] now(
                    x,
                ) == 0 by {
                    assert(sums@[k as int].row@ != x);
                    assert forall|j: int| 0 <= j < start.len() implies (#[trigger] start[j]).row@ != x by {
                        assert(sums@[j].row@ != x);
                    }
                    assert(total(x) == 0);
                }
            }
            return sums;
        }
        k += 1;
    }
    let entry = RowUpdate { row, diff };
    sums.push(entry);
    proof {
        assert(total(row@) == 0);
        assert forall|i: int, j: int| 0 <= i < j < sums@.len() implies (#[trigger] sums@[i]).row@ != (
        #[trigger] sums@[j]).row@ by {
            assert(sums@[i] == start[i]);
            if j < start.len() {
                assert(sums@[j] == start[j]);
            }
        }
        assert forall|j: int| 0 <= j < sums@.len() implies (#[trigger] sums@[j]).diff == wrapped(
            now(sums@[j].row@),
        ) by {
            if j < start.len() {
                assert(sums@[j] == start[j]);
                assert(start[j].row@ != row@);
                assert(start[j].diff == wrapped(total(start[j].row@)));
            }
        }
        assert forall|x: Seq<u8>|
            (forall|j: int| 0 <= j < sums@.len() ==> (#[trigger] sums@[j]).row@ != x) implies #[trigger] now(
            x,
        ) == 0 by {
            assert(sums@[start.len() as int].row@ != x);
            assert forall|j: int| 0 <= j < start.len() implies (#[trigger] start[j]).row@ != x by {
                assert(sums@[j].row@ != x);
            }
            assert(total(x) == 0);
        }
    }
    sums
}

proof fn lemma_same_sums(sums: Seq<RowUpdate>, a: spec_fn(Seq<u8>) -> int, b: spec_fn(Seq<u8>) -> int)
    requires
        are_sums(sums, a),
        forall|row: Seq<u8>| #[trigger] a(row) == b(row),
    ensures
        are_sums(sums, b),
{
    assert forall|k: int| 0 <= k < sums.len() implies (#[trigger] sums[k]).diff == wrapped(b(sums[k].row@)) by {
        assert(a(sums[k].row@) == b(sums[k].row@));
    }
    assert forall|row: Seq<u8>|
        (forall|k: int| 0 <= k < sums.len() ==> (#[trigger] sums[k]).row@ != row) implies #[trigger] b(row)
        == 0 by {
        assert(a(row) == b(row));
    }
}

/// The updates that make the contents of a collection what `updates` add up to, given its
/// present contents: it is effectively truncated. There is one for each row that differs.
pub fn reconcile_updates(updates: Vec<RowUpdate>, contents: Vec<RowUpdate>) -> (r: Vec<RowUpdate>)
    requires
        forall|row: Seq<u8>|
            i64::MIN <= #[trigger] row_count(rows_view(updates@), row) - row_count(
                rows_view(contents@),
                row,
            ) <= i64::MAX,
    ensures
        is_consolidated(rows_view(r@)),
        forall|row: Seq<u8>| #[trigger]
            row_count(rows_view(r@), row) == row_count(rows_view(updates@), row) - row_count(
                rows_view(contents@),
                row,
            ),
{
    let ghost ups = rows_view(updates@);
    let ghost cons = rows_view(contents@);
    let mut sums: Vec<RowUpdate> = Vec::new();
    let mut left = updates;
    let ghost mut n: int = 0;
    let ghost mut total = |x: Seq<u8>| row_count(ups.take(0), x);
    assert(ups.take(0) =~= Seq::empty());
    assert(ups.skip(0) =~= ups);
    while left.len() > 0
        invariant
            0 <= n <= ups.len(),
            rows_view(left@) == ups.skip(n),
            total == (|x: Seq<u8>| row_count(ups.take(n), x)),
            are_sums(sums@, total),
        decreases left.len(),
    {
        let ghost rest = rows_view(left@);
        let update = left.remove(0);
        proof {
            assert(rows_view(left@) =~= rest.drop_first());
            assert(rest.drop_first() =~= ups.skip(n + 1));
            assert(rest[0] == ups[n]);
            assert(ups.take(n + 1).drop_last() =~= ups.take(n));
        }
        let ghost had = total;
        let diff = update.diff;
        let ghost row = update.row@;
        sums = add_row(sums, update.row, diff, Ghost(total), Ghost(diff as int));
        proof {
            let now = |x: Seq<u8>| row_count(ups.take(n + 1), x);
            let sum = plus_row(had, row, diff as int);
            assert forall|x: Seq<u8>| #[trigger] sum(x) == now(x) by {}
            lemma_same_sums(sums@, sum, now);
            n = n + 1;
            total = now;
        }
    }
    proof {
        assert(ups.take(n) =~= ups);
        let now = |x: Seq<u8>| row_count(ups, x) - row_count(cons.take(0), x);
        assert(cons.take(0) =~= Seq::empty());
        assert forall|x: Seq<u8>| #[trigger] total(x) == now(x) by {}
        lemma_same_sums(sums@, total, now);
        total = now;
        n = 0;
    }
    let mut left = contents;
    assert(cons.skip(0) =~= cons);
    while left.len() > 0
        invariant
            0 <= n <= cons.len(),
            rows_view(left@) == cons.skip(n),
            total == (|x: Seq<u8>| row_count(ups, x) - row_count(cons.take(n), x)),
            are_sums(sums@, total),
        decreases left.len(),
    {
        let ghost rest = rows_view(left@);
        let update = left.remove(0);
        proof {
            assert(rows_view(left@) =~= rest.drop_first());
            assert(rest.drop_first() =~= cons.skip(n + 1));
            assert(rest[0] == cons[n]);
            assert(cons.take(n + 1).drop_last() =~= cons.take(n));
        }
        let ghost had = total;
        let ghost row = update.row@;
        let ghost change = -(update.diff as int);
        let diff: i64 = 0i64.wrapping_sub(update.diff);
        sums = add_row(sums, update.row, diff, Ghost(total), Ghost(change));
        proof {
            let now = |x: Seq<u8>| row_count(ups, x) - row_count(cons.take(n + 1), x);
            let sum = plus_row(had, row, change);
            assert forall|x: Seq<u8>| #[trigger] sum(x) == now(x) by {}
            lemma_same_sums(sums@, sum, now);
            n = n + 1;
            total = now;
        }
    }
    proof {
        assert(cons.take(n) =~= cons);
    }
    let mut out: Vec<RowUpdate> = Vec::new();
    let ghost all = rows_view(sums@);
    let mut left = sums;
    let ghost mut m: int = 0;
    assert(all.skip(0) =~= all);
    assert(all.take(0) =~= Seq::empty());
    while left.len() > 0
        invariant
            0 <= m <= all.len(),
            rows_view(left@) == all.skip(m),
            is_consolidated(rows_view(out@)),
            forall|i: int, j: int|
                0 <= i < j < all.len() ==> (#[trigger] all[i]).0 != (#[trigger] all[j]).0,
            forall|k: int|
                0 <= k < out.len() ==> exists|i: int|
                    0 <= i < m && (#[trigger] rows_view(out@)[k]).0 == (#[trigger] all[i]).0,
            forall|row: Seq<u8>| #[trigger]
                row_count(rows_view(out@), row) == row_count(all.take(m), row),
        decreases left.len(),
    {
        let ghost rest = rows_view(left@);
        let update = left.remove(0);
        proof {
            assert(rows_view(left@) =~= rest.drop_first());
            assert(rest.drop_first() =~= all.skip(m + 1));
            assert(rest[0] == all[m]);
            assert(all.take(m + 1).drop_last() =~= all.take(m));
        }
        let ghost had = rows_view(out@);
        let ghost entry = (update.row@, update.diff);
        if update.diff != 0 {
            out.push(update);
            proof {
                let now = rows_view(out@);
                assert(now =~= had.push(entry));
                assert(now.drop_last() =~= had);
                assert forall|i: int, j: int| 0 <= i < j < now.len() implies (#[trigger] now[i]).0 != (
                #[trigger] now[j]).0 by {
                    assert(now[i] == had[i]);
                    if j < had.len() {
                        assert(now[j] == had[j]);
                    } else {
                        let x = choose|x: int| 0 <= x < m && had[i].0 == (#[trigger] all[x]).0;
                        assert(all[x].0 != all[m].0);
                    }
                }
                assert forall|k: int| 0 <= k < now.len() implies exists|i: int|
                    0 <= i < m + 1 && (#[trigger] now[k]).0 == (#[trigger] all[i]).0 by {
                    if k < had.len() {
                        assert(now[k] == had[k]);
                        let x = choose|x: int| 0 <= x < m && had[k].0 == (#[trigger] all[x]).0;
                        assert(now[k].0 == all[x].0);
                    } else {
                        assert(now[k].0 == all[m].0);
                    }
                }
            }
        } else {
            proof {
                assert forall|k: int| 0 <= k < had.len() implies exists|i: int|
                    0 <= i < m + 1 && (#[trigger] had[k]).0 == (#[trigger] all[i]).0 by {
                    let x = choose|x: int| 0 <= x < m && had[k].0 == (#[trigger] all[x]).0;
                    assert(had[k].0 == all[x].0);
                }
            }
        }
        proof {
            assert forall|row: Seq<u8>| #[trigger] row_count(rows_view(out@), row) == row_count(
                all.take(m + 1),
                row,
            ) by {
                assert(row_count(had, row) == row_count(all.take(m), row));
                assert(all.take(m + 1).last() == entry);
                if entry.1 != 0 {
                    assert(rows_view(out@).drop_last() =~= had);
                    assert(rows_view(out@).last() == entry);
                }
            }
            m = m + 1;
        }
    }
    proof {
        assert(all.take(m) =~= all);
        assert forall|row: Seq<u8>| #[trigger] row_count(rows_view(out@), row) == row_count(ups, row)
            - row_count(cons, row) by {
            lemma_sum_of(sums@, all, row, all.len() as int);
            assert(all.take(all.len() as int) =~= all);
            assert(total(row) == row_count(ups, row) - row_count(cons, row));
            if exists|k: int| 0 <= k < sums@.len() && (#[trigger] sums@[k]).row@ == row {
                let k = choose|k: int| 0 <= k < sums@.len() && (#[trigger] sums@[k]).row@ == row;
                assert(sums@[k].diff == wrapped(total(sums@[k].row@)));
                assert(i64::MIN <= row_count(ups, row) - row_count(cons, row) <= i64::MAX);
            }
        }
    }
    out
}

/// The sum for a row is its entry, where there is one entry for each row.
proof fn lemma_sum_of(sums: Seq<RowUpdate>, all: Seq<(Seq<u8>, i64)>, row: Seq<u8>, n: int)
    requires
        all == rows_view(sums),
        0 <= n <= all.len(),
        forall|i: int, j: int|
            0 <= i < j < sums.len() ==> (#[trigger] sums[i]).row@ != (#[trigger] sums[j]).row@,
    ensures
        forall|k: int|
            0 <= k < n && (#[trigger] sums[k]).row@ == row ==> row_count(all.take(n), row) == sums[k].diff,
        (forall|k: int| 0 <= k < n ==> (#[trigger] sums[k]).row@ != row) ==> row_count(all.take(n), row)
            == 0,
    decreases n,
{
    if n > 0 {
        lemma_sum_of(sums, all, row, n - 1);
        assert(all.take(n).drop_last() =~= all.take(n - 1));
        assert(all.take(n).last() == all[n - 1]);
        assert(all[n - 1] == (sums[n - 1].row@, sums[n - 1].diff));
        assert forall|k: int| 0 <= k < n && (#[trigger] sums[k]).row@ == row implies row_count(
            all.take(n),
            row,
        ) == sums[k].diff by {
            if k < n - 1 {
                assert(sums[k].row@ != sums[n - 1].row@);
            } else {
                assert forall|j: int| 0 <= j < n - 1 implies (#[trigger] sums[j]).row@ != row by {
                    assert(sums[j].row@ != sums[n - 1].row@);
                }
            }
        }
        if forall|k: int| 0 <= k < n ==> (#[trigger] sums[k]).row@ != row {
            assert(sums[n - 1].row@ != row);
        }
    }
}

} // verus!
