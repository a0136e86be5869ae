//! The status history of sources, stored metadata, and shards that are no longer used.

use vstd::prelude::*;

use crate::sql_parser::text::text_eq;
use crate::storage_client::controller::{StateView, StorageControllerState};
use crate::storage_client::frontier::{frontier_join, Frontier};
use crate::storage_client::id_map::{lists, IdMap};
use crate::storage_client::ids::{GlobalId, ShardId};
use crate::storage_client::state::CollectionView;
use crate::storage_client::types::{DurableCollectionMetadata, MetadataView};

verus! {

// The status history of sources.

/// An entry of the status history.
#[derive(Debug)]
pub struct StatusRow {
    pub source_id: String,
    /// When it was entered, in microseconds.
    pub occurred_at: i64,
    /// The entry itself, in its encoded form.
    pub row: Vec<u8>,
}

/// What a [`StatusRow`] stands for.
#[verifier::ext_equal]
pub struct StatusView {
    pub source_id: Seq<char>,
    pub occurred_at: i64,
    pub row: Seq<u8>,
}

impl View for StatusRow {
    type V = StatusView;

    open spec fn view(&self) -> StatusView {
        StatusView { source_id: self.source_id@, occurred_at: self.occurred_at, row: self.row@ }
    }
}

/// Entries themselves.
pub open spec fn statuses_view(rows: Seq<StatusRow>) -> Seq<StatusView> {
    Seq::new(rows.len(), |k: int| rows[k]@)
}

/// Entries in the order of time with another one, in place of one of the same time.
pub open spec fn with_entry(entries: Seq<StatusView>, new: StatusView) -> Seq<StatusView>
    decreases entries.len(),
{
    if entries.len() == 0 {
        seq![new]
    } else if new.occurred_at < entries[0].occurred_at {
        seq![new] + entries
    } else if new.occurred_at == entries[0].occurred_at {
        seq![new] + entries.drop_first()
    } else {
        seq![entries[0]] + with_entry(entries.drop_first(), new)
    }
}

/// The entries of a source.
pub open spec fn entries_of(kept: Map<Seq<char>, Seq<StatusView>>, source: Seq<char>) -> Seq<StatusView> {
    if kept.dom().contains(source) {
        kept[source]
    } else {
        Seq::empty()
    }
}

/// The entries of each source that are kept of the first `n`, and those that are deleted: once
/// a source has more than are kept, the oldest one goes.
pub open spec fn history(rows: Seq<StatusView>, n: int, keep: int) -> (
    Map<Seq<char>, Seq<StatusView>>,
    Seq<StatusView>,
)
    decreases n,
{
    if n <= 0 {
        (Map::empty(), Seq::empty())
    } else {
        let (kept, deleted) = history(rows, n - 1, keep);
        let new = rows[n - 1];
        let entries = with_entry(entries_of(kept, new.source_id), new);
        if entries.len() > keep {
            (kept.insert(new.source_id, entries.drop_first()), deleted.push(entries[0]))
        } else {
            (kept.insert(new.source_id, entries), deleted)
        }
    }
}

/// Whether entries are in the order of time, one for each time.
pub open spec fn in_time_order(entries: Seq<StatusView>) -> bool {
    forall|i: int, j: int|
        0 <= i < j < entries.len() ==> (#[trigger] entries[i]).occurred_at < (
        #[trigger] entries[j]).occurred_at
}

proof fn lemma_with_entry(entries: Seq<StatusView>, new: StatusView)
    requires
        in_time_order(entries),
    ensures
        in_time_order(with_entry(entries, new)),
        entries.len() <= with_entry(entries, new).len() <= entries.len() + 1,
        with_entry(entries, new).len() > 0,
        with_entry(entries, new)[0].occurred_at <= new.occurred_at,
        entries.len() > 0 ==> with_entry(entries, new)[0].occurred_at <= entries[0].occurred_at,
        forall|k: int|
            0 <= k < with_entry(entries, new).len() ==> (#[trigger] with_entry(entries, new)[k]) == new
                || entries.contains(with_entry(entries, new)[k]),
        forall|k: int|
            0 <= k < with_entry(entries, new).len() ==> (#[trigger] with_entry(entries, new)[k]).occurred_at
                >= new.occurred_at || (entries.len() > 0 && with_entry(entries, new)[k].occurred_at
                >= entries[0].occurred_at),
    decreases entries.len(),
{
    let now = with_entry(entries, new);
    if entries.len() > 0 {
        let rest = entries.drop_first();
        assert(in_time_order(rest)) by {
            assert forall|i: int, j: int| 0 <= i < j < rest.len() implies (#[trigger] rest[i]).occurred_at
                < (#[trigger] rest[j]).occurred_at by {
                assert(rest[i] == entries[i + 1] && rest[j] == entries[j + 1]);
            }
        }
        if new.occurred_at < entries[0].occurred_at {
            assert forall|k: int| 0 <= k < now.len() implies (#[trigger] now[k]) == new || entries.contains(
                now[k],
            ) by {
                if k > 0 {
                    assert(now[k] == entries[k - 1]);
                }
            }
            assert forall|i: int, j: int| 0 <= i < j < now.len() implies (#[trigger] now[i]).occurred_at < (
            #[trigger] now[j]).occurred_at by {
                assert(now[j] == entries[j - 1]);
                if i > 0 {
                    assert(now[i] == entries[i - 1]);
                } else if j > 1 {
                    assert(entries[0].occurred_at < entries[j - 1].occurred_at);
                }
            }
        } else if new.occurred_at == entries[0].occurred_at {
            assert forall|k: int| 0 <= k < now.len() implies (#[trigger] now[k]) == new || entries.contains(
                now[k],
            ) by {
                if k > 0 {
                    assert(now[k] == entries[k]);
                }
            }
            assert forall|i: int, j: int| 0 <= i < j < now.len() implies (#[trigger] now[i]).occurred_at < (
            #[trigger] now[j]).occurred_at by {
                assert(now[j] == entries[j]);
                if i > 0 {
                    assert(now[i] == entries[i]);
                } else {
                    assert(entries[0].occurred_at < entries[j].occurred_at);
                }
            }
        } else {
            lemma_with_entry(rest, new);
            let tail = with_entry(rest, new);
            assert forall|k: int| 0 <= k < now.len() implies (#[trigger] now[k]) == new || entries.contains(
                now[k],
            ) by {
                if k == 0 {
                    assert(now[k] == entries[0]);
                } else {
                    assert(now[k] == tail[k - 1]);
                    if tail[k - 1] != new {
                        let j = rest.index_of(tail[k - 1]);
                        assert(entries[j + 1] == now[k]);
                    }
                }
            }
            assert forall|i: int, j: int| 0 <= i < j < now.len() implies (#[trigger] now[i]).occurred_at < (
            #[trigger] now[j]).occurred_at by {
                assert(now[j] == tail[j - 1]);
                if i > 0 {
                    assert(now[i] == tail[i - 1]);
                } else {
                    assert(now[0] == entries[0]);
                    assert(tail[j - 1].occurred_at >= new.occurred_at || (rest.len() > 0
                        && tail[j - 1].occurred_at >= rest[0].occurred_at));
                    if rest.len() > 0 {
                        assert(rest[0] == entries[1]);
                        assert(entries[0].occurred_at < entries[1].occurred_at);
                    }
                }
            }
            assert forall|k: int| 0 <= k < now.len() implies (#[trigger] now[k]).occurred_at
                >= new.occurred_at || (entries.len() > 0 && now[k].occurred_at >= entries[0].occurred_at) by {
                if k > 0 {
                    assert(now[0].occurred_at < now[k].occurred_at);
                }
            }
        }
    }
}

/// Of each source the most recent entries are kept: at most as many as are to be kept, in the
/// order of time, and each of them is later than each one of the source that is deleted.
pub proof fn law_history_keeps_latest(rows: Seq<StatusView>, n: int, keep: int)
    requires
        0 <= n <= rows.len(),
        keep >= 0,
    ensures
        forall|source: Seq<char>| #[trigger]
            history(rows, n, keep).0.dom().contains(source) ==> in_time_order(
                history(rows, n, keep).0[source],
            ) && history(rows, n, keep).0[source].len() <= keep,
        forall|d: int, k: int|
            0 <= d < history(rows, n, keep).1.len() && 0 <= k < entries_of(
                history(rows, n, keep).0,
                history(rows, n, keep).1[d].source_id,
            ).len() ==> (#[trigger] history(rows, n, keep).1[d]).occurred_at < (#[trigger] entries_of(
                history(rows, n, keep).0,
                history(rows, n, keep).1[d].source_id,
            )[k]).occurred_at,
        forall|d: int|
            0 <= d < history(rows, n, keep).1.len() ==> entries_of(
                history(rows, n, keep).0,
                (#[trigger] history(rows, n, keep).1[d]).source_id,
            ).len() == keep,
    decreases n,
{
    if n > 0 {
        law_history_keeps_latest(rows, n - 1, keep);
        let (kept, deleted) = history(rows, n - 1, keep);
        let new = rows[n - 1];
        let source = new.source_id;
        let before = entries_of(kept, source);
        let entries = with_entry(before, new);
        lemma_with_entry(before, new);
        lemma_sources(rows, n - 1, keep);
        let (kept2, deleted2) = history(rows, n, keep);
        let now = entries_of(kept2, source);
        assert(in_time_order(now)) by {
            assert forall|i: int, j: int| 0 <= i < j < now.len() implies (#[trigger] now[i]).occurred_at < (
            #[trigger] now[j]).occurred_at by {
                if entries.len() > keep {
                    assert(now[i] == entries[i + 1] && now[j] == entries[j + 1]);
                }
            }
        }
        assert forall|d: int, k: int|
            0 <= d < deleted2.len() && 0 <= k < entries_of(kept2, deleted2[d].source_id).len() implies (
        #[trigger] deleted2[d]).occurred_at < (#[trigger] entries_of(
            kept2,
            deleted2[d].source_id,
        )[k]).occurred_at by {
            let x = deleted2[d];
            if x.source_id == source {
                if d < deleted.len() {
                    assert(deleted[d] == x);
                    assert(before.len() == keep);
                    if entries.len() > keep {
                        assert(now[k] == entries[k + 1]);
                        assert(entries[0].occurred_at < entries[k + 1].occurred_at);
                        assert(entries[k + 1] == new || before.contains(entries[k + 1]));
                        if before.contains(entries[k + 1]) {
                            let j = before.index_of(entries[k + 1]);
                            assert(deleted[d].occurred_at < before[j].occurred_at);
                        } else {
                            // The new entry is not the oldest one, so some entry is older.
                            assert(entries[0] == new || before.contains(entries[0]));
                            if before.contains(entries[0]) {
                                let j = before.index_of(entries[0]);
                                assert(deleted[d].occurred_at < before[j].occurred_at);
                            }
                        }
                    } else {
                        lemma_replaced(before, new);
                        assert(entries[k] == new || before.contains(entries[k]));
                        assert(exists|j: int|
                            0 <= j < before.len() && (#[trigger] before[j]).occurred_at
                                == entries[k].occurred_at);
                        let j = choose|j: int|
                            0 <= j < before.len() && (#[trigger] before[j]).occurred_at
                                == entries[k].occurred_at;
                        assert(deleted[d].occurred_at < before[j].occurred_at);
                    }
                } else {
                    assert(x == entries[0]);
                    assert(now[k] == entries[k + 1]);
                }
            } else {
                assert(deleted[d] == x);
                assert(entries_of(kept2, x.source_id) == entries_of(kept, x.source_id));
                assert(deleted[d].occurred_at < entries_of(kept, deleted[d].source_id)[k].occurred_at);
            }
        }
        assert forall|d: int| 0 <= d < deleted2.len() implies entries_of(
            kept2,
            (#[trigger] deleted2[d]).source_id,
        ).len() == keep by {
            let x = deleted2[d];
            if d < deleted.len() {
                assert(deleted[d] == x);
                assert(entries_of(kept, deleted[d].source_id).len() == keep);
            } else {
                assert(x == entries[0]);
                assert(entries[0] == new || before.contains(entries[0]));
                if before.contains(entries[0]) {
                    let j = before.index_of(entries[0]);
                    assert(before[j].source_id == source);
                }
            }
        }
        assert forall|other: Seq<char>| #[trigger] kept2.dom().contains(other) implies in_time_order(
            kept2[other],
        ) && kept2[other].len() <= keep by {
            if other != source {
                assert(kept.dom().contains(other));
            }
        }
    }
}

/// An entry that does not make entries more takes the place of one of the same time.
proof fn lemma_replaced(entries: Seq<StatusView>, new: StatusView)
    requires
        in_time_order(entries),
        with_entry(entries, new).len() == entries.len(),
    ensures
        forall|k: int|
            0 <= k < entries.len() ==> (#[trigger] with_entry(entries, new)[k]).occurred_at
                == entries[k].occurred_at,
    decreases entries.len(),
{
    let now = with_entry(entries, new);
    if entries.len() > 0 {
        let rest = entries.drop_first();
        assert(in_time_order(rest)) by {
            assert forall|i: int, j: int| 0 <= i < j < rest.len() implies (#[trigger] rest[i]).occurred_at
                < (#[trigger] rest[j]).occurred_at by {
                assert(rest[i] == entries[i + 1] && rest[j] == entries[j + 1]);
            }
        }
        if new.occurred_at == entries[0].occurred_at {
            assert forall|k: int| 0 <= k < entries.len() implies (#[trigger] now[k]).occurred_at
                == entries[k].occurred_at by {
                if k > 0 {
                    assert(now[k] == entries[k]);
                }
            }
        } else if new.occurred_at > entries[0].occurred_at {
            lemma_replaced(rest, new);
            let tail = with_entry(rest, new);
            assert forall|k: int| 0 <= k < entries.len() implies (#[trigger] now[k]).occurred_at
                == entries[k].occurred_at by {
                if k > 0 {
                    assert(now[k] == tail[k - 1]);
                    assert(rest[k - 1] == entries[k]);
                }
            }
        }
    }
}

/// Each entry is kept under its own source.
proof fn lemma_sources(rows: Seq<StatusView>, n: int, keep: int)
    requires
        0 <= n <= rows.len(),
    ensures
        forall|source: Seq<char>, k: int|
            0 <= k < entries_of(history(rows, n, keep).0, source).len() ==> (#[trigger] entries_of(
                history(rows, n, keep).0,
                source,
            )[k]).source_id == source,
    decreases n,
{
    if n > 0 {
        lemma_sources(rows, n - 1, keep);
        let (kept, _) = history(rows, n - 1, keep);
        let new = rows[n - 1];
        let (kept2, _) = history(rows, n, keep);
        let before = entries_of(kept, new.source_id);
        let entries = with_entry(before, new);
        lemma_members(before, new);
        assert forall|source: Seq<char>, k: int| 0 <= k < entries_of(kept2, source).len() implies (
        #[trigger] entries_of(kept2, source)[k]).source_id == source by {
            if source == new.source_id {
                let j: int = if entries.len() > keep {
                    k + 1
                } else {
                    k
                };
                assert(entries_of(kept2, source)[k] == entries[j]);
                if entries[j] != new {
                    let i = before.index_of(entries[j]);
                    assert(before[i].source_id == source);
                }
            } else {
                assert(entries_of(kept2, source) == entries_of(kept, source));
                assert(entries_of(kept, source)[k].source_id == source);
            }
        }
    }
}

proof fn lemma_members(entries: Seq<StatusView>, new: StatusView)
    ensures
        forall|k: int|
            0 <= k < with_entry(entries, new).len() ==> (#[trigger] with_entry(entries, new)[k]) == new
                || entries.contains(with_entry(entries, new)[k]),
    decreases entries.len(),
{
    if entries.len() > 0 {
        let rest = entries.drop_first();
        lemma_members(rest, new);
        let now = with_entry(entries, new);
        let tail = with_entry(rest, new);
        assert forall|k: int| 0 <= k < now.len() implies (#[trigger] now[k]) == new || entries.contains(
            now[k],
        ) by {
            if new.occurred_at < entries[0].occurred_at {
                if k > 0 {
                    assert(now[k] == entries[k - 1]);
                }
            } else if new.occurred_at == entries[0].occurred_at {
                if k > 0 {
                    assert(now[k] == entries[k]);
                }
            } else if k == 0 {
                assert(now[k] == entries[0]);
            } else {
                assert(now[k] == tail[k - 1]);
                if tail[k - 1] != new {
                    let j = rest.index_of(tail[k - 1]);
                    assert(entries[j + 1] == now[k]);
                }
            }
        }
    }
}

fn add_entry(entries: Vec<StatusRow>, new: StatusRow) -> (r: Vec<StatusRow>)
    ensures
        statuses_view(r@) == with_entry(statuses_view(entries@), new@),
{
    let ghost all = statuses_view(entries@);
    let mut entries = entries;
    let mut k: usize = 0;
    assert(all.skip(0) =~= all);
    assert(all.take(0) + with_entry(all, new@) =~= with_entry(all, new@));
    while k < entries.len() && entries[k].occurred_at < new.occurred_at
        invariant
            k <= entries.len(),
            all == statuses_view(entries@),
            with_entry(all, new@) == all.take(k as int) + with_entry(all.skip(k as int), new@),
        decreases entries.len() - k,
    {
        proof {
            let rest = all.skip(k as int);
            assert(rest.drop_first() =~= all.skip(k + 1));
            assert(all.take(k as int) + (seq![rest[0]] + with_entry(rest.drop_first(), new@))
                =~= all.take(k + 1) + with_entry(all.skip(k + 1), new@));
        }
        k += 1;
    }
    let ghost rest = all.skip(k as int);
    if k < entries.len() && entries[k].occurred_at == new.occurred_at {
        assert(rest[0] == all[k as int]);
        assert(rest.drop_first() =~= all.skip(k + 1));
        entries.set(k, new);
        assert(statuses_view(entries@) =~= all.take(k as int) + (seq![new@] + all.skip(k + 1)));
    } else {
        if k < entries.len() {
            assert(rest[0] == all[k as int]);
        }
        entries.insert(k, new);
        assert(statuses_view(entries@) =~= all.take(k as int) + (seq![new@] + rest));
        proof {
            if k == all.len() {
                assert(seq![new@] + rest =~= seq![new@]);
            }
        }
    }
    entries
}

/// Entries that are kept, source by source.
struct Kept {
    sources: Vec<(String, Vec<StatusRow>)>,
}

spec fn is_kept(sources: Seq<(String, Vec<StatusRow>)>, kept: Map<Seq<char>, Seq<StatusView>>) -> bool {
    &&& forall|i: int, j: int|
        0 <= i < j < sources.len() ==> (#[trigger] sources[i]).0@ != (#[trigger] sources[j]).0@
    &&& forall|k: int|
        0 <= k < sources.len() ==> kept.dom().contains((#[trigger] sources[k]).0@) && statuses_view(
            sources[k].1@,
        ) == kept[sources[k].0@]
    &&& forall|source: Seq<char>| #[trigger]
        kept.dom().contains(source) ==> exists|k: int|
            0 <= k < sources.len() && (#[trigger] sources[k]).0@ == source
}

/// The entries of the status history to delete, so that of each source the most recent ones
/// are left.
pub fn expired_statuses(rows: Vec<StatusRow>, keep: usize) -> (r: Vec<StatusRow>)
    ensures
        statuses_view(r@) == history(statuses_view(rows@), rows@.len() as int, keep as int).1,
{
    let ghost all = statuses_view(rows@);
    let mut left = rows;
    let mut kept = Kept { sources: Vec::new() };
    let mut deleted: Vec<StatusRow> = Vec::new();
    let ghost mut n: int = 0;
    assert(all.skip(0) =~= all);
    assert(statuses_view(deleted@) =~= Seq::empty());
    while left.len() > 0
        invariant
            0 <= n <= all.len(),
            statuses_view(left@) == all.skip(n),
            is_kept(kept.sources@, history(all, n, keep as int).0),
            statuses_view(deleted@) == history(all, n, keep as int).1,
        decreases left.len(),
    {
        let ghost rest = statuses_view(left@);
        let new = left.remove(0);
        proof {
            assert(statuses_view(left@) =~= rest.drop_first());
            assert(rest.drop_first() =~= all.skip(n + 1));
            assert(rest[0] == all[n]);
        }
        let ghost before = history(all, n, keep as int).0;
        let ghost view = new@;
        let ghost start = kept.sources@;
        let source = new.source_id.clone();
        let mut k: usize = 0;
        while k < kept.sources.len() && !text_eq(kept.sources[k].0.as_str(), source.as_str())
            invariant
                k <= kept.sources.len(),
                kept.sources@ == start,
                forall|j: int| 0 <= j < k ==> (#[trigger] start[j]).0@ != source@,
            decreases kept.sources.len() - k,
        {
            k += 1;
        }
        let found = k < kept.sources.len();
        let old_entries = if found {
            let (_, entries) = kept.sources.remove(k);
            entries
        } else {
            Vec::new()
        };
        let ghost others = kept.sources@;
        proof {
            if found {
                assert(start[k as int].0@ == source@);
                assert(statuses_view(old_entries@) == entries_of(before, source@));
            } else {
                assert(!before.dom().contains(source@));
                assert(statuses_view(old_entries@) =~= entries_of(before, source@));
            }
        }
        let mut entries = add_entry(old_entries, new);
        let ghost grown = statuses_view(entries@);
        if entries.len() > keep {
            let ghost gone = statuses_view(deleted@);
            let first = entries.remove(0);
            assert(statuses_view(entries@) =~= grown.drop_first());
            deleted.push(first);
            assert(statuses_view(deleted@) =~= gone.push(grown[0]));
        }
        kept.sources.push((source, entries));
        proof {
            let after = before.insert(source@, statuses_view(entries@));
            assert(kept.sources@.drop_last() =~= others);
            lemma_kept_step(start, others, kept.sources@, before, after, source@, k as int, found);
            n = n + 1;
        }
    }
    assert(n == all.len());
    deleted
}

proof fn lemma_kept_step(
    start: Seq<(String, Vec<StatusRow>)>,
    others: Seq<(String, Vec<StatusRow>)>,
    now: Seq<(String, Vec<StatusRow>)>,
    before: Map<Seq<char>, Seq<StatusView>>,
    after: Map<Seq<char>, Seq<StatusView>>,
    source: Seq<char>,
    at: int,
    found: bool,
)
    requires
        is_kept(start, before),
        found ==> 0 <= at < start.len() && start[at].0@ == source && others == start.remove(at),
        !found ==> others == start && (forall|j: int|
            0 <= j < start.len() ==> (#[trigger] start[j]).0@ != source),
        now.len() == others.len() + 1,
        now.drop_last() == others,
        now.last().0@ == source,
        after == before.insert(source, statuses_view(now.last().1@)),
    ensures
        is_kept(now, after),
{
    let n = others.len() as int;
    assert forall|j: int| 0 <= j < n implies {
        let i: int = if found && j >= at {
            j + 1
        } else {
            j
        };
        0 <= i < start.len() && #[trigger] now[j] == start[i] && start[i].0@ != source
    } by {
        assert(now[j] == now.drop_last()[j]);
        let i: int = if found && j >= at {
            j + 1
        } else {
            j
        };
        assert(others[j] == start[i]);
        if found {
            if i < at {
                assert(start[i].0@ != start[at].0@);
            } else {
                assert(start[at].0@ != start[i].0@);
            }
        }
    }
    assert forall|i: int, j: int| 0 <= i < j < now.len() implies (#[trigger] now[i]).0@ != (
    #[trigger] now[j]).0@ by {
        let i0: int = if found && i >= at {
            i + 1
        } else {
            i
        };
        assert(now[i] == start[i0]);
        if j < n {
            let j0: int = if found && j >= at {
                j + 1
            } else {
                j
            };
            assert(now[j] == start[j0]);
            assert(start[i0].0@ != start[j0].0@);
        }
    }
    assert forall|k: int| 0 <= k < now.len() implies after.dom().contains((#[trigger] now[k]).0@)
        && statuses_view(now[k].1@) == after[now[k].0@] by {
        if k < n {
            let k0: int = if found && k >= at {
                k + 1
            } else {
                k
            };
            assert(now[k] == start[k0]);
            assert(before.dom().contains(start[k0].0@));
        }
    }
    assert forall|x: Seq<char>| #[trigger] after.dom().contains(x) implies exists|k: int|
        0 <= k < now.len() && (#[trigger] now[k]).0@ == x by {
        if x == source {
            assert(now[n].0@ == x);
        } else {
            assert(before.dom().contains(x));
            let i = choose|i: int| 0 <= i < start.len() && (#[trigger] start[i]).0@ == x;
            let k: int = if found && i > at {
                i - 1
            } else {
                i
            };
            assert(now[k] == start[i]);
            assert(now[k].0@ == x);
        }
    }
}

// Stored metadata.

/// Whether a shard comes into use where metadata are replaced.
pub open spec fn is_gained(
    current: Map<GlobalId, DurableCollectionMetadata>,
    upsert: Map<GlobalId, DurableCollectionMetadata>,
    shard: ShardId,
) -> bool {
    exists|id: GlobalId| #[trigger]
        upsert.dom().contains(id) && upsert[id].data_shard == shard && (!current.dom().contains(id)
            || current[id].data_shard != shard)
}

/// Whether a collection loses a shard where metadata are replaced.
pub open spec fn loses(
    current: Map<GlobalId, DurableCollectionMetadata>,
    upsert: Map<GlobalId, DurableCollectionMetadata>,
    id: GlobalId,
    shard: ShardId,
) -> bool {
    upsert.dom().contains(id) && current.dom().contains(id) && ((current[id].data_shard == shard
        && upsert[id].data_shard != shard) || current[id].remap_shard == Some(shard))
}

/// Whether a shard is no longer used once metadata are replaced.
pub open spec fn is_dropped(
    current: Map<GlobalId, DurableCollectionMetadata>,
    upsert: Map<GlobalId, DurableCollectionMetadata>,
    shard: ShardId,
) -> bool {
    (exists|id: GlobalId| #[trigger] loses(current, upsert, id, shard)) && !is_gained(
        current,
        upsert,
        shard,
    )
}

/// A collection once its metadata are replaced. One that was dropped stays as it is.
pub open spec fn remapped(
    c: CollectionView,
    current: Map<GlobalId, DurableCollectionMetadata>,
    upsert: Map<GlobalId, DurableCollectionMetadata>,
    id: GlobalId,
) -> CollectionView {
    if upsert.dom().contains(id) && current.dom().contains(id) && !c.dropped {
        CollectionView {
            collection_metadata: MetadataView {
                data_shard: if current[id].data_shard != upsert[id].data_shard {
                    upsert[id].data_shard
                } else {
                    c.collection_metadata.data_shard
                },
                remap_shard: if current[id].remap_shard is Some {
                    None
                } else {
                    c.collection_metadata.remap_shard
                },
                ..c.collection_metadata
            },
            ..c
        }
    } else {
        c
    }
}

/// The state once metadata are replaced.
pub open spec fn with_metadata(
    s: StateView,
    current: Map<GlobalId, DurableCollectionMetadata>,
    upsert: Map<GlobalId, DurableCollectionMetadata>,
) -> StateView {
    StateView {
        collections: Map::new(
            |id: GlobalId| s.collections.dom().contains(id),
            |id: GlobalId| remapped(s.collections[id], current, upsert, id),
        ),
        ..s
    }
}

/// What follows where metadata are replaced.
#[derive(Debug)]
pub struct MetadataUpsert {
    /// Shards that are no longer used.
    pub dropped_shards: Vec<ShardId>,
    /// Collections whose data are in another shard, which is to be opened.
    pub reopen: Vec<GlobalId>,
}

/// Whether the data of a collection are in another shard once metadata are replaced.
pub open spec fn is_reopened(
    s: StateView,
    current: Map<GlobalId, DurableCollectionMetadata>,
    upsert: Map<GlobalId, DurableCollectionMetadata>,
    id: GlobalId,
) -> bool {
    s.collections.dom().contains(id) && upsert.dom().contains(id) && current.dom().contains(id)
        && current[id].data_shard != upsert[id].data_shard && !s.collections[id].dropped
}

fn has_shard(shards: &Vec<ShardId>, shard: ShardId) -> (r: bool)
    ensures
        r == shards@.contains(shard),
{
    let mut k: usize = 0;
    while k < shards.len()
        invariant
            k <= shards.len(),
            forall|j: int| 0 <= j < k ==> #[trigger] shards@[j] != shard,
        decreases shards.len() - k,
    {
        if shards[k] == shard {
            assert(shards@[k as int] == shard);
            return true;
        }
        k += 1;
    }
    false
}

fn add_shard(shards: &mut Vec<ShardId>, shard: ShardId)
    requires
        old(shards)@.no_duplicates(),
    ensures
        final(shards)@.no_duplicates(),
        forall|x: ShardId| #[trigger]
            final(shards)@.contains(x) == (old(shards)@.contains(x) || x == shard),
{
    let ghost before = shards@;
    if !has_shard(shards, shard) {
        shards.push(shard);
        proof {
            assert forall|x: ShardId| #[trigger] shards@.contains(x) == (before.contains(x) || x == shard) by {
                if x == shard {
                    assert(shards@[before.len() as int] == x);
                } else if before.contains(x) {
                    let k = before.index_of(x);
                    assert(shards@[k] == x);
                } else if shards@.contains(x) {
                    let k = shards@.index_of(x);
                    assert(before[k] == x);
                }
            }
            assert forall|i: int, j: int| 0 <= i < shards@.len() && 0 <= j < shards@.len() && i != j implies shards@[i]
                != shards@[j] by {
                if i < before.len() {
                    assert(before.contains(before[i]));
                }
                if j < before.len() {
                    assert(before.contains(before[j]));
                }
            }
        }
    }
}

/// The shards that come into use, and those that a collection loses.
fn exchanged(
    current: &IdMap<DurableCollectionMetadata>,
    upsert: &IdMap<DurableCollectionMetadata>,
    ids: &Vec<GlobalId>,
) -> (r: (Vec<ShardId>, Vec<ShardId>))
    requires
        lists(ids@, upsert@.dom()),
    ensures
        r.1@.no_duplicates(),
        forall|shard: ShardId| #[trigger]
            r.0@.contains(shard) == is_gained(current@, upsert@, shard),
        forall|shard: ShardId| #[trigger]
            r.1@.contains(shard) == exists|id: GlobalId| #[trigger]
                loses(current@, upsert@, id, shard),
{
    let mut gained: Vec<ShardId> = Vec::new();
    let mut lost: Vec<ShardId> = Vec::new();
    let mut k: usize = 0;
    while k < ids.len()
        invariant
            k <= ids.len(),
            lists(ids@, upsert@.dom()),
            gained@.no_duplicates(),
            lost@.no_duplicates(),
            forall|shard: ShardId| #[trigger]
                gained@.contains(shard) == exists|j: int|
                    0 <= j < k && upsert@[#[trigger] ids@[j]].data_shard == shard && (
                    !current@.dom().contains(ids@[j]) || current@[ids@[j]].data_shard != shard),
            forall|shard: ShardId| #[trigger]
                lost@.contains(shard) == exists|j: int|
                    0 <= j < k && loses(current@, upsert@, #[trigger] ids@[j], shard),
        decreases ids.len() - k,
    {
        let id = ids[k];
        assert(upsert@.dom().contains(ids@[k as int]));
        let ghost was_gained = gained@;
        let ghost was_lost = lost@;
        if let Some(new) = upsert.get(id) {
            match current.get(id) {
                Some(old_metadata) => {
                    if old_metadata.data_shard != new.data_shard {
                        add_shard(&mut gained, new.data_shard);
                        add_shard(&mut lost, old_metadata.data_shard);
                    }
                    if let Some(old_shard) = old_metadata.remap_shard {
                        add_shard(&mut lost, old_shard);
                    }
                },
                // New collections, which might use an another collection's
                // dropped shard.
                None => {
                    add_shard(&mut gained, new.data_shard);
                },
            }
        }
        proof {
            assert forall|shard: ShardId| #[trigger] gained@.contains(shard) == exists|j: int|
                0 <= j < k + 1 && upsert@[#[trigger] ids@[j]].data_shard == shard && (
                !current@.dom().contains(ids@[j]) || current@[ids@[j]].data_shard != shard) by {
                let here = upsert@[id].data_shard == shard && (!current@.dom().contains(id)
                    || current@[id].data_shard != shard);
                assert(gained@.contains(shard) == (was_gained.contains(shard) || here));
                if here {
                    assert(ids@[k as int] == id);
                }
                if was_gained.contains(shard) {
                    let j = choose|j: int|
                        0 <= j < k && upsert@[#[trigger] ids@[j]].data_shard == shard && (
                        !current@.dom().contains(ids@[j]) || current@[ids@[j]].data_shard != shard);
                    assert(ids@[j] == ids@[j]);
                }
            }
            assert forall|shard: ShardId| #[trigger] lost@.contains(shard) == exists|j: int|
                0 <= j < k + 1 && loses(current@, upsert@, #[trigger] ids@[j], shard) by {
                let here = loses(current@, upsert@, id, shard);
                assert(lost@.contains(shard) == (was_lost.contains(shard) || here));
                if here {
                    assert(ids@[k as int] == id);
                }
                if was_lost.contains(shard) {
                    let j = choose|j: int|
                        0 <= j < k && loses(current@, upsert@, #[trigger] ids@[j], shard);
                    assert(ids@[j] == ids@[j]);
                }
            }
        }
        k += 1;
    }
    proof {
        assert forall|shard: ShardId| #[trigger] gained@.contains(shard) == is_gained(
            current@,
            upsert@,
            shard,
        ) by {
            if is_gained(current@, upsert@, shard) {
                let id = choose|id: GlobalId| #[trigger]
                    upsert@.dom().contains(id) && upsert@[id].data_shard == shard && (
                    !current@.dom().contains(id) || current@[id].data_shard != shard);
                assert(ids@.contains(id));
                let j = ids@.index_of(id);
                assert(ids@[j] == id);
            }
            if gained@.contains(shard) {
                let j = choose|j: int|
                    0 <= j < k && upsert@[#[trigger] ids@[j]].data_shard == shard && (
                    !current@.dom().contains(ids@[j]) || current@[ids@[j]].data_shard != shard);
                assert(upsert@.dom().contains(ids@[j]));
            }
        }
        assert forall|shard: ShardId| #[trigger] lost@.contains(shard) == exists|id: GlobalId| #[trigger]
            loses(current@, upsert@, id, shard) by {
            if exists|id: GlobalId| #[trigger] loses(current@, upsert@, id, shard) {
                let id = choose|id: GlobalId| #[trigger] loses(current@, upsert@, id, shard);
                assert(upsert@.dom().contains(id));
                assert(ids@.contains(id));
                let j = ids@.index_of(id);
                assert(ids@[j] == id);
            }
        }
    }
    (gained, lost)
}

/// The shards that are no longer used once metadata are replaced.
fn dropped_shards(gained: &Vec<ShardId>, lost: &Vec<ShardId>) -> (r: Vec<ShardId>)
    requires
        lost@.no_duplicates(),
    ensures
        r@.no_duplicates(),
        forall|shard: ShardId| #[trigger]
            r@.contains(shard) == (lost@.contains(shard) && !gained@.contains(shard)),
{
    let mut out: Vec<ShardId> = Vec::new();
    let mut k: usize = 0;
    while k < lost.len()
        invariant
            k <= lost.len(),
            out@.no_duplicates(),
            forall|shard: ShardId| #[trigger]
                out@.contains(shard) == (lost@.take(k as int).contains(shard) && !gained@.contains(shard)),
        decreases lost.len() - k,
    {
        let shard = lost[k];
        let ghost before = out@;
        if !has_shard(gained, shard) {
            add_shard(&mut out, shard);
        }
        proof {
            assert forall|x: ShardId| #[trigger] out@.contains(x) == (lost@.take(k + 1).contains(x)
                && !gained@.contains(x)) by {
                let now = lost@.take(k + 1);
                let was = lost@.take(k as int);
                if was.contains(x) {
                    let j = was.index_of(x);
                    assert(now[j] == x);
                }
                if now.contains(x) && x != shard {
                    let j = now.index_of(x);
                    assert(was[j] == x);
                }
                assert(now[k as int] == shard);
                assert(before.contains(x) == (was.contains(x) && !gained@.contains(x)));
            }
        }
        k += 1;
    }
    assert(lost@.take(k as int) =~= lost@);
    out
}

proof fn lemma_opened(opened: Seq<GlobalId>, reopen: Seq<GlobalId>, id: GlobalId, again: bool)
    requires
        opened.no_duplicates(),
        !opened.contains(id),
        reopen == (if again {
            opened.push(id)
        } else {
            opened
        }),
    ensures
        reopen.no_duplicates(),
        forall|x: GlobalId| #[trigger]
            reopen.contains(x) == (opened.contains(x) || (again && x == id)),
{
    if again {
        assert forall|i: int, j: int| 0 <= i < reopen.len() && 0 <= j < reopen.len() && i
            != j implies reopen[i] != reopen[j] by {
            if i < opened.len() && j < opened.len() {
                assert(opened[i] != opened[j]);
            } else if i < opened.len() {
                assert(opened.contains(opened[i]));
            } else if j < opened.len() {
                assert(opened.contains(opened[j]));
            }
        }
        assert forall|x: GlobalId| #[trigger] reopen.contains(x) == (opened.contains(x) || x == id) by {
            if opened.contains(x) {
                let j = opened.index_of(x);
                assert(reopen[j] == x);
            } else if x == id {
                assert(reopen[opened.len() as int] == id);
            } else if reopen.contains(x) {
                let j = reopen.index_of(x);
                assert(opened[j] == x);
            }
        }
    }
}

impl StorageControllerState {
    /// Replaces stored metadata of collections: updates `current` to hold `upsert`, and the
    /// collections to use the shards that it names. Shards that are no longer referenced are to
    /// be finalized.
    ///
    /// No source may be using the shards in the current metadata, and none those in the new
    /// metadata.
    pub fn upsert_collection_metadata(
        &mut self,
        current: &mut IdMap<DurableCollectionMetadata>,
        upsert: &IdMap<DurableCollectionMetadata>,
    ) -> (r: MetadataUpsert)
        requires
            forall|id: GlobalId| #[trigger]
                upsert@.dom().contains(id) ==> upsert@[id].remap_shard is None,
        ensures
            final(current)@ == old(current)@.union_prefer_right(upsert@),
            r.dropped_shards@.no_duplicates(),
            forall|shard: ShardId| #[trigger]
                r.dropped_shards@.contains(shard) == is_dropped(old(current)@, upsert@, shard),
            r.reopen@.no_duplicates(),
            forall|id: GlobalId| #[trigger]
                r.reopen@.contains(id) == is_reopened(old(self)@, old(current)@, upsert@, id),
            final(self)@ == with_metadata(old(self)@, old(current)@, upsert@),
    {
        let ghost start = current@;
        let ghost before = self@;
        let ids = upsert.ids();
        let (gained, lost) = exchanged(current, upsert, &ids);
        // Reconcile dropped shards reference with shards that moved into a new
        // collection.
        let dropped_shards = dropped_shards(&gained, &lost);
        let mut reopen: Vec<GlobalId> = Vec::new();
        let mut k: usize = 0;
        assert(current@ =~= start.union_prefer_right(Map::empty()));
        while k < ids.len()
            invariant
                k <= ids.len(),
                lists(ids@, upsert@.dom()),
                before == old(self)@,
                start == old(current)@,
                forall|id: GlobalId| #[trigger]
                    upsert@.dom().contains(id) ==> upsert@[id].remap_shard is None,
                forall|id: GlobalId| #[trigger]
                    current@.dom().contains(id) == (start.dom().contains(id) || ids@.take(
                        k as int,
                    ).contains(id)),
                forall|id: GlobalId| #[trigger]
                    current@.dom().contains(id) ==> current@[id] == (if ids@.take(k as int).contains(id) {
                        upsert@[id]
                    } else {
                        start[id]
                    }),
                reopen@.no_duplicates(),
                forall|id: GlobalId| #[trigger]
                    reopen@.contains(id) == (ids@.take(k as int).contains(id) && is_reopened(
                        before,
                        start,
                        upsert@,
                        id,
                    )),
                self@ == (StateView { collections: self@.collections, ..before }),
                self@.collections.dom() == before.collections.dom(),
                forall|id: GlobalId| #[trigger]
                    before.collections.dom().contains(id) ==> self@.collections[id] == (if ids@.take(
                        k as int,
                    ).contains(id) {
                        remapped(before.collections[id], start, upsert@, id)
                    } else {
                        before.collections[id]
                    }),
            decreases ids.len() - k,
        {
            let id = ids[k];
            let ghost done = ids@.take(k as int);
            let ghost now = ids@.take(k + 1);
            proof {
                assert(upsert@.dom().contains(ids@[k as int]));
                assert(now =~= done.push(id));
                assert(!done.contains(id)) by {
                    if done.contains(id) {
                        let j = done.index_of(id);
                        assert(ids@[j] == id);
                        assert(crate::storage_client::ids::id_rank(ids@[j])
                            < crate::storage_client::ids::id_rank(ids@[k as int]));
                    }
                }
                assert forall|x: GlobalId| now.contains(x) == (done.contains(x) || x == id) by {
                    if x == id {
                        assert(now[k as int] == id);
                    } else if done.contains(x) {
                        let j = done.index_of(x);
                        assert(now[j] == x);
                    } else if now.contains(x) {
                        let j = now.index_of(x);
                        assert(done[j] == x);
                    }
                }
            }
            let new = match upsert.get(id) {
                Some(m) => *m,
                None => DurableCollectionMetadata { remap_shard: None, data_shard: ShardId(0) },
            };
            let ghost had = self@.collections;
            let ghost opened = reopen@;
            let ghost again = is_reopened(before, start, upsert@, id);
            assert(current@.dom().contains(id) == start.dom().contains(id));
            if let Some(old_metadata) = current.get(id) {
                let replaces_data = old_metadata.data_shard != new.data_shard;
                let replaces_remap = old_metadata.remap_shard.is_some();
                if let Some(c) = self.collections.remove(id) {
                    let mut c = c;
                    let ghost was = c@;
                    let replaces_data = replaces_data && !c.dropped;
                    let replaces_remap = replaces_remap && !c.dropped;
                    assert(had.dom().contains(id));
                    assert(before.collections.dom().contains(id));
                    assert(had[id] == before.collections[id]);
                    assert(had[id] == was);
                    assert(again == replaces_data);
                    // Update the in-memory state.
                    if replaces_remap {
                        c.collection_metadata.remap_shard = new.remap_shard;
                    }
                    if replaces_data {
                        c.collection_metadata.data_shard = new.data_shard;
                        reopen.push(id);
                    }
                    assert(c@ == remapped(was, start, upsert@, id));
                    self.collections.insert(id, c);
                    assert(self@.collections =~= had.insert(id, c@));
                } else {
                    assert(self@.collections =~= had);
                    assert(!before.collections.dom().contains(id));
                }
            }
            proof {
                assert(self@.collections.dom() =~= before.collections.dom());
                assert(!opened.contains(id));
                lemma_opened(opened, reopen@, id, again);
                assert forall|x: GlobalId| #[trigger] reopen@.contains(x) == (now.contains(x)
                    && is_reopened(before, start, upsert@, x)) by {
                    assert(now.contains(x) == (done.contains(x) || x == id));
                    assert(opened.contains(x) == (done.contains(x) && is_reopened(
                        before,
                        start,
                        upsert@,
                        x,
                    )));
                }
            }
            current.insert(id, new);
            k += 1;
        }
        proof {
            assert(ids@.take(k as int) =~= ids@);
            assert forall|id: GlobalId| ids@.contains(id) == upsert@.dom().contains(id) by {
                if ids@.contains(id) {
                    let j = ids@.index_of(id);
                    assert(upsert@.dom().contains(ids@[j]));
                }
            }
            assert(current@ =~= start.union_prefer_right(upsert@));
            let described = Map::new(
                |id: GlobalId| before.collections.dom().contains(id),
                |id: GlobalId| remapped(before.collections[id], start, upsert@, id),
            );
            assert forall|id: GlobalId| #[trigger] before.collections.dom().contains(id) implies self@.collections[id]
                == described[id] by {}
            assert(self@.collections =~= described);
        }
        MetadataUpsert { dropped_shards, reopen }
    }
}

// Shards.

/// What is done about a shard that is to be finalized.
#[derive(Debug, Copy, Clone, PartialEq, Eq, Structural)]
pub enum Finalization {
    /// Someone may still read it: leave it for later.
    Leave,
    /// Close it first.
    Close,
    /// It is closed.
    Done,
}

/// What is done about a shard that is to be finalized, given from which frontier on it can be
/// read, and up to which it is written. If it cannot be read at all, no one has an outstanding
/// read hold, and it can be closed.
pub fn finalization(since: &Frontier, upper: &Frontier) -> (r: Finalization)
    ensures
        r == (if since@ is Some {
            Finalization::Leave
        } else if upper@ is Some {
            Finalization::Close
        } else {
            Finalization::Done
        }),
{
    if !since.is_empty() {
        Finalization::Leave
    } else if !upper.is_empty() {
        Finalization::Close
    } else {
        Finalization::Done
    }
}

/// The frontier from which on a shard that is opened can be read: the later one of where it can
/// be read and what is wanted.
pub fn opened_since(since: &Frontier, wanted: Option<&Frontier>) -> (r: Frontier)
    ensures
        r@ == frontier_join(
            since@,
            match wanted {
                Some(f) => f@,
                None => Some(0u64),
            },
        ),
{
    match wanted {
        Some(f) => since.join(f),
        None => since.join(&Frontier::from_elem(0)),
    }
}

} // verus!
