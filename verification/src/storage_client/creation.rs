//! What holds of collections and exports that are created, and of what is asked for.

use vstd::prelude::*;

use crate::sql_parser::text::decimal;
use crate::sqllogictest::writing::{law_decimal, writes_number};
use crate::storage_client::changes::{first_time, hold_at, is_first, lemma_first_time, lemma_is_first};
use crate::storage_client::collections::{
    action_for, enriched, exports_of, imports_of, ingestion_error, measured, new_collection,
    output_ids, restarted,
};
use crate::storage_client::controller::StateView;
use crate::storage_client::exports::{
    export_created, export_error, first_export_error, new_export,
};
use crate::storage_client::frontier::{frontier_join, frontier_le, frontier_lt, frontier_meet};
use crate::storage_client::ids::{
    id_rank, id_text, instance_text, shard_text, GlobalId, StorageInstanceId,
};
use crate::storage_client::maintenance::{mappings_for, not_dropped, row_count, truncation_time};
use crate::storage_client::operations::{
    drop_policies, first_beyond, first_missing, has_beyond,
};
use crate::storage_client::policy::{Lag, PolicyView};
use crate::storage_client::proto::{earliest, times_of};
use crate::storage_client::resumption::{capped, refreshed};
use crate::storage_client::types::{
    dependencies_of, downgraded, DataSourceView, DescriptionView, DurableCollectionMetadata, ErrorView,
    ExportView, IngestionView, IntrospectionType, MetadataView, SourceEnvelope, TokenView,
};

verus! {

/// A new collection can be read from the since of its shard on, and no earlier; that is all that
/// holds it. It depends on nothing, has been written up to the upper of its shard, and is what it
/// is described as.
pub proof fn law_new_collection(d: DescriptionView, since: Option<u64>, upper: Option<u64>, m: MetadataView)
    ensures
        ({
            let c = new_collection(d, since, upper, m);
            &&& first_time(c.read_capabilities.counts) == since
            &&& c.implied_capability == since
            &&& c.read_policy == PolicyView::NoPolicy(since)
            &&& c.write_frontier == upper
            &&& c.storage_dependencies.len() == 0
            &&& c.description == d
            &&& c.collection_metadata == m
            &&& !c.dropped
        }),
{
    let counts = hold_at(since);
    lemma_first_time(counts);
    if let Some(t) = since {
        assert(counts[t] == 1);
        assert(is_first(counts, t));
        lemma_is_first(counts, t);
    }
}

/// Creating an ingestion starts the statistics of its collection and of all its outputs anew, and
/// those of no others; creating anything else starts none.
pub proof fn law_statistics_restarted(
    stats: Map<GlobalId, Seq<(usize, Seq<u8>)>>,
    d: DescriptionView,
    id: GlobalId,
    k: int,
    other: GlobalId,
)
    ensures
        ({
            let now = restarted(stats, measured(d, id));
            &&& d.data_source matches DataSourceView::Ingestion(i) ==> now.dom().contains(id)
                && now[id].len() == 0 && (0 <= k < i.source_exports.len() ==> now.dom().contains(
                i.source_exports[k].id,
            ) && now[i.source_exports[k].id].len() == 0)
            &&& !(d.data_source is Ingestion) ==> now == stats
            &&& stats.dom().contains(other) && !measured(d, id).contains(other) ==> now.dom().contains(other)
                && now[other] == stats[other]
            &&& now.dom().contains(other) && !stats.dom().contains(other) ==> d.data_source is Ingestion && (
            other == id || output_ids(d.data_source->Ingestion_0.source_exports).contains(other))
        }),
{
    let now = restarted(stats, measured(d, id));
    if !(d.data_source is Ingestion) {
        assert(now =~= stats);
    }
    if let DataSourceView::Ingestion(i) = d.data_source {
        if now.dom().contains(other) && !stats.dom().contains(other) && other != id {
            let j = choose|j: int|
                0 <= j < i.source_exports.len() && (#[trigger] i.source_exports[j]).id == other;
            assert(output_ids(i.source_exports)[j] == other);
        }
    }
}

/// An ingestion depends on its remap collection, and on the collection of its transactions where
/// its envelope names one; nothing else depends on anything.
pub proof fn law_dependencies(d: DescriptionView, id: GlobalId)
    ensures
        dependencies_of(d).contains(id) == (d.data_source matches DataSourceView::Ingestion(i) && (id
            == i.remap_collection_id || i.envelope == (SourceEnvelope::Debezium {
            tx_metadata_global_id: Some(id),
        }))),
{
    let deps = dependencies_of(d);
    if let DataSourceView::Ingestion(i) = d.data_source {
        if id == i.remap_collection_id {
            assert(deps[deps.len() - 1] == id);
        }
        if i.envelope == (SourceEnvelope::Debezium { tx_metadata_global_id: Some(id) }) {
            assert(deps[0] == id);
        }
        if deps.contains(id) {
            let k = deps.index_of(id);
            assert(deps[k] == id);
        }
    }
}

/// The metadata of a collection name the shard that is stored for it, those of the collections
/// that it names, and its schema; they are missing exactly where one of those is.
pub proof fn law_enriched(
    blob_uri: Seq<char>,
    consensus_uri: Seq<char>,
    durable: Map<GlobalId, DurableCollectionMetadata>,
    created: Set<GlobalId>,
    id: GlobalId,
    d: DescriptionView,
)
    ensures
        enriched(blob_uri, consensus_uri, durable, created, id, d) matches Ok(m) ==> {
            &&& m.data_shard == durable[id].data_shard
            &&& m.blob_uri == blob_uri
            &&& m.consensus_uri == consensus_uri
            &&& m.relation_desc == d.desc
            &&& (m.status_shard is Some) == (d.status_collection_id is Some)
            &&& d.status_collection_id matches Some(x) ==> m.status_shard == Some(durable[x].data_shard)
                && durable.dom().contains(x)
            &&& (m.remap_shard is Some) == (d.data_source is Ingestion)
            &&& d.data_source matches DataSourceView::Ingestion(i) ==> m.remap_shard == Some(
                durable[i.remap_collection_id].data_shard,
            ) && durable.dom().contains(i.remap_collection_id)
        },
        enriched(blob_uri, consensus_uri, durable, created, id, d) matches Err(x) ==> (
        d.status_collection_id == Some(x) || (d.data_source matches DataSourceView::Ingestion(i)
            && i.remap_collection_id == x)) && (!durable.dom().contains(x) || created.contains(x)),
{
}

/// The first of several identifiers that is missing is missing, and none before it is.
pub proof fn law_first_missing(set: Set<GlobalId>, ids: Seq<GlobalId>, k: int)
    ensures
        first_missing(set, ids) is None && 0 <= k < ids.len() ==> set.contains(ids[k]),
        first_missing(set, ids) matches Some(x) ==> !set.contains(x) && exists|j: int|
            0 <= j < ids.len() && #[trigger] ids[j] == x && forall|i: int|
                0 <= i < j ==> set.contains(#[trigger] ids[i]),
    decreases ids.len(),
{
    if ids.len() > 0 {
        if !set.contains(ids[0]) {
            assert(ids[0] == first_missing(set, ids)->0);
        } else {
            let rest = ids.drop_first();
            law_first_missing(set, rest, k - 1);
            if let Some(x) = first_missing(set, ids) {
                let j = choose|j: int|
                    0 <= j < rest.len() && #[trigger] rest[j] == x && forall|i: int|
                        0 <= i < j ==> set.contains(#[trigger] rest[i]);
                assert(ids[j + 1] == x);
                assert forall|i: int| 0 <= i < j + 1 implies set.contains(#[trigger] ids[i]) by {
                    if i > 0 {
                        assert(rest[i - 1] == ids[i]);
                    }
                }
            } else if 0 <= k < ids.len() && k > 0 {
                assert(rest[k - 1] == ids[k]);
            }
        }
    }
}

/// An ingestion is accepted exactly where all that it reads and writes exists, its instance is
/// known, and it does not ask for a disk that there is not.
pub proof fn law_ingestion_accepted(s: StateView, id: GlobalId, i: IngestionView)
    ensures
        (ingestion_error(s, id, i) is None) == ({
            &&& forall|k: int|
                0 <= k < i.source_imports.len() ==> s.collections.dom().contains(#[trigger] i.source_imports[k])
            &&& s.collections.dom().contains(id)
            &&& forall|k: int|
                0 <= k < i.source_exports.len() ==> s.collections.dom().contains(
                    (#[trigger] i.source_exports[k]).id,
                )
            &&& s.clients.contains(i.instance_id)
            &&& i.envelope == (SourceEnvelope::Upsert { disk: true }) ==> s.scratch_directory_enabled
        }),
        ingestion_error(s, id, i) matches Some(ErrorView::IdentifierMissing(x))
            ==> !s.collections.dom().contains(x) && (x == id || i.source_imports.contains(x) || output_ids(
            i.source_exports,
        ).contains(x)),
{
    let known = s.collections.dom();
    let outputs = output_ids(i.source_exports);
    law_first_missing(known, i.source_imports, 0);
    law_first_missing(known, outputs, 0);
    if first_missing(known, i.source_imports) is None {
        assert forall|k: int| 0 <= k < i.source_imports.len() implies known.contains(
            #[trigger] i.source_imports[k],
        ) by {
            law_first_missing(known, i.source_imports, k);
        }
    }
    if first_missing(known, outputs) is None {
        assert forall|k: int| 0 <= k < i.source_exports.len() implies known.contains(
            (#[trigger] i.source_exports[k]).id,
        ) by {
            law_first_missing(known, outputs, k);
            assert(outputs[k] == i.source_exports[k].id);
        }
    } else {
        let x = first_missing(known, outputs)->0;
        let j = choose|j: int|
            0 <= j < outputs.len() && #[trigger] outputs[j] == x && forall|l: int|
                0 <= l < j ==> known.contains(#[trigger] outputs[l]);
        assert(i.source_exports[j].id == x);
    }
}

/// An ingestion is told of each collection that it reads and of each that it writes, in order,
/// with its output and the metadata that it has.
pub proof fn law_ingestion_uses(s: StateView, i: IngestionView, k: int)
    ensures
        imports_of(s, i).len() == i.source_imports.len(),
        exports_of(s, i).len() == i.source_exports.len(),
        0 <= k < i.source_imports.len() ==> imports_of(s, i)[k] == (
            i.source_imports[k],
            None::<usize>,
            s.collections[i.source_imports[k]].collection_metadata,
        ),
        0 <= k < i.source_exports.len() ==> exports_of(s, i)[k] == (
            i.source_exports[k].id,
            Some(i.source_exports[k].output_index),
            s.collections[i.source_exports[k].id].collection_metadata,
        ),
{
}

/// Requests to create exports are accepted exactly where no export is asked for twice, none is
/// there with another description, and each reads the collection that it was prepared for.
pub proof fn law_exports_accepted(s: StateView, asked: Seq<(TokenView, ExportView)>, from: int)
    requires
        0 <= from <= asked.len(),
    ensures
        (first_export_error(s, asked, from) is None) == (forall|k: int|
            from <= k < asked.len() ==> {
                &&& forall|j: int| 0 <= j < k ==> (#[trigger] asked[j]).0.id != asked[k].0.id
                &&& s.exports.dom().contains(asked[k].0.id) ==> s.exports[asked[k].0.id].description
                    == asked[k].1
                &&& (#[trigger] asked[k]).1.from == asked[k].0.from_id
            }),
    decreases asked.len() - from,
{
    if from < asked.len() {
        law_exports_accepted(s, asked, from + 1);
        assert(asked[from] == asked[from]);
        if export_error(s, asked, from) is None {
            assert forall|j: int| 0 <= j < from implies (#[trigger] asked[j]).0.id != asked[from].0.id by {}
        }
    }
}

/// A new export holds its collection where it was prepared to, follows what it has written one
/// step behind, and starts from nothing written.
pub proof fn law_new_export(token: TokenView, d: ExportView)
    ensures
        ({
            let e = new_export(token, d);
            &&& e.read_capability == token.acquired_since
            &&& e.read_policy == PolicyView::LagWriteFrontier(Lag::StepBack)
            &&& e.storage_dependencies == seq![token.from_id]
            &&& e.write_frontier == Some(0u64)
            &&& e.description == d
        }),
{
}

/// An export is entered exactly where its collection exists; that all is well with it is said
/// exactly where its status collection and its instance exist too.
pub proof fn law_export_created(s: StateView, token: TokenView, d: ExportView)
    ensures
        ({
            let (t, error) = export_created(s, token, d);
            &&& !s.collections.dom().contains(token.from_id) ==> t == s && error == Some(
                ErrorView::IdentifierMissing(token.from_id),
            )
            &&& s.collections.dom().contains(token.from_id) ==> t.exports == s.exports.insert(
                token.id,
                new_export(token, d),
            ) && t.collections == s.collections
            &&& (error is None) == (s.collections.dom().contains(token.from_id) && s.clients.contains(
                d.instance_id,
            ) && (d.status_id matches Some(x) ==> s.collections.dom().contains(x)))
            &&& error is None ==> t.sink_statistics == s.sink_statistics.insert(token.id, Seq::empty())
            &&& error is Some ==> t.sink_statistics == s.sink_statistics
        }),
{
}

/// A sink never starts before its collection can be read; where it has to start later than it was
/// to, the updates at its new start are left out.
pub proof fn law_sink_start(as_of: (Option<u64>, bool), since: Option<u64>)
    ensures
        frontier_le(since, downgraded(as_of, since).0),
        frontier_le(as_of.0, downgraded(as_of, since).0),
        frontier_lt(since, as_of.0) ==> downgraded(as_of, since) == as_of,
        frontier_le(as_of.0, since) ==> downgraded(as_of, since) == (since, true),
{
}

/// Dropping sources gives up exactly those that exist, in order.
pub proof fn law_drop_policies(s: StateView, ids: Seq<GlobalId>)
    ensures
        drop_policies(s, ids) == ids.filter(|id: GlobalId| s.collections.dom().contains(id)).map_values(
            |id: GlobalId| (id, PolicyView::ValidFrom(None)),
        ),
    decreases ids.len(),
{
    reveal(Seq::filter);
    let known = |id: GlobalId| s.collections.dom().contains(id);
    let f = |id: GlobalId| (id, PolicyView::ValidFrom(None));
    if ids.len() > 0 {
        law_drop_policies(s, ids.drop_last());
        let front = ids.drop_last().filter(known);
        assert(front.push(ids.last()).map_values(f) =~= front.map_values(f).push(f(ids.last())));
    }
    assert(drop_policies(s, ids) =~= ids.filter(known).map_values(f));
}

/// Appending is refused exactly where some update is at or beyond the upper that it is appended
/// with.
pub proof fn law_beyond_upper(commands: Seq<(GlobalId, Vec<u64>, u64)>)
    ensures
        (first_beyond(commands) is None) == (forall|k: int, j: int|
            #![trigger commands[k].1@[j]]
            0 <= k < commands.len() && 0 <= j < commands[k].1@.len() ==> commands[k].1@[j] < commands[k].2),
    decreases commands.len(),
{
    if commands.len() > 0 {
        let rest = commands.drop_first();
        law_beyond_upper(rest);
        assert forall|k: int| 0 <= k < rest.len() implies #[trigger] rest[k] == commands[k + 1] by {}
        if has_beyond(commands[0].1@, commands[0].2) {
            let j = choose|j: int|
                0 <= j < commands[0].1@.len() && #[trigger] commands[0].1@[j] >= commands[0].2;
            assert(commands[0].1@[j] >= commands[0].2);
        } else if first_beyond(commands) is None {
            assert forall|k: int, j: int|
                #![trigger commands[k].1@[j]]
                0 <= k < commands.len() && 0 <= j < commands[k].1@.len() implies commands[k].1@[j]
                < commands[k].2 by {
                if k > 0 {
                    assert(rest[k - 1].1@[j] < rest[k - 1].2);
                } else {
                    assert(commands[0].1@[j] < commands[0].2);
                }
            }
        } else {
            let (k, j) = choose|k: int, j: int|
                #![trigger rest[k].1@[j]]
                0 <= k < rest.len() && 0 <= j < rest[k].1@.len() && rest[k].1@[j] >= rest[k].2;
            assert(commands[k + 1].1@[j] >= commands[k + 1].2);
        }
    }
}

/// The rows of the mapping from collections to shards name each collection and its data shard,
/// each with the same sign.
pub proof fn law_mappings(s: StateView, ids: Seq<GlobalId>, diff: i64, k: int)
    requires
        0 <= k < ids.len(),
    ensures
        mappings_for(s, ids, diff).len() == ids.len(),
        mappings_for(s, ids, diff)[k] == (
            id_text(ids[k]),
            shard_text(s.collections[ids[k]].collection_metadata.data_shard),
            diff,
        ),
{
}

/// Collections that were dropped are left out of the mapping, all others are in it, in order.
pub proof fn law_not_dropped(s: StateView, ids: Seq<GlobalId>)
    ensures
        not_dropped(s, ids) == ids.filter(|id: GlobalId| !s.collections[id].dropped),
    decreases ids.len(),
{
    reveal(Seq::filter);
    if ids.len() > 0 {
        law_not_dropped(s, ids.drop_last());
    }
    assert(not_dropped(s, ids) =~= ids.filter(|id: GlobalId| !s.collections[id].dropped));
}

/// What is to be read of a collection before it is truncated is what was there at the last time
/// that was written.
pub proof fn law_truncation_time(upper: Option<u64>)
    ensures
        truncation_time(upper) matches Some(t) ==> upper == Some((t + 1) as u64) && t < u64::MAX,
        truncation_time(upper) is None ==> upper is None || upper == Some(0u64),
{
}

/// Counts of rows add up.
pub proof fn law_row_counts(a: Seq<(Seq<u8>, i64)>, b: Seq<(Seq<u8>, i64)>, row: Seq<u8>, diff: i64)
    ensures
        row_count(a + b, row) == row_count(a, row) + row_count(b, row),
        row_count(seq![(row, diff)], row) == diff,
        forall|other: Seq<u8>| other != row ==> #[trigger] row_count(seq![(row, diff)], other) == 0,
        row_count(Seq::empty(), row) == 0,
    decreases b.len(),
{
    let one = seq![(row, diff)];
    assert(one.drop_last() =~= Seq::empty());
    reveal_with_fuel(row_count, 2);
    if b.len() > 0 {
        law_row_counts(a, b.drop_last(), row, diff);
        assert((a + b).drop_last() =~= a + b.drop_last());
    } else {
        assert(a + b =~= a);
    }
}

/// Each kind of introspection has its own action, and only the status history of sinks has none.
pub proof fn law_introspection_actions(i: IntrospectionType, j: IntrospectionType)
    ensures
        i != j ==> action_for(i) != action_for(j),
        (action_for(i) is Nothing) == (i == IntrospectionType::SinkStatusHistory),
        action_for(IntrospectionType::ShardMapping) is InitializeShardMapping,
        action_for(IntrospectionType::SourceStatusHistory) is ReconcileSourceStatusHistory,
        action_for(IntrospectionType::StorageSourceStatistics) is ScrapeSourceStatistics,
        action_for(IntrospectionType::StorageSinkStatistics) is ScrapeSinkStatistics,
{
}

/// Different identifiers are written differently: a letter for the namespace and the number in
/// the decimal system.
pub proof fn law_ids_written(n: u64)
    ensures
        id_text(GlobalId::User(n))[0] == 'u' && writes_number(id_text(GlobalId::User(n)).skip(1), n as int),
        id_text(GlobalId::System(n))[0] == 's' && writes_number(
            id_text(GlobalId::System(n)).skip(1),
            n as int,
        ),
        id_text(GlobalId::Transient(n))[0] == 't' && writes_number(
            id_text(GlobalId::Transient(n)).skip(1),
            n as int,
        ),
        instance_text(StorageInstanceId::User(n)) == id_text(GlobalId::User(n)),
        instance_text(StorageInstanceId::System(n)) == id_text(GlobalId::System(n)),
{
    reveal_strlit("s");
    reveal_strlit("u");
    reveal_strlit("t");
    law_decimal(n as nat);
    assert(id_text(GlobalId::User(n)).skip(1) =~= decimal(n as nat));
    assert(id_text(GlobalId::System(n)).skip(1) =~= decimal(n as nat));
    assert(id_text(GlobalId::Transient(n)).skip(1) =~= decimal(n as nat));
}

/// Identifiers are ordered by their namespaces, system, user, transient, and then by their
/// numbers.
pub proof fn law_id_order(m: u64, n: u64)
    ensures
        id_rank(GlobalId::System(m)) < id_rank(GlobalId::User(n)),
        id_rank(GlobalId::User(m)) < id_rank(GlobalId::Transient(n)),
        id_rank(GlobalId::Transient(m)) < id_rank(GlobalId::Explain),
        (id_rank(GlobalId::User(m)) < id_rank(GlobalId::User(n))) == (m < n),
        (id_rank(GlobalId::System(m)) < id_rank(GlobalId::System(n))) == (m < n),
        (id_rank(GlobalId::Transient(m)) < id_rank(GlobalId::Transient(n))) == (m < n),
{
}

/// Times make the frontier of the earliest one; the times of a frontier make that frontier.
pub proof fn law_earliest(times: Seq<u64>, k: int, f: Option<u64>)
    ensures
        0 <= k < times.len() ==> frontier_le(earliest(times), Some(times[k])),
        earliest(times) matches Some(t) ==> times.contains(t),
        times.len() > 0 ==> earliest(times) is Some,
        earliest(times_of(f)) == f,
    decreases times.len(),
{
    reveal_with_fuel(earliest, 2);
    if let Some(t) = f {
        assert(seq![t].drop_last() =~= Seq::empty());
    }
    if times.len() > 0 {
        let front = times.drop_last();
        law_earliest(front, k, f);
        if let Some(t) = earliest(front) {
            let j = front.index_of(t);
            assert(times[j] == t);
        }
        assert(times[times.len() - 1] == times.last());
    }
}

/// Uppers that were fetched take the place of those that were known; no upper that is reported is
/// beyond the frontier that it is capped at, and none is moved further back than that.
pub proof fn law_uppers_reported(
    uppers: Map<GlobalId, Option<u64>>,
    fetched: Map<GlobalId, Option<u64>>,
    at: Option<u64>,
    id: GlobalId,
)
    requires
        uppers.dom().contains(id),
    ensures
        fetched.dom().contains(id) ==> refreshed(uppers, fetched)[id] == fetched[id],
        !fetched.dom().contains(id) ==> refreshed(uppers, fetched)[id] == uppers[id],
        refreshed(uppers, fetched).dom() == uppers.dom(),
        frontier_le(capped(uppers, at)[id], at),
        frontier_le(capped(uppers, at)[id], uppers[id]),
        capped(uppers, at)[id] == at || capped(uppers, at)[id] == uppers[id],
{
    assert(refreshed(uppers, fetched).dom() =~= uppers.dom());
}

/// Of two frontiers, the later and the earlier one are those: each is one of them, and they lie
/// on both sides.
pub proof fn law_frontier_order(a: Option<u64>, b: Option<u64>)
    ensures
        frontier_le(a, frontier_join(a, b)) && frontier_le(b, frontier_join(a, b)),
        frontier_le(frontier_meet(a, b), a) && frontier_le(frontier_meet(a, b), b),
        frontier_join(a, b) == a || frontier_join(a, b) == b,
        frontier_meet(a, b) == a || frontier_meet(a, b) == b,
        frontier_le(a, None),
        a matches Some(s) ==> b matches Some(t) ==> frontier_le(a, b) == (s <= t),
        a is None && b is Some ==> !frontier_le(a, b),
{
}

} // verus!
