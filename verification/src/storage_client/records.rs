//! What holds of metadata that are stored, read back and replaced.

use vstd::prelude::*;

use crate::storage_client::creation::law_earliest;
use crate::storage_client::epoch::as_bits;
use crate::storage_client::history::{is_dropped, is_gained, is_reopened, loses, remapped};
use crate::storage_client::ids::{shard_text, uuid_text, GlobalId, ShardId};
use crate::storage_client::proto::{
    durable_read, export_read, is_durable_proto_of, is_export_proto, is_proto_of, metadata_read, shard_named,
    shard_of, shard_read, ProtoCollectionMetadata, ProtoDurableCollectionMetadata, ProtoDurableExportMetadata,
    ProtoErrorView,
};
use crate::storage_client::controller::StateView;
use crate::storage_client::state::CollectionView;
use crate::storage_client::types::{DurableCollectionMetadata, MetadataView};

verus! {

/// Whether a shard that may be missing is read back from what is written of it.
pub open spec fn is_readable(id: Option<ShardId>) -> bool {
    id is Some ==> shard_of(shard_text(id->0)) == id
}

/// Metadata that are stored keep each part in the field of its name, and are read back as they
/// were wherever the shards are.
pub proof fn law_metadata_read_back(p: ProtoCollectionMetadata, m: MetadataView)
    ensures
        is_proto_of(p, m) ==> {
            &&& p.blob_uri@ == m.blob_uri
            &&& p.consensus_uri@ == m.consensus_uri
            &&& p.data_shard@ == shard_text(m.data_shard)
            &&& p.remap_shard is Some == m.remap_shard is Some
            &&& p.remap_shard is Some ==> p.remap_shard->0@ == shard_text(m.remap_shard->0)
            &&& p.status_shard is Some == m.status_shard is Some
            &&& p.status_shard is Some ==> p.status_shard->0@ == shard_text(m.status_shard->0)
        },
        is_proto_of(p, m) && is_readable(Some(m.data_shard)) && is_readable(m.remap_shard) && is_readable(
            m.status_shard,
        ) ==> metadata_read(p) == Ok::<MetadataView, ProtoErrorView>(m),
{
}

/// Durable metadata that are stored are read back as they were wherever the shards are.
pub proof fn law_durable_read_back(p: ProtoDurableCollectionMetadata, m: DurableCollectionMetadata)
    ensures
        is_durable_proto_of(p, m) ==> {
            &&& p.data_shard@ == shard_text(m.data_shard)
            &&& p.remap_shard is Some == m.remap_shard is Some
            &&& p.remap_shard is Some ==> p.remap_shard->0@ == shard_text(m.remap_shard->0)
        },
        is_durable_proto_of(p, m) && is_readable(Some(m.data_shard)) && is_readable(m.remap_shard)
            ==> durable_read(p) == Ok::<DurableCollectionMetadata, ProtoErrorView>(m),
{
}

/// An export that is stored is read back with the time and the strictness that it starts with.
pub proof fn law_export_read_back(p: ProtoDurableExportMetadata, as_of: (Option<u64>, bool))
    ensures
        is_export_proto(p, as_of) ==> export_read(p) == Ok::<(Option<u64>, bool), ProtoErrorView>(as_of),
        p.initial_as_of is None ==> export_read(p) is Err,
{
    law_earliest(Seq::empty(), 0, as_of.0);
}

/// A shard is written as an `s` and its number, and a text that does not start so names none.
pub proof fn law_shard_texts(id: ShardId, s: Seq<char>)
    ensures
        shard_text(id).len() == 37,
        shard_text(id)[0] == 's',
        shard_text(id).drop_first() == uuid_text(id.0),
        forall|k: int|
            0 <= k < 36 ==> (#[trigger] uuid_text(id.0)[k] == '-') == (k == 8 || k == 13 || k == 18 || k == 23),
        shard_named(shard_text(id), Some(id.0)) == Some(id),
        s.len() == 0 || s[0] != 's' ==> shard_of(s) is None,
{
    reveal_strlit("s");
    assert(shard_text(id).drop_first() =~= uuid_text(id.0));
    assert forall|k: int| 0 <= k < 36 implies (#[trigger] uuid_text(id.0)[k] == '-') == (k == 8 || k == 13 || k
        == 18 || k == 23) by {}
}

/// A shard that is missing is read as none, and one that is not understood is an error.
pub proof fn law_missing_shard_read(s: Option<String>)
    ensures
        s is None ==> shard_read(s) == Ok::<Option<ShardId>, ProtoErrorView>(None),
        s is Some && shard_of(s->0@) is None ==> shard_read(s) == Err::<Option<ShardId>, ProtoErrorView>(
            ProtoErrorView::InvalidShardId(s->0@),
        ),
{
}

/// A shard is dropped where a collection moves away from it, or had it for its offsets, and no
/// collection moves to it; a shard that all its collections keep, or that one of them moves to,
/// is not.
pub proof fn law_shard_dropped(
    current: Map<GlobalId, DurableCollectionMetadata>,
    upsert: Map<GlobalId, DurableCollectionMetadata>,
    id: GlobalId,
    shard: ShardId,
)
    ensures
        upsert.dom().contains(id) && upsert[id].data_shard == shard && (!current.dom().contains(id)
            || current[id].data_shard != shard) ==> !is_dropped(current, upsert, shard),
        (forall|o: GlobalId| #[trigger]
            current.dom().contains(o) && upsert.dom().contains(o) ==> current[o].remap_shard != Some(shard) && (
            current[o].data_shard == shard ==> upsert[o].data_shard == shard)) ==> !is_dropped(
            current,
            upsert,
            shard,
        ),
        current.dom().contains(id) && upsert.dom().contains(id) && (current[id].remap_shard == Some(shard) || (
        current[id].data_shard == shard && upsert[id].data_shard != shard)) && (forall|o: GlobalId| #[trigger]
            upsert.dom().contains(o) && upsert[o].data_shard == shard ==> current.dom().contains(o)
                && current[o].data_shard == shard) ==> is_dropped(current, upsert, shard),
{
    if is_dropped(current, upsert, shard) {
        let o = choose|o: GlobalId| #[trigger] loses(current, upsert, o, shard);
        assert(current.dom().contains(o) && upsert.dom().contains(o));
    }
    if current.dom().contains(id) && upsert.dom().contains(id) && (current[id].remap_shard == Some(shard) || (
    current[id].data_shard == shard && upsert[id].data_shard != shard)) {
        assert(loses(current, upsert, id, shard));
    }
    if upsert.dom().contains(id) && upsert[id].data_shard == shard && (!current.dom().contains(id)
        || current[id].data_shard != shard) {
        assert(is_gained(current, upsert, shard));
    }
    if is_gained(current, upsert, shard) {
        let o = choose|o: GlobalId| #[trigger]
            upsert.dom().contains(o) && upsert[o].data_shard == shard && (!current.dom().contains(o)
                || current[o].data_shard != shard);
        assert(upsert.dom().contains(o));
    }
}

/// Once metadata are replaced a collection is in the shard that they name and has none for its
/// offsets; nothing else of it changes, and a dropped collection stays as it is.
pub proof fn law_metadata_replaced(
    c: CollectionView,
    current: Map<GlobalId, DurableCollectionMetadata>,
    upsert: Map<GlobalId, DurableCollectionMetadata>,
    id: GlobalId,
)
    ensures
        !upsert.dom().contains(id) || !current.dom().contains(id) || c.dropped ==> remapped(
            c,
            current,
            upsert,
            id,
        ) == c,
        upsert.dom().contains(id) && current.dom().contains(id) && !c.dropped
            && c.collection_metadata.data_shard == current[id].data_shard && c.collection_metadata.remap_shard
            == current[id].remap_shard ==> remapped(c, current, upsert, id) == (CollectionView {
            collection_metadata: MetadataView {
                data_shard: upsert[id].data_shard,
                remap_shard: None,
                ..c.collection_metadata
            },
            ..c
        }),
{
}

/// The data of a collection are opened anew exactly where the shard of a collection that is not
/// dropped changes.
pub proof fn law_reopened(
    s: StateView,
    current: Map<GlobalId, DurableCollectionMetadata>,
    upsert: Map<GlobalId, DurableCollectionMetadata>,
    id: GlobalId,
)
    requires
        s.collections.dom().contains(id),
        s.collections[id].collection_metadata.data_shard == current[id].data_shard,
    ensures
        is_reopened(s, current, upsert, id) == (remapped(
            s.collections[id],
            current,
            upsert,
            id,
        ).collection_metadata.data_shard != s.collections[id].collection_metadata.data_shard),
{
}

/// A signed number and the bits that stand for it differ by a multiple of what the bits can hold.
pub proof fn law_bits(n: i64)
    ensures
        0 <= as_bits(n as int) < 0x1_0000_0000_0000_0000,
        as_bits(n as int) % 0x1_0000_0000_0000_0000 == n as int % 0x1_0000_0000_0000_0000,
{
}

} // verus!
