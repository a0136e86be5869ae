//! What is sent and stored of metadata.

use vstd::prelude::*;

use crate::sql_parser::text::{chars_of, no_text, text_of};
use crate::storage_client::frontier::{frontier_meet, Frontier};
use crate::storage_client::ids::{shard_text, uuid_text, ShardId};
use crate::storage_client::types::{
    copy_bytes, CollectionMetadata, DurableCollectionMetadata, DurableExportMetadata, MetadataView,
    PersistLocation, RelationDesc, SinkAsOf,
};

verus! {

/// [`CollectionMetadata`] as it is sent and stored.
#[derive(Debug)]
pub struct ProtoCollectionMetadata {
    pub blob_uri: String,
    pub consensus_uri: String,
    pub data_shard: String,
    pub remap_shard: Option<String>,
    pub status_shard: Option<String>,
    pub relation_desc: Option<Vec<u8>>,
}

/// [`DurableCollectionMetadata`] as it is stored.
#[derive(Debug)]
pub struct ProtoDurableCollectionMetadata {
    pub remap_shard: Option<String>,
    pub data_shard: String,
}

/// Why something that was sent or stored could not be read.
#[derive(Debug)]
pub enum TryFromProtoError {
    InvalidShardId(String),
    MissingField(String),
}

/// What a [`TryFromProtoError`] stands for.
pub enum ProtoErrorView {
    InvalidShardId(Seq<char>),
    MissingField(Seq<char>),
}

impl View for TryFromProtoError {
    type V = ProtoErrorView;

    open spec fn view(&self) -> ProtoErrorView {
        match self {
            TryFromProtoError::InvalidShardId(s) => ProtoErrorView::InvalidShardId(s@),
            TryFromProtoError::MissingField(s) => ProtoErrorView::MissingField(s@),
        }
    }
}

/// How an error is shown.
pub open spec fn proto_error_text(e: ProtoErrorView) -> Seq<char> {
    match e {
        ProtoErrorView::InvalidShardId(s) => no_text() + "Invalid value of ShardId found: "@ + s,
        ProtoErrorView::MissingField(s) => no_text() + "Missing value for `"@ + s + "`"@,
    }
}

impl TryFromProtoError {
    /// How the error is shown.
    pub fn to_text(&self) -> (r: String)
        ensures
            r@ == proto_error_text(self@),
    {
        match self {
            TryFromProtoError::InvalidShardId(s) => String::new().concat(
                "Invalid value of ShardId found: ",
            ).concat(s.as_str()),
            TryFromProtoError::MissingField(s) => String::new().concat("Missing value for `").concat(
                s.as_str(),
            ).concat("`"),
        }
    }
}

/// The universally unique number that a text is, if it is one.
pub uninterp spec fn uuid_number(s: Seq<char>) -> Option<u128>;

/// Whether what was read from a text that writes a number out is that number.
pub open spec fn reads_back(s: Seq<char>, r: Option<u128>) -> bool {
    forall|n: u128| s == #[trigger] uuid_text(n) ==> r == Some(n)
}

/// `uuid::Uuid::parse_str` depends on the text alone, and reads back what the display
/// formatting writes.
#[verifier::external_body]
fn parse_uuid(s: &str) -> (r: Option<u128>)
    ensures
        r == uuid_number(s@),
        reads_back(s@, r),
{
    uuid::Uuid::parse_str(s).ok().map(|u| u.as_u128())
}

/// The shard that a text names, given what number its rest is.
pub open spec fn shard_named(s: Seq<char>, number: Option<u128>) -> Option<ShardId> {
    if s.len() > 0 && s[0] == 's' {
        match number {
            Some(n) => Some(ShardId(n)),
            None => None,
        }
    } else {
        None
    }
}

/// The shard that a text names.
pub open spec fn shard_of(s: Seq<char>) -> Option<ShardId> {
    shard_named(s, uuid_number(s.drop_first()))
}

/// Reads the text that names a shard.
pub fn parse_shard(s: &str) -> (r: Option<ShardId>)
    ensures
        r == shard_of(s@),
        forall|id: ShardId| s@ == #[trigger] shard_text(id) ==> r == Some(id),
{
    let cs = chars_of(s);
    proof {
        reveal_strlit("s");
        assert forall|id: ShardId| s@ == #[trigger] shard_text(id) implies s@.drop_first()
            == uuid_text(id.0) && s@.len() > 0 && s@[0] == 's' by {
            assert(s@.drop_first() =~= uuid_text(id.0));
        }
    }
    if cs.len() == 0 || cs[0] != 's' {
        return None;
    }
    let rest = text_of(&cs, 1, cs.len());
    assert(rest@ =~= s@.drop_first());
    match parse_uuid(rest.as_str()) {
        Some(n) => Some(ShardId(n)),
        None => None,
    }
}

/// What is sent and stored of metadata.
pub open spec fn is_proto_of(p: ProtoCollectionMetadata, m: MetadataView) -> bool {
    &&& p.blob_uri@ == m.blob_uri
    &&& p.consensus_uri@ == m.consensus_uri
    &&& p.data_shard@ == shard_text(m.data_shard)
    &&& is_shard_text(p.remap_shard, m.remap_shard)
    &&& is_shard_text(p.status_shard, m.status_shard)
    &&& p.relation_desc matches Some(d) && d@ == m.relation_desc
}

/// Whether a text that may be missing names a shard that may be missing.
pub open spec fn is_shard_text(s: Option<String>, id: Option<ShardId>) -> bool {
    match (s, id) {
        (Some(s), Some(id)) => s@ == shard_text(id),
        (None, None) => true,
        _ => false,
    }
}

fn shard_string(id: Option<ShardId>) -> (r: Option<String>)
    ensures
        is_shard_text(r, id),
{
    match id {
        Some(id) => Some(id.to_text()),
        None => None,
    }
}

/// The shard that a text that may be missing names.
pub open spec fn shard_read(s: Option<String>) -> Result<Option<ShardId>, ProtoErrorView> {
    match s {
        None => Ok(None),
        Some(s) => match shard_of(s@) {
            Some(id) => Ok(Some(id)),
            None => Err(ProtoErrorView::InvalidShardId(s@)),
        },
    }
}

fn read_shard(s: Option<String>) -> (r: Result<Option<ShardId>, TryFromProtoError>)
    ensures
        match r {
            Ok(id) => shard_read(s) == Ok::<Option<ShardId>, ProtoErrorView>(id),
            Err(e) => shard_read(s) == Err::<Option<ShardId>, ProtoErrorView>(e@),
        },
        forall|id: Option<ShardId>| #[trigger] is_shard_text(s, id) ==> r == Ok::<
            Option<ShardId>,
            TryFromProtoError,
        >(id),
{
    match s {
        None => Ok(None),
        Some(s) => match parse_shard(s.as_str()) {
            Some(id) => Ok(Some(id)),
            None => Err(TryFromProtoError::InvalidShardId(s)),
        },
    }
}

/// What is read of metadata: the shards are read in order, and then the schema.
pub open spec fn metadata_read(value: ProtoCollectionMetadata) -> Result<MetadataView, ProtoErrorView> {
    match (shard_read(value.remap_shard), shard_of(value.data_shard@), shard_read(value.status_shard)) {
        (Err(e), _, _) => Err(e),
        (_, None, _) => Err(ProtoErrorView::InvalidShardId(value.data_shard@)),
        (_, _, Err(e)) => Err(e),
        (Ok(remap_shard), Some(data_shard), Ok(status_shard)) => match value.relation_desc {
            Some(encoded) => Ok(
                MetadataView {
                    blob_uri: value.blob_uri@,
                    consensus_uri: value.consensus_uri@,
                    remap_shard,
                    data_shard,
                    status_shard,
                    relation_desc: encoded@,
                },
            ),
            None => Err(ProtoErrorView::MissingField("ProtoCollectionMetadata::relation_desc"@)),
        },
    }
}

/// What is read of durable metadata: the shards are read in order.
pub open spec fn durable_read(value: ProtoDurableCollectionMetadata) -> Result<
    DurableCollectionMetadata,
    ProtoErrorView,
> {
    match (shard_read(value.remap_shard), shard_of(value.data_shard@)) {
        (Err(e), _) => Err(e),
        (_, None) => Err(ProtoErrorView::InvalidShardId(value.data_shard@)),
        (Ok(remap_shard), Some(data_shard)) => Ok(DurableCollectionMetadata { remap_shard, data_shard }),
    }
}

impl CollectionMetadata {
    /// The metadata as it is sent and stored.
    pub fn into_proto(&self) -> (r: ProtoCollectionMetadata)
        ensures
            is_proto_of(r, self@),
    {
        ProtoCollectionMetadata {
            blob_uri: self.persist_location.blob_uri.clone(),
            consensus_uri: self.persist_location.consensus_uri.clone(),
            data_shard: self.data_shard.to_text(),
            remap_shard: shard_string(self.remap_shard),
            status_shard: shard_string(self.status_shard),
            relation_desc: Some(copy_bytes(&self.relation_desc.encoded)),
        }
    }

    /// Reads metadata as it is sent and stored. What was written is read back.
    pub fn from_proto(value: ProtoCollectionMetadata) -> (r: Result<CollectionMetadata, TryFromProtoError>)
        ensures
            match r {
                Ok(m) => metadata_read(value) == Ok::<MetadataView, ProtoErrorView>(m@),
                Err(e) => metadata_read(value) == Err::<MetadataView, ProtoErrorView>(e@),
            },
            forall|m: MetadataView| #[trigger] is_proto_of(value, m) ==> (r matches Ok(n) && n@ == m),
    {
        let remap_shard = match read_shard(value.remap_shard) {
            Ok(id) => id,
            Err(e) => {
                return Err(e);
            },
        };
        let data_shard = match parse_shard(value.data_shard.as_str()) {
            Some(id) => id,
            None => {
                return Err(TryFromProtoError::InvalidShardId(value.data_shard));
            },
        };
        let status_shard = match read_shard(value.status_shard) {
            Ok(id) => id,
            Err(e) => {
                return Err(e);
            },
        };
        match value.relation_desc {
            Some(encoded) => Ok(
                CollectionMetadata {
                    persist_location: PersistLocation {
                        blob_uri: value.blob_uri,
                        consensus_uri: value.consensus_uri,
                    },
                    remap_shard,
                    data_shard,
                    status_shard,
                    relation_desc: RelationDesc { encoded },
                },
            ),
            None => Err(
                TryFromProtoError::MissingField(
                    String::from_str("ProtoCollectionMetadata::relation_desc"),
                ),
            ),
        }
    }
}

/// What is stored of durable metadata.
pub open spec fn is_durable_proto_of(p: ProtoDurableCollectionMetadata, m: DurableCollectionMetadata) -> bool {
    p.data_shard@ == shard_text(m.data_shard) && is_shard_text(p.remap_shard, m.remap_shard)
}

impl DurableCollectionMetadata {
    /// The metadata as it is stored.
    pub fn into_proto(&self) -> (r: ProtoDurableCollectionMetadata)
        ensures
            is_durable_proto_of(r, *self),
    {
        ProtoDurableCollectionMetadata {
            remap_shard: shard_string(self.remap_shard),
            data_shard: self.data_shard.to_text(),
        }
    }

    /// Reads metadata as it is stored. What was written is read back.
    pub fn from_proto(value: ProtoDurableCollectionMetadata) -> (r: Result<
        DurableCollectionMetadata,
        TryFromProtoError,
    >)
        ensures
            match r {
                Ok(m) => durable_read(value) == Ok::<DurableCollectionMetadata, ProtoErrorView>(m),
                Err(e) => durable_read(value) == Err::<DurableCollectionMetadata, ProtoErrorView>(e@),
            },
            forall|m: DurableCollectionMetadata| #[trigger] is_durable_proto_of(value, m) ==> (r matches Ok(n)
                && n == m),
    {
        let remap_shard = match read_shard(value.remap_shard) {
            Ok(id) => id,
            Err(e) => {
                return Err(e);
            },
        };
        match parse_shard(value.data_shard.as_str()) {
            Some(data_shard) => Ok(DurableCollectionMetadata { remap_shard, data_shard }),
            None => Err(TryFromProtoError::InvalidShardId(value.data_shard)),
        }
    }
}

/// [`SinkAsOf`] as it is stored.
#[derive(Debug)]
pub struct ProtoSinkAsOf {
    /// The times of the frontier.
    pub frontier: Option<Vec<u64>>,
    pub strict: bool,
}

/// [`DurableExportMetadata`] as it is stored.
#[derive(Debug)]
pub struct ProtoDurableExportMetadata {
    pub initial_as_of: Option<ProtoSinkAsOf>,
}

/// The frontier that times make: the earliest of them.
pub open spec fn earliest(times: Seq<u64>) -> Option<u64>
    decreases times.len(),
{
    if times.len() == 0 {
        None
    } else {
        frontier_meet(earliest(times.drop_last()), Some(times.last()))
    }
}

/// The times of a frontier.
pub open spec fn times_of(f: Option<u64>) -> Seq<u64> {
    match f {
        Some(t) => seq![t],
        None => Seq::empty(),
    }
}

/// What is stored of where a sink starts.
pub open spec fn is_as_of_proto(p: ProtoSinkAsOf, as_of: (Option<u64>, bool)) -> bool {
    p.strict == as_of.1 && (p.frontier matches Some(times) && times@ == times_of(as_of.0))
}

/// What is stored of an export.
pub open spec fn is_export_proto(p: ProtoDurableExportMetadata, as_of: (Option<u64>, bool)) -> bool {
    p.initial_as_of matches Some(a) && is_as_of_proto(a, as_of)
}

/// What is read of an export: where it starts.
pub open spec fn export_read(value: ProtoDurableExportMetadata) -> Result<
    (Option<u64>, bool),
    ProtoErrorView,
> {
    match value.initial_as_of {
        None => Err(ProtoErrorView::MissingField("ProtoDurableExportMetadata::initial_as_of"@)),
        Some(p) => match p.frontier {
            None => Err(ProtoErrorView::MissingField("ProtoSinkAsOf::frontier"@)),
            Some(times) => Ok((earliest(times@), p.strict)),
        },
    }
}

fn read_frontier(times: &Vec<u64>) -> (r: Frontier)
    ensures
        r@ == earliest(times@),
{
    let mut f = Frontier::new();
    let mut k: usize = 0;
    assert(times@.take(0) =~= Seq::empty());
    while k < times.len()
        invariant
            k <= times.len(),
            f@ == earliest(times@.take(k as int)),
        decreases times.len() - k,
    {
        assert(times@.take(k + 1).drop_last() =~= times@.take(k as int));
        f = f.insert(times[k]);
        k += 1;
    }
    assert(times@.take(k as int) =~= times@);
    f
}

impl DurableExportMetadata {
    /// The metadata as it is stored.
    pub fn into_proto(&self) -> (r: ProtoDurableExportMetadata)
        ensures
            is_export_proto(r, self.initial_as_of@),
    {
        let mut times: Vec<u64> = Vec::new();
        if let Some(t) = self.initial_as_of.frontier.time() {
            times.push(t);
        }
        assert(times@ =~= times_of(self.initial_as_of@.0));
        ProtoDurableExportMetadata {
            initial_as_of: Some(
                ProtoSinkAsOf { frontier: Some(times), strict: self.initial_as_of.strict },
            ),
        }
    }

    /// Reads metadata as it is stored. What was written is read back.
    pub fn from_proto(value: ProtoDurableExportMetadata) -> (r: Result<
        DurableExportMetadata,
        TryFromProtoError,
    >)
        ensures
            match r {
                Ok(m) => export_read(value) == Ok::<(Option<u64>, bool), ProtoErrorView>(
                    m.initial_as_of@,
                ),
                Err(e) => export_read(value) == Err::<(Option<u64>, bool), ProtoErrorView>(e@),
            },
            forall|as_of: (Option<u64>, bool)| #[trigger] is_export_proto(value, as_of) ==> (r matches Ok(m)
                && m.initial_as_of@ == as_of),
    {
        proof {
            assert forall|as_of: (Option<u64>, bool)| #[trigger] is_export_proto(value, as_of) implies export_read(value)
                == Ok::<(Option<u64>, bool), ProtoErrorView>(as_of) by {
                let times = times_of(as_of.0);
                reveal_with_fuel(earliest, 2);
                if as_of.0 is Some {
                    assert(times.drop_last() =~= Seq::empty());
                }
            }
        }
        let p = match value.initial_as_of {
            Some(p) => p,
            None => {
                return Err(
                    TryFromProtoError::MissingField(
                        String::from_str("ProtoDurableExportMetadata::initial_as_of"),
                    ),
                );
            },
        };
        match p.frontier {
            Some(times) => Ok(
                DurableExportMetadata {
                    initial_as_of: SinkAsOf { frontier: read_frontier(&times), strict: p.strict },
                },
            ),
            None => Err(
                TryFromProtoError::MissingField(String::from_str("ProtoSinkAsOf::frontier")),
            ),
        }
    }
}

} // verus!
