use materialize::storage_client::capabilities::Fault;
use materialize::storage_client::changes::{Changes, ReadCapabilities};
use materialize::storage_client::collections::{enrich_all, IntrospectionAction};
use materialize::storage_client::controller::{StorageControllerState, WorkerStatistics};
use materialize::storage_client::epoch::{may_take_over, PersistEpoch};
use materialize::storage_client::frontier::Frontier;
use materialize::storage_client::history::{
    expired_statuses, finalization, opened_since, Finalization, StatusRow,
};
use materialize::storage_client::id_map::IdMap;
use materialize::storage_client::ids::{GlobalId, ShardId, StorageInstanceId};
use materialize::storage_client::maintenance::{reconcile_updates, RowUpdate};
use materialize::storage_client::operations::check_append;
use materialize::storage_client::policy::ReadPolicy;
use materialize::storage_client::proto::{
    ProtoCollectionMetadata, ProtoDurableExportMetadata, ProtoSinkAsOf, TryFromProtoError,
};
use materialize::storage_client::process::{StatisticsUpdate, StorageResponse};
use materialize::storage_client::resumption::{ResumptionFrontierCalculator, UpperState};
use materialize::storage_client::types::{
    CollectionDescription, CollectionMetadata, DataSource, DurableCollectionMetadata,
    DurableExportMetadata, ExportDescription, IngestionDescription, IntrospectionType,
    PersistLocation, RelationDesc, SinkAsOf, SourceEnvelope, SourceExport, StorageError,
};

const INSTANCE: StorageInstanceId = StorageInstanceId::User(1);

fn u(n: u64) -> GlobalId {
    GlobalId::User(n)
}

fn at(t: u64) -> Frontier {
    Frontier::from_elem(t)
}

fn location() -> PersistLocation {
    PersistLocation { blob_uri: "b".into(), consensus_uri: "c".into() }
}

fn metadata(shard: u128) -> CollectionMetadata {
    CollectionMetadata {
        persist_location: location(),
        remap_shard: None,
        data_shard: ShardId(shard),
        status_shard: None,
        relation_desc: RelationDesc { encoded: vec![] },
    }
}

fn table() -> CollectionDescription {
    CollectionDescription::from_desc(RelationDesc { encoded: vec![1] })
}

fn ingestion(envelope: SourceEnvelope, exports: &[u64], remap: u64) -> CollectionDescription {
    CollectionDescription {
        desc: RelationDesc { encoded: vec![2] },
        data_source: DataSource::Ingestion(IngestionDescription {
            envelope,
            encoded: vec![],
            source_imports: vec![],
            source_exports: exports
                .iter()
                .enumerate()
                .map(|(i, n)| SourceExport { id: u(*n), output_index: i })
                .collect(),
            instance_id: INSTANCE,
            remap_collection_id: u(remap),
        }),
        since: None,
        status_collection_id: None,
    }
}

fn state() -> StorageControllerState {
    StorageControllerState::new(1, 2, false)
}

fn with_tables(ids: &[u64]) -> StorageControllerState {
    let mut s = state();
    for n in ids {
        s.register_collection(u(*n), table(), at(0), at(10), metadata(*n as u128));
    }
    s
}

fn since(s: &StorageControllerState, n: u64) -> Option<u64> {
    s.collection(u(n)).unwrap().read_capabilities.frontier()
}

fn implied(s: &StorageControllerState, n: u64) -> Option<u64> {
    s.collection(u(n)).unwrap().implied_capability.time()
}

fn pending(s: &StorageControllerState) -> Vec<(GlobalId, Option<u64>, Option<StorageInstanceId>)> {
    s.pending_compaction_commands.iter().map(|c| (c.id, c.frontier.time(), c.cluster_id)).collect()
}

fn downgrades(s: &StorageControllerState) -> Vec<(GlobalId, Option<u64>)> {
    s.pending_downgrades.iter().map(|(id, f)| (*id, f.time())).collect()
}

#[test]
fn policies_follow_write_frontiers() {
    let lag = |lag, granularity, upper| ReadPolicy::lag_writes_by(lag, granularity).frontier(&at(upper)).time();
    assert_eq!(lag(10, 4, 27), Some(16));
    assert_eq!(lag(3, 10, 27), Some(24));
    assert_eq!(lag(30, 4, 27), Some(0));
    assert_eq!(ReadPolicy::lag_writes_by(10, 4).frontier(&Frontier::new()).time(), Some(0));
    assert!(!ReadPolicy::lag_writes_by(10, 0).applies(&at(1)));
    assert!(ReadPolicy::lag_writes_by(10, 0).applies(&Frontier::new()));
    assert_eq!(ReadPolicy::step_back().frontier(&at(5)).time(), Some(4));
    assert_eq!(ReadPolicy::step_back().frontier(&at(0)).time(), Some(0));
    assert_eq!(ReadPolicy::step_back().frontier(&Frontier::new()).time(), Some(0));
    let several = ReadPolicy::Multiple(vec![
        ReadPolicy::ValidFrom(at(7)),
        ReadPolicy::step_back(),
        ReadPolicy::NoPolicy { initial_since: Frontier::new() },
    ]);
    assert_eq!(several.frontier(&at(9)).time(), Some(7));
    assert_eq!(several.frontier(&at(3)).time(), Some(2));
    assert_eq!(ReadPolicy::Multiple(vec![]).frontier(&at(3)).time(), None);
}

#[test]
fn frontiers_are_ordered() {
    assert!(at(1).less_equal(&at(1)));
    assert!(!at(1).less_than(&at(1)));
    assert!(at(1).less_than(&Frontier::new()));
    assert!(!Frontier::new().less_equal(&at(1)));
    assert!(Frontier::new().less_equal(&Frontier::new()));
    assert_eq!(at(1).join(&at(2)).time(), Some(2));
    assert_eq!(at(1).join(&Frontier::new()).time(), None);
    assert_eq!(at(3).insert(5).time(), Some(3));
    assert_eq!(at(3).insert(2).time(), Some(2));
    assert_eq!(Frontier::new().insert(2).time(), Some(2));
    assert!(at(3).copy().same(&at(3)));
    assert!(Frontier::new().is_empty());
}

#[test]
fn changes_cancel_out() {
    let c = Changes::new().extend(&vec![(3, 2), (5, 1)]).unwrap();
    let (c, empty) = c.extend(&vec![(5, -1)]).unwrap().is_empty();
    assert!(!empty);
    let (c, empty) = c.extend(&vec![(3, -2)]).unwrap().is_empty();
    assert!(empty);
    // Only the counts have to be 64-bit numbers, not all that was ever added.
    let mut c = c;
    for _ in 0..3 {
        c = c.extend(&vec![(3, i64::MAX)]).unwrap();
        c = c.extend(&vec![(3, -i64::MAX)]).unwrap();
    }
    let c = c.extend(&vec![(3, i64::MAX)]).unwrap();
    assert!(c.extend(&vec![(2, 1), (3, 1)]).is_none());
    let c = Changes::new().extend(&vec![(4, i64::MIN)]).unwrap();
    assert_eq!(c.into_list(), vec![(4, i64::MIN)]);
}

#[test]
fn capabilities_have_a_first_time() {
    let (caps, moved) = ReadCapabilities::new().update(vec![(2, 1), (4, 1)]);
    assert_eq!(moved, vec![(2, 1)]);
    assert_eq!(caps.frontier(), Some(2));
    assert_eq!((caps.count_for(2), caps.count_for(3), caps.count_for(4)), (1, 0, 1));
    let (caps, moved) = caps.update(vec![(2, -1)]);
    assert_eq!(moved, vec![(2, -1), (4, 1)]);
    let (caps, moved) = caps.update(vec![(4, -1)]);
    assert_eq!(moved, vec![(4, -1)]);
    assert_eq!(caps.frontier(), None);
    let (caps, _) = caps.update(vec![(4, i64::MAX)]);
    assert!(!caps.has_room(&vec![(4, 1)]));
    assert!(caps.has_room(&vec![(4, -1), (5, i64::MAX)]));
    let (caps, _) = caps.update(vec![(4, -i64::MAX)]);
    assert!(caps.has_room(&vec![(4, 1)]));
}

#[test]
fn epochs_are_encoded() {
    for e in [1, -1, i64::MAX, i64::MIN, 258] {
        let epoch = PersistEpoch::from_epoch(e);
        assert_eq!(epoch.encode(), e.to_le_bytes());
        assert_eq!(PersistEpoch::decode(epoch.encode()), epoch);
    }
    assert_eq!(PersistEpoch::initial().encode(), [0; 8]);
    assert_eq!(PersistEpoch::decode([0; 8]), PersistEpoch::initial());
    assert_eq!(PersistEpoch::codec_name(), "PersistEpoch");
    assert!(may_take_over(PersistEpoch::initial(), 1));
    assert!(may_take_over(PersistEpoch::from_epoch(3), 3));
    assert!(!may_take_over(PersistEpoch::from_epoch(4), 3));
}

#[test]
fn policies_advance_capabilities() {
    let mut s = with_tables(&[1]);
    s.set_read_policy(vec![(u(1), ReadPolicy::ValidFrom(at(4)))]).unwrap();
    assert_eq!((implied(&s, 1), since(&s, 1)), (Some(4), Some(4)));
    assert_eq!(pending(&s), vec![(u(1), Some(4), None)]);
    assert_eq!(downgrades(&s), vec![(u(1), Some(4))]);
    // The capability is not recovered.
    s.set_read_policy(vec![(u(1), ReadPolicy::ValidFrom(at(2)))]).unwrap();
    assert_eq!((implied(&s, 1), since(&s, 1)), (Some(4), Some(4)));
    assert_eq!(pending(&s).len(), 1);
    // Repeated identifiers conclude with the last policy.
    s.set_read_policy(vec![
        (u(1), ReadPolicy::ValidFrom(at(5))),
        (u(1), ReadPolicy::ValidFrom(at(6))),
    ])
    .unwrap();
    assert_eq!((implied(&s, 1), since(&s, 1)), (Some(6), Some(6)));
    assert_eq!(
        s.set_read_policy(vec![(u(9), ReadPolicy::step_back())]).unwrap_err(),
        Fault::Unknown(u(9))
    );
    let mut s = with_tables(&[1]);
    assert_eq!(
        s.set_read_policy(vec![(u(1), ReadPolicy::lag_writes_by(1, 0))]).unwrap_err(),
        Fault::NoGranularity(u(1))
    );
}

#[test]
fn write_frontiers_advance_capabilities() {
    let mut s = with_tables(&[1]);
    s.set_read_policy(vec![(u(1), ReadPolicy::lag_writes_by(2, 1))]).unwrap();
    assert_eq!(since(&s, 1), Some(8));
    s.update_write_frontiers(&vec![(u(1), at(20))]).unwrap();
    assert_eq!(since(&s, 1), Some(18));
    // Write frontiers do not move backward.
    s.update_write_frontiers(&vec![(u(1), at(15))]).unwrap();
    assert_eq!(s.collection(u(1)).unwrap().write_frontier.time(), Some(20));
    assert_eq!(since(&s, 1), Some(18));
    assert_eq!(
        s.update_write_frontiers(&vec![(u(7), at(1))]).unwrap_err(),
        Fault::Unknown(u(7))
    );
}

#[test]
fn exports_are_prepared_and_cancelled() {
    let mut s = with_tables(&[1]);
    let token = s.prepare_export(u(5), u(1)).unwrap().unwrap();
    assert_eq!(token.id(), u(5));
    assert_eq!(token.from_id(), u(1));
    assert_eq!(token.acquired_since().time(), Some(0));
    s.set_read_policy(vec![(u(1), ReadPolicy::ValidFrom(at(4)))]).unwrap();
    // The hold of the export is in the way.
    assert_eq!((implied(&s, 1), since(&s, 1)), (Some(4), Some(0)));
    s.cancel_prepare_export(token).unwrap();
    assert_eq!(since(&s, 1), Some(4));
    assert!(matches!(
        s.prepare_export(u(5), u(9)).unwrap().unwrap_err(),
        StorageError::IdentifierMissing(GlobalId::User(9))
    ));
}

#[test]
fn removing_what_is_not_held() {
    let mut s = with_tables(&[1]);
    assert_eq!(
        s.remove_read_capabilities(&at(3), &vec![u(1)]).unwrap_err(),
        Fault::Invalid(u(1))
    );
    let mut s = with_tables(&[1]);
    s.set_read_policy(vec![(u(1), ReadPolicy::ValidFrom(at(4)))]).unwrap();
    assert_eq!(
        s.install_read_capabilities(&vec![u(1)], &at(3)).unwrap_err(),
        Fault::Invalid(u(1))
    );
    let mut s = with_tables(&[1]);
    assert_eq!(
        s.install_read_capabilities(&vec![u(2)], &at(3)).unwrap_err(),
        Fault::Unknown(u(2))
    );
}

fn export(from: u64) -> ExportDescription {
    ExportDescription {
        from: u(from),
        from_desc: RelationDesc { encoded: vec![] },
        encoded: vec![],
        as_of: SinkAsOf { frontier: at(0), strict: false },
        status_id: None,
        instance_id: INSTANCE,
    }
}

fn stored() -> DurableExportMetadata {
    DurableExportMetadata { initial_as_of: SinkAsOf { frontier: at(2), strict: false } }
}

#[test]
fn exports_hold_their_collections_back() {
    let mut s = with_tables(&[1]);
    s.create_instance(INSTANCE);
    let token = s.prepare_export(u(5), u(1)).unwrap().unwrap();
    let command = s.create_export(token, export(1), stored()).unwrap();
    assert_eq!(command.id, u(5));
    assert_eq!(command.instance_id, INSTANCE);
    assert_eq!((command.as_of.frontier.time(), command.as_of.strict), (Some(2), false));
    assert_eq!(command.status_shard, None);
    assert_eq!(command.from_storage_metadata.data_shard, ShardId(1));
    s.set_read_policy(vec![(u(1), ReadPolicy::ValidFrom(at(8)))]).unwrap();
    assert_eq!(since(&s, 1), Some(0));
    s.update_write_frontiers(&vec![(u(5), at(4))]).unwrap();
    assert_eq!(s.export(u(5)).unwrap().read_capability.time(), Some(3));
    assert_eq!(since(&s, 1), Some(3));
    assert_eq!(
        pending(&s),
        vec![(u(1), Some(3), None), (u(5), Some(3), Some(INSTANCE))]
    );
    // Dropping the sink lets go.
    s.drop_sinks(&vec![u(5)]).unwrap().unwrap();
    assert_eq!(s.export(u(5)).unwrap().read_capability.time(), None);
    assert_eq!(since(&s, 1), Some(8));
    assert!(matches!(
        s.drop_sinks(&vec![u(6)]).unwrap().unwrap_err(),
        StorageError::IdentifierMissing(GlobalId::User(6))
    ));
    s.drop_sinks_unvalidated(&vec![u(6)]).unwrap();
    assert!(matches!(
        s.prepare_export(u(5), u(1)).unwrap().unwrap_err(),
        StorageError::SourceIdReused(GlobalId::User(5))
    ));
}

#[test]
fn capabilities_are_accounted_for() {
    let mut s = with_ingestion();
    s.create_instance(INSTANCE);
    let token = s.prepare_export(u(5), u(1)).unwrap().unwrap();
    let held = |s: &StorageControllerState, t| s.collection(u(1)).unwrap().read_capabilities.count_for(t);
    // The implied capability, two outputs, and the export in preparation.
    assert_eq!(held(&s, 0), 4);
    s.create_export(token, export(1), stored()).unwrap();
    assert_eq!(held(&s, 0), 4);
    s.set_read_policy(vec![(u(3), ReadPolicy::ValidFrom(at(6)))]).unwrap();
    assert_eq!((held(&s, 0), held(&s, 6)), (3, 1));
    s.drop_sources(&vec![u(2), u(3)]).unwrap().unwrap();
    assert_eq!((held(&s, 0), held(&s, 6)), (2, 0));
    s.drop_sinks(&vec![u(5)]).unwrap().unwrap();
    assert_eq!(held(&s, 0), 1);
    assert_eq!(since(&s, 1), implied(&s, 1));
    s.receive(StorageResponse::DroppedIds(vec![u(2), u(3)])).unwrap();
    assert_eq!(held(&s, 0), 1);
}

#[test]
fn starts_of_sinks_are_downgraded() {
    let start = SinkAsOf { frontier: at(2), strict: false };
    let later = start.copy().downgrade(&at(3));
    assert_eq!((later.frontier.time(), later.strict), (Some(3), true));
    let same = start.downgrade(&at(1));
    assert_eq!((same.frontier.time(), same.strict), (Some(2), false));
}

#[test]
fn exports_are_validated() {
    let mut s = with_tables(&[1, 2]);
    s.create_instance(INSTANCE);
    let mut token = |s: &mut StorageControllerState, id| s.prepare_export(u(id), u(1)).unwrap().unwrap();
    let (a, b, c, d) = (token(&mut s, 5), token(&mut s, 5), token(&mut s, 6), token(&mut s, 7));
    assert!(matches!(
        s.validate_exports(&vec![(a, export(1)), (b, export(1))]).unwrap_err(),
        StorageError::SinkIdReused(GlobalId::User(5))
    ));
    let e = s.validate_exports(&vec![(c, export(2))]).unwrap_err();
    assert_eq!(
        e.to_text(),
        "storage error: invalid usage: sink u6 was prepared using from_id u1, but is now presented with from_id u2"
    );
    assert!(s.validate_exports(&vec![(d, export(1))]).is_ok());
    let again = token(&mut s, 8);
    let first = token(&mut s, 8);
    s.create_export(first, export(1), stored()).unwrap();
    let mut other = export(1);
    other.encoded = vec![7];
    assert!(matches!(
        s.validate_exports(&vec![(again, other)]).unwrap_err(),
        StorageError::SinkIdReused(GlobalId::User(8))
    ));
}

#[test]
fn exports_that_miss_something() {
    let mut s = with_tables(&[1]);
    let token = s.prepare_export(u(5), u(1)).unwrap().unwrap();
    let e = s.create_export(token, export(1), stored()).unwrap_err();
    assert_eq!(e.to_text(), "storage error: instance u1 missing for export u5");
    let token = s.prepare_export(u(6), u(1)).unwrap().unwrap();
    let mut described = export(1);
    described.status_id = Some(u(9));
    assert!(matches!(
        s.create_export(token, described, stored()).unwrap_err(),
        StorageError::IdentifierMissing(GlobalId::User(9))
    ));
}

#[test]
fn requests_are_validated() {
    let s = with_tables(&[1]);
    let other = || CollectionDescription::from_desc(RelationDesc { encoded: vec![9] });
    let ok = s.validate_collections(vec![(u(3), table()), (u(1), table()), (u(3), table())]).unwrap();
    assert_eq!(ok.ids(), vec![u(1), u(3)]);
    assert!(matches!(
        s.validate_collections(vec![(u(4), table()), (u(3), table()), (u(4), other()), (u(3), other())])
            .unwrap_err(),
        StorageError::SourceIdReused(GlobalId::User(3))
    ));
    assert!(matches!(
        s.validate_collections(vec![(u(0), table()), (u(1), other())]).unwrap_err(),
        StorageError::SourceIdReused(GlobalId::User(1))
    ));
}

fn durable(entries: &[(u64, u128)]) -> IdMap<DurableCollectionMetadata> {
    let mut m = IdMap::new();
    for (n, shard) in entries {
        m.insert(
            u(*n),
            DurableCollectionMetadata { remap_shard: None, data_shard: ShardId(*shard) },
        );
    }
    m
}

#[test]
fn descriptions_are_enriched() {
    let mut created = IdMap::new();
    created.insert(u(2), ingestion(SourceEnvelope::Plain, &[2], 5));
    created.insert(u(5), table());
    let m = enrich_all(&location(), &durable(&[(2, 20), (5, 50)]), &created).unwrap();
    assert_eq!(m.get(u(2)).unwrap().remap_shard, Some(ShardId(50)));
    assert_eq!(m.get(u(2)).unwrap().data_shard, ShardId(20));
    assert_eq!(m.get(u(2)).unwrap().status_shard, None);
    assert_eq!(m.get(u(5)).unwrap().remap_shard, None);
    let mut described = table();
    described.status_collection_id = Some(u(9));
    let mut created = IdMap::new();
    created.insert(u(2), described);
    assert!(matches!(
        enrich_all(&location(), &durable(&[(2, 20)]), &created).unwrap_err(),
        StorageError::IdentifierMissing(GlobalId::User(9))
    ));
    let m = enrich_all(&location(), &durable(&[(2, 20), (9, 90)]), &created).unwrap();
    assert_eq!(m.get(u(2)).unwrap().status_shard, Some(ShardId(90)));
}

fn with_ingestion() -> StorageControllerState {
    let mut s = with_tables(&[1]);
    s.register_collection(u(2), table(), at(0), at(10), metadata(2));
    let described = || ingestion(SourceEnvelope::Plain, &[2, 3], 1);
    s.register_collection(u(3), described(), at(0), at(10), metadata(3));
    s.patch_ingestion(&described()).unwrap().unwrap();
    s
}

#[test]
fn ingestions_hold_their_dependencies_back() {
    let mut s = with_ingestion();
    assert_eq!(s.collection(u(2)).unwrap().storage_dependencies, vec![u(1)]);
    assert_eq!(s.collection(u(3)).unwrap().storage_dependencies, vec![u(1)]);
    let advance = |s: &mut StorageControllerState, n, t| {
        s.set_read_policy(vec![(u(n), ReadPolicy::ValidFrom(at(t)))]).unwrap();
    };
    advance(&mut s, 1, 9);
    assert_eq!(since(&s, 1), Some(0));
    advance(&mut s, 2, 5);
    assert_eq!(since(&s, 1), Some(0));
    advance(&mut s, 3, 7);
    assert_eq!(since(&s, 1), Some(5));
    advance(&mut s, 2, 8);
    assert_eq!(since(&s, 1), Some(7));
    s.drop_sources(&vec![u(2), u(3)]).unwrap().unwrap();
    assert_eq!(since(&s, 2), None);
    assert_eq!(since(&s, 1), Some(9));
    assert!(matches!(
        s.drop_sources(&vec![u(1), u(8)]).unwrap().unwrap_err(),
        StorageError::IdentifierMissing(GlobalId::User(8))
    ));
    s.drop_sources_unvalidated(&vec![u(8), u(1)]).unwrap();
    assert_eq!(since(&s, 1), None);
}

#[test]
fn outputs_are_advanced_to_their_dependencies() {
    let mut s = state();
    s.register_collection(u(1), table(), at(4), at(10), metadata(1));
    let described = || ingestion(SourceEnvelope::Plain, &[3], 1);
    s.register_collection(u(3), described(), at(0), at(10), metadata(3));
    s.patch_ingestion(&described()).unwrap().unwrap();
    assert_eq!((implied(&s, 3), since(&s, 3)), (Some(4), Some(4)));
    // A collection that was not written that far cannot be.
    let mut s = state();
    s.register_collection(u(1), table(), at(4), at(10), metadata(1));
    s.register_collection(u(3), described(), at(0), at(4), metadata(3));
    assert_eq!(
        s.patch_ingestion(&described()).unwrap_err(),
        Fault::SinceBeyondUpper(u(3))
    );
    // A collection that is held back cannot be.
    let mut s = state();
    s.register_collection(u(1), table(), at(4), at(10), metadata(1));
    s.register_collection(u(3), described(), at(0), at(10), metadata(3));
    s.install_read_capabilities(&vec![u(3)], &at(0)).unwrap();
    assert_eq!(s.patch_ingestion(&described()).unwrap_err(), Fault::HeldBack(u(3)));
    let mut s = state();
    s.register_collection(u(3), described(), at(0), at(10), metadata(3));
    assert!(matches!(
        s.patch_ingestion(&described()).unwrap().unwrap_err(),
        StorageError::IdentifierMissing(GlobalId::User(1))
    ));
    assert!(s.patch_ingestion(&table()).unwrap().is_ok());
}

#[test]
fn dependencies_of_descriptions() {
    let envelope = SourceEnvelope::Debezium { tx_metadata_global_id: Some(u(8)) };
    assert_eq!(ingestion(envelope, &[2], 1).get_storage_dependencies(), vec![u(8), u(1)]);
    assert_eq!(ingestion(SourceEnvelope::CdcV2, &[2], 1).get_storage_dependencies(), vec![u(1)]);
    assert_eq!(table().get_storage_dependencies(), vec![]);
}

#[test]
fn ingestions_are_sent() {
    let mut s = with_ingestion();
    let described = ingestion(SourceEnvelope::Plain, &[2, 3], 1);
    assert_eq!(
        s.ingestion_command(u(3), &described).unwrap_err().to_text(),
        "storage error: instance u1 missing for ingestion u3"
    );
    s.create_instance(INSTANCE);
    let c = s.ingestion_command(u(3), &described).unwrap().unwrap();
    assert_eq!(c.ingestion_metadata.data_shard, ShardId(3));
    let outputs: Vec<_> =
        c.source_exports.iter().map(|x| (x.id, x.output_index, x.metadata.data_shard)).collect();
    assert_eq!(outputs, vec![(u(2), Some(0), ShardId(2)), (u(3), Some(1), ShardId(3))]);
    assert!(c.source_imports.is_empty());
    assert!(s.ingestion_command(u(1), &table()).unwrap().is_none());
    let on_disk = ingestion(SourceEnvelope::Upsert { disk: true }, &[2], 1);
    assert_eq!(
        s.ingestion_command(u(3), &on_disk).unwrap_err().to_text(),
        "storage error: invalid usage: Attempting to render `ON DISK` source without a configured scratch directory. This is a bug."
    );
    let missing = ingestion(SourceEnvelope::Plain, &[2, 9], 1);
    assert!(matches!(
        s.ingestion_command(u(3), &missing).unwrap_err(),
        StorageError::IdentifierMissing(GlobalId::User(9))
    ));
}

#[test]
fn introspection_is_registered() {
    let mut s = with_tables(&[1]);
    assert!(s.append_shard_mappings(&vec![u(1)], 1).is_none());
    assert_eq!(
        s.register_introspection(IntrospectionType::ShardMapping, u(1)),
        IntrospectionAction::InitializeShardMapping
    );
    let (to, rows) = s.append_shard_mappings(&vec![u(1)], -1).unwrap();
    assert_eq!(to, u(1));
    assert_eq!(
        (rows[0].global_id.as_str(), rows[0].shard_id.as_str(), rows[0].diff),
        ("u1", "s00000000-0000-0000-0000-000000000001", -1)
    );
    assert_eq!(s.initialize_shard_mapping()[0].diff, 1);
    assert_eq!(
        s.register_introspection(IntrospectionType::SourceStatusHistory, u(1)),
        IntrospectionAction::ReconcileSourceStatusHistory
    );
    assert_eq!(s.introspection_ids.get(IntrospectionType::SourceStatusHistory), Some(u(1)));
    assert_eq!(s.introspection_ids.get(IntrospectionType::SinkStatusHistory), None);
    assert_eq!(s.truncation_time_of(u(1)), Some(9));
}

#[test]
fn responses_are_taken_in() {
    let mut s = with_ingestion();
    s.create_instance(INSTANCE);
    let uppers = StorageResponse::FrontierUppers(vec![(u(3), at(30))]);
    assert!(s.receive(uppers).unwrap().is_empty());
    assert_eq!(s.collection(u(3)).unwrap().write_frontier.time(), Some(30));
    let stat = |n, worker_id, byte| StatisticsUpdate {
        id: u(n),
        statistics: WorkerStatistics { worker_id, encoded: vec![byte] },
    };
    let stats = StorageResponse::StatisticsUpdates(
        vec![stat(3, 0, 1), stat(3, 1, 2), stat(3, 0, 3), stat(9, 0, 4)],
        vec![stat(5, 0, 1)],
    );
    s.receive(stats).unwrap();
    let kept: Vec<_> = s
        .source_statistics
        .get(u(3))
        .unwrap()
        .iter()
        .map(|w| (w.worker_id, w.encoded.clone()))
        .collect();
    assert_eq!(kept, vec![(0, vec![3]), (1, vec![2])]);
    assert!(s.source_statistics.get(u(9)).is_none());
    assert!(s.sink_statistics.get(u(5)).is_none());
    // Dropping a source.
    s.drop_sources(&vec![u(3), u(2)]).unwrap().unwrap();
    let work = s.take_due_work().unwrap();
    let sent: Vec<_> = work.compactions.iter().map(|(i, id, f)| (*i, *id, f.time())).collect();
    assert_eq!(sent, vec![(INSTANCE, u(3), None)]);
    assert_eq!(work.source_drops, vec![u(3)]);
    assert_eq!(work.sink_drops, vec![]);
    assert!(s.source_statistics.get(u(3)).is_none());
    assert!(s.pending_compaction_commands.is_empty());
    let gone = s.receive(StorageResponse::DroppedIds(vec![u(3), u(7), u(3)])).unwrap();
    assert_eq!(gone, vec![ShardId(3)]);
    // The collection stays, so that its identifier is not bound to another description.
    assert!(s.collection(u(3)).unwrap().dropped);
    assert_eq!(s.receive(StorageResponse::DroppedIds(vec![u(3), u(2)])).unwrap(), vec![ShardId(2)]);
    let again = ingestion(SourceEnvelope::Plain, &[2, 3], 1);
    for description in [again, table()] {
        assert!(matches!(
            s.validate_collections(vec![(u(1), table()), (u(3), description)]).unwrap_err(),
            StorageError::SourceIdReused(GlobalId::User(3))
        ));
    }
    assert!(s.validate_collections(vec![(u(1), table())]).is_ok());
}

#[test]
fn dropped_sinks_are_noted() {
    let mut s = with_tables(&[1]);
    s.create_instance(INSTANCE);
    let token = s.prepare_export(u(5), u(1)).unwrap().unwrap();
    s.create_export(token, export(1), stored()).unwrap();
    assert!(s.sink_statistics.contains(u(5)));
    s.drop_sinks(&vec![u(5)]).unwrap().unwrap();
    s.drop_instance(INSTANCE);
    let work = s.take_due_work().unwrap();
    assert!(work.compactions.is_empty());
    assert_eq!(work.sink_drops, vec![u(5)]);
    assert!(!s.sink_statistics.contains(u(5)));
}

#[test]
fn dropped_collections_stay() {
    let mut s = with_ingestion();
    s.drop_sources(&vec![u(3)]).unwrap().unwrap();
    s.receive(StorageResponse::DroppedIds(vec![u(3)])).unwrap();
    assert_eq!(s.take_due_work().unwrap().source_drops, vec![u(3)]);
    assert_eq!(s.collections.ids(), vec![u(1), u(2), u(3)]);
    assert_eq!(s.initialize_shard_mapping().len(), 2);
    // Metadata of what was dropped are not replaced.
    let mut current = durable(&[(3, 3)]);
    let plan = s.upsert_collection_metadata(&mut current, &durable(&[(3, 30)]));
    assert_eq!(plan.reopen, vec![]);
    assert_eq!(s.collection(u(3)).unwrap().collection_metadata.data_shard, ShardId(3));
}

#[test]
fn instances_come_and_go() {
    let mut s = state();
    assert!(!s.create_instance(INSTANCE));
    assert_eq!(s.initialization_complete(), vec![INSTANCE]);
    let other = StorageInstanceId::System(2);
    assert!(s.create_instance(other));
    assert_eq!(s.update_configuration(7), vec![INSTANCE, other]);
    assert_eq!(s.keep_n_source_status_history_entries, 7);
    s.drop_instance(INSTANCE);
    assert!(!s.has_instance(INSTANCE) && s.has_instance(other));
}

#[test]
fn appends_are_checked() {
    assert!(check_append(&vec![(u(1), vec![1, 2], 3)]).is_ok());
    let e = check_append(&vec![(u(1), vec![1, 2], 3), (u(2), vec![3], 3)]).unwrap_err();
    assert_eq!(
        e.to_text(),
        "storage error: append batch for u2 contained update at or beyond its upper"
    );
}

#[test]
fn collections_are_reconciled() {
    let row = |byte, diff| RowUpdate { row: vec![byte], diff };
    let updates = vec![row(1, 1), row(2, 1), row(1, 1)];
    let contents = vec![row(2, 1), row(3, 4)];
    let mut out: Vec<_> =
        reconcile_updates(updates, contents).into_iter().map(|u| (u.row, u.diff)).collect();
    out.sort();
    assert_eq!(out, vec![(vec![1], 2), (vec![3], -4)]);
    // Only what is left of each row has to be a 64-bit number.
    let updates = vec![row(1, i64::MAX), row(2, i64::MAX), row(1, 5)];
    let contents = vec![row(1, 6), row(2, i64::MAX)];
    let out = reconcile_updates(updates, contents);
    assert_eq!((out.len(), out[0].row.clone(), out[0].diff), (1, vec![1], i64::MAX - 1));
}

#[test]
fn old_statuses_expire() {
    let row = |source: &str, occurred_at, byte| StatusRow {
        source_id: source.to_string(),
        occurred_at,
        row: vec![byte],
    };
    let rows = || vec![row("a", 3, 1), row("b", 1, 2), row("a", 1, 3), row("a", 2, 4), row("a", 9, 5)];
    let bytes = |keep| expired_statuses(rows(), keep).into_iter().map(|r| r.row[0]).collect::<Vec<_>>();
    assert_eq!(bytes(2), vec![3, 4]);
    assert_eq!(bytes(9), vec![]);
    assert_eq!(bytes(0), vec![1, 2, 3, 4, 5]);
}

#[test]
fn metadata_are_replaced() {
    let mut s = with_tables(&[1, 2, 3]);
    let mut current = durable(&[(1, 1), (2, 2), (3, 3)]);
    let upsert = durable(&[(1, 20), (2, 1), (3, 3), (4, 40)]);
    let plan = s.upsert_collection_metadata(&mut current, &upsert);
    assert_eq!(plan.dropped_shards, vec![ShardId(2)]);
    assert_eq!(plan.reopen, vec![u(1), u(2)]);
    assert_eq!(s.collection(u(2)).unwrap().collection_metadata.data_shard, ShardId(1));
    assert_eq!(current.get(u(1)).unwrap().data_shard, ShardId(20));
    assert_eq!(current.get(u(4)).unwrap().data_shard, ShardId(40));
}

#[test]
fn shards_are_finalized() {
    assert_eq!(finalization(&at(1), &Frontier::new()), Finalization::Leave);
    assert_eq!(finalization(&Frontier::new(), &at(1)), Finalization::Close);
    assert_eq!(finalization(&Frontier::new(), &Frontier::new()), Finalization::Done);
    assert_eq!(opened_since(&at(3), Some(&at(5))).time(), Some(5));
    assert_eq!(opened_since(&at(3), None).time(), Some(3));
}

#[test]
fn sources_are_resumed() {
    let mut states = IdMap::new();
    states.insert(u(1), UpperState::new());
    states.insert(u(2), UpperState::new());
    let mut calc = ResumptionFrontierCalculator::new(at(9), states);
    assert_eq!(calc.shards(), vec![u(1), u(2)]);
    let mut fetched = IdMap::new();
    fetched.insert(u(1), at(7));
    fetched.insert(u(2), Frontier::new());
    assert_eq!(calc.calculate_resumption_frontier(&fetched).time(), Some(7));
    let uppers = calc.get_uppers();
    assert_eq!(uppers.get(u(1)).unwrap().time(), Some(7));
    assert_eq!(uppers.get(u(2)).unwrap().time(), Some(7));
}

#[test]
fn metadata_are_sent() {
    let mut m = metadata(0x0123_4567_89ab_cdef_0123_4567_89ab_cdef);
    m.status_shard = Some(ShardId(2));
    let proto = m.into_proto();
    assert_eq!(proto.data_shard, "s01234567-89ab-cdef-0123-456789abcdef");
    let back = CollectionMetadata::from_proto(proto).unwrap();
    assert_eq!(back.data_shard, m.data_shard);
    assert_eq!(back.status_shard, m.status_shard);
    assert_eq!(back.remap_shard, None);
    let bad = |data_shard: &str, relation_desc| ProtoCollectionMetadata {
        blob_uri: "".into(),
        consensus_uri: "".into(),
        data_shard: data_shard.into(),
        remap_shard: None,
        status_shard: None,
        relation_desc,
    };
    assert!(matches!(
        CollectionMetadata::from_proto(bad("x01", Some(vec![]))),
        Err(TryFromProtoError::InvalidShardId(s)) if s == "x01"
    ));
    assert!(matches!(
        CollectionMetadata::from_proto(bad("s00000000-0000-0000-0000-000000000001", None)),
        Err(TryFromProtoError::MissingField(f)) if f == "ProtoCollectionMetadata::relation_desc"
    ));
    let e = CollectionMetadata::from_proto(bad("x", None)).unwrap_err();
    assert_eq!(e.to_text(), "Invalid value of ShardId found: x");
    let e = TryFromProtoError::MissingField("a::b".into());
    assert_eq!(e.to_text(), "Missing value for `a::b`");
    let d = DurableCollectionMetadata { remap_shard: Some(ShardId(3)), data_shard: ShardId(4) };
    assert_eq!(DurableCollectionMetadata::from_proto(d.into_proto()).unwrap(), d);
}

#[test]
fn export_metadata_are_stored() {
    for frontier in [at(7), Frontier::new()] {
        let time = frontier.time();
        let m = DurableExportMetadata { initial_as_of: SinkAsOf { frontier, strict: true } };
        let back = DurableExportMetadata::from_proto(m.into_proto()).unwrap();
        assert_eq!((back.initial_as_of.frontier.time(), back.initial_as_of.strict), (time, true));
    }
    let read = |frontier| {
        DurableExportMetadata::from_proto(ProtoDurableExportMetadata {
            initial_as_of: Some(ProtoSinkAsOf { frontier, strict: false }),
        })
    };
    assert_eq!(read(Some(vec![5, 3, 9])).unwrap().initial_as_of.frontier.time(), Some(3));
    assert!(matches!(
        read(None),
        Err(TryFromProtoError::MissingField(f)) if f == "ProtoSinkAsOf::frontier"
    ));
    assert!(matches!(
        DurableExportMetadata::from_proto(ProtoDurableExportMetadata { initial_as_of: None }),
        Err(TryFromProtoError::MissingField(f)) if f == "ProtoDurableExportMetadata::initial_as_of"
    ));
}

#[test]
fn errors_are_shown() {
    let text = |e: StorageError| e.to_text();
    assert_eq!(
        text(StorageError::SourceIdReused(GlobalId::System(1))),
        "storage error: source identifier was re-created after having been dropped: s1"
    );
    assert_eq!(
        text(StorageError::SinkIdReused(GlobalId::Transient(1))),
        "storage error: sink identifier was re-created after having been dropped: t1"
    );
    assert_eq!(
        text(StorageError::IdentifierMissing(GlobalId::Explain)),
        "storage error: collection identifier is not present: Explained Query"
    );
    assert_eq!(
        text(StorageError::ReadBeforeSince(u(1))),
        "storage error: read for u1 was at a timestamp before its since"
    );
    assert_eq!(
        text(StorageError::InvalidUppers(vec![u(1), u(2)])),
        "storage error: expected upper was different from the actual upper for: u1, u2"
    );
    assert_eq!(
        text(StorageError::IOError("x".into())),
        "storage error: failed to read or write state"
    );
    assert_eq!(
        text(StorageError::DataflowError("x".into())),
        "storage error: dataflow failed to process request"
    );
    assert_eq!(text(StorageError::Generic("x".into(), None)), "storage error: x");
    assert_eq!(StorageError::IOError("x".into()).source(), Some("x".to_string()));
    assert_eq!(StorageError::InvalidUsage("x".into()).source(), None);
    assert_eq!(StorageError::Generic("x".into(), Some("y".into())).source(), Some("y".to_string()));
}
