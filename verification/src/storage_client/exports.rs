//! Creating exports.

use vstd::prelude::*;

use crate::sql_parser::text::no_text;
use crate::storage_client::controller::{StateView, StorageControllerState, WorkerStatistics};
use crate::storage_client::ids::{id_text, GlobalId, ShardId, StorageInstanceId};
use crate::storage_client::policy::{Lag, PolicyView, ReadPolicy};
use crate::storage_client::state::{ExportState, ExportStateView};
use crate::storage_client::types::{
    downgraded, CollectionMetadata, CreateExportToken, DurableExportMetadata, ErrorView,
    ExportDescription, ExportView, SinkAsOf, StorageError, TokenView,
};

verus! {

/// Requests to create exports.
pub open spec fn exports_asked(exports: Seq<(CreateExportToken, ExportDescription)>) -> Seq<
    (TokenView, ExportView),
> {
    Seq::new(exports.len(), |k: int| (exports[k].0@, exports[k].1@))
}

/// Whether an export is asked for more than once, the last time at `k`.
pub open spec fn is_repeated(asked: Seq<(TokenView, ExportView)>, k: int) -> bool {
    exists|j: int| 0 <= j < k && (#[trigger] asked[j]).0.id == asked[k].0.id
}

/// What is said of a sink that is presented with another collection than it was prepared with.
pub open spec fn other_collection(id: GlobalId, from_id: GlobalId, from: GlobalId) -> Seq<char> {
    no_text() + "sink "@ + id_text(id) + " was prepared using from_id "@ + id_text(from_id)
        + ", but is now presented with from_id "@ + id_text(from)
}

/// What is wrong with a request to create an export, if anything is.
pub open spec fn export_error(s: StateView, asked: Seq<(TokenView, ExportView)>, k: int) -> Option<ErrorView> {
    let (token, d) = asked[k];
    if is_repeated(asked, k) {
        Some(ErrorView::SinkIdReused(token.id))
    } else if s.exports.dom().contains(token.id) && s.exports[token.id].description != d {
        Some(ErrorView::SinkIdReused(token.id))
    } else if d.from != token.from_id {
        Some(ErrorView::InvalidUsage(other_collection(token.id, token.from_id, d.from)))
    } else {
        None
    }
}

/// What is wrong with the first of several requests with which something is.
pub open spec fn first_export_error(s: StateView, asked: Seq<(TokenView, ExportView)>, k: int) -> Option<ErrorView>
    decreases asked.len() - k,
{
    if k < 0 || k >= asked.len() {
        None
    } else {
        match export_error(s, asked, k) {
            Some(e) => Some(e),
            None => first_export_error(s, asked, k + 1),
        }
    }
}

/// An export that is new.
pub open spec fn new_export(token: TokenView, d: ExportView) -> ExportStateView {
    ExportStateView {
        description: d,
        read_capability: token.acquired_since,
        read_policy: PolicyView::LagWriteFrontier(Lag::StepBack),
        storage_dependencies: seq![token.from_id],
        write_frontier: Some(0),
    }
}

/// What an instance is told to create a sink, apart from the sink's description.
#[derive(Debug)]
pub struct SinkCommand {
    pub id: GlobalId,
    pub instance_id: StorageInstanceId,
    pub as_of: SinkAsOf,
    pub status_shard: Option<ShardId>,
    pub from_storage_metadata: CollectionMetadata,
}

/// What comes of creating an export that is prepared: the state after it, and what is wrong
/// with it, if anything is. An export whose status collection or instance is missing is entered
/// all the same.
pub open spec fn export_created(s: StateView, token: TokenView, d: ExportView) -> (StateView, Option<ErrorView>) {
    if !s.collections.dom().contains(token.from_id) {
        (s, Some(ErrorView::IdentifierMissing(token.from_id)))
    } else {
        let entered = StateView { exports: s.exports.insert(token.id, new_export(token, d)), ..s };
        if d.status_id matches Some(x) && !s.collections.dom().contains(x) {
            (entered, Some(ErrorView::IdentifierMissing(d.status_id->0)))
        } else if !s.clients.contains(d.instance_id) {
            (entered, Some(ErrorView::ExportInstanceMissing(d.instance_id, token.id)))
        } else {
            (
                StateView {
                    sink_statistics: s.sink_statistics.insert(token.id, Seq::empty()),
                    ..entered
                },
                None,
            )
        }
    }
}

/// Whether a command is the one for an export.
pub open spec fn is_sink_command(
    c: SinkCommand,
    s: StateView,
    token: TokenView,
    d: ExportView,
    stored: (Option<u64>, bool),
) -> bool {
    &&& c.id == token.id
    &&& c.instance_id == d.instance_id
    &&& c.as_of@ == downgraded(stored, token.acquired_since)
    &&& c.status_shard == (match d.status_id {
        Some(x) => Some(s.collections[x].collection_metadata.data_shard),
        None => None,
    })
    &&& c.from_storage_metadata@ == s.collections[token.from_id].collection_metadata
}

impl StorageControllerState {
    /// Validates requests to create exports, to avoid corrupting state.
    pub fn validate_exports(&self, exports: &Vec<(CreateExportToken, ExportDescription)>) -> (r: Result<
        (),
        StorageError,
    >)
        ensures
            match first_export_error(self@, exports_asked(exports@), 0) {
                None => r is Ok,
                Some(err) => r matches Err(e) && e@ == err,
            },
    {
        let ghost asked = exports_asked(exports@);
        let mut k: usize = 0;
        while k < exports.len()
            invariant
                k <= exports.len(),
                asked == exports_asked(exports@),
                first_export_error(self@, asked, 0) == first_export_error(self@, asked, k as int),
            decreases exports.len() - k,
        {
            let id = exports[k].0.id();
            let from_id = exports[k].0.from_id();
            let desc = &exports[k].1;
            assert(asked[k as int] == (exports@[k as int].0@, desc@));
            let mut j: usize = 0;
            while j < k
                invariant
                    j <= k < exports.len(),
                    asked == exports_asked(exports@),
                    id == asked[k as int].0.id,
                    first_export_error(self@, asked, 0) == first_export_error(self@, asked, k as int),
                    forall|i: int| 0 <= i < j ==> (#[trigger] asked[i]).0.id != id,
                decreases k - j,
            {
                if exports[j].0.id() == id {
                    assert(asked[j as int].0.id == id);
                    assert(is_repeated(asked, k as int));
                    return Err(StorageError::SinkIdReused(id));
                }
                assert(asked[j as int].0.id != id);
                j += 1;
            }
            assert(!is_repeated(asked, k as int));
            if let Ok(export) = self.export(id) {
                if !export.description.same(desc) {
                    return Err(StorageError::SinkIdReused(id));
                }
            }
            if desc.from != from_id {
                let message = String::new().concat("sink ").concat(id.to_text().as_str()).concat(
                    " was prepared using from_id ",
                ).concat(from_id.to_text().as_str()).concat(", but is now presented with from_id ").concat(
                    desc.from.to_text().as_str(),
                );
                return Err(StorageError::InvalidUsage(message));
            }
            k += 1;
        }
        Ok(())
    }

    /// Creates an export that is prepared, and tells what its instance is to be told. `stored`
    /// is what is durably stored of the export.
    pub fn create_export(
        &mut self,
        token: CreateExportToken,
        description: ExportDescription,
        stored: DurableExportMetadata,
    ) -> (r: Result<SinkCommand, StorageError>)
        ensures
            final(self)@ == export_created(old(self)@, token@, description@).0,
            match export_created(old(self)@, token@, description@).1 {
                Some(err) => r matches Err(e) && e@ == err,
                None => r matches Ok(c) && is_sink_command(
                    c,
                    old(self)@,
                    token@,
                    description@,
                    stored.initial_as_of@,
                ),
            },
    {
        let ghost before = self@;
        let id = token.id();
        let from_id = token.from_id();
        // The write frontier that sinks communicate back to the controller
        // indicates that all further writes will happen at a time `t` that is not
        // before the write frontier. On restart, the sink is told to ignore everything at or
        // before the `since` of the from collection. This will not miss any
        // records because, if there were records not yet written out that
        // have an uncompacted time of `since`, the write frontier
        // previously reported from the sink must be less than `since` so we
        // would not have compacted up to `since`!
        let read_policy = ReadPolicy::step_back();
        let from_storage_metadata = match self.collection(from_id) {
            Ok(c) => c.collection_metadata.copy(),
            Err(e) => {
                return Err(e);
            },
        };
        let mut storage_dependencies: Vec<GlobalId> = Vec::new();
        storage_dependencies.push(from_id);
        assert(storage_dependencies@ =~= seq![from_id]);
        let as_of = stored.initial_as_of.downgrade(&token.acquired_since());
        let status_id = description.status_id;
        let instance_id = description.instance_id;
        let state = ExportState::new(
            description,
            token.acquired_since(),
            read_policy,
            storage_dependencies,
        );
        assert(state@ =~= new_export(token@, description@));
        self.exports.insert(id, state);
        assert(self@.exports =~= before.exports.insert(id, state@));
        let status_shard = match status_id {
            Some(status_id) => match self.collection(status_id) {
                Ok(c) => Some(c.collection_metadata.data_shard),
                Err(e) => {
                    return Err(e);
                },
            },
            None => None,
        };
        // The export's cluster must be known.
        if !self.has_instance(instance_id) {
            return Err(
                StorageError::ExportInstanceMissing {
                    storage_instance_id: instance_id,
                    export_id: id,
                },
            );
        }
        let stats: Vec<WorkerStatistics> = Vec::new();
        let ghost had = self@;
        self.sink_statistics.insert(id, stats);
        proof {
            let now = self@.sink_statistics;
            let described = had.sink_statistics.insert(id, Seq::empty());
            assert forall|x: GlobalId| #[trigger] now.dom().contains(x) implies now[x] =~= described[x] by {}
            assert(now =~= described);
        }
        Ok(SinkCommand { id, instance_id, as_of, status_shard, from_storage_metadata })
    }
}

} // verus!
