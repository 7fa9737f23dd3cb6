//! Dropping a table.

use crate::instance::create_wal_location;
use crate::instance::engine::Error;
use crate::manifest::{DropTableMeta, MetaEdit, MetaEditRequest, MetaUpdate};
use crate::request::DropTableRequest;
use crate::space::{has_table_named, Space};
use crate::sst::file::Request;
use crate::table::version::{version_has_file, MAX_LEVEL};
use crate::types::{SequenceNumber, MAX_SEQUENCE_NUMBER};
use crate::wal::WalLocation;
use vstd::prelude::*;
use vstd::string::*;

verus! {

/// What is to be done outside the engine to drop a table.
#[derive(Debug)]
pub struct DropPlan {
    /// Index of the table in its space.
    pub table_index: usize,
    /// The log of the table, whose entries are all to be marked as deletable.
    pub wal_location: WalLocation,
    /// The sequence number up to which the entries are marked: the greatest.
    pub up_to: SequenceNumber,
    /// The edit to record in the manifest.
    pub edit: MetaEditRequest,
}

/// The decision on a request to drop a table.
#[derive(Debug)]
pub enum DropStep {
    /// The space has no table of that name: nothing is dropped.
    NotFound,
    /// The table has been dropped before: nothing is dropped.
    AlreadyDropped,
    /// The table is dropped as the plan says.
    Proceed(DropPlan),
}

/// How the dropping of a table went outside the engine.
#[derive(Clone, Copy, Debug, PartialEq, Eq, Structural)]
pub enum DropOutcome {
    /// The entries of the log could not be marked as deletable.
    WalFailed,
    /// The manifest could not record the edit.
    ManifestFailed,
    /// The entries are marked, and the manifest has recorded the edit.
    Done,
}

/// Drops tables of a space.
#[derive(Clone, Copy, Debug, PartialEq, Eq, Structural)]
pub struct Dropper;

impl Dropper {
    /// Whether the request finds a table to drop: one of that name that has
    /// not been dropped.
    pub open spec fn finds_table(space: Space, request: DropTableRequest) -> bool {
        exists|i: int|
            0 <= i < space.tables@.len() && (#[trigger] space.tables@[i]).name@
                == request.table_name@ && !space.tables@[i].dropped
    }

    /// Decides on a request to drop a table of the space. A table that is not
    /// there, or has been dropped, is not dropped again. Of any other, all
    /// entries of the log are to be marked as deletable, and the drop is to be
    /// recorded in the manifest.
    pub fn drop(space: &Space, request: &DropTableRequest) -> (step: DropStep)
        requires
            space.wf(),
        ensures
            step is Proceed <==> Self::finds_table(*space, *request),
            step is NotFound <==> !has_table_named(space.tables@, request.table_name@),
            step matches DropStep::Proceed(plan) ==> {
                &&& plan.table_index < space.tables@.len()
                &&& space.tables@[plan.table_index as int].name@ == request.table_name@
                &&& !space.tables@[plan.table_index as int].dropped
                &&& plan.wal_location == (WalLocation {
                    region_id: space.tables@[plan.table_index as int].shard_info.shard_id as u64,
                    table_id: space.tables@[plan.table_index as int].id,
                })
                &&& plan.up_to == u64::MAX
                &&& plan.edit.shard_info == space.tables@[plan.table_index as int].shard_info
                &&& plan.edit.meta_edit matches MetaEdit::Update(MetaUpdate::DropTable(meta))
                    && meta.space_id == space.id && meta.table_id
                    == space.tables@[plan.table_index as int].id && meta.table_name
                    == space.tables@[plan.table_index as int].name
            },
    {
        let table_index = match space.table_index(request.table_name.as_str()) {
            Some(v) => v,
            None => {
                return DropStep::NotFound;
            },
        };
        let table_data = &space.tables[table_index];
        if table_data.is_dropped() {
            proof {
                assert forall|i: int|
                    0 <= i < space.tables@.len() && (#[trigger] space.tables@[i]).name@
                        == request.table_name@ implies space.tables@[i].dropped by {
                    if i < table_index {
                        assert(space.tables@[i].name@ != space.tables@[table_index as int].name@);
                    } else if i > table_index {
                        assert(space.tables@[table_index as int].name@ != space.tables@[i].name@);
                    }
                }
            }
            return DropStep::AlreadyDropped;
        }
        // Mark the log of the table as deletable; its memtables go with the
        // table.
        let table_location = table_data.table_location();
        let wal_location = create_wal_location(table_location.id, table_location.shard_info);
        // Record the drop in the manifest.
        let edit = {
            let meta_update = MetaUpdate::DropTable(
                DropTableMeta {
                    space_id: space.id,
                    table_id: table_data.id,
                    table_name: table_data.name.clone(),
                },
            );
            MetaEditRequest {
                shard_info: table_data.shard_info,
                meta_edit: MetaEdit::Update(meta_update),
            }
        };
        DropStep::Proceed(DropPlan { table_index, wal_location, up_to: MAX_SEQUENCE_NUMBER, edit })
    }

    /// Ends the dropping of the table at that index. Where the log and the
    /// manifest have done their part, the table is marked as dropped and lets
    /// go of its files: each is handed to the purger once, unless the table's
    /// queue is closed. Else the table stays as it is.
    pub fn finish(space: &mut Space, table_index: usize, outcome: DropOutcome) -> (r: (
        Result<bool, Error>,
        Vec<Request>,
    ))
        requires
            old(space).wf(),
            table_index < old(space).tables@.len(),
        ensures
            final(space).wf(),
            final(space).tables@.len() == old(space).tables@.len(),
            forall|i: int|
                0 <= i < old(space).tables@.len() && i != table_index
                    ==> #[trigger] final(space).tables@[i] == old(space).tables@[i],
            *final(space) == (Space { tables: final(space).tables, ..*old(space) }),
            match outcome {
                DropOutcome::WalFailed => r.0 == Err::<bool, Error>(
                    Error::MarkWalDeleted {
                        space_id: old(space).id,
                        table_id: old(space).tables@[table_index as int].id,
                    },
                ) && r.1@.len() == 0 && *final(space) == *old(space),
                DropOutcome::ManifestFailed => r.0 == Err::<bool, Error>(
                    Error::WriteManifest {
                        space_id: old(space).id,
                        table_id: old(space).tables@[table_index as int].id,
                    },
                ) && r.1@.len() == 0 && *final(space) == *old(space),
                DropOutcome::Done => {
                    let before = old(space).tables@[table_index as int];
                    let after = final(space).tables@[table_index as int];
                    &&& r.0 == Ok::<bool, Error>(true)
                    &&& after.dropped
                    &&& after.name == before.name
                    &&& after.id == before.id
                    &&& forall|l: int|
                        0 <= l < MAX_LEVEL
                            ==> (#[trigger] after.version.levels@[l]).files@.len() == 0
                    &&& before.purge_queue.closed ==> r.1@.len() == 0
                    &&& r.1@.no_duplicates()
                    &&& !before.purge_queue.closed ==> forall|request: Request|
                        r.1@.contains(request) <==> (request matches Request::Purge(purge)
                            && purge.space_id == before.purge_queue.space_id && purge.table_id
                            == before.purge_queue.table_id && version_has_file(
                            before.version.levels@,
                            purge.file_id,
                        ))
                },
            },
    {
        let space_id = space.id;
        let table_id = space.tables[table_index].id;
        match outcome {
            DropOutcome::WalFailed => {
                return (Err(Error::MarkWalDeleted { space_id, table_id }), Vec::new());
            },
            DropOutcome::ManifestFailed => {
                return (Err(Error::WriteManifest { space_id, table_id }), Vec::new());
            },
            DropOutcome::Done => {},
        }
        let ghost before = space.tables@;
        let ghost queue = space.tables@[table_index as int].purge_queue;
        space.tables[table_index].dropped = true;
        let removed = space.tables[table_index].version.take_all_files();
        let requests = space.tables[table_index].purge_queue.push_files(&removed);
        proof {
            if !queue.closed {
                assert forall|request: Request|
                    requests@.contains(request) <==> (request matches Request::Purge(purge)
                        && purge.space_id == queue.space_id && purge.table_id == queue.table_id
                        && removed@.contains(purge.file_id)) by {
                    if requests@.contains(request) {
                        let j = choose|j: int| 0 <= j < requests@.len() && requests@[j] == request;
                        assert(removed@[j] == request->Purge_0.file_id);
                    }
                    if request matches Request::Purge(purge) && purge.space_id == queue.space_id
                        && purge.table_id == queue.table_id && removed@.contains(purge.file_id) {
                        let id = request->Purge_0.file_id;
                        let w = choose|w: int| 0 <= w < removed@.len() && removed@[w] == id;
                        assert(requests@[w] == request);
                    }
                }
            }
        }
        proof {
            let after = space.tables@;
            assert forall|i: int| 0 <= i < after.len() implies (#[trigger] after[i]).wf()
                && after[i].space_id == space.id by {
                if i != table_index {
                    assert(after[i] == before[i]);
                } else {
                    assert(before[i].wf());
                }
            }
            assert forall|i: int, j: int| 0 <= i < j < after.len()
                implies (#[trigger] after[i]).name@
                != (#[trigger] after[j]).name@ && after[i].id != after[j].id by {
                assert(before[i].name@ != before[j].name@);
                assert(after[i].name@ == before[i].name@);
                assert(after[j].name@ == before[j].name@);
            }
        }
        (Ok(true), requests)
    }
}

/// A table that has been dropped is not dropped again: the second request for
/// the same table finds nothing to drop.
pub proof fn lemma_drop_is_idempotent(
    before: Space,
    after: Space,
    request: DropTableRequest,
    table_index: int,
)
    requires
        before.wf(),
        after.wf(),
        0 <= table_index < before.tables@.len(),
        before.tables@[table_index].name@ == request.table_name@,
        after.tables@.len() == before.tables@.len(),
        after.tables@[table_index].dropped,
        after.tables@[table_index].name == before.tables@[table_index].name,
        forall|i: int|
            0 <= i < before.tables@.len() && i != table_index ==> #[trigger] after.tables@[i]
                == before.tables@[i],
    ensures
        !Dropper::finds_table(after, request),
{
    assert forall|i: int|
        0 <= i < after.tables@.len() && (#[trigger] after.tables@[i]).name@
            == request.table_name@ implies after.tables@[i].dropped by {
        if i < table_index {
            assert(after.tables@[i].name@ != after.tables@[table_index].name@);
        } else if i > table_index {
            assert(after.tables@[table_index].name@ != after.tables@[i].name@);
        }
    }
}

} // verus!
