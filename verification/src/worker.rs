//! The decisions of the simulation worker, which owns the simulation on a thread
//! of its own: which facility a request builds, whether a batch of answers changed
//! the world (and so publishes one new snapshot, on its first answer), and how a
//! failed hand-over is reported.
use crate::session::{CompletedWork, WorkOutcome, WorkRequest};
use crate::snapshot_index::{indexes, SnapshotIndex};
use crate::world::{FacilityId, SimulationCommand, SimulationError, WorldSnapshot};
use vstd::prelude::*;

verus! {

/// Requests that the worker's queue holds, and that one batch drains at most.
pub const REQUEST_CAPACITY: usize = 32;

/// Why a request could not be handed to the worker.
#[derive(PartialEq, Eq, Structural, Clone, Copy)]
pub enum SubmitFailure {
    /// The queue holds `REQUEST_CAPACITY` requests already.
    Full,
    /// The worker has stopped.
    Disconnected,
}

/// The facility that a request starts building, if it is a construction request.
pub open spec fn target_of(request: WorkRequest) -> Option<FacilityId> {
    match request {
        WorkRequest::Construction(SimulationCommand::StartConstruction { facility, .. }, _) => Some(facility),
        _ => None,
    }
}

/// Whether an answer changed the world: a simulated day or an executed command.
pub open spec fn changes_world(result: Result<WorkOutcome, SimulationError>) -> bool {
    ||| result matches Ok(WorkOutcome::Day(_))
    ||| result matches Ok(WorkOutcome::Construction(..))
}

/// The facility that a request starts building.
pub fn construction_target(request: &WorkRequest) -> (target: Option<FacilityId>)
    ensures
        target == target_of(*request),
{
    match request {
        WorkRequest::Construction(SimulationCommand::StartConstruction { facility, .. }, _) => Some(*facility),
        _ => None,
    }
}

/// Whether one of a batch's answers changed the world.
pub fn batch_changed(responses: &Vec<CompletedWork>) -> (changed: bool)
    ensures
        changed == exists|i: int| 0 <= i < responses@.len() && #[trigger] changes_world(responses@[i].result),
{
    let mut i: usize = 0;
    while i < responses.len()
        invariant
            i <= responses@.len(),
            forall|k: int| 0 <= k < i ==> !#[trigger] changes_world(responses@[k].result),
        decreases responses.len() - i,
    {
        let changed = match &responses[i].result {
            Ok(WorkOutcome::Day(_)) => true,
            Ok(WorkOutcome::Construction(..)) => true,
            _ => false,
        };
        if changed {
            assert(changes_world(responses@[i as int].result));
            return true;
        }
        i = i + 1;
    }
    false
}

/// Attaches the snapshot of a batch that changed the world, with its index, to the
/// batch's first answer, so that it is published before the outcomes are observed.
pub fn publish_snapshot(responses: &mut Vec<CompletedWork>, snapshot: WorldSnapshot)
    requires
        old(responses)@.len() > 0,
    ensures
        final(responses)@.len() == old(responses)@.len(),
        final(responses)@[0].construction_id == old(responses)@[0].construction_id,
        final(responses)@[0].result == old(responses)@[0].result,
        final(responses)@[0].snapshot matches Some((published, index)) && published == snapshot && indexes(index, snapshot),
        forall|i: int| 0 < i < final(responses)@.len() ==> #[trigger] final(responses)@[i] == old(responses)@[i],
{
    let index = SnapshotIndex::build(&snapshot);
    responses[0].snapshot = Some((snapshot, index));
}

/// The error that a failed hand-over of a request reports.
pub fn submission_error(failure: SubmitFailure) -> (error: SimulationError)
    ensures
        error matches SimulationError::CommandRejected(message) && message@ == match failure {
            SubmitFailure::Full => "simulation request queue is full"@,
            SubmitFailure::Disconnected => "simulation worker stopped"@,
        },
{
    match failure {
        SubmitFailure::Full => SimulationError::CommandRejected("simulation request queue is full".to_owned()),
        SubmitFailure::Disconnected => SimulationError::CommandRejected("simulation worker stopped".to_owned()),
    }
}

/// The answer that stands in for a worker that has stopped: an error, with no
/// construction and no snapshot.
pub fn worker_stopped() -> (completed: CompletedWork)
    ensures
        completed.construction_id is None,
        completed.snapshot is None,
        completed.result matches Err(SimulationError::InvalidPrograms(message)) && message@
            == "simulation worker stopped"@,
{
    CompletedWork {
        construction_id: None,
        result: Err(SimulationError::InvalidPrograms("simulation worker stopped".to_owned())),
        snapshot: None,
    }
}

/// An answer changes the world exactly when its request succeeded and was not a
/// program inspection: a simulated day or an executed construction command does,
/// a failure or an inspection does not. So a batch that holds a started
/// construction or a day publishes a new snapshot.
pub proof fn lemma_successful_commands_change_world(responses: Seq<CompletedWork>, i: int)
    requires
        0 <= i < responses.len(),
    ensures
        changes_world(responses[i].result) <==> (responses[i].result matches Ok(outcome) && !(outcome is Inspection)),
        (responses[i].result matches Ok(outcome) && !(outcome is Inspection)) ==> exists|k: int|
            0 <= k < responses.len() && #[trigger] changes_world(responses[k].result),
{
}

} // verus!
