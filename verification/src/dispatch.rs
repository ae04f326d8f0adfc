//! Driving one task request against the pool: resource admission, the state
//! transitions around a send/receive pair on a worker's socket, and the
//! interpretation of the reply. The socket I/O itself is the adapter's
//! business; everything the adapter decides with is verified here.

use vstd::prelude::*;

use crate::errors::AppError;
use crate::json::{spec_value_to_json, msgpack_value_to_json, JsonValue};
use crate::orchestrator::Orchestrator;
use crate::protocol::{Message, SpecMessage, Value};
use crate::resources::{ResourceAllocation, ResourceRequirements};
use crate::worker::{Worker, WorkerState};

verus! {

/// The body of a task-execution request, as handed over by the HTTP adapter.
pub struct TaskRequest {
    /// Handler arguments as a JSON tree.
    pub args: JsonValue,
}

/// Route metadata resolved before dispatch: which handler, at what cost.
pub struct RouteMetadata {
    pub handler_name: String,
    pub resources: ResourceRequirements,
}

/// What the adapter returns for one executed task. The result and error
/// trees are JSON values; rendering them as text is the adapter's business.
pub struct TaskResponse {
    pub success: bool,
    pub result: Option<JsonValue>,
    pub error: Option<JsonValue>,
    pub worker_id: Option<String>,
    pub execution_time_ms: Option<u64>,
}

/// Relies on uuid::Uuid::new_v4 and its display form: a fresh random
/// identifier rendered as 36 hyphenated hexadecimal characters.
#[verifier::external_body]
fn fresh_task_id() -> (r: String)
    ensures
        r@.len() == 36,
{
    uuid::Uuid::new_v4().to_string()
}

impl Orchestrator {
    /// Admit a task on the chosen worker: charge its requirements against
    /// the worker's allocation, mark the worker busy, and build the
    /// assignment message to send, under a fresh 36-character task id.
    pub fn begin_task(
        &mut self,
        idx: usize,
        function_name: String,
        args: Value,
        requirements: &ResourceRequirements,
    ) -> (msg: Message)
        requires
            old(self).wf(),
            idx < old(self).workers@.len(),
            old(self).workers@[idx as int].spec_has_capacity(*requirements),
        ensures
            final(self).wf(),
            final(self).workers@ == old(self).workers@.update(idx as int, (Worker {
                state: WorkerState::Busy,
                allocation: ResourceAllocation::spec_allocated(
                    old(self).workers@[idx as int].allocation,
                    *requirements,
                ),
                ..old(self).workers@[idx as int]
            })),
            final(self).next_worker_index == old(self).next_worker_index,
            final(self).config == old(self).config,
            (msg@ matches SpecMessage::TaskAssignment {
                task_id,
                function_name: f,
                args: a,
                resources,
            } && task_id.len() == 36 && f == function_name@ && a == args@ && resources
                == *requirements),
    {
        self.workers[idx].allocation.allocate(requirements);
        self.workers[idx].state = WorkerState::Busy;
        let task_id = fresh_task_id();
        Message::TaskAssignment {
            task_id,
            function_name,
            args,
            resources: *requirements,
        }
    }

    /// Settle a finished task: release its requirements (clamped at zero),
    /// mark the worker idle again, and count the completion.
    pub fn complete_task(&mut self, idx: usize, requirements: &ResourceRequirements)
        requires
            old(self).wf(),
            idx < old(self).workers@.len(),
        ensures
            final(self).wf(),
            final(self).workers@ == old(self).workers@.update(idx as int, (Worker {
                state: WorkerState::Idle,
                allocation: ResourceAllocation::spec_deallocated(
                    old(self).workers@[idx as int].allocation,
                    *requirements,
                ),
                tasks_completed: if old(self).workers@[idx as int].tasks_completed < u64::MAX {
                    (old(self).workers@[idx as int].tasks_completed + 1) as u64
                } else {
                    u64::MAX
                },
                ..old(self).workers@[idx as int]
            })),
            final(self).next_worker_index == old(self).next_worker_index,
            final(self).config == old(self).config,
    {
        self.workers[idx].allocation.deallocate(requirements);
        self.workers[idx].state = WorkerState::Idle;
        if self.workers[idx].tasks_completed < u64::MAX {
            let t = self.workers[idx].tasks_completed;
            self.workers[idx].tasks_completed = t + 1;
        }
    }

    /// Unwind a task that failed in flight: release its requirements
    /// (clamped at zero) and reset the worker to idle, without counting a
    /// completion.
    pub fn fail_task(&mut self, idx: usize, requirements: &ResourceRequirements)
        requires
            old(self).wf(),
            idx < old(self).workers@.len(),
        ensures
            final(self).wf(),
            final(self).workers@ == old(self).workers@.update(idx as int, (Worker {
                state: WorkerState::Idle,
                allocation: ResourceAllocation::spec_deallocated(
                    old(self).workers@[idx as int].allocation,
                    *requirements,
                ),
                ..old(self).workers@[idx as int]
            })),
            final(self).next_worker_index == old(self).next_worker_index,
            final(self).config == old(self).config,
    {
        self.workers[idx].allocation.deallocate(requirements);
        self.workers[idx].state = WorkerState::Idle;
    }
}

/// Interpret a worker's reply to a task assignment. A task result becomes
/// the adapter's response, its payload converted back to JSON: the payload
/// lands in `result` on success and in `error` on failure. A reply of any
/// other variant is a protocol fault. A payload with a non-string map key
/// cannot be converted and is a deserialization fault.
pub fn interpret_result(msg: Message, worker_id: String, execution_time_ms: u64) -> (r: Result<
    TaskResponse,
    AppError,
>)
    ensures
        match msg@ {
            SpecMessage::TaskResult { success, result, .. } => {
                match spec_value_to_json(result) {
                    Some(j) => {
                        &&& r is Ok
                        &&& ({
                            let response = r->Ok_0;
                            &&& response.success == success
                            &&& ((response.result matches Some(p)) <==> success)
                            &&& (success ==> response.result->Some_0@ == j)
                            &&& ((response.error matches Some(p)) <==> !success)
                            &&& (!success ==> response.error->Some_0@ == j)
                            &&& response.worker_id matches Some(w) && w@ == worker_id@
                            &&& response.execution_time_ms == Some(execution_time_ms)
                        })
                    },
                    None => (r matches Err(e) && e matches AppError::DeserializationError(d)
                        && d@ == "Map keys must be strings"@),
                }
            },
            _ => (r matches Err(e) && e is UnexpectedResponse),
        },
{
    match msg {
        Message::TaskResult { success, result, .. } => {
            let json = match msgpack_value_to_json(&result) {
                Ok(j) => j,
                Err(e) => {
                    return Err(AppError::DeserializationError(e));
                },
            };
            if success {
                Ok(
                    TaskResponse {
                        success: true,
                        result: Some(json),
                        error: None,
                        worker_id: Some(worker_id),
                        execution_time_ms: Some(execution_time_ms),
                    },
                )
            } else {
                Ok(
                    TaskResponse {
                        success: false,
                        result: None,
                        error: Some(json),
                        worker_id: Some(worker_id),
                        execution_time_ms: Some(execution_time_ms),
                    },
                )
            }
        },
        _ => Err(AppError::UnexpectedResponse),
    }
}

/// The pool's aggregate capacity figures, in milli-units.
#[derive(Clone, Copy, Debug, PartialEq, Eq, Structural)]
pub struct CapacitySummary {
    pub total_cpus: u64,
    pub total_gpus: u64,
    pub total_memory_gb: u64,
    pub available_cpus: u64,
    pub available_gpus: u64,
    pub available_memory_gb: u64,
    pub allocated_cpus: u64,
    pub allocated_gpus: u64,
    pub allocated_memory_gb: u64,
}

/// The summed capabilities of a pool, per dimension.
pub open spec fn spec_caps_sum(workers: Seq<Worker>) -> (int, int, int)
    decreases workers.len(),
{
    if workers.len() == 0 {
        (0, 0, 0)
    } else {
        let rest = spec_caps_sum(workers.drop_last());
        let w = workers.last();
        (
            rest.0 + w.capabilities.num_cpus,
            rest.1 + w.capabilities.num_gpus,
            rest.2 + w.capabilities.memory_gb,
        )
    }
}

/// The summed allocations of a pool, per dimension.
pub open spec fn spec_alloc_sum(workers: Seq<Worker>) -> (int, int, int)
    decreases workers.len(),
{
    if workers.len() == 0 {
        (0, 0, 0)
    } else {
        let rest = spec_alloc_sum(workers.drop_last());
        let w = workers.last();
        (
            rest.0 + w.allocation.allocated_cpus,
            rest.1 + w.allocation.allocated_gpus,
            rest.2 + w.allocation.allocated_memory_gb,
        )
    }
}

/// With every worker well formed, the summed allocation stays within the
/// summed capabilities.
pub proof fn lemma_alloc_sum_within(workers: Seq<Worker>)
    requires
        forall|i: int| 0 <= i < workers.len() ==> (#[trigger] workers[i]).wf(),
    ensures
        spec_alloc_sum(workers).0 <= spec_caps_sum(workers).0,
        spec_alloc_sum(workers).1 <= spec_caps_sum(workers).1,
        spec_alloc_sum(workers).2 <= spec_caps_sum(workers).2,
        spec_alloc_sum(workers).0 >= 0 && spec_alloc_sum(workers).1 >= 0 && spec_alloc_sum(
            workers,
        ).2 >= 0,
        spec_caps_sum(workers).0 >= 0 && spec_caps_sum(workers).1 >= 0 && spec_caps_sum(
            workers,
        ).2 >= 0,
    decreases workers.len(),
{
    if workers.len() > 0 {
        assert forall|i: int| 0 <= i < workers.drop_last().len() implies (
        #[trigger] workers.drop_last()[i]).wf() by {
            assert(workers.drop_last()[i] == workers[i]);
        }
        lemma_alloc_sum_within(workers.drop_last());
        assert(workers.last().wf());
    }
}

impl Orchestrator {
    /// The pool's aggregate capacity: totals, free figures, and outstanding
    /// allocation, each the per-dimension sum over all workers. Nothing
    /// comes back when a total overflows its 64-bit figure.
    pub fn capacity_summary(&self) -> (r: Option<CapacitySummary>)
        requires
            self.wf(),
        ensures
            match r {
                Some(cs) => {
                    &&& cs.total_cpus == spec_caps_sum(self.workers@).0
                    &&& cs.total_gpus == spec_caps_sum(self.workers@).1
                    &&& cs.total_memory_gb == spec_caps_sum(self.workers@).2
                    &&& cs.allocated_cpus == spec_alloc_sum(self.workers@).0
                    &&& cs.allocated_gpus == spec_alloc_sum(self.workers@).1
                    &&& cs.allocated_memory_gb == spec_alloc_sum(self.workers@).2
                    &&& cs.available_cpus == cs.total_cpus - cs.allocated_cpus
                    &&& cs.available_gpus == cs.total_gpus - cs.allocated_gpus
                    &&& cs.available_memory_gb == cs.total_memory_gb - cs.allocated_memory_gb
                },
                None => !(spec_caps_sum(self.workers@).0 <= u64::MAX && spec_caps_sum(
                    self.workers@,
                ).1 <= u64::MAX && spec_caps_sum(self.workers@).2 <= u64::MAX),
            },
    {
        let mut total_cpus: u64 = 0;
        let mut total_gpus: u64 = 0;
        let mut total_memory_gb: u64 = 0;
        let mut allocated_cpus: u64 = 0;
        let mut allocated_gpus: u64 = 0;
        let mut allocated_memory_gb: u64 = 0;
        let mut i: usize = 0;
        while i < self.workers.len()
            invariant
                self.wf(),
                i <= self.workers@.len(),
                total_cpus == spec_caps_sum(self.workers@.take(i as int)).0,
                total_gpus == spec_caps_sum(self.workers@.take(i as int)).1,
                total_memory_gb == spec_caps_sum(self.workers@.take(i as int)).2,
                allocated_cpus == spec_alloc_sum(self.workers@.take(i as int)).0,
                allocated_gpus == spec_alloc_sum(self.workers@.take(i as int)).1,
                allocated_memory_gb == spec_alloc_sum(self.workers@.take(i as int)).2,
                allocated_cpus <= total_cpus && allocated_gpus <= total_gpus
                    && allocated_memory_gb <= total_memory_gb,
            decreases self.workers@.len() - i,
        {
            proof {
                assert(self.workers@.take(i + 1).drop_last() =~= self.workers@.take(i as int));
                lemma_caps_sum_monotone_step(self.workers@, i as int);
            }
            let w = &self.workers[i];
            if total_cpus > u64::MAX - w.capabilities.num_cpus || total_gpus > u64::MAX
                - w.capabilities.num_gpus || total_memory_gb > u64::MAX
                - w.capabilities.memory_gb {
                proof {
                    lemma_caps_sum_prefix_le(self.workers@, i + 1);
                }
                return None;
            }
            total_cpus = total_cpus + w.capabilities.num_cpus;
            total_gpus = total_gpus + w.capabilities.num_gpus;
            total_memory_gb = total_memory_gb + w.capabilities.memory_gb;
            allocated_cpus = allocated_cpus + w.allocation.allocated_cpus;
            allocated_gpus = allocated_gpus + w.allocation.allocated_gpus;
            allocated_memory_gb = allocated_memory_gb + w.allocation.allocated_memory_gb;
            i = i + 1;
        }
        proof {
            assert(self.workers@.take(self.workers@.len() as int) =~= self.workers@);
        }
        Some(
            CapacitySummary {
                total_cpus,
                total_gpus,
                total_memory_gb,
                available_cpus: total_cpus - allocated_cpus,
                available_gpus: total_gpus - allocated_gpus,
                available_memory_gb: total_memory_gb - allocated_memory_gb,
                allocated_cpus,
                allocated_gpus,
                allocated_memory_gb,
            },
        )
    }
}

/// The capability sums of a prefix never exceed those of the whole pool.
proof fn lemma_caps_sum_prefix_le(workers: Seq<Worker>, k: int)
    requires
        0 <= k <= workers.len(),
    ensures
        spec_caps_sum(workers.take(k)).0 <= spec_caps_sum(workers).0,
        spec_caps_sum(workers.take(k)).1 <= spec_caps_sum(workers).1,
        spec_caps_sum(workers.take(k)).2 <= spec_caps_sum(workers).2,
    decreases workers.len() - k,
{
    if k == workers.len() {
        assert(workers.take(k) =~= workers);
    } else {
        lemma_caps_sum_monotone_step(workers, k);
        lemma_caps_sum_prefix_le(workers, k + 1);
    }
}

/// The capability sums only grow with one more worker.
proof fn lemma_caps_sum_monotone_step(workers: Seq<Worker>, i: int)
    requires
        0 <= i < workers.len(),
    ensures
        spec_caps_sum(workers.take(i + 1)).0 == spec_caps_sum(workers.take(i)).0
            + workers[i].capabilities.num_cpus,
        spec_caps_sum(workers.take(i + 1)).1 == spec_caps_sum(workers.take(i)).1
            + workers[i].capabilities.num_gpus,
        spec_caps_sum(workers.take(i + 1)).2 == spec_caps_sum(workers.take(i)).2
            + workers[i].capabilities.memory_gb,
        spec_alloc_sum(workers.take(i + 1)).0 == spec_alloc_sum(workers.take(i)).0
            + workers[i].allocation.allocated_cpus,
        spec_alloc_sum(workers.take(i + 1)).1 == spec_alloc_sum(workers.take(i)).1
            + workers[i].allocation.allocated_gpus,
        spec_alloc_sum(workers.take(i + 1)).2 == spec_alloc_sum(workers.take(i)).2
            + workers[i].allocation.allocated_memory_gb,
{
    assert(workers.take(i + 1).drop_last() =~= workers.take(i));
    assert(workers.take(i + 1).last() == workers[i]);
}

/// A task admitted and then settled leaves the worker's allocation exactly
/// where it began: the net of the pair is zero.
pub proof fn lemma_task_pair_restores_allocation(w: Worker, requirements: ResourceRequirements)
    requires
        w.wf(),
        w.spec_has_capacity(requirements),
    ensures
        ResourceAllocation::spec_deallocated(
            ResourceAllocation::spec_allocated(w.allocation, requirements),
            requirements,
        ) == w.allocation,
{
    crate::resources::lemma_allocate_deallocate_restores(w.allocation, requirements);
}

} // verus!
