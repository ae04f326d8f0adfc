//! The in-memory record of one worker process.
//!
//! The record carries the worker's identity, lifecycle state, declared
//! capabilities and live allocation. Its well-formedness invariant — the
//! allocation never exceeds the capabilities in any dimension — is
//! established by the constructor and preserved by every method.

use vstd::prelude::*;

use crate::config::WorkerConfig;
use crate::errors::AppError;
use crate::protocol::{Message, SpecMessage};
use crate::resources::{ResourceAllocation, ResourceCapabilities, ResourceRequirements};

verus! {

/// Lifecycle of a worker.
#[derive(Clone, Copy, Debug, PartialEq, Eq, Structural)]
pub enum WorkerState {
    /// Spawned, readiness handshake not yet completed.
    Starting,
    /// Ready and free of in-flight tasks.
    Idle,
    /// Driving at least one in-flight task.
    Busy,
    /// Chosen for rotation; never selectable.
    Recycling,
}

/// The record of a live worker.
pub struct Worker {
    /// Stable pool-qualified id, such as `"gpu-0"`.
    pub id: String,
    /// Name of the pool this worker was spawned from.
    pub pool_name: String,
    /// Index of this worker within its pool.
    pub pool_index: usize,
    /// OS process id of the child.
    pub pid: u32,
    pub state: WorkerState,
    /// Filesystem path of the worker's domain socket.
    pub socket_path: String,
    /// Declared total capacity; reaffirmed by the readiness handshake.
    pub capabilities: ResourceCapabilities,
    /// Current sum of outstanding task requirements.
    pub allocation: ResourceAllocation,
    /// GPU device indices this worker was pinned to at spawn.
    pub gpu_devices: Vec<usize>,
    /// Number of tasks this worker has completed.
    pub tasks_completed: u64,
    /// Spawn instant, in seconds on the caller's clock.
    pub spawn_time_secs: u64,
    /// Last sampled resident-set size, in megabytes.
    pub current_memory_mb: u64,
}

impl Worker {
    /// Well-formedness: the allocation stays within the capabilities.
    pub open spec fn wf(&self) -> bool {
        self.allocation.within(self.capabilities)
    }

    /// A fresh record in `Starting` state with nothing allocated.
    pub fn new(
        id: String,
        pool_name: String,
        pool_index: usize,
        pid: u32,
        socket_path: String,
        capabilities: ResourceCapabilities,
        gpu_devices: Vec<usize>,
        spawn_time_secs: u64,
    ) -> (w: Worker)
        ensures
            w.wf(),
            w.id@ == id@,
            w.pool_name@ == pool_name@,
            w.pool_index == pool_index,
            w.pid == pid,
            w.state == WorkerState::Starting,
            w.socket_path@ == socket_path@,
            w.capabilities == capabilities,
            w.allocation == ResourceAllocation::empty(),
            w.gpu_devices@ == gpu_devices@,
            w.tasks_completed == 0,
            w.spawn_time_secs == spawn_time_secs,
            w.current_memory_mb == 0,
    {
        Worker {
            id,
            pool_name,
            pool_index,
            pid,
            state: WorkerState::Starting,
            socket_path,
            capabilities,
            allocation: ResourceAllocation::default(),
            gpu_devices,
            tasks_completed: 0,
            spawn_time_secs,
            current_memory_mb: 0,
        }
    }

    /// Whether the worker's free capacity covers the requirements in every
    /// dimension.
    pub open spec fn spec_has_capacity(&self, requirements: ResourceRequirements) -> bool {
        &&& self.allocation.allocated_cpus + requirements.num_cpus <= self.capabilities.num_cpus
        &&& self.allocation.allocated_gpus + requirements.num_gpus <= self.capabilities.num_gpus
        &&& self.allocation.allocated_memory_gb + requirements.memory_gb
            <= self.capabilities.memory_gb
    }

    /// Check whether this worker has sufficient free resources for a task.
    pub fn has_capacity(&self, requirements: &ResourceRequirements) -> (r: bool)
        requires
            self.wf(),
        ensures
            r == self.spec_has_capacity(*requirements),
    {
        requirements.num_cpus <= self.capabilities.num_cpus - self.allocation.allocated_cpus
            && requirements.num_gpus <= self.capabilities.num_gpus
                - self.allocation.allocated_gpus
            && requirements.memory_gb <= self.capabilities.memory_gb
                - self.allocation.allocated_memory_gb
    }

    /// Free resources as `(cpus, gpus, memory_gb)`, in milli-units.
    pub fn available_resources(&self) -> (r: (u64, u64, u64))
        requires
            self.wf(),
        ensures
            r.0 == self.capabilities.num_cpus - self.allocation.allocated_cpus,
            r.1 == self.capabilities.num_gpus - self.allocation.allocated_gpus,
            r.2 == self.capabilities.memory_gb - self.allocation.allocated_memory_gb,
    {
        (
            self.capabilities.num_cpus - self.allocation.allocated_cpus,
            self.capabilities.num_gpus - self.allocation.allocated_gpus,
            self.capabilities.memory_gb - self.allocation.allocated_memory_gb,
        )
    }

    /// Record a fresh memory sample.
    pub fn update_memory(&mut self, memory_mb: u64)
        ensures
            *final(self) == (Worker { current_memory_mb: memory_mb, ..*old(self) }),
    {
        self.current_memory_mb = memory_mb;
    }

    /// Whether any recycling threshold has been reached: task count, sampled
    /// memory, or age. Age is measured from the spawn instant on the caller's
    /// clock; a clock that reads earlier than the spawn instant counts as age
    /// zero.
    pub open spec fn spec_should_recycle(&self, config: WorkerConfig, now_secs: u64) -> bool {
        ||| self.tasks_completed >= config.max_tasks_per_worker
        ||| self.current_memory_mb >= config.max_memory_mb
        ||| (now_secs >= self.spawn_time_secs && now_secs - self.spawn_time_secs
            >= config.max_lifetime_secs)
    }

    /// Check the recycling thresholds against the given clock reading.
    pub fn should_recycle(&self, config: &WorkerConfig, now_secs: u64) -> (r: bool)
        ensures
            r == self.spec_should_recycle(*config, now_secs),
    {
        if self.tasks_completed >= config.max_tasks_per_worker as u64 {
            true
        } else if self.current_memory_mb >= config.max_memory_mb {
            true
        } else if now_secs >= self.spawn_time_secs {
            now_secs - self.spawn_time_secs >= config.max_lifetime_secs
        } else {
            false
        }
    }
}

impl Worker {
    /// Apply the first message of the readiness handshake. A `WorkerReady`
    /// makes the record idle and adopts the capabilities the worker declared
    /// for itself — workers are authoritative about their own capacity. Any
    /// other first message is a protocol fault and changes nothing.
    pub fn apply_ready_message(&mut self, msg: &Message) -> (r: Result<(), AppError>)
        requires
            old(self).allocation == ResourceAllocation::empty(),
        ensures
            final(self).allocation == ResourceAllocation::empty(),
            final(self).wf(),
            match msg@ {
                SpecMessage::WorkerReady { capabilities, .. } => {
                    &&& r is Ok
                    &&& *final(self) == (Worker {
                        state: WorkerState::Idle,
                        capabilities,
                        ..*old(self)
                    })
                },
                _ => {
                    &&& (r matches Err(e) && e is UnexpectedResponse)
                    &&& *final(self) == *old(self)
                },
            },
    {
        match msg {
            Message::WorkerReady { capabilities, .. } => {
                self.state = WorkerState::Idle;
                self.capabilities = *capabilities;
                Ok(())
            },
            _ => Err(AppError::UnexpectedResponse),
        }
    }
}

} // verus!
