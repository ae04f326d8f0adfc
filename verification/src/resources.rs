//! Resource quantities and per-worker allocation accounting.
//!
//! Quantities are held in integer milli-units: 1000 milli-units stand for one
//! CPU core, one GPU device, or one gigabyte of memory. Fractional resource
//! grants (half a core, a quarter of a gigabyte) stay exact, and the
//! accounting laws (allocate then deallocate restores the worker precisely)
//! are provable without rounding drift.

use vstd::prelude::*;

verus! {

/// Milli-units per whole unit (core, device, gigabyte).
pub const MILLI: u64 = 1000;

/// What a task asks for, in milli-units per dimension.
#[derive(Clone, Copy, Debug, PartialEq, Eq, Structural)]
pub struct ResourceRequirements {
    /// CPUs required, in milli-cores.
    pub num_cpus: u64,
    /// GPUs required, in milli-devices.
    pub num_gpus: u64,
    /// Memory required, in milli-gigabytes.
    pub memory_gb: u64,
}

impl Default for ResourceRequirements {
    /// The default request: one CPU, no GPU, one gigabyte.
    fn default() -> (r: Self)
        ensures
            r.num_cpus == MILLI,
            r.num_gpus == 0,
            r.memory_gb == MILLI,
    {
        ResourceRequirements { num_cpus: MILLI, num_gpus: 0, memory_gb: MILLI }
    }
}

/// What a worker advertises as its total capacity, in milli-units.
#[derive(Clone, Copy, Debug, PartialEq, Eq, Structural)]
pub struct ResourceCapabilities {
    /// Total CPUs, in milli-cores.
    pub num_cpus: u64,
    /// Total GPUs, in milli-devices.
    pub num_gpus: u64,
    /// Total memory, in milli-gigabytes.
    pub memory_gb: u64,
}

impl Default for ResourceCapabilities {
    /// The default capacity: one CPU, no GPU, four gigabytes.
    fn default() -> (r: Self)
        ensures
            r.num_cpus == MILLI,
            r.num_gpus == 0,
            r.memory_gb == 4 * MILLI,
    {
        ResourceCapabilities { num_cpus: MILLI, num_gpus: 0, memory_gb: 4 * MILLI }
    }
}

/// The sum of outstanding task requirements on one worker, in milli-units.
#[derive(Clone, Copy, Debug, PartialEq, Eq, Structural)]
pub struct ResourceAllocation {
    /// CPUs currently allocated, in milli-cores.
    pub allocated_cpus: u64,
    /// GPUs currently allocated, in milli-devices.
    pub allocated_gpus: u64,
    /// Memory currently allocated, in milli-gigabytes.
    pub allocated_memory_gb: u64,
}

impl Default for ResourceAllocation {
    /// A fresh worker has nothing allocated.
    fn default() -> (r: Self)
        ensures
            r == ResourceAllocation::empty(),
    {
        ResourceAllocation { allocated_cpus: 0, allocated_gpus: 0, allocated_memory_gb: 0 }
    }
}

impl ResourceAllocation {
    /// The allocation of a worker with no outstanding tasks.
    pub open spec fn empty() -> ResourceAllocation {
        ResourceAllocation { allocated_cpus: 0, allocated_gpus: 0, allocated_memory_gb: 0 }
    }

    /// Every dimension stays within the given capabilities.
    pub open spec fn within(self, caps: ResourceCapabilities) -> bool {
        self.allocated_cpus <= caps.num_cpus
            && self.allocated_gpus <= caps.num_gpus
            && self.allocated_memory_gb <= caps.memory_gb
    }

    /// The allocation after admitting a task's requirements.
    pub open spec fn spec_allocated(
        a: ResourceAllocation,
        requirements: ResourceRequirements,
    ) -> ResourceAllocation {
        ResourceAllocation {
            allocated_cpus: (a.allocated_cpus + requirements.num_cpus) as u64,
            allocated_gpus: (a.allocated_gpus + requirements.num_gpus) as u64,
            allocated_memory_gb: (a.allocated_memory_gb + requirements.memory_gb) as u64,
        }
    }

    /// The allocation after releasing a task's requirements, each dimension
    /// clamped at zero.
    pub open spec fn spec_deallocated(
        a: ResourceAllocation,
        requirements: ResourceRequirements,
    ) -> ResourceAllocation {
        ResourceAllocation {
            allocated_cpus: if a.allocated_cpus >= requirements.num_cpus {
                (a.allocated_cpus - requirements.num_cpus) as u64
            } else {
                0u64
            },
            allocated_gpus: if a.allocated_gpus >= requirements.num_gpus {
                (a.allocated_gpus - requirements.num_gpus) as u64
            } else {
                0u64
            },
            allocated_memory_gb: if a.allocated_memory_gb >= requirements.memory_gb {
                (a.allocated_memory_gb - requirements.memory_gb) as u64
            } else {
                0u64
            },
        }
    }

    /// Add a task's requirements to the running total.
    pub fn allocate(&mut self, requirements: &ResourceRequirements)
        requires
            old(self).allocated_cpus + requirements.num_cpus <= u64::MAX,
            old(self).allocated_gpus + requirements.num_gpus <= u64::MAX,
            old(self).allocated_memory_gb + requirements.memory_gb <= u64::MAX,
        ensures
            *final(self) == ResourceAllocation::spec_allocated(*old(self), *requirements),
    {
        self.allocated_cpus = self.allocated_cpus + requirements.num_cpus;
        self.allocated_gpus = self.allocated_gpus + requirements.num_gpus;
        self.allocated_memory_gb = self.allocated_memory_gb + requirements.memory_gb;
    }

    /// Subtract a task's requirements, clamping each dimension at zero so that
    /// a stray double release can never drive the total negative.
    pub fn deallocate(&mut self, requirements: &ResourceRequirements)
        ensures
            *final(self) == ResourceAllocation::spec_deallocated(*old(self), *requirements),
    {
        self.allocated_cpus = if self.allocated_cpus >= requirements.num_cpus {
            self.allocated_cpus - requirements.num_cpus
        } else {
            0
        };
        self.allocated_gpus = if self.allocated_gpus >= requirements.num_gpus {
            self.allocated_gpus - requirements.num_gpus
        } else {
            0
        };
        self.allocated_memory_gb = if self.allocated_memory_gb >= requirements.memory_gb {
            self.allocated_memory_gb - requirements.memory_gb
        } else {
            0
        };
    }
}

/// Allocating a task's requirements and then releasing the same requirements
/// restores the allocation exactly: a completed request pair is free of drift.
pub proof fn lemma_allocate_deallocate_restores(
    before: ResourceAllocation,
    requirements: ResourceRequirements,
)
    requires
        before.allocated_cpus + requirements.num_cpus <= u64::MAX,
        before.allocated_gpus + requirements.num_gpus <= u64::MAX,
        before.allocated_memory_gb + requirements.memory_gb <= u64::MAX,
    ensures
        ResourceAllocation::spec_deallocated(
            ResourceAllocation::spec_allocated(before, requirements),
            requirements,
        ) == before,
{
}

} // verus!
