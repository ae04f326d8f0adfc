//! The worker pool and its resource-aware, round-robin selector.
//!
//! The pool is an ordered vector of worker records plus a round-robin cursor.
//! Selection runs in two passes, each a cyclic scan starting at the cursor:
//! pass one admits only idle workers, pass two admits any worker that is not
//! recycling, so a request can queue behind a busy worker that fits. In both
//! passes a GPU task (one that asks for any GPU) is matched only against
//! workers that declare GPUs; CPU tasks may land anywhere, so GPU workers
//! serve as a last resort for them while GPU tasks never fall back to
//! CPU-only workers. A worker chosen for recycling is never selected.

use vstd::prelude::*;

use crate::config::{Config, WorkerPoolConfig};
use crate::ids::{make_worker_id, spec_dec_digits};
use crate::resources::{ResourceCapabilities, ResourceRequirements};
use crate::worker::{Worker, WorkerState};

verus! {

/// Whether a request needs any GPU at all.
pub open spec fn spec_gpu_task(requirements: ResourceRequirements) -> bool {
    requirements.num_gpus > 0
}

/// Whether a worker's hardware profile fits the request: GPU tasks are
/// confined to workers that declare GPUs; CPU tasks fit every profile.
pub open spec fn spec_profile_matches(w: Worker, requirements: ResourceRequirements) -> bool {
    spec_gpu_task(requirements) ==> w.capabilities.num_gpus > 0
}

/// The two selection passes.
#[derive(Clone, Copy, Debug, PartialEq, Eq, Structural)]
pub enum SelectionPass {
    /// Only idle workers are admitted.
    IdleOnly,
    /// Any worker not chosen for recycling is admitted.
    AnyState,
}

/// Whether a worker is admitted by the given pass for the given request.
pub open spec fn spec_pass_match(
    pass: SelectionPass,
    w: Worker,
    requirements: ResourceRequirements,
) -> bool {
    &&& match pass {
        SelectionPass::IdleOnly => w.state == WorkerState::Idle,
        SelectionPass::AnyState => w.state != WorkerState::Recycling,
    }
    &&& spec_profile_matches(w, requirements)
    &&& w.spec_has_capacity(requirements)
}

/// The first index, scanning cyclically from `start + off`, that the pass
/// admits; `None` when the remaining offsets hold no admitted worker.
pub open spec fn spec_find_from(
    workers: Seq<Worker>,
    start: int,
    off: int,
    pass: SelectionPass,
    requirements: ResourceRequirements,
) -> Option<int>
    decreases workers.len() - off,
{
    if off < 0 || off >= workers.len() {
        None
    } else {
        let idx = (start + off) % (workers.len() as int);
        if spec_pass_match(pass, workers[idx], requirements) {
            Some(idx)
        } else {
            spec_find_from(workers, start, off + 1, pass, requirements)
        }
    }
}

/// The selector: the first idle admitted worker in cyclic order from `start`,
/// or failing that the first non-recycling admitted worker.
pub open spec fn spec_select(
    workers: Seq<Worker>,
    start: int,
    requirements: ResourceRequirements,
) -> Option<int> {
    match spec_find_from(workers, start, 0, SelectionPass::IdleOnly, requirements) {
        Some(i) => Some(i),
        None => spec_find_from(workers, start, 0, SelectionPass::AnyState, requirements),
    }
}

/// A found index is in range and its worker is admitted by the pass.
pub proof fn lemma_find_from_match(
    workers: Seq<Worker>,
    start: int,
    off: int,
    pass: SelectionPass,
    requirements: ResourceRequirements,
    found: int,
)
    requires
        spec_find_from(workers, start, off, pass, requirements) == Some(found),
    ensures
        0 <= found < workers.len(),
        spec_pass_match(pass, workers[found], requirements),
    decreases workers.len() - off,
{
    if !(off < 0 || off >= workers.len()) {
        let idx = (start + off) % (workers.len() as int);
        if spec_pass_match(pass, workers[idx], requirements) {
            lemma_mod_bound(start + off, workers.len() as int);
        } else {
            lemma_find_from_match(workers, start, off + 1, pass, requirements, found);
        }
    }
}

/// A selected index is in range, its worker is not recycling, has the free
/// capacity, and fits the request's hardware profile.
pub proof fn lemma_select_sound(
    workers: Seq<Worker>,
    start: int,
    requirements: ResourceRequirements,
    found: int,
)
    requires
        spec_select(workers, start, requirements) == Some(found),
    ensures
        0 <= found < workers.len(),
        workers[found].state != WorkerState::Recycling,
        workers[found].spec_has_capacity(requirements),
        spec_gpu_task(requirements) ==> workers[found].capabilities.num_gpus > 0,
{
    match spec_find_from(workers, start, 0, SelectionPass::IdleOnly, requirements) {
        Some(i) => {
            lemma_find_from_match(workers, start, 0, SelectionPass::IdleOnly, requirements, found);
        },
        None => {
            lemma_find_from_match(workers, start, 0, SelectionPass::AnyState, requirements, found);
        },
    }
}

/// Euclidean remainder of a non-negative dividend lies in `[0, n)`.
proof fn lemma_mod_bound(a: int, n: int)
    requires
        n > 0,
    ensures
        0 <= a % n < n,
{
    assert(0 <= a % n < n) by (nonlinear_arith)
        requires
            n > 0,
    ;
}

/// When every worker is idle and admitted, the selector takes the worker at
/// the cursor itself: consecutive same-shape requests therefore walk the pool
/// in round-robin order, one worker per request.
pub proof fn lemma_round_robin_step(
    workers: Seq<Worker>,
    start: int,
    requirements: ResourceRequirements,
)
    requires
        workers.len() > 0,
        0 <= start < workers.len(),
        forall|i: int| 0 <= i < workers.len() ==> (#[trigger] workers[i]).state
            == WorkerState::Idle,
        forall|i: int| 0 <= i < workers.len() ==> (#[trigger] workers[i]).spec_has_capacity(
            requirements,
        ),
        forall|i: int| 0 <= i < workers.len() ==> spec_profile_matches(
            #[trigger] workers[i],
            requirements,
        ),
    ensures
        spec_select(workers, start, requirements) == Some(start),
{
    let n = workers.len() as int;
    assert(start % n == start) by {
        lemma_mod_self_lt(start, n);
    }
    assert(spec_pass_match(SelectionPass::IdleOnly, workers[start % n], requirements));
}

/// `a % n == a` when `0 <= a < n`.
proof fn lemma_mod_self_lt(a: int, n: int)
    requires
        0 <= a < n,
    ensures
        a % n == a,
{
    assert(a % n == a) by (nonlinear_arith)
        requires
            0 <= a < n,
    ;
}

/// Every worker of a well-formed pool keeps its allocation within its
/// capabilities in every dimension; the quantities are unsigned, so no
/// allocation is ever negative either. Admission (`begin_task`) requires the
/// capacity and settlement clamps at zero, so every transition preserves
/// this bound.
pub proof fn lemma_pool_allocation_bounded(o: &Orchestrator, i: int)
    requires
        o.wf(),
        0 <= i < o.workers@.len(),
    ensures
        o.workers@[i].allocation.allocated_cpus <= o.workers@[i].capabilities.num_cpus,
        o.workers@[i].allocation.allocated_gpus <= o.workers@[i].capabilities.num_gpus,
        o.workers@[i].allocation.allocated_memory_gb <= o.workers@[i].capabilities.memory_gb,
{
}

/// How many of the first `total` round-robin selections, starting at cursor
/// `c0` over `n` workers, land on worker `j`.
pub open spec fn spec_rr_count(c0: int, n: int, total: int, j: int) -> int
    decreases total,
{
    if total <= 0 || n <= 0 {
        0
    } else {
        spec_rr_count(c0, n, total - 1, j) + if (c0 + (total - 1)) % n == j {
            1int
        } else {
            0int
        }
    }
}

/// One selection step lands on `j` exactly when the step index, taken
/// cyclically, is `j`'s offset from the starting cursor.
proof fn lemma_cyclic_hit(c0: int, n: int, t: int, j: int)
    requires
        0 < n,
        0 <= c0 < n,
        0 <= j < n,
        t >= 0,
    ensures
        ((c0 + t) % n == j) <==> (t % n == spec_cyclic_offset(c0, n, j)),
{
    vstd::arithmetic::div_mod::lemma_fundamental_div_mod(t, n);
    vstd::arithmetic::div_mod::lemma_mod_bound(t, n);
    let q = t / n;
    let r = t % n;
    assert(t == q * n + r) by (nonlinear_arith)
        requires
            t == n * q + r,
    ;
    if c0 + r < n {
        assert(c0 + t == q * n + (c0 + r));
        vstd::arithmetic::div_mod::lemma_fundamental_div_mod_converse_mod(c0 + t, n, q, c0 + r);
    } else {
        assert(c0 + t == (q + 1) * n + (c0 + r - n)) by (nonlinear_arith)
            requires
                t == q * n + r,
        ;
        vstd::arithmetic::div_mod::lemma_fundamental_div_mod_converse_mod(
            c0 + t,
            n,
            q + 1,
            c0 + r - n,
        );
    }
}

/// The exact count: worker `j` is first reached at its cyclic offset `m`
/// from the cursor and then once every `n` selections.
proof fn lemma_rr_count_exact(c0: int, n: int, total: int, j: int)
    requires
        0 < n,
        0 <= c0 < n,
        0 <= j < n,
        total >= 0,
    ensures
        spec_rr_count(c0, n, total, j) == ({
            let m = spec_cyclic_offset(c0, n, j);
            if total <= m {
                0int
            } else {
                (total - 1 - m) / n + 1
            }
        }),
    decreases total,
{
    let m = spec_cyclic_offset(c0, n, j);
    if total > 0 {
        lemma_rr_count_exact(c0, n, total - 1, j);
        lemma_cyclic_hit(c0, n, total - 1, j);
        let t = total - 1;
        vstd::arithmetic::div_mod::lemma_fundamental_div_mod(t, n);
        vstd::arithmetic::div_mod::lemma_mod_bound(t, n);
        let q = t / n;
        let r = t % n;
        assert(t == q * n + r) by (nonlinear_arith)
            requires
                t == n * q + r,
        ;
        if t < m {
            vstd::arithmetic::div_mod::lemma_small_mod(t as nat, n as nat);
        } else if r == m {
            // A hit: the count and the formula both grow by one.
            assert(t - m == q * n + 0);
            vstd::arithmetic::div_mod::lemma_fundamental_div_mod_converse_div(t - m, n, q, 0);
            if t > m {
                assert(t - 1 - m == (q - 1) * n + (n - 1)) by (nonlinear_arith)
                    requires
                        t == q * n + m,
                ;
                vstd::arithmetic::div_mod::lemma_fundamental_div_mod_converse_div(
                    t - 1 - m,
                    n,
                    q - 1,
                    n - 1,
                );
            }
        } else {
            // A miss: the count and the formula both stand still.
            if r > m {
                assert(t - m == q * n + (r - m));
                vstd::arithmetic::div_mod::lemma_fundamental_div_mod_converse_div(
                    t - m,
                    n,
                    q,
                    r - m,
                );
                assert(t - 1 - m == q * n + (r - m - 1));
                vstd::arithmetic::div_mod::lemma_fundamental_div_mod_converse_div(
                    t - 1 - m,
                    n,
                    q,
                    r - m - 1,
                );
            } else if t >= m {
                assert(t - m == (q - 1) * n + (n + r - m)) by (nonlinear_arith)
                    requires
                        t == q * n + r,
                ;
                vstd::arithmetic::div_mod::lemma_fundamental_div_mod_converse_div(
                    t - m,
                    n,
                    q - 1,
                    n + r - m,
                );
                assert(t - 1 - m == (q - 1) * n + (n + r - m - 1)) by (nonlinear_arith)
                    requires
                        t == q * n + r,
                ;
                vstd::arithmetic::div_mod::lemma_fundamental_div_mod_converse_div(
                    t - 1 - m,
                    n,
                    q - 1,
                    n + r - m - 1,
                );
            }
        }
    }
}

/// Round-robin fairness. By `lemma_round_robin_step`, a run of same-shape
/// requests against a pool whose workers are all idle, fitting and matching
/// before each request picks the cursor and advances it by one, so step `k`
/// of a run starting at cursor `c0` lands on worker `(c0 + k) % n`. Over
/// `total` such selections, every worker receives either `total / n` or
/// `total / n + 1` of them.
pub proof fn lemma_round_robin_fairness(c0: int, n: int, total: int, j: int)
    requires
        0 < n,
        0 <= c0 < n,
        0 <= j < n,
        total >= 0,
    ensures
        total / n <= spec_rr_count(c0, n, total, j) <= total / n + 1,
{
    lemma_rr_count_exact(c0, n, total, j);
    let m = spec_cyclic_offset(c0, n, j);
    if total <= m {
        vstd::arithmetic::div_mod::lemma_basic_div(total, n);
    } else {
        vstd::arithmetic::div_mod::lemma_div_is_ordered(total - n, total - 1 - m, n);
        vstd::arithmetic::div_mod::lemma_div_is_ordered(total - 1 - m, total, n);
        vstd::arithmetic::div_mod::lemma_div_minus_one(total, n);
        assert(-1 + total / n == (-n + total) / n);
    }
}

/// After a selection at cursor `c`, the advanced cursor continues the same
/// cyclic walk: advancing by one more step is the same as starting one
/// selection later.
pub proof fn lemma_cursor_advances(c0: int, n: int, k: int)
    requires
        0 < n,
        k >= 0,
    ensures
        ((c0 + k) % n + 1) % n == (c0 + k + 1) % n,
{
    vstd::arithmetic::div_mod::lemma_add_mod_noop(c0 + k, 1, n);
    vstd::arithmetic::div_mod::lemma_mod_bound(1, n);
    if n == 1 {
        vstd::arithmetic::div_mod::lemma_mod_self_0(n);
        vstd::arithmetic::div_mod::lemma_mod_bound(c0 + k, n);
        vstd::arithmetic::div_mod::lemma_mod_bound(c0 + k + 1, n);
        assert(((c0 + k) % n + 1) % n == (c0 + k + 1) % n) by {
            assert((c0 + k) % n == 0 && (c0 + k + 1) % n == 0);
            assert((0int + 1int) % (1int) == 0int);
        }
    } else {
        vstd::arithmetic::div_mod::lemma_small_mod(1nat, n as nat);
        assert(((c0 + k) % n + 1int % n) % n == (c0 + k + 1) % n);
    }
}

/// The orchestrator's scheduling state: the ordered pool and the cursor.
pub struct Orchestrator {
    pub config: Config,
    pub workers: Vec<Worker>,
    pub next_worker_index: usize,
}

impl Orchestrator {
    /// Well-formedness: every pooled worker keeps its allocation within its
    /// capabilities, and the cursor is in range whenever the pool is
    /// non-empty.
    pub open spec fn wf(&self) -> bool {
        &&& forall|i: int| 0 <= i < self.workers@.len() ==> (#[trigger] self.workers@[i]).wf()
        &&& self.workers@.len() > 0 ==> self.next_worker_index < self.workers@.len()
        &&& self.workers@.len() == 0 ==> self.next_worker_index == 0
    }

    /// A fresh orchestrator with an empty pool.
    pub fn new(config: Config) -> (r: Orchestrator)
        ensures
            r.wf(),
            r.workers@.len() == 0,
            r.next_worker_index == 0,
            r.config == config,
    {
        Orchestrator { config, workers: Vec::new(), next_worker_index: 0 }
    }

    /// Number of workers in the pool.
    pub fn worker_count(&self) -> (r: usize)
        ensures
            r == self.workers@.len(),
    {
        self.workers.len()
    }

    /// Borrow the pool.
    pub fn workers(&self) -> (r: &Vec<Worker>)
        ensures
            r@ == self.workers@,
    {
        &self.workers
    }

    /// Admit a ready worker into the pool.
    pub fn insert_worker(&mut self, w: Worker)
        requires
            w.wf(),
            old(self).wf(),
            old(self).workers@.len() < usize::MAX,
        ensures
            final(self).wf(),
            final(self).workers@ == old(self).workers@.push(w),
            final(self).next_worker_index == old(self).next_worker_index,
            final(self).config == old(self).config,
    {
        self.workers.push(w);
    }

    /// Find a worker for the given requirements. Two cyclic passes from the
    /// round-robin cursor: first idle admitted workers, then any admitted
    /// worker that is not recycling. On a hit the cursor advances to just
    /// past the chosen worker; on a miss nothing changes.
    pub fn find_worker_with_resources(&mut self, requirements: &ResourceRequirements) -> (r:
        Option<usize>)
        requires
            old(self).wf(),
        ensures
            final(self).wf(),
            final(self).workers@ == old(self).workers@,
            final(self).config == old(self).config,
            match r {
                Some(i) => {
                    &&& spec_select(old(self).workers@, old(self).next_worker_index as int,
                        *requirements) == Some(i as int)
                    &&& i < old(self).workers@.len()
                    &&& old(self).workers@[i as int].state != WorkerState::Recycling
                    &&& old(self).workers@[i as int].spec_has_capacity(*requirements)
                    &&& spec_gpu_task(*requirements) ==> old(self).workers@[
                        i as int].capabilities.num_gpus > 0
                    &&& final(self).next_worker_index == (i + 1) % (old(self).workers@.len() as int)
                },
                None => {
                    &&& spec_select(old(self).workers@, old(self).next_worker_index as int,
                        *requirements) is None
                    &&& final(self).next_worker_index == old(self).next_worker_index
                },
            },
    {
        let ghost ws = self.workers@;
        let ghost start = self.next_worker_index as int;
        if self.workers.len() == 0 {
            return None;
        }
        let n = self.workers.len();
        match self.find_pass(SelectionPass::IdleOnly, requirements) {
            Some(i) => {
                self.next_worker_index = (i + 1) % n;
                proof {
                    lemma_select_sound(ws, start, *requirements, i as int);
                }
                Some(i)
            },
            None => {
                match self.find_pass(SelectionPass::AnyState, requirements) {
                    Some(i) => {
                        self.next_worker_index = (i + 1) % n;
                        proof {
                            lemma_select_sound(ws, start, *requirements, i as int);
                        }
                        Some(i)
                    },
                    None => None,
                }
            },
        }
    }

    /// One cyclic scan of the pool under the given pass.
    fn find_pass(&self, pass: SelectionPass, requirements: &ResourceRequirements) -> (r: Option<
        usize,
    >)
        requires
            self.wf(),
            self.workers@.len() > 0,
            self.next_worker_index < self.workers@.len(),
        ensures
            match r {
                Some(i) => {
                    &&& i < self.workers@.len()
                    &&& spec_find_from(self.workers@, self.next_worker_index as int, 0, pass,
                        *requirements) == Some(i as int)
                },
                None => spec_find_from(self.workers@, self.next_worker_index as int, 0, pass,
                    *requirements) is None,
            },
    {
        let n = self.workers.len();
        let start = self.next_worker_index;
        let mut off: usize = 0;
        while off < n
            invariant
                self.wf(),
                0 < n == self.workers@.len(),
                start < n,
                start == self.next_worker_index,
                off <= n,
                spec_find_from(self.workers@, start as int, 0, pass, *requirements)
                    == spec_find_from(self.workers@, start as int, off as int, pass,
                    *requirements),
            decreases n - off,
        {
            let current = cyclic_index(start, off, n);
            let w = &self.workers[current];
            let admitted = match pass {
                SelectionPass::IdleOnly => w.state == WorkerState::Idle,
                SelectionPass::AnyState => !(w.state == WorkerState::Recycling),
            };
            if admitted && profile_matches_exec(w, requirements) && w.has_capacity(requirements) {
                proof {
                    assert(spec_pass_match(pass, self.workers@[current as int], *requirements));
                    assert(spec_find_from(self.workers@, start as int, off as int, pass,
                        *requirements) == Some(current as int));
                }
                return Some(current);
            }
            off = off + 1;
        }
        None
    }

    /// Legacy round-robin: selection with no resource demand. The next idle
    /// worker in cyclic order from the cursor, or, when none is idle, the
    /// next worker that is at least not recycling — the caller then queues
    /// behind it. The cursor advances past whatever is returned.
    pub fn get_next_worker(&mut self) -> (r: Option<usize>)
        requires
            old(self).wf(),
        ensures
            final(self).wf(),
            final(self).workers@ == old(self).workers@,
            final(self).config == old(self).config,
            match r {
                Some(i) => {
                    &&& spec_select(old(self).workers@, old(self).next_worker_index as int,
                        (ResourceRequirements { num_cpus: 0, num_gpus: 0, memory_gb: 0 }))
                        == Some(i as int)
                    &&& i < old(self).workers@.len()
                    &&& old(self).workers@[i as int].state != WorkerState::Recycling
                    &&& final(self).next_worker_index == (i + 1) % (old(self).workers@.len() as int)
                },
                None => {
                    &&& spec_select(old(self).workers@, old(self).next_worker_index as int,
                        (ResourceRequirements { num_cpus: 0, num_gpus: 0, memory_gb: 0 }))
                        is None
                    &&& final(self).next_worker_index == old(self).next_worker_index
                },
            },
    {
        let none_needed = ResourceRequirements { num_cpus: 0, num_gpus: 0, memory_gb: 0 };
        self.find_worker_with_resources(&none_needed)
    }
}

/// The offset at which a full cyclic scan from `start` reaches index `j`.
pub open spec fn spec_cyclic_offset(start: int, n: int, j: int) -> int {
    if j >= start {
        j - start
    } else {
        j + n - start
    }
}

proof fn lemma_mod_self_lt2(a: int, n: int)
    requires
        0 <= a < n,
    ensures
        a % n == a,
{
    assert(a % n == a) by (nonlinear_arith)
        requires
            0 <= a < n,
    ;
}

proof fn lemma_mod_plus_n(a: int, n: int)
    requires
        n > 0,
        0 <= a < n,
    ensures
        (a + n) % n == a,
{
    assert((a + n) % n == a % n) by (nonlinear_arith)
        requires
            n > 0,
    ;
    lemma_mod_self_lt2(a, n);
}

/// The index visited at offset `off` of a cyclic scan from `start` over a
/// pool of `n` workers, computed without overflow.
fn cyclic_index(start: usize, off: usize, n: usize) -> (r: usize)
    requires
        start < n,
        off < n,
    ensures
        r < n,
        r == (start + off) % (n as int),
{
    let r = if off < n - start {
        start + off
    } else {
        off - (n - start)
    };
    proof {
        if off < n - start {
            lemma_mod_self_lt2((start + off) as int, n as int);
        } else {
            lemma_mod_plus_n((start + off - n) as int, n as int);
        }
    }
    r
}

/// Executable form of the profile check.
fn profile_matches_exec(w: &Worker, requirements: &ResourceRequirements) -> (r: bool)
    ensures
        r == spec_profile_matches(*w, *requirements),
{
    if requirements.num_gpus > 0 {
        w.capabilities.num_gpus > 0
    } else {
        true
    }
}

/// Everything app code needs to spawn one worker: its identity, its pool,
/// its capabilities, and its GPU binding.
pub struct SpawnSpec {
    /// Pool-qualified worker id.
    pub worker_id: String,
    /// Name of the pool the worker belongs to.
    pub pool_name: String,
    /// Index of the worker within its pool.
    pub pool_index: usize,
    /// Capabilities declared for the worker.
    pub resources: ResourceCapabilities,
    /// GPU device indices the worker is pinned to.
    pub gpu_devices: Vec<usize>,
}

/// The GPU devices assigned to the worker at `pool_index`: the devices are
/// dealt round-robin, and a pool without GPU capacity or without a device
/// list assigns none.
pub open spec fn spec_gpu_assignment(
    devices: Seq<usize>,
    resources: ResourceCapabilities,
    pool_index: usize,
) -> Seq<usize> {
    if devices.len() > 0 && resources.num_gpus > 0 {
        seq![devices[pool_index as int % (devices.len() as int)]]
    } else {
        Seq::empty()
    }
}

/// Compute the GPU binding of the worker at `pool_index` in `pool`.
pub fn gpu_assignment(pool: &WorkerPoolConfig, pool_index: usize) -> (r: Vec<usize>)
    ensures
        r@ == spec_gpu_assignment(pool.gpu_devices@, pool.resources, pool_index),
{
    let mut r: Vec<usize> = Vec::new();
    if pool.gpu_devices.len() > 0 && pool.resources.num_gpus > 0 {
        let device = pool.gpu_devices[pool_index % pool.gpu_devices.len()];
        r.push(device);
        proof {
            assert(r@ =~= spec_gpu_assignment(pool.gpu_devices@, pool.resources, pool_index));
        }
    } else {
        proof {
            assert(r@ =~= spec_gpu_assignment(pool.gpu_devices@, pool.resources, pool_index));
        }
    }
    r
}

/// Whether a spawn spec is the one the plan calls for at `(pool, index)`.
pub open spec fn spec_spawn_spec_for(sp: SpawnSpec, pool: WorkerPoolConfig, wi: usize) -> bool {
    &&& sp.worker_id@ == pool.name@ + "-"@ + spec_dec_digits(wi as int)
    &&& sp.pool_name@ == pool.name@
    &&& sp.pool_index == wi
    &&& sp.resources == pool.resources
    &&& sp.gpu_devices@ == spec_gpu_assignment(pool.gpu_devices@, pool.resources, wi)
}

/// The spawn specs of one pool: one per worker, indexed from zero, each with
/// its derived id and round-robin GPU binding.
pub fn spawn_plan_for_pool(pool: &WorkerPoolConfig) -> (r: Vec<SpawnSpec>)
    ensures
        r@.len() == pool.count,
        forall|k: int| 0 <= k < r@.len() ==> spec_spawn_spec_for(
            #[trigger] r@[k],
            *pool,
            k as usize,
        ),
{
    let mut r: Vec<SpawnSpec> = Vec::new();
    let mut wi: usize = 0;
    while wi < pool.count
        invariant
            wi <= pool.count,
            r@.len() == wi,
            forall|k: int| 0 <= k < wi ==> spec_spawn_spec_for(#[trigger] r@[k], *pool,
                k as usize),
        decreases pool.count - wi,
    {
        let worker_id = make_worker_id(&pool.name, wi);
        let sp = SpawnSpec {
            worker_id,
            pool_name: pool.name.clone(),
            pool_index: wi,
            resources: pool.resources,
            gpu_devices: gpu_assignment(pool, wi),
        };
        r.push(sp);
        wi = wi + 1;
    }
    r
}

/// Why a worker could not be scheduled for replacement.
#[derive(Clone, Copy, Debug, PartialEq, Eq, Structural)]
pub enum RecycleError {
    /// No configured pool carries the worker's pool name.
    PoolNotFound,
}

/// The first pool with the given name.
pub open spec fn spec_find_pool(pools: Seq<WorkerPoolConfig>, name: Seq<char>) -> Option<int>
    decreases pools.len(),
{
    if pools.len() == 0 {
        None
    } else if pools.first().name@ == name {
        Some(0)
    } else {
        match spec_find_pool(pools.drop_first(), name) {
            Some(i) => Some(i + 1),
            None => None,
        }
    }
}

/// A found pool is in range, carries the name, and is the first that does.
pub proof fn lemma_find_pool_sound(pools: Seq<WorkerPoolConfig>, name: Seq<char>, found: int)
    requires
        spec_find_pool(pools, name) == Some(found),
    ensures
        0 <= found < pools.len(),
        pools[found].name@ == name,
        forall|j: int| 0 <= j < found ==> (#[trigger] pools[j]).name@ != name,
    decreases pools.len(),
{
    if pools.len() > 0 && pools.first().name@ != name {
        lemma_find_pool_sound(pools.drop_first(), name, found - 1);
        assert forall|j: int| 0 <= j < found implies (#[trigger] pools[j]).name@ != name by {
            if j > 0 {
                assert(pools.drop_first()[j - 1] == pools[j]);
            }
        }
    }
}

/// Plan the replacement of a worker chosen for recycling: the replacement
/// keeps the worker's id, pool name and pool index, and is given the same
/// round-robin GPU binding the pool derives for that index. Fails exactly
/// when no configured pool carries the worker's pool name.
pub fn plan_recycle(w: &Worker, pools: &Vec<WorkerPoolConfig>) -> (r: Result<
    SpawnSpec,
    RecycleError,
>)
    ensures
        match r {
            Ok(sp) => {
                &&& spec_find_pool(pools@, w.pool_name@) is Some
                &&& ({
                    let pi = spec_find_pool(pools@, w.pool_name@)->Some_0;
                    &&& sp.worker_id@ == w.id@
                    &&& sp.pool_name@ == w.pool_name@
                    &&& sp.pool_index == w.pool_index
                    &&& sp.resources == pools@[pi].resources
                    &&& sp.gpu_devices@ == spec_gpu_assignment(
                        pools@[pi].gpu_devices@,
                        pools@[pi].resources,
                        w.pool_index,
                    )
                })
            },
            Err(_) => spec_find_pool(pools@, w.pool_name@) is None,
        },
{
    let mut i: usize = 0;
    while i < pools.len()
        invariant
            i <= pools@.len(),
            forall|j: int| 0 <= j < i ==> (#[trigger] pools@[j]).name@ != w.pool_name@,
        decreases pools@.len() - i,
    {
        if pools[i].name == w.pool_name {
            let pool = &pools[i];
            proof {
                lemma_find_pool_first(pools@, w.pool_name@, i as int);
            }
            return Ok(
                SpawnSpec {
                    worker_id: w.id.clone(),
                    pool_name: w.pool_name.clone(),
                    pool_index: w.pool_index,
                    resources: pool.resources,
                    gpu_devices: gpu_assignment(pool, w.pool_index),
                },
            );
        }
        i = i + 1;
    }
    proof {
        lemma_find_pool_none(pools@, w.pool_name@);
    }
    Err(RecycleError::PoolNotFound)
}

/// When earlier pools miss and pool `i` hits, the search finds `i`.
proof fn lemma_find_pool_first(pools: Seq<WorkerPoolConfig>, name: Seq<char>, i: int)
    requires
        0 <= i < pools.len(),
        pools[i].name@ == name,
        forall|j: int| 0 <= j < i ==> (#[trigger] pools[j]).name@ != name,
    ensures
        spec_find_pool(pools, name) == Some(i),
    decreases pools.len(),
{
    if i > 0 {
        assert forall|j: int| 0 <= j < i - 1 implies (#[trigger] pools.drop_first()[j]).name@
            != name by {
            assert(pools.drop_first()[j] == pools[j + 1]);
        }
        assert(pools.drop_first()[i - 1] == pools[i]);
        lemma_find_pool_first(pools.drop_first(), name, i - 1);
    }
}

/// When every pool misses, the search finds nothing.
proof fn lemma_find_pool_none(pools: Seq<WorkerPoolConfig>, name: Seq<char>)
    requires
        forall|j: int| 0 <= j < pools.len() ==> (#[trigger] pools[j]).name@ != name,
    ensures
        spec_find_pool(pools, name) is None,
    decreases pools.len(),
{
    if pools.len() > 0 {
        assert forall|j: int| 0 <= j < pools.drop_first().len() implies (
        #[trigger] pools.drop_first()[j]).name@ != name by {
            assert(pools.drop_first()[j] == pools[j + 1]);
        }
        lemma_find_pool_none(pools.drop_first(), name);
    }
}

/// Recycling preserves identity: a worker whose recorded GPU binding was
/// derived from its pool keeps both its id and its binding in the
/// replacement plan.
pub proof fn lemma_recycle_preserves_identity(
    w: Worker,
    pools: Seq<WorkerPoolConfig>,
    sp: SpawnSpec,
    pi: int,
)
    requires
        spec_find_pool(pools, w.pool_name@) == Some(pi),
        w.gpu_devices@ == spec_gpu_assignment(pools[pi].gpu_devices@, pools[pi].resources,
            w.pool_index),
        sp.worker_id@ == w.id@,
        sp.gpu_devices@ == spec_gpu_assignment(pools[pi].gpu_devices@, pools[pi].resources,
            w.pool_index),
    ensures
        sp.worker_id@ == w.id@,
        sp.gpu_devices@ == w.gpu_devices@,
{
}

impl Orchestrator {
    /// Record a fresh memory sample for one worker.
    pub fn note_memory_sample(&mut self, idx: usize, memory_mb: u64)
        requires
            old(self).wf(),
            idx < old(self).workers@.len(),
        ensures
            final(self).wf(),
            final(self).workers@ == old(self).workers@.update(idx as int, (Worker {
                current_memory_mb: memory_mb,
                ..old(self).workers@[idx as int]
            })),
            final(self).next_worker_index == old(self).next_worker_index,
            final(self).config == old(self).config,
    {
        self.workers[idx].update_memory(memory_mb);
    }

    /// The indices the recycler should rotate this tick: every idle worker
    /// past a threshold, in descending order so that removal keeps the
    /// remaining indices stable. A worker past a threshold but busy is left
    /// for a later tick.
    pub fn recycle_candidates(&self, now_secs: u64) -> (r: Vec<usize>)
        requires
            self.wf(),
        ensures
            forall|k: int| 0 <= k < r@.len() ==> (#[trigger] r@[k]) < self.workers@.len()
                && self.workers@[r@[k] as int].spec_should_recycle(
                self.config.orchestrator.worker,
                now_secs,
            ) && self.workers@[r@[k] as int].state == WorkerState::Idle,
            forall|i: usize| i < self.workers@.len()
                && (#[trigger] self.workers@[i as int]).spec_should_recycle(
                self.config.orchestrator.worker,
                now_secs,
            ) && self.workers@[i as int].state == WorkerState::Idle ==> r@.contains(i),
            forall|k1: int, k2: int| 0 <= k1 < k2 < r@.len() ==> r@[k1] > r@[k2],
    {
        let mut r: Vec<usize> = Vec::new();
        let mut i: usize = self.workers.len();
        while i > 0
            invariant
                self.wf(),
                i <= self.workers@.len(),
                forall|k: int| 0 <= k < r@.len() ==> i <= (#[trigger] r@[k])
                    < self.workers@.len() && self.workers@[r@[k] as int].spec_should_recycle(
                    self.config.orchestrator.worker,
                    now_secs,
                ) && self.workers@[r@[k] as int].state == WorkerState::Idle,
                forall|j: usize| i <= j < self.workers@.len()
                    && (#[trigger] self.workers@[j as int]).spec_should_recycle(
                    self.config.orchestrator.worker,
                    now_secs,
                ) && self.workers@[j as int].state == WorkerState::Idle ==> r@.contains(j),
                forall|k1: int, k2: int| 0 <= k1 < k2 < r@.len() ==> r@[k1] > r@[k2],
            decreases i,
        {
            i = i - 1;
            let w = &self.workers[i];
            if w.should_recycle(&self.config.orchestrator.worker, now_secs) && w.state
                == WorkerState::Idle {
                let ghost pre = r@;
                r.push(i);
                proof {
                    assert forall|j: usize| i <= j < self.workers@.len()
                        && (#[trigger] self.workers@[j as int]).spec_should_recycle(
                        self.config.orchestrator.worker,
                        now_secs,
                    ) && self.workers@[j as int].state == WorkerState::Idle implies r@.contains(
                        j,
                    ) by {
                        if j == i {
                            assert(r@[pre.len() as int] == i);
                        } else {
                            assert(pre.contains(j));
                            let k = choose|k: int| 0 <= k < pre.len() && pre[k] == j;
                            assert(r@[k] == j);
                        }
                    }
                }
            }
        }
        r
    }

    /// Take a worker out of the pool for recycling. The cursor is pulled
    /// back into range when the pool shrinks past it.
    pub fn remove_worker(&mut self, idx: usize) -> (w: Worker)
        requires
            old(self).wf(),
            idx < old(self).workers@.len(),
        ensures
            final(self).wf(),
            w == old(self).workers@[idx as int],
            final(self).workers@ == old(self).workers@.remove(idx as int),
            final(self).config == old(self).config,
    {
        let w = self.workers.remove(idx);
        if self.next_worker_index >= self.workers.len() {
            self.next_worker_index = 0;
        }
        w
    }

    /// Put a replacement worker back at the slot of the one it replaces.
    pub fn reinsert_worker(&mut self, idx: usize, w: Worker)
        requires
            old(self).wf(),
            idx <= old(self).workers@.len(),
            old(self).workers@.len() < usize::MAX,
            w.wf(),
        ensures
            final(self).wf(),
            final(self).workers@ == old(self).workers@.insert(idx as int, w),
            final(self).next_worker_index == old(self).next_worker_index,
            final(self).config == old(self).config,
    {
        self.workers.insert(idx, w);
    }

    /// Empty the pool for shutdown, handing every record back so the caller
    /// can close each worker's socket and remove its socket file: the
    /// returned list names every live socket path.
    pub fn shutdown(&mut self) -> (r: Vec<Worker>)
        requires
            old(self).wf(),
        ensures
            final(self).wf(),
            r@ == old(self).workers@,
            final(self).workers@.len() == 0,
            final(self).next_worker_index == 0,
            final(self).config == old(self).config,
    {
        let ghost all = self.workers@;
        self.next_worker_index = 0;
        let mut drained: Vec<Worker> = Vec::new();
        while self.workers.len() > 0
            invariant
                self.next_worker_index == 0,
                self.config == old(self).config,
                drained@ + self.workers@ == all,
            decreases self.workers@.len(),
        {
            let w = self.workers.remove(0);
            drained.push(w);
            proof {
                assert(drained@ + self.workers@ =~= all);
            }
        }
        proof {
            assert(drained@ =~= all);
        }
        drained
    }
}

} // verus!
