//! Configuration model for the orchestrator and the gateway.
//!
//! Loading from files or the environment is I/O and lives outside the
//! library; the types, the defaults, and the derived views (effective pools,
//! effective worker count) are plain logic and are verified here.

use vstd::prelude::*;

use crate::resources::{ResourceCapabilities, MILLI};

verus! {

/// Top-level orchestrator configuration.
pub struct Config {
    pub orchestrator: OrchestratorConfig,
}

pub struct OrchestratorConfig {
    /// Total worker count; superseded by `worker_pools` when that is non-empty.
    pub worker_count: Option<usize>,
    pub http: HttpConfig,
    pub worker: WorkerConfig,
    pub tasks: TaskConfig,
    /// Importable module path of the application handed to each worker.
    pub app_module: String,
    /// Optional ASGI fallback configuration.
    pub asgi: Option<AsgiConfig>,
    /// Worker pools with per-pool resource capabilities.
    pub worker_pools: Vec<WorkerPoolConfig>,
}

pub struct HttpConfig {
    pub host: String,
    pub port: u16,
    pub openapi_spec: Option<String>,
}

/// Configuration for one named pool of identically-provisioned workers.
pub struct WorkerPoolConfig {
    /// Name of the pool; worker ids are derived from it.
    pub name: String,
    /// Number of workers in this pool.
    pub count: usize,
    /// Capabilities of each worker in this pool.
    pub resources: ResourceCapabilities,
    /// GPU device indices assigned round-robin to the pool's workers.
    pub gpu_devices: Vec<usize>,
}

impl Clone for WorkerPoolConfig {
    fn clone(&self) -> (r: Self)
        ensures
            r.name@ == self.name@,
            r.count == self.count,
            r.resources == self.resources,
            r.gpu_devices@ == self.gpu_devices@,
    {
        WorkerPoolConfig {
            name: clone_string(&self.name),
            count: self.count,
            resources: self.resources,
            gpu_devices: clone_usize_vec(&self.gpu_devices),
        }
    }
}

/// Thresholds and timing for the worker lifecycle.
#[derive(Clone, Copy, Debug, PartialEq, Eq, Structural)]
pub struct WorkerConfig {
    /// A worker is recycled once it has completed this many tasks.
    pub max_tasks_per_worker: u32,
    /// A worker is recycled once its sampled RSS reaches this many megabytes.
    pub max_memory_mb: u64,
    /// A worker is recycled once it has lived this many seconds.
    pub max_lifetime_secs: u64,
    /// Period of the memory-sampling and recycling tick, in seconds.
    pub memory_check_interval_secs: u64,
    /// Budget for a spawned worker's readiness handshake, in seconds.
    pub startup_timeout_secs: u64,
}

#[derive(Clone, Copy, Debug, PartialEq, Eq, Structural)]
pub struct TaskConfig {
    pub default_timeout_secs: u64,
}

/// Configuration of the ASGI fallback application.
pub struct AsgiConfig {
    /// Whether unmatched routes are proxied to the ASGI application.
    pub enabled: bool,
    /// Whether the ASGI server runs as a managed child or a separate service.
    pub mode: AsgiMode,
    /// Port of the locally managed ASGI server (mounted mode).
    pub port: u16,
    /// Child worker count of the locally managed ASGI server (mounted mode).
    pub workers: usize,
    /// Base URL of the external ASGI service (proxy mode).
    pub service_url: Option<String>,
    /// Timeout for proxied requests, in seconds.
    pub timeout_secs: u64,
    /// Server invocation target, such as `"uvicorn_app:app"`.
    pub app_command: String,
}

#[derive(Clone, Copy, Debug, PartialEq, Eq, Structural)]
pub enum AsgiMode {
    Mounted,
    Proxy,
}

pub fn default_max_lifetime_secs() -> (r: u64)
    ensures
        r == 3600,
{
    3600
}

pub fn default_memory_check_interval_secs() -> (r: u64)
    ensures
        r == 30,
{
    30
}

pub fn default_asgi_port() -> (r: u16)
    ensures
        r == 8081,
{
    8081
}

pub fn default_asgi_workers() -> (r: usize)
    ensures
        r == 4,
{
    4
}

pub fn default_asgi_timeout() -> (r: u64)
    ensures
        r == 30,
{
    30
}

pub fn default_asgi_app_command() -> (r: String)
    ensures
        r@ == "uvicorn_app:app"@,
{
    let r = String::from_str("uvicorn_app:app");
    r
}

impl Config {
    /// The built-in default configuration.
    pub fn default() -> (r: Config)
        ensures
            r.orchestrator.worker_count == Some(4usize),
            r.orchestrator.http.port == 8080,
            r.orchestrator.worker.max_tasks_per_worker == 1000,
            r.orchestrator.worker.max_memory_mb == 4096,
            r.orchestrator.worker.max_lifetime_secs == 3600,
            r.orchestrator.worker.memory_check_interval_secs == 30,
            r.orchestrator.worker.startup_timeout_secs == 10,
            r.orchestrator.tasks.default_timeout_secs == 30,
            r.orchestrator.asgi is None,
            r.orchestrator.worker_pools@.len() == 0,
    {
        Config {
            orchestrator: OrchestratorConfig {
                worker_count: Some(4),
                http: HttpConfig {
                    host: String::from_str("0.0.0.0"),
                    port: 8080,
                    openapi_spec: Some(String::from_str("openapi.json")),
                },
                worker: WorkerConfig {
                    max_tasks_per_worker: 1000,
                    max_memory_mb: 4096,
                    max_lifetime_secs: 3600,
                    memory_check_interval_secs: 30,
                    startup_timeout_secs: 10,
                },
                tasks: TaskConfig { default_timeout_secs: 30 },
                app_module: String::from_str("app"),
                asgi: None,
                worker_pools: Vec::new(),
            },
        }
    }

    /// The number of workers the configuration calls for over all pools.
    pub open spec fn spec_effective_worker_count(&self) -> int {
        if self.orchestrator.worker_pools@.len() > 0 {
            spec_pool_count_sum(self.orchestrator.worker_pools@)
        } else {
            match self.orchestrator.worker_count {
                Some(n) => n as int,
                None => 4,
            }
        }
    }

    /// The effective worker count: the sum of the pool counts, or the legacy
    /// `worker_count` (default 4) when no pools are configured.
    pub fn effective_worker_count(&self) -> (r: usize)
        requires
            self.spec_effective_worker_count() <= usize::MAX,
        ensures
            r == self.spec_effective_worker_count(),
    {
        if self.orchestrator.worker_pools.len() > 0 {
            let mut total: usize = 0;
            let mut i: usize = 0;
            while i < self.orchestrator.worker_pools.len()
                invariant
                    i <= self.orchestrator.worker_pools@.len(),
                    total == spec_pool_count_sum(
                        self.orchestrator.worker_pools@.take(i as int),
                    ),
                    spec_pool_count_sum(self.orchestrator.worker_pools@) <= usize::MAX,
                decreases self.orchestrator.worker_pools@.len() - i,
            {
                proof {
                    lemma_pool_count_sum_take_step(self.orchestrator.worker_pools@, i as int);
                    lemma_pool_count_sum_take_bound(self.orchestrator.worker_pools@, i + 1);
                }
                total = total + self.orchestrator.worker_pools[i].count;
                i = i + 1;
            }
            proof {
                assert(self.orchestrator.worker_pools@.take(i as int)
                    =~= self.orchestrator.worker_pools@);
            }
            total
        } else {
            match self.orchestrator.worker_count {
                Some(n) => n,
                None => 4,
            }
        }
    }

    /// The pools to spawn: the configured pools, or a single default pool
    /// built from the legacy worker count when none are configured.
    pub fn effective_worker_pools(&self) -> (r: Vec<WorkerPoolConfig>)
        ensures
            self.orchestrator.worker_pools@.len() > 0 ==> {
                &&& r@.len() == self.orchestrator.worker_pools@.len()
                &&& forall|i: int| 0 <= i < r@.len() ==> {
                    &&& (#[trigger] r@[i]).name@ == self.orchestrator.worker_pools@[i].name@
                    &&& r@[i].count == self.orchestrator.worker_pools@[i].count
                    &&& r@[i].resources == self.orchestrator.worker_pools@[i].resources
                    &&& r@[i].gpu_devices@ == self.orchestrator.worker_pools@[i].gpu_devices@
                }
            },
            self.orchestrator.worker_pools@.len() == 0 ==> {
                &&& r@.len() == 1
                &&& r@[0].name@ == "default"@
                &&& r@[0].count == (match self.orchestrator.worker_count {
                    Some(n) => n as int,
                    None => 4,
                })
                &&& r@[0].resources == ResourceCapabilities {
                    num_cpus: MILLI,
                    num_gpus: 0u64,
                    memory_gb: (4 * MILLI) as u64,
                }
                &&& r@[0].gpu_devices@.len() == 0
            },
    {
        if self.orchestrator.worker_pools.len() > 0 {
            let mut r: Vec<WorkerPoolConfig> = Vec::new();
            let mut i: usize = 0;
            while i < self.orchestrator.worker_pools.len()
                invariant
                    i <= self.orchestrator.worker_pools@.len(),
                    r@.len() == i,
                    forall|j: int| 0 <= j < i ==> {
                        &&& (#[trigger] r@[j]).name@ == self.orchestrator.worker_pools@[j].name@
                        &&& r@[j].count == self.orchestrator.worker_pools@[j].count
                        &&& r@[j].resources == self.orchestrator.worker_pools@[j].resources
                        &&& r@[j].gpu_devices@ == self.orchestrator.worker_pools@[j].gpu_devices@
                    },
                decreases self.orchestrator.worker_pools@.len() - i,
            {
                r.push(self.orchestrator.worker_pools[i].clone());
                i = i + 1;
            }
            r
        } else {
            let count: usize = match self.orchestrator.worker_count {
                Some(n) => n,
                None => 4,
            };
            let pool = WorkerPoolConfig {
                name: String::from_str("default"),
                count,
                resources: ResourceCapabilities::default(),
                gpu_devices: Vec::new(),
            };
            let mut r: Vec<WorkerPoolConfig> = Vec::new();
            r.push(pool);
            r
        }
    }
}

/// The sum of the `count` fields of a sequence of pools.
pub open spec fn spec_pool_count_sum(pools: Seq<WorkerPoolConfig>) -> int
    decreases pools.len(),
{
    if pools.len() == 0 {
        0
    } else {
        spec_pool_count_sum(pools.drop_last()) + pools.last().count
    }
}

proof fn lemma_pool_count_sum_take_step(pools: Seq<WorkerPoolConfig>, i: int)
    requires
        0 <= i < pools.len(),
    ensures
        spec_pool_count_sum(pools.take(i + 1)) == spec_pool_count_sum(pools.take(i))
            + pools[i].count,
{
    assert(pools.take(i + 1).drop_last() =~= pools.take(i));
    assert(pools.take(i + 1).last() == pools[i]);
}

proof fn lemma_pool_count_sum_take_bound(pools: Seq<WorkerPoolConfig>, i: int)
    requires
        0 <= i <= pools.len(),
    ensures
        spec_pool_count_sum(pools.take(i)) <= spec_pool_count_sum(pools),
    decreases pools.len() - i,
{
    if i < pools.len() {
        lemma_pool_count_sum_take_step(pools, i);
        lemma_pool_count_sum_take_bound(pools, i + 1);
    } else {
        assert(pools.take(i) =~= pools);
    }
}

/// Gateway-side configuration, read from the environment by the binary.
pub struct GatewayConfig {
    pub port: u16,
    pub database_path: String,
    /// Discovery flavour: `"static"` or `"kubernetes"`.
    pub discovery_mode: String,
    /// Backend URLs for static discovery.
    pub static_backends: Vec<String>,
    pub capacity_update_interval_secs: u64,
    pub capacity_timeout_secs: u64,
    pub openapi_spec_path: String,
}

/// How the gateway finds its backends.
pub enum DiscoveryMode {
    /// A fixed list of backend URLs.
    Static(Vec<String>),
    /// Pods in a namespace matching a label selector, re-listed periodically.
    Kubernetes { namespace: String, label_selector: String, port: u16 },
}

/// Copy a string, keeping its characters.
pub fn clone_string(s: &String) -> (r: String)
    ensures
        r@ == s@,
{
    s.clone()
}

/// Copy a vector of indices, keeping its contents.
pub fn clone_usize_vec(v: &Vec<usize>) -> (r: Vec<usize>)
    ensures
        r@ == v@,
{
    let mut r: Vec<usize> = Vec::new();
    let mut i: usize = 0;
    while i < v.len()
        invariant
            i <= v@.len(),
            r@ == v@.take(i as int),
        decreases v@.len() - i,
    {
        r.push(v[i]);
        i = i + 1;
    }
    proof {
        assert(v@.take(v@.len() as int) =~= v@);
    }
    r
}

} // verus!
