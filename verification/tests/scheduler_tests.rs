//! Scheduling scenarios: GPU affinity, capacity accounting, round-robin
//! fairness, recycling, and shutdown bookkeeping. Resource figures are in
//! milli-units.

use neutrino::config::Config;
use neutrino::protocol::Message;
use neutrino::orchestrator::{plan_recycle, spawn_plan_for_pool, Orchestrator};
use neutrino::config::WorkerPoolConfig;
use neutrino::protocol::Value;
use neutrino::resources::{ResourceAllocation, ResourceCapabilities, ResourceRequirements};
use neutrino::worker::{Worker, WorkerState};

fn caps(cpus: u64, gpus: u64, mem: u64) -> ResourceCapabilities {
    ResourceCapabilities { num_cpus: cpus, num_gpus: gpus, memory_gb: mem }
}

fn req(cpus: u64, gpus: u64, mem: u64) -> ResourceRequirements {
    ResourceRequirements { num_cpus: cpus, num_gpus: gpus, memory_gb: mem }
}

fn worker(id: &str, pool: &str, idx: usize, capabilities: ResourceCapabilities) -> Worker {
    Worker {
        id: id.to_owned(),
        pool_name: pool.to_owned(),
        pool_index: idx,
        pid: 1000 + idx as u32,
        state: WorkerState::Idle,
        socket_path: format!("/tmp/neutrino-{}.sock", id),
        capabilities,
        allocation: ResourceAllocation::default(),
        gpu_devices: vec![],
        tasks_completed: 0,
        spawn_time_secs: 0,
        current_memory_mb: 0,
    }
}

fn two_pool_orchestrator() -> Orchestrator {
    let mut orch = Orchestrator::new(Config::default());
    orch.insert_worker(worker("cpu-0", "cpu", 0, caps(4000, 0, 8000)));
    orch.insert_worker(worker("gpu-0", "gpu", 0, caps(4000, 1000, 8000)));
    orch
}

#[test]
fn test_gpu_affinity() {
    let mut orch = two_pool_orchestrator();

    // A GPU task must land on the GPU worker.
    let picked = orch.find_worker_with_resources(&req(1000, 1000, 1000)).unwrap();
    assert_eq!(picked, 1);

    // Two CPU tasks then walk the pool: the CPU worker first, the GPU
    // worker as the relaxed fallback.
    let first = orch.find_worker_with_resources(&req(1000, 0, 1000)).unwrap();
    assert_eq!(first, 0);
    let second = orch.find_worker_with_resources(&req(1000, 0, 1000)).unwrap();
    assert_eq!(second, 1);
}

#[test]
fn test_gpu_task_never_on_cpu_worker() {
    let mut orch = Orchestrator::new(Config::default());
    orch.insert_worker(worker("cpu-0", "cpu", 0, caps(64000, 0, 64000)));
    assert!(orch.find_worker_with_resources(&req(1000, 1000, 1000)).is_none());
}

#[test]
fn test_capacity_accounting() {
    let mut orch = Orchestrator::new(Config::default());
    orch.insert_worker(worker("default-0", "default", 0, caps(2000, 0, 4000)));
    let r = req(1000, 0, 2000);

    // Two concurrent tasks both fit; the allocation sums to the full capacity.
    let w0 = orch.find_worker_with_resources(&r).unwrap();
    let _msg = orch.begin_task(w0, "f".to_owned(), Value::Nil, &r);
    let w1 = orch.find_worker_with_resources(&r).unwrap();
    assert_eq!(w1, 0);
    let _msg = orch.begin_task(w1, "f".to_owned(), Value::Nil, &r);
    assert_eq!(orch.workers()[0].allocation.allocated_cpus, 2000);
    assert_eq!(orch.workers()[0].allocation.allocated_memory_gb, 4000);

    // A third concurrent task finds no capacity until one completes.
    assert!(orch.find_worker_with_resources(&req(1000, 0, 1000)).is_none());
    orch.complete_task(0, &r);
    assert!(orch.find_worker_with_resources(&req(1000, 0, 1000)).is_some());

    // After both completions the allocation is restored exactly.
    orch.complete_task(0, &r);
    assert_eq!(orch.workers()[0].allocation, ResourceAllocation::default());
    assert_eq!(orch.workers()[0].tasks_completed, 2);
}

#[test]
fn test_round_robin_fairness() {
    let mut orch = Orchestrator::new(Config::default());
    for i in 0..3 {
        orch.insert_worker(worker(&format!("default-{}", i), "default", i, caps(4000, 0, 8000)));
    }
    // Seven same-shape requests against three idle same-profile workers:
    // each worker receives two or three of them.
    let mut counts = [0usize; 3];
    for _ in 0..7 {
        let picked = orch.find_worker_with_resources(&req(1000, 0, 1000)).unwrap();
        counts[picked] += 1;
        // The task completes at once, so the worker stays idle.
    }
    assert_eq!(counts[0], 3);
    assert_eq!(counts[1], 2);
    assert_eq!(counts[2], 2);
}

#[test]
fn test_recycling_worker_never_selected() {
    let mut orch = Orchestrator::new(Config::default());
    let mut w = worker("default-0", "default", 0, caps(4000, 0, 8000));
    w.state = WorkerState::Recycling;
    orch.insert_worker(w);
    assert!(orch.find_worker_with_resources(&req(1000, 0, 1000)).is_none());
    assert!(orch.get_next_worker().is_none());
}

#[test]
fn test_busy_worker_queues_behind() {
    let mut orch = Orchestrator::new(Config::default());
    let mut w = worker("default-0", "default", 0, caps(4000, 0, 8000));
    w.state = WorkerState::Busy;
    orch.insert_worker(w);
    // No idle worker, but the busy one has capacity: the request queues on it.
    let picked = orch.find_worker_with_resources(&req(1000, 0, 1000)).unwrap();
    assert_eq!(picked, 0);
}

#[test]
fn test_recycle_after_memory_threshold() {
    let mut config = Config::default();
    config.orchestrator.worker.max_memory_mb = 100;
    let mut orch = Orchestrator::new(config);
    orch.insert_worker(worker("default-0", "default", 0, caps(4000, 0, 8000)));

    // A busy worker past the threshold is deferred.
    orch.note_memory_sample(0, 150);
    orch.workers[0].state = WorkerState::Busy;
    assert!(orch.recycle_candidates(10).is_empty());

    // Once idle, the next tick collects it.
    orch.workers[0].state = WorkerState::Idle;
    let picked = orch.recycle_candidates(10);
    assert_eq!(picked, vec![0]);

    // The replacement keeps the id, the pool slot and the GPU binding.
    let pools = vec![WorkerPoolConfig {
        name: "default".to_owned(),
        count: 1,
        resources: caps(4000, 0, 8000),
        gpu_devices: vec![],
    }];
    let old = orch.remove_worker(0);
    let plan = plan_recycle(&old, &pools).unwrap();
    assert_eq!(plan.worker_id, "default-0");
    assert_eq!(plan.pool_name, "default");
    assert_eq!(plan.pool_index, 0);
    assert_eq!(plan.gpu_devices, old.gpu_devices);
    let replacement = Worker::new(
        plan.worker_id,
        plan.pool_name,
        plan.pool_index,
        2000,
        "/tmp/neutrino-default-0.sock".to_owned(),
        plan.resources,
        plan.gpu_devices,
        11,
    );
    orch.reinsert_worker(0, replacement);
    assert_eq!(orch.workers()[0].id, "default-0");
}

#[test]
fn test_recycled_gpu_binding_round_robin() {
    let pool = WorkerPoolConfig {
        name: "gpu".to_owned(),
        count: 3,
        resources: caps(4000, 1000, 8000),
        gpu_devices: vec![0, 1],
    };
    let plan = spawn_plan_for_pool(&pool);
    assert_eq!(plan.len(), 3);
    assert_eq!(plan[0].worker_id, "gpu-0");
    assert_eq!(plan[0].gpu_devices, vec![0]);
    assert_eq!(plan[1].worker_id, "gpu-1");
    assert_eq!(plan[1].gpu_devices, vec![1]);
    assert_eq!(plan[2].worker_id, "gpu-2");
    assert_eq!(plan[2].gpu_devices, vec![0]);

    // A recycled worker gets the identical binding back.
    let mut w = worker("gpu-2", "gpu", 2, caps(4000, 1000, 8000));
    w.gpu_devices = vec![0];
    let replacement = plan_recycle(&w, &vec![pool]).unwrap();
    assert_eq!(replacement.worker_id, "gpu-2");
    assert_eq!(replacement.gpu_devices, vec![0]);
}

#[test]
fn test_shutdown_names_every_socket() {
    let mut orch = two_pool_orchestrator();
    let drained = orch.shutdown();
    assert_eq!(orch.worker_count(), 0);
    assert_eq!(drained.len(), 2);
    assert_eq!(drained[0].socket_path, "/tmp/neutrino-cpu-0.sock");
    assert_eq!(drained[1].socket_path, "/tmp/neutrino-gpu-0.sock");
}

#[test]
fn test_handshake_adopts_capabilities() {
    let mut w = worker("default-0", "default", 0, caps(1000, 0, 1000));
    w.state = WorkerState::Starting;
    let ready = Message::WorkerReady {
        worker_id: "default-0".to_owned(),
        pid: 4242,
        capabilities: caps(8000, 0, 16000),
    };
    w.apply_ready_message(&ready).unwrap();
    assert_eq!(w.state, WorkerState::Idle);
    assert_eq!(w.capabilities, caps(8000, 0, 16000));

    // Any other first message is a protocol fault and changes nothing.
    let mut w2 = worker("default-1", "default", 1, caps(1000, 0, 1000));
    w2.state = WorkerState::Starting;
    let bad = Message::Heartbeat { worker_id: "default-1".to_owned() };
    assert!(w2.apply_ready_message(&bad).is_err());
    assert_eq!(w2.state, WorkerState::Starting);
}

#[test]
fn test_should_recycle_thresholds() {
    let config = Config::default().orchestrator.worker;
    let mut w = worker("default-0", "default", 0, caps(4000, 0, 8000));
    w.spawn_time_secs = 100;
    assert!(!w.should_recycle(&config, 200));
    w.tasks_completed = 1000;
    assert!(w.should_recycle(&config, 200));
    w.tasks_completed = 0;
    w.current_memory_mb = 4096;
    assert!(w.should_recycle(&config, 200));
    w.current_memory_mb = 0;
    assert!(w.should_recycle(&config, 100 + 3600));
    assert!(!w.should_recycle(&config, 100 + 3599));
}

#[test]
fn test_capacity_summary_totals() {
    let mut orch = two_pool_orchestrator();
    let r = req(1000, 0, 1000);
    let idx = orch.find_worker_with_resources(&r).unwrap();
    let _msg = orch.begin_task(idx, "f".to_owned(), Value::Nil, &r);
    let summary = orch.capacity_summary().unwrap();
    assert_eq!(summary.total_cpus, 8000);
    assert_eq!(summary.total_gpus, 1000);
    assert_eq!(summary.total_memory_gb, 16000);
    assert_eq!(summary.allocated_cpus, 1000);
    assert_eq!(summary.available_cpus, 7000);
}
