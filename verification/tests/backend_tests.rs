//! Backend capacity checks, utilization, health tracking and selection.
//! Resource figures are in milli-units and utilization is per-mille.

use neutrino::backend::{capacity_from_json, Backend, BackendPool, CapacitySample};
use neutrino::config::DiscoveryMode;
use neutrino::json::JsonValue;

fn sample(
    avail: (u64, u64, u64),
    total: (u64, u64, u64),
) -> CapacitySample {
    CapacitySample {
        available_cpus: avail.0,
        available_gpus: avail.1,
        available_memory_gb: avail.2,
        total_cpus: total.0,
        total_gpus: total.1,
        total_memory_gb: total.2,
    }
}

#[test]
fn test_backend_has_capacity() {
    let mut backend = Backend::new("http://test:8080".to_owned());
    backend.available_cpus = 4000;
    backend.available_gpus = 2000;
    backend.available_memory_gb = 8000;
    backend.healthy = true;

    assert!(backend.has_capacity(2000, 1000, 4000));
    assert!(!backend.has_capacity(5000, 1000, 4000)); // Not enough CPU
    assert!(!backend.has_capacity(2000, 3000, 4000)); // Not enough GPU
    assert!(!backend.has_capacity(2000, 1000, 10000)); // Not enough memory
}

#[test]
fn test_backend_utilization() {
    let mut backend = Backend::new("http://test:8080".to_owned());
    backend.total_cpus = 8000;
    backend.total_gpus = 2000;
    backend.available_cpus = 4000; // 50% used
    backend.available_gpus = 1000; // 50% used

    assert_eq!(backend.utilization(), 500);

    backend.available_gpus = 0; // 100% used
    assert_eq!(backend.utilization(), 1000);
}

#[test]
fn test_unhealthy_backend_not_selected() {
    let mut backend = Backend::new("http://test:8080".to_owned());
    backend.available_cpus = 4000;
    backend.available_gpus = 0;
    backend.available_memory_gb = 8000;
    backend.healthy = false;
    assert!(!backend.has_capacity(1000, 0, 1000));
}

#[test]
fn test_poll_failures_drive_health() {
    let mut pool = BackendPool::new(DiscoveryMode::Static(vec![]), 2, 5);
    pool.add_backend("http://a:8080".to_owned());
    pool.record_poll_success(0, sample((4000, 0, 8000), (4000, 0, 8000)), 100);
    assert!(pool.get_backends()[0].healthy);

    // One and two consecutive failures leave the backend healthy.
    pool.record_poll_failure(0);
    assert!(pool.get_backends()[0].healthy);
    assert_eq!(pool.get_backends()[0].error_count, 1);
    pool.record_poll_failure(0);
    assert!(pool.get_backends()[0].healthy);

    // The third failure marks it unhealthy.
    pool.record_poll_failure(0);
    assert!(!pool.get_backends()[0].healthy);
    assert_eq!(pool.healthy_count(), 0);

    // One success returns it to health and clears the streak.
    pool.record_poll_success(0, sample((4000, 0, 8000), (4000, 0, 8000)), 200);
    assert!(pool.get_backends()[0].healthy);
    assert_eq!(pool.get_backends()[0].error_count, 0);
    assert_eq!(pool.healthy_count(), 1);
}

#[test]
fn test_least_utilized_selected() {
    let mut pool = BackendPool::new(DiscoveryMode::Static(vec![]), 2, 5);
    pool.add_backend("http://a:8080".to_owned());
    pool.add_backend("http://b:8080".to_owned());
    pool.add_backend("http://c:8080".to_owned());

    // Utilizations 0.2, 0.5, 0.8, all with enough free capacity.
    pool.record_poll_success(0, sample((8000, 0, 16000), (10000, 0, 16000)), 1);
    pool.record_poll_success(1, sample((5000, 0, 16000), (10000, 0, 16000)), 1);
    pool.record_poll_success(2, sample((2000, 0, 16000), (10000, 0, 16000)), 1);

    assert_eq!(pool.get_backends()[0].utilization(), 200);
    assert_eq!(pool.get_backends()[1].utilization(), 500);
    assert_eq!(pool.get_backends()[2].utilization(), 800);

    let picked = pool.find_backend_with_resources(1000, 0, 1000).unwrap();
    assert_eq!(picked, 0);

    // Mark the least-utilized backend unhealthy: the next one wins.
    pool.record_poll_failure(0);
    pool.record_poll_failure(0);
    pool.record_poll_failure(0);
    let picked = pool.find_backend_with_resources(1000, 0, 1000).unwrap();
    assert_eq!(picked, 1);
}

#[test]
fn test_no_backend_fits() {
    let mut pool = BackendPool::new(DiscoveryMode::Static(vec![]), 2, 5);
    pool.add_backend("http://a:8080".to_owned());
    pool.record_poll_success(0, sample((1000, 0, 1000), (4000, 0, 4000)), 1);
    assert!(pool.find_backend_with_resources(2000, 0, 1000).is_none());
}

#[test]
fn test_discovery_evicts_unlisted() {
    let mut pool = BackendPool::new(DiscoveryMode::Static(vec![]), 2, 5);
    pool.add_backend("http://a:8080".to_owned());
    pool.add_backend("http://b:8080".to_owned());
    pool.record_poll_success(0, sample((1000, 0, 1000), (2000, 0, 2000)), 7);

    // One URL disappears, one stays, one is new: the stale record goes, the
    // surviving record keeps its sample, the new URL starts unpolled.
    pool.apply_discovery(&vec!["http://a:8080".to_owned(), "http://c:8080".to_owned()]);
    let backends = pool.get_backends();
    assert_eq!(backends.len(), 2);
    assert_eq!(backends[0].url, "http://a:8080");
    assert!(backends[0].healthy);
    assert_eq!(backends[0].available_cpus, 1000);
    assert_eq!(backends[1].url, "http://c:8080");
    assert!(!backends[1].healthy);
}

#[test]
fn test_capacity_json_shape() {
    let amounts = |c: i64, g: i64, m: i64| {
        JsonValue::Object(vec![
            ("cpus".to_owned(), JsonValue::Int(c)),
            ("gpus".to_owned(), JsonValue::Int(g)),
            ("memory_gb".to_owned(), JsonValue::Int(m)),
        ])
    };
    let body = JsonValue::Object(vec![
        ("available".to_owned(), amounts(2000, 0, 4000)),
        ("total".to_owned(), amounts(4000, 0, 8000)),
    ]);
    let parsed = capacity_from_json(&body).unwrap();
    assert_eq!(parsed.available_cpus, 2000);
    assert_eq!(parsed.total_memory_gb, 8000);

    // A malformed body is a poll failure.
    let malformed = JsonValue::Object(vec![(
        "available".to_owned(),
        JsonValue::Int(5),
    )]);
    assert!(capacity_from_json(&malformed).is_none());
}
