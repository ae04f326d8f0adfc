//! The gateway's backend pool: live capacity samples, health tracking, and
//! least-utilized selection.
//!
//! Capacity figures are integer milli-units, as everywhere in this crate;
//! utilization is per-mille. A backend turns unhealthy at the third
//! consecutive poll failure and healthy again on any success. Selection
//! filters to healthy backends with enough sampled capacity and takes the
//! least utilized, breaking ties by position.

use vstd::prelude::*;

use crate::config::DiscoveryMode;
use crate::json::{JsonValue, SpecJson};

verus! {

/// Consecutive poll failures after which a backend is unhealthy.
pub const UNHEALTHY_ERROR_COUNT: u32 = 3;

/// One remote orchestrator the gateway can forward to.
pub struct Backend {
    pub url: String,
    /// Sampled free capacity, in milli-units.
    pub available_cpus: u64,
    pub available_gpus: u64,
    pub available_memory_gb: u64,
    /// Sampled total capacity, in milli-units.
    pub total_cpus: u64,
    pub total_gpus: u64,
    pub total_memory_gb: u64,
    /// Instant of the last successful poll, in seconds on the caller's clock.
    pub last_updated_secs: u64,
    pub healthy: bool,
    /// Consecutive poll failures since the last success.
    pub error_count: u32,
}

/// One capacity sample, as polled from a backend.
#[derive(Clone, Copy, Debug, PartialEq, Eq, Structural)]
pub struct CapacitySample {
    pub available_cpus: u64,
    pub available_gpus: u64,
    pub available_memory_gb: u64,
    pub total_cpus: u64,
    pub total_gpus: u64,
    pub total_memory_gb: u64,
}

/// The utilization of one dimension, per-mille: how much of the total is not
/// available. A dimension with no total — or one whose sample reports more
/// available than total — counts as unutilized.
pub open spec fn spec_dim_utilization(available: u64, total: u64) -> int {
    if total == 0 || available >= total {
        0
    } else {
        1000 - (available * 1000) / (total as int)
    }
}

/// A backend's utilization, per-mille: the most constrained of its CPU and
/// GPU dimensions, or full when it reports no capacity at all.
pub open spec fn spec_utilization(b: Backend) -> int {
    if b.total_cpus == 0 && b.total_gpus == 0 {
        1000
    } else {
        let cpu = spec_dim_utilization(b.available_cpus, b.total_cpus);
        let gpu = spec_dim_utilization(b.available_gpus, b.total_gpus);
        if cpu >= gpu {
            cpu
        } else {
            gpu
        }
    }
}

/// A dimension's utilization lies in `[0, 1000]`.
pub proof fn lemma_dim_utilization_range(available: u64, total: u64)
    ensures
        0 <= spec_dim_utilization(available, total) <= 1000,
{
    if !(total == 0 || available >= total) {
        assert(0 <= (available * 1000) / (total as int) <= 1000) by (nonlinear_arith)
            requires
                0 <= available < total,
                total > 0,
        ;
    }
}

impl Backend {
    /// A fresh, not-yet-polled backend record: no sampled capacity, not
    /// healthy until the first successful poll.
    pub fn new(url: String) -> (r: Backend)
        ensures
            r.url@ == url@,
            r.available_cpus == 0 && r.available_gpus == 0 && r.available_memory_gb == 0,
            r.total_cpus == 0 && r.total_gpus == 0 && r.total_memory_gb == 0,
            r.last_updated_secs == 0,
            r.healthy == false,
            r.error_count == 0,
    {
        Backend {
            url,
            available_cpus: 0,
            available_gpus: 0,
            available_memory_gb: 0,
            total_cpus: 0,
            total_gpus: 0,
            total_memory_gb: 0,
            last_updated_secs: 0,
            healthy: false,
            error_count: 0,
        }
    }

    /// Whether the backend is healthy and its sampled free capacity covers
    /// the request in every dimension.
    pub open spec fn spec_has_capacity(&self, cpus: u64, gpus: u64, memory_gb: u64) -> bool {
        &&& self.healthy
        &&& self.available_cpus >= cpus
        &&& self.available_gpus >= gpus
        &&& self.available_memory_gb >= memory_gb
    }

    /// Check health and sampled capacity against a request.
    pub fn has_capacity(&self, cpus: u64, gpus: u64, memory_gb: u64) -> (r: bool)
        ensures
            r == self.spec_has_capacity(cpus, gpus, memory_gb),
    {
        self.healthy && self.available_cpus >= cpus && self.available_gpus >= gpus
            && self.available_memory_gb >= memory_gb
    }

    /// The backend's utilization, per-mille.
    pub fn utilization(&self) -> (r: u64)
        ensures
            r == spec_utilization(*self),
            r <= 1000,
    {
        proof {
            lemma_dim_utilization_range(self.available_cpus, self.total_cpus);
            lemma_dim_utilization_range(self.available_gpus, self.total_gpus);
        }
        if self.total_cpus == 0 && self.total_gpus == 0 {
            return 1000;
        }
        let cpu = dim_utilization(self.available_cpus, self.total_cpus);
        let gpu = dim_utilization(self.available_gpus, self.total_gpus);
        if cpu >= gpu {
            cpu
        } else {
            gpu
        }
    }
}

/// One dimension's utilization, per-mille.
fn dim_utilization(available: u64, total: u64) -> (r: u64)
    ensures
        r == spec_dim_utilization(available, total),
        r <= 1000,
{
    proof {
        lemma_dim_utilization_range(available, total);
    }
    if total == 0 || available >= total {
        0
    } else {
        let scaled = (available as u128) * 1000;
        let ratio = scaled / (total as u128);
        proof {
            assert((available as u128) * 1000 == (available * 1000) as u128) by (nonlinear_arith);
            assert(scaled / (total as u128) == (available * 1000) / (total as int))
                by (nonlinear_arith)
                requires
                    scaled == (available * 1000) as u128,
                    total > 0,
            ;
        }
        1000 - (ratio as u64)
    }
}

/// The pool of known backends, in discovery order.
pub struct BackendPool {
    pub backends: Vec<Backend>,
    pub discovery_mode: DiscoveryMode,
    pub update_interval_secs: u64,
    pub capacity_timeout_secs: u64,
}

impl BackendPool {
    /// A fresh, empty pool.
    pub fn new(
        discovery_mode: DiscoveryMode,
        update_interval_secs: u64,
        capacity_timeout_secs: u64,
    ) -> (r: BackendPool)
        ensures
            r.backends@.len() == 0,
            r.discovery_mode == discovery_mode,
            r.update_interval_secs == update_interval_secs,
            r.capacity_timeout_secs == capacity_timeout_secs,
    {
        BackendPool { backends: Vec::new(), discovery_mode, update_interval_secs,
            capacity_timeout_secs }
    }

    /// Add one discovered backend.
    pub fn add_backend(&mut self, url: String)
        requires
            old(self).backends@.len() < usize::MAX,
        ensures
            final(self).backends@.len() == old(self).backends@.len() + 1,
            forall|j: int| 0 <= j < old(self).backends@.len() ==> final(self).backends@[j]
                == old(self).backends@[j],
            final(self).backends@.last().url@ == url@,
            final(self).backends@.last().healthy == false,
            final(self).backends@.last().error_count == 0,
            final(self).discovery_mode == old(self).discovery_mode,
            final(self).update_interval_secs == old(self).update_interval_secs,
            final(self).capacity_timeout_secs == old(self).capacity_timeout_secs,
    {
        self.backends.push(Backend::new(url));
    }

    /// Record a successful capacity poll: adopt the sample, stamp the time,
    /// and return the backend to health with its failure streak cleared.
    pub fn record_poll_success(&mut self, idx: usize, sample: CapacitySample, now_secs: u64)
        requires
            idx < old(self).backends@.len(),
        ensures
            final(self).backends@ == old(self).backends@.update(idx as int, (Backend {
                available_cpus: sample.available_cpus,
                available_gpus: sample.available_gpus,
                available_memory_gb: sample.available_memory_gb,
                total_cpus: sample.total_cpus,
                total_gpus: sample.total_gpus,
                total_memory_gb: sample.total_memory_gb,
                last_updated_secs: now_secs,
                healthy: true,
                error_count: 0u32,
                ..old(self).backends@[idx as int]
            })),
            final(self).discovery_mode == old(self).discovery_mode,
            final(self).update_interval_secs == old(self).update_interval_secs,
            final(self).capacity_timeout_secs == old(self).capacity_timeout_secs,
    {
        let b = &mut self.backends[idx];
        b.available_cpus = sample.available_cpus;
        b.available_gpus = sample.available_gpus;
        b.available_memory_gb = sample.available_memory_gb;
        b.total_cpus = sample.total_cpus;
        b.total_gpus = sample.total_gpus;
        b.total_memory_gb = sample.total_memory_gb;
        b.last_updated_secs = now_secs;
        b.healthy = true;
        b.error_count = 0;
    }

    /// Record a failed capacity poll: the failure streak grows by one, and
    /// from the third consecutive failure on, the backend is unhealthy.
    /// Health is untouched below the threshold, so one or two stray failures
    /// never evict a backend.
    pub fn record_poll_failure(&mut self, idx: usize)
        requires
            idx < old(self).backends@.len(),
        ensures
            final(self).backends@.len() == old(self).backends@.len(),
            forall|j: int| 0 <= j < old(self).backends@.len() && j != idx
                ==> final(self).backends@[j] == old(self).backends@[j],
            ({
                let was = old(self).backends@[idx as int];
                let now = final(self).backends@[idx as int];
                &&& now.error_count == (if was.error_count < u32::MAX {
                    (was.error_count + 1) as u32
                } else {
                    u32::MAX
                })
                &&& now.healthy == (if now.error_count >= UNHEALTHY_ERROR_COUNT {
                    false
                } else {
                    was.healthy
                })
                &&& now == (Backend { healthy: now.healthy, error_count: now.error_count, ..was })
            }),
            final(self).discovery_mode == old(self).discovery_mode,
            final(self).update_interval_secs == old(self).update_interval_secs,
            final(self).capacity_timeout_secs == old(self).capacity_timeout_secs,
    {
        let b = &mut self.backends[idx];
        if b.error_count < u32::MAX {
            b.error_count = b.error_count + 1;
        }
        if b.error_count >= UNHEALTHY_ERROR_COUNT {
            b.healthy = false;
        }
    }

    /// The index the selector picks: the first healthy backend with enough
    /// sampled capacity whose utilization no other candidate beats.
    pub open spec fn spec_selected(
        backends: Seq<Backend>,
        cpus: u64,
        gpus: u64,
        memory_gb: u64,
    ) -> Option<int> {
        let candidates = Seq::new(
            backends.len(),
            |i: int| backends[i].spec_has_capacity(cpus, gpus, memory_gb),
        );
        if exists|i: int| 0 <= i < backends.len() && candidates[i] {
            let best = choose|i: int|
                0 <= i < backends.len() && candidates[i] && (forall|j: int|
                    0 <= j < backends.len() && candidates[j] ==> spec_utilization(backends[i])
                        <= spec_utilization(#[trigger] backends[j])) && (forall|j: int|
                    0 <= j < i && candidates[j] ==> spec_utilization(backends[i])
                        < spec_utilization(#[trigger] backends[j]));
            Some(best)
        } else {
            None
        }
    }

    /// Find the least-utilized healthy backend with enough sampled capacity;
    /// ties go to the earlier backend. Nothing comes back when no healthy
    /// backend covers the request.
    pub fn find_backend_with_resources(&self, cpus: u64, gpus: u64, memory_gb: u64) -> (r: Option<
        usize,
    >)
        ensures
            match r {
                Some(i) => {
                    &&& i < self.backends@.len()
                    &&& self.backends@[i as int].spec_has_capacity(cpus, gpus, memory_gb)
                    &&& forall|j: int| 0 <= j < self.backends@.len() && (
                    #[trigger] self.backends@[j]).spec_has_capacity(cpus, gpus, memory_gb)
                        ==> spec_utilization(self.backends@[i as int]) <= spec_utilization(
                        self.backends@[j],
                    )
                    &&& forall|j: int| 0 <= j < i && (#[trigger] self.backends@[
                    j]).spec_has_capacity(cpus, gpus, memory_gb) ==> spec_utilization(
                        self.backends@[i as int],
                    ) < spec_utilization(self.backends@[j])
                },
                None => forall|j: int| 0 <= j < self.backends@.len() ==> !(
                #[trigger] self.backends@[j]).spec_has_capacity(cpus, gpus, memory_gb),
            },
    {
        let mut best: Option<usize> = None;
        let mut best_util: u64 = 0;
        let mut i: usize = 0;
        while i < self.backends.len()
            invariant
                i <= self.backends@.len(),
                match best {
                    Some(b) => {
                        &&& b < i
                        &&& self.backends@[b as int].spec_has_capacity(cpus, gpus, memory_gb)
                        &&& best_util == spec_utilization(self.backends@[b as int])
                        &&& forall|j: int| 0 <= j < i && (#[trigger] self.backends@[
                        j]).spec_has_capacity(cpus, gpus, memory_gb) ==> best_util
                            <= spec_utilization(self.backends@[j])
                        &&& forall|j: int| 0 <= j < b && (#[trigger] self.backends@[
                        j]).spec_has_capacity(cpus, gpus, memory_gb) ==> best_util
                            < spec_utilization(self.backends@[j])
                    },
                    None => forall|j: int| 0 <= j < i ==> !(#[trigger] self.backends@[
                    j]).spec_has_capacity(cpus, gpus, memory_gb),
                },
            decreases self.backends@.len() - i,
        {
            let b = &self.backends[i];
            if b.has_capacity(cpus, gpus, memory_gb) {
                let util = b.utilization();
                match best {
                    Some(_) => {
                        if util < best_util {
                            best = Some(i);
                            best_util = util;
                        }
                    },
                    None => {
                        best = Some(i);
                        best_util = util;
                    },
                }
            }
            i = i + 1;
        }
        best
    }

    /// Borrow the backend list.
    pub fn get_backends(&self) -> (r: &Vec<Backend>)
        ensures
            r@ == self.backends@,
    {
        &self.backends
    }

    /// How many backends are currently healthy.
    pub fn healthy_count(&self) -> (r: usize)
        ensures
            r == spec_healthy_count(self.backends@),
    {
        let mut count: usize = 0;
        let mut i: usize = 0;
        while i < self.backends.len()
            invariant
                i <= self.backends@.len(),
                count == spec_healthy_count(self.backends@.take(i as int)),
                count <= i,
            decreases self.backends@.len() - i,
        {
            proof {
                assert(self.backends@.take(i + 1).drop_last() =~= self.backends@.take(i as int));
            }
            if self.backends[i].healthy {
                count = count + 1;
            }
            i = i + 1;
        }
        proof {
            assert(self.backends@.take(self.backends@.len() as int) =~= self.backends@);
        }
        count
    }
}

/// Whether some listed URL reads `u`.
pub open spec fn spec_url_listed(urls: Seq<String>, u: Seq<char>) -> bool {
    exists|k: int| 0 <= k < urls.len() && (#[trigger] urls[k])@ == u
}

/// Whether some backend in the sequence carries the URL `u`.
pub open spec fn spec_backend_with_url(backends: Seq<Backend>, u: Seq<char>) -> bool {
    exists|j: int| 0 <= j < backends.len() && (#[trigger] backends[j]).url@ == u
}

/// Whether a record is one of the old pool's records, unchanged.
pub open spec fn spec_from_old(b: Backend, olds: Seq<Backend>) -> bool {
    exists|j0: int| 0 <= j0 < olds.len() && (#[trigger] olds[j0]) == b
}

impl BackendPool {
    /// Apply one discovery round: backends whose URLs are no longer listed
    /// are evicted, backends already known keep their records — health and
    /// samples included — and newly listed URLs gain fresh, not-yet-polled
    /// records.
    pub fn apply_discovery(&mut self, urls: &Vec<String>)
        requires
            old(self).backends@.len() + urls@.len() <= usize::MAX,
        ensures
            forall|j: int| 0 <= j < final(self).backends@.len() ==> spec_url_listed(
                urls@,
                (#[trigger] final(self).backends@[j]).url@,
            ),
            forall|k: int| 0 <= k < urls@.len() ==> spec_backend_with_url(
                final(self).backends@,
                (#[trigger] urls@[k])@,
            ),
            forall|j: int| 0 <= j < final(self).backends@.len() ==> (spec_from_old(
                #[trigger] final(self).backends@[j],
                old(self).backends@,
            ) || (final(self).backends@[j].healthy == false && final(self).backends@[
            j].error_count == 0 && final(self).backends@[j].total_cpus == 0)),
            forall|j0: int| 0 <= j0 < old(self).backends@.len() && spec_url_listed(
                urls@,
                (#[trigger] old(self).backends@[j0]).url@,
            ) ==> spec_from_old(old(self).backends@[j0], final(self).backends@),
            final(self).discovery_mode == old(self).discovery_mode,
            final(self).update_interval_secs == old(self).update_interval_secs,
            final(self).capacity_timeout_secs == old(self).capacity_timeout_secs,
    {
        let ghost old_backends = self.backends@;
        proof {
            assert(self.backends@ =~= old_backends.skip(0));
        }
        let mut kept: Vec<Backend> = Vec::new();
        while self.backends.len() > 0
            invariant
                self.backends@.len() + kept@.len() <= old_backends.len(),
                self.backends@ == old_backends.skip(
                    old_backends.len() - self.backends@.len(),
                ),
                forall|j: int| 0 <= j < kept@.len() ==> spec_url_listed(
                    urls@,
                    (#[trigger] kept@[j]).url@,
                ),
                forall|j: int| 0 <= j < kept@.len() ==> spec_from_old(
                    #[trigger] kept@[j],
                    old_backends,
                ),
                forall|j0: int| 0 <= j0 < old_backends.len() - self.backends@.len()
                    && spec_url_listed(urls@, (#[trigger] old_backends[j0]).url@)
                    ==> spec_from_old(old_backends[j0], kept@),
                self.discovery_mode == old(self).discovery_mode,
                self.update_interval_secs == old(self).update_interval_secs,
                self.capacity_timeout_secs == old(self).capacity_timeout_secs,
            decreases self.backends@.len(),
        {
            let ghost pre = self.backends@;
            let ghost done = old_backends.len() - pre.len();
            let b = self.backends.remove(0);
            proof {
                assert(b == pre[0]);
                assert(pre[0] == old_backends[done]);
                assert(self.backends@ =~= old_backends.skip(done + 1));
                assert(spec_from_old(b, old_backends)) by {
                    assert(old_backends[done] == b);
                }
            }
            let keep = url_listed(urls, &b.url);
            if keep {
                let ghost pre_kept = kept@;
                kept.push(b);
                proof {
                    assert(kept@[pre_kept.len() as int] == b);
                    assert forall|j0: int| 0 <= j0 < done + 1 && spec_url_listed(
                        urls@,
                        (#[trigger] old_backends[j0]).url@,
                    ) implies spec_from_old(old_backends[j0], kept@) by {
                        if j0 < done {
                            let w = choose|w: int|
                                0 <= w < pre_kept.len() && (#[trigger] pre_kept[w])
                                    == old_backends[j0];
                            assert(kept@[w] == old_backends[j0]);
                        } else {
                            assert(kept@[pre_kept.len() as int] == old_backends[j0]);
                        }
                    }
                }
            }
        }
        let mut k: usize = 0;
        while k < urls.len()
            invariant
                k <= urls@.len(),
                kept@.len() <= old_backends.len() + k,
                forall|j: int| 0 <= j < kept@.len() ==> spec_url_listed(
                    urls@,
                    (#[trigger] kept@[j]).url@,
                ),
                forall|j: int| 0 <= j < kept@.len() ==> (spec_from_old(
                    #[trigger] kept@[j],
                    old_backends,
                ) || (kept@[j].healthy == false && kept@[j].error_count == 0 && kept@[
                j].total_cpus == 0)),
                forall|j0: int| 0 <= j0 < old_backends.len() && spec_url_listed(
                    urls@,
                    (#[trigger] old_backends[j0]).url@,
                ) ==> spec_from_old(old_backends[j0], kept@),
                forall|k0: int| 0 <= k0 < k ==> spec_backend_with_url(
                    kept@,
                    (#[trigger] urls@[k0])@,
                ),
                self.discovery_mode == old(self).discovery_mode,
                self.update_interval_secs == old(self).update_interval_secs,
                self.capacity_timeout_secs == old(self).capacity_timeout_secs,
            decreases urls@.len() - k,
        {
            let url = &urls[k];
            if !backend_present(&kept, url) {
                let ghost pre = kept@;
                kept.push(Backend::new(url.clone()));
                proof {
                    assert(kept@[pre.len() as int].url@ == urls@[k as int]@);
                    assert forall|k0: int| 0 <= k0 <= k implies spec_backend_with_url(
                        kept@,
                        (#[trigger] urls@[k0])@,
                    ) by {
                        if k0 < k {
                            let j = choose|j: int|
                                0 <= j < pre.len() && (#[trigger] pre[j]).url@ == urls@[k0]@;
                            assert(kept@[j].url@ == urls@[k0]@);
                        } else {
                            assert(kept@[pre.len() as int].url@ == urls@[k0]@);
                        }
                    }
                    assert forall|j0: int| 0 <= j0 < old_backends.len() && spec_url_listed(
                        urls@,
                        (#[trigger] old_backends[j0]).url@,
                    ) implies spec_from_old(old_backends[j0], kept@) by {
                        let w = choose|w: int|
                            0 <= w < pre.len() && (#[trigger] pre[w]) == old_backends[j0];
                        assert(kept@[w] == old_backends[j0]);
                    }
                }
            }
            k = k + 1;
        }
        self.backends = kept;
    }
}

/// Whether any listed URL equals the given one.
fn url_listed(urls: &Vec<String>, url: &String) -> (r: bool)
    ensures
        r == spec_url_listed(urls@, url@),
{
    let mut k: usize = 0;
    while k < urls.len()
        invariant
            k <= urls@.len(),
            forall|k0: int| 0 <= k0 < k ==> (#[trigger] urls@[k0])@ != url@,
        decreases urls@.len() - k,
    {
        if urls[k] == *url {
            return true;
        }
        k = k + 1;
    }
    false
}

/// Whether any backend in the list carries the given URL.
fn backend_present(backends: &Vec<Backend>, url: &String) -> (r: bool)
    ensures
        r == spec_backend_with_url(backends@, url@),
{
    let mut j: usize = 0;
    while j < backends.len()
        invariant
            j <= backends@.len(),
            forall|j0: int| 0 <= j0 < j ==> (#[trigger] backends@[j0]).url@ != url@,
        decreases backends@.len() - j,
    {
        if backends[j].url == *url {
            return true;
        }
        j = j + 1;
    }
    false
}

/// The number of healthy backends in a sequence.
pub open spec fn spec_healthy_count(backends: Seq<Backend>) -> int
    decreases backends.len(),
{
    if backends.len() == 0 {
        0
    } else {
        spec_healthy_count(backends.drop_last()) + if backends.last().healthy {
            1int
        } else {
            0int
        }
    }
}

/// The capacity sample a polled JSON body carries: an object holding
/// `available` and `total` objects, each with the three dimensions as
/// integers in milli-units. Anything else is a malformed poll.
pub fn capacity_from_json(body: &JsonValue) -> (r: Option<CapacitySample>)
    ensures
        match r {
            Some(s) => spec_capacity_from_json(body@) == Some(s),
            None => spec_capacity_from_json(body@) is None,
        },
{
    let entries = match body {
        JsonValue::Object(entries) => entries,
        _ => {
            return None;
        },
    };
    proof {
        crate::json::lemma_json_entry_seq_view_len(entries@);
    }
    if entries.len() != 2 {
        return None;
    }
    proof {
        crate::json::lemma_json_entry_seq_view_index(entries@, 0);
        crate::json::lemma_json_entry_seq_view_index(entries@, 1);
    }
    if !(entries[0].0 == String::from_str("available")) {
        return None;
    }
    if !(entries[1].0 == String::from_str("total")) {
        return None;
    }
    let available = match amounts_from_json(&entries[0].1) {
        Some(a) => a,
        None => {
            return None;
        },
    };
    let total = match amounts_from_json(&entries[1].1) {
        Some(a) => a,
        None => {
            return None;
        },
    };
    Some(
        CapacitySample {
            available_cpus: available.0,
            available_gpus: available.1,
            available_memory_gb: available.2,
            total_cpus: total.0,
            total_gpus: total.1,
            total_memory_gb: total.2,
        },
    )
}

/// The ghost form of `capacity_from_json`.
pub open spec fn spec_capacity_from_json(j: SpecJson) -> Option<CapacitySample> {
    match j {
        SpecJson::Object(entries) => if entries.len() == 2 && entries[0].0 == "available"@
            && entries[1].0 == "total"@ {
            match (spec_amounts_from_json(entries[0].1), spec_amounts_from_json(entries[1].1)) {
                (Some(available), Some(total)) => Some(
                    CapacitySample {
                        available_cpus: available.0,
                        available_gpus: available.1,
                        available_memory_gb: available.2,
                        total_cpus: total.0,
                        total_gpus: total.1,
                        total_memory_gb: total.2,
                    },
                ),
                _ => None,
            }
        } else {
            None
        },
        _ => None,
    }
}

/// The three resource amounts of one `available`/`total` object, as
/// non-negative integers in milli-units.
pub open spec fn spec_amounts_from_json(j: SpecJson) -> Option<(u64, u64, u64)> {
    match j {
        SpecJson::Object(entries) => if entries.len() == 3 && entries[0].0 == "cpus"@
            && entries[1].0 == "gpus"@ && entries[2].0 == "memory_gb"@ {
            match (entries[0].1, entries[1].1, entries[2].1) {
                (SpecJson::Int(a), SpecJson::Int(b), SpecJson::Int(c)) => if a >= 0 && b >= 0 && c
                    >= 0 {
                    Some((a as u64, b as u64, c as u64))
                } else {
                    None
                },
                _ => None,
            }
        } else {
            None
        },
        _ => None,
    }
}

/// Parse one `available`/`total` object.
fn amounts_from_json(j: &JsonValue) -> (r: Option<(u64, u64, u64)>)
    ensures
        match r {
            Some(a) => spec_amounts_from_json(j@) == Some(a),
            None => spec_amounts_from_json(j@) is None,
        },
{
    let entries = match j {
        JsonValue::Object(entries) => entries,
        _ => {
            return None;
        },
    };
    proof {
        crate::json::lemma_json_entry_seq_view_len(entries@);
    }
    if entries.len() != 3 {
        return None;
    }
    proof {
        crate::json::lemma_json_entry_seq_view_index(entries@, 0);
        crate::json::lemma_json_entry_seq_view_index(entries@, 1);
        crate::json::lemma_json_entry_seq_view_index(entries@, 2);
    }
    if !(entries[0].0 == String::from_str("cpus")) {
        return None;
    }
    if !(entries[1].0 == String::from_str("gpus")) {
        return None;
    }
    if !(entries[2].0 == String::from_str("memory_gb")) {
        return None;
    }
    let a = match &entries[0].1 {
        JsonValue::Int(a) => *a,
        _ => {
            return None;
        },
    };
    let b = match &entries[1].1 {
        JsonValue::Int(b) => *b,
        _ => {
            return None;
        },
    };
    let c = match &entries[2].1 {
        JsonValue::Int(c) => *c,
        _ => {
            return None;
        },
    };
    if a < 0 || b < 0 || c < 0 {
        return None;
    }
    Some((a as u64, b as u64, c as u64))
}

} // verus!
