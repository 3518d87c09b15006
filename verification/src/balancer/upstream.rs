use std::time::Duration;
use vstd::prelude::*;

use crate::balancer::{Backend, BalanceStrategy};
use crate::time::{duration_as_millis, duration_from_secs, spec_duration_as_millis, spec_duration_from_secs};

verus! {

/// How often and how patiently the servers of an upstream are probed.
#[derive(Clone, Copy, Debug)]
pub struct HealthConfig {
    pub interval: Duration,
    pub timeout: Duration,
    pub concurrency: usize,
}

impl Default for HealthConfig {
    /// Every 10 seconds, with a 3 second timeout, one probe at a time.
    fn default() -> (h: Self)
        ensures
            h.interval == spec_duration_from_secs(10),
            h.timeout == spec_duration_from_secs(3),
            h.concurrency == 1,
    {
        HealthConfig {
            interval: duration_from_secs(10),
            timeout: duration_from_secs(3),
            concurrency: 1,
        }
    }
}

/// The position of an upstream in the load balancer's list.
#[derive(Debug, Clone, Copy, PartialEq, Eq, Structural)]
pub struct UpstreamId(pub usize);

/// A named cluster of backend servers with its balancing state.
#[derive(Debug)]
pub struct Upstream {
    pub id: UpstreamId,
    pub name: String,
    pub health: HealthConfig,
    pub servers: Vec<Backend>,
    pub balance_strategy: BalanceStrategy,
    pub last_check_ms: u64,
    pub rr_counter: usize,
    pub lc_counter: usize,
}

/// The ticket that `next_ticket` hands out in the state `u`.
pub open spec fn spec_ticket(u: Upstream) -> usize {
    match u.balance_strategy {
        BalanceStrategy::RoundRobin => u.rr_counter,
        BalanceStrategy::LeastConnections => u.lc_counter,
        _ => 0,
    }
}

/// `post` is `pre` after `next_ticket`: the counter of the strategy in use
/// moves on by one, wrapping around.
pub open spec fn spec_ticket_taken(pre: Upstream, post: Upstream) -> bool {
    match pre.balance_strategy {
        BalanceStrategy::RoundRobin => post == (Upstream {
            rr_counter: vstd::wrapping::usize_specs::wrapping_add(pre.rr_counter, 1),
            ..pre
        }),
        BalanceStrategy::LeastConnections => post == (Upstream {
            lc_counter: vstd::wrapping::usize_specs::wrapping_add(pre.lc_counter, 1),
            ..pre
        }),
        _ => post == pre,
    }
}

impl Upstream {
    pub fn new(id: usize, name: String, backends: Vec<Backend>, lb: BalanceStrategy) -> (u: Self)
        ensures
            u.id == UpstreamId(id),
            u.name == name,
            u.health.interval == spec_duration_from_secs(10),
            u.health.timeout == spec_duration_from_secs(3),
            u.health.concurrency == 1,
            u.servers == backends,
            u.balance_strategy == lb,
            u.last_check_ms == 0,
            u.rr_counter == 0,
            u.lc_counter == 0,
    {
        Upstream {
            id: UpstreamId(id),
            name,
            health: HealthConfig::default(),
            last_check_ms: 0,
            rr_counter: 0,
            lc_counter: 0,
            servers: backends,
            balance_strategy: lb,
        }
    }

    pub fn update_balance_strategy(&mut self, strategy: BalanceStrategy)
        ensures
            *final(self) == (Upstream { balance_strategy: strategy, ..*old(self) }),
    {
        self.balance_strategy = strategy;
    }

    pub fn update_backends(&mut self, backends: Vec<Backend>)
        ensures
            *final(self) == (Upstream { servers: backends, ..*old(self) }),
    {
        self.servers = backends;
    }

    pub fn update_health_config(&mut self, health: HealthConfig)
        ensures
            *final(self) == (Upstream { health: health, ..*old(self) }),
    {
        self.health = health;
    }

    /// Whether at least one health interval has passed since the last check.
    pub fn is_due(&self, now_ms: u64) -> (b: bool)
        ensures
            b == ((if now_ms >= self.last_check_ms {
                now_ms - self.last_check_ms
            } else {
                0
            }) >= (spec_duration_as_millis(self.health.interval) as u64)),
    {
        let last = self.last_check_ms;
        now_ms.saturating_sub(last) >= duration_as_millis(&self.health.interval) as u64
    }

    pub fn mark_checked(&mut self, now_ms: u64)
        ensures
            *final(self) == (Upstream { last_check_ms: now_ms, ..*old(self) }),
    {
        self.last_check_ms = now_ms;
    }

    /// The next ticket of the round-robin or least-connections counter; other
    /// strategies draw no ticket and get 0.
    pub fn next_ticket(&mut self) -> (t: usize)
        ensures
            t == spec_ticket(*old(self)),
            spec_ticket_taken(*old(self), *final(self)),
    {
        match self.balance_strategy {
            BalanceStrategy::RoundRobin => {
                let t = self.rr_counter;
                self.rr_counter = self.rr_counter.wrapping_add(1);
                t
            },
            BalanceStrategy::LeastConnections => {
                let t = self.lc_counter;
                self.lc_counter = self.lc_counter.wrapping_add(1);
                t
            },
            _ => 0,
        }
    }
}

} // verus!
