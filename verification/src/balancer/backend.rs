use vstd::prelude::*;

use crate::config::domain::NetworkProtocol;

verus! {

/// An IP address held as plain numbers.
#[derive(Debug, Clone, Copy, PartialEq, Eq, Structural)]
pub enum IpAddress {
    V4(u8, u8, u8, u8),
    V6(u16, u16, u16, u16, u16, u16, u16, u16),
}

/// A socket address: an IP address and a port.
#[derive(Debug, Clone, Copy, PartialEq, Eq, Structural)]
pub struct SocketAddress {
    pub ip: IpAddress,
    pub port: u16,
}

/// Where a backend server is reached.
#[derive(Clone, Debug, PartialEq, Eq)]
pub enum BackendAddr {
    Tcp(SocketAddress),
    /// A host name and port, as `host:port`.
    Host(String),
    /// A Unix domain socket path.
    Uds(String),
}

/// A server behind an upstream, with its load and health counters.
///
/// The counters only ever wrap around on overflow, as the atomic counters of
/// a running gateway do.
#[derive(Debug)]
pub struct Backend {
    pub addr: BackendAddr,
    pub protocol: NetworkProtocol,
    /// The `host:port` text of a backend built from a host name.
    pub host_addr: Option<String>,
    pub active_conns: usize,
    pub score: usize,
    pub total_requests: u64,
    pub failed_requests: u64,
    pub bytes_in: u64,
    pub bytes_out: u64,
    pub total_latency_ns: u64,
    pub latency_samples: u64,
    pub weight: u32,
    pub healthy: bool,
}

pub open spec fn wrap_add_u64(x: u64, y: u64) -> u64 {
    vstd::wrapping::u64_specs::wrapping_add(x, y)
}

pub open spec fn wrap_add_usize(x: usize, y: usize) -> usize {
    vstd::wrapping::usize_specs::wrapping_add(x, y)
}

/// The score that `update_score` computes from the connection count, the
/// failure count and the average latency in nanoseconds.
pub open spec fn spec_score(conns: int, failures: int, avg_latency_ns: int) -> int {
    conns * 10 + failures * 50 + avg_latency_ns / 1_000_000
}

/// The load factor of a backend: connections, twice the failures, and the
/// average latency in milliseconds.
pub open spec fn spec_load_factor(conns: int, failures: int, avg_latency_ns: int) -> int {
    conns + failures * 2 + avg_latency_ns / 1_000_000
}

impl Backend {
    /// The average latency, in nanoseconds, over the recorded samples.
    pub open spec fn spec_avg_latency_ns(&self) -> Option<u64> {
        if self.latency_samples == 0 {
            None
        } else {
            Some((self.total_latency_ns / self.latency_samples) as u64)
        }
    }

    pub open spec fn spec_avg_latency_or_zero(&self) -> u64 {
        match self.spec_avg_latency_ns() {
            Some(l) => l,
            None => 0,
        }
    }

    /// A fresh, healthy backend with all counters at zero.
    pub open spec fn is_fresh(&self, addr: BackendAddr, weight: u32) -> bool {
        &&& self.addr == addr
        &&& self.protocol == NetworkProtocol::Http1 { allow_websocket_upgrade: false }
        &&& self.active_conns == 0
        &&& self.score == 0
        &&& self.total_requests == 0
        &&& self.failed_requests == 0
        &&& self.bytes_in == 0
        &&& self.bytes_out == 0
        &&& self.total_latency_ns == 0
        &&& self.latency_samples == 0
        &&& self.weight == weight
        &&& self.healthy
    }

    pub fn new(addr: BackendAddr, weight: u32) -> (b: Self)
        ensures
            b.is_fresh(addr, weight),
            b.host_addr is None,
    {
        Backend {
            addr,
            protocol: NetworkProtocol::Http1 { allow_websocket_upgrade: false },
            active_conns: 0,
            score: 0,
            total_requests: 0,
            failed_requests: 0,
            bytes_in: 0,
            bytes_out: 0,
            total_latency_ns: 0,
            latency_samples: 0,
            weight,
            healthy: true,
            host_addr: None,
        }
    }

    pub fn from_tcp(addr: SocketAddress, weight: u32) -> (b: Self)
        ensures
            b.is_fresh(BackendAddr::Tcp(addr), weight),
            b.host_addr is None,
    {
        Self::new(BackendAddr::Tcp(addr), weight)
    }

    /// A backend reached by host name; it also remembers the host for the
    /// `Host` header of upstream requests.
    pub fn from_host(addr: &String, weight: u32) -> (b: Self)
        ensures
            b.is_fresh(BackendAddr::Host(*addr), weight),
            b.host_addr == Some(*addr),
    {
        let mut backend = Self::new(BackendAddr::Host(addr.clone()), weight);
        backend.host_addr = Some(addr.clone());
        backend
    }

    pub fn from_uds(path: String, weight: u32) -> (b: Self)
        ensures
            b.is_fresh(BackendAddr::Uds(path), weight),
            b.host_addr is None,
    {
        Self::new(BackendAddr::Uds(path), weight)
    }

    pub fn set_protocol(&mut self, protocol: NetworkProtocol)
        ensures
            final(self).protocol == protocol,
            *final(self) == (Backend { protocol: final(self).protocol, ..*old(self) }),
    {
        self.protocol = protocol
    }

    pub fn weight(&self) -> (w: u32)
        ensures
            w == self.weight,
    {
        self.weight
    }

    pub fn is_healthy(&self) -> (h: bool)
        ensures
            h == self.healthy,
    {
        self.healthy
    }

    pub fn set_healthy(&mut self, status: bool)
        ensures
            final(self).healthy == status,
            *final(self) == (Backend { healthy: final(self).healthy, ..*old(self) }),
    {
        let prev = self.healthy;
        if prev != status {
            self.healthy = status;
        }
    }

    pub fn active_conns(&self) -> (n: usize)
        ensures
            n == self.active_conns,
    {
        self.active_conns
    }

    /// One more connection is open to this backend.
    pub fn acquire(&mut self)
        ensures
            final(self).active_conns == wrap_add_usize(old(self).active_conns, 1),
            *final(self) == (Backend { active_conns: final(self).active_conns, ..*old(self) }),
    {
        self.active_conns = self.active_conns.wrapping_add(1);
    }

    /// A connection to this backend was closed; one must be open.
    pub fn release(&mut self)
        requires
            old(self).active_conns > 0,
        ensures
            final(self).active_conns == old(self).active_conns - 1,
            *final(self) == (Backend { active_conns: final(self).active_conns, ..*old(self) }),
    {
        self.active_conns = self.active_conns - 1;
    }

    pub fn record_request(&mut self)
        ensures
            final(self).total_requests == wrap_add_u64(old(self).total_requests, 1),
            *final(self) == (Backend { total_requests: final(self).total_requests, ..*old(self) }),
    {
        self.total_requests = self.total_requests.wrapping_add(1);
    }

    pub fn record_failure(&mut self)
        ensures
            final(self).failed_requests == wrap_add_u64(old(self).failed_requests, 1),
            *final(self) == (Backend { failed_requests: final(self).failed_requests, ..*old(self) }),
    {
        self.failed_requests = self.failed_requests.wrapping_add(1);
    }

    pub fn add_bytes_in(&mut self, n: u64)
        ensures
            final(self).bytes_in == wrap_add_u64(old(self).bytes_in, n),
            *final(self) == (Backend { bytes_in: final(self).bytes_in, ..*old(self) }),
    {
        self.bytes_in = self.bytes_in.wrapping_add(n);
    }

    pub fn add_bytes_out(&mut self, n: u64)
        ensures
            final(self).bytes_out == wrap_add_u64(old(self).bytes_out, n),
            *final(self) == (Backend { bytes_out: final(self).bytes_out, ..*old(self) }),
    {
        self.bytes_out = self.bytes_out.wrapping_add(n);
    }

    pub fn record_latency_ns(&mut self, ns: u64)
        ensures
            final(self).total_latency_ns == wrap_add_u64(
                old(self).total_latency_ns,
                ns,
            ),
            final(self).latency_samples == wrap_add_u64(old(self).latency_samples, 1),
            *final(self) == (Backend { total_latency_ns: final(self).total_latency_ns, latency_samples: final(self).latency_samples, ..*old(self) }),
    {
        self.total_latency_ns = self.total_latency_ns.wrapping_add(ns);
        self.latency_samples = self.latency_samples.wrapping_add(1);
    }

    /// The average latency in nanoseconds; `None` before any sample.
    pub fn avg_latency_ns(&self) -> (r: Option<u64>)
        ensures
            r == self.spec_avg_latency_ns(),
    {
        let samples = self.latency_samples;
        if samples == 0 {
            return None;
        }
        let total = self.total_latency_ns;
        Some(total / samples)
    }

    pub fn score(&self) -> (s: usize)
        ensures
            s == self.score,
    {
        self.score
    }

    /// Recomputes the score from the current counters, each read as a `usize`;
    /// the computation must not overflow.
    pub fn update_score(&mut self)
        requires
            spec_score(
                old(self).active_conns as int,
                (old(self).failed_requests as usize) as int,
                (old(self).spec_avg_latency_or_zero() as usize) as int,
            ) <= usize::MAX,
        ensures
            final(self).score == spec_score(
                old(self).active_conns as int,
                (old(self).failed_requests as usize) as int,
                (old(self).spec_avg_latency_or_zero() as usize) as int,
            ),
            *final(self) == (Backend { score: final(self).score, ..*old(self) }),
    {
        let conns = self.active_conns;
        let failures = self.failed_requests as usize;
        let latency = match self.avg_latency_ns() {
            Some(l) => l,
            None => 0,
        } as usize;
        proof {
            assert(conns * 10 >= 0 && failures * 50 >= 0 && latency / 1_000_000 >= 0)
                by (nonlinear_arith)
                requires
                    conns >= 0,
                    failures >= 0,
                    latency >= 0,
            ;
        }
        let computed = (conns * 10) + (failures * 50) + (latency / 1_000_000);
        self.score = computed;
    }

    /// The load factor: connections, twice the failures, and the average
    /// latency in milliseconds, each read as a `usize`; the computation must
    /// not overflow.
    pub fn load_factor(&self) -> (f: usize)
        requires
            spec_load_factor(
                self.active_conns as int,
                (self.failed_requests as usize) as int,
                (self.spec_avg_latency_or_zero() as usize) as int,
            ) <= usize::MAX,
        ensures
            f == spec_load_factor(
                self.active_conns as int,
                (self.failed_requests as usize) as int,
                (self.spec_avg_latency_or_zero() as usize) as int,
            ),
    {
        let conns = self.active_conns;
        let failures = self.failed_requests as usize;
        let latency = match self.avg_latency_ns() {
            Some(l) => l,
            None => 0,
        } as usize;
        conns + failures * 2 + latency / 1_000_000
    }

    /// Whether the load factor is above `threshold`.
    pub fn is_overloaded(&self, threshold: usize) -> (b: bool)
        requires
            spec_load_factor(
                self.active_conns as int,
                (self.failed_requests as usize) as int,
                (self.spec_avg_latency_or_zero() as usize) as int,
            ) <= usize::MAX,
        ensures
            b == (spec_load_factor(
                self.active_conns as int,
                (self.failed_requests as usize) as int,
                (self.spec_avg_latency_or_zero() as usize) as int,
            ) > threshold),
    {
        self.load_factor() > threshold
    }
}

} // verus!
