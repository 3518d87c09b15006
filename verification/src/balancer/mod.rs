mod backend;
mod erros;
mod upstream;

use vstd::prelude::*;
use vstd::string::StringExecFns;

use crate::text::{chars_of, range_eq_lower, to_ascii_lower, trim, trim_bounds};

pub use backend::{
    spec_load_factor, spec_score, wrap_add_u64, wrap_add_usize, Backend, BackendAddr, IpAddress,
    SocketAddress,
};
pub use erros::{spec_balancer_error_message, spec_balancer_error_text, BalancerError};
pub use upstream::{spec_ticket, spec_ticket_taken, HealthConfig, Upstream, UpstreamId};

verus! {

/// Load balancing strategy for upstream server selection.
#[derive(Debug, Clone, Copy, PartialEq, Eq, Structural)]
pub enum BalanceStrategy {
    RoundRobin,
    LeastConnections,
    IpHash,
}

impl Default for BalanceStrategy {
    fn default() -> (s: Self)
        ensures
            s == BalanceStrategy::RoundRobin,
    {
        BalanceStrategy::RoundRobin
    }
}

/// The strategy that a configuration value names: the value is trimmed and
/// lower-cased, and both `_` and `-` spellings are accepted.
pub open spec fn spec_parse_strategy(s: Seq<char>) -> Option<BalanceStrategy> {
    let t = to_ascii_lower(trim(s));
    if t == "round_robin"@ || t == "round-robin"@ {
        Some(BalanceStrategy::RoundRobin)
    } else if t == "least_connections"@ || t == "least-connections"@ {
        Some(BalanceStrategy::LeastConnections)
    } else if t == "ip_hash"@ || t == "ip-hash"@ {
        Some(BalanceStrategy::IpHash)
    } else {
        None
    }
}

/// The message of a rejected strategy name.
pub open spec fn spec_strategy_error(s: Seq<char>) -> Seq<char> {
    "invalid load_balance strategy '"@ + s
        + "', expected one of: round_robin, weighted_round_robin, least_connections, ip_hash"@
}

/// The canonical name of a strategy.
pub open spec fn spec_strategy_name(s: BalanceStrategy) -> Seq<char> {
    match s {
        BalanceStrategy::RoundRobin => "round_robin"@,
        BalanceStrategy::LeastConnections => "least_connections"@,
        BalanceStrategy::IpHash => "ip_hash"@,
    }
}

/// The canonical name of a strategy, as a string literal.
pub open spec fn spec_strategy_str(s: BalanceStrategy) -> &'static str {
    match s {
        BalanceStrategy::RoundRobin => "round_robin",
        BalanceStrategy::LeastConnections => "least_connections",
        BalanceStrategy::IpHash => "ip_hash",
    }
}

impl BalanceStrategy {
    /// Reads a strategy name (what `FromStr` does).
    pub fn parse(value: &str) -> (r: Result<BalanceStrategy, String>)
        ensures
            match r {
                Ok(s) => spec_parse_strategy(value@) == Some(s),
                Err(e) => spec_parse_strategy(value@) is None && e@ == spec_strategy_error(value@),
            },
    {
        let v = chars_of(value);
        let (a, b) = trim_bounds(&v, 0, v.len());
        assert(v@.subrange(0, v.len() as int) =~= value@);
        if range_eq_lower(&v, a, b, "round_robin") || range_eq_lower(&v, a, b, "round-robin") {
            Ok(BalanceStrategy::RoundRobin)
        } else if range_eq_lower(&v, a, b, "least_connections") || range_eq_lower(
            &v,
            a,
            b,
            "least-connections",
        ) {
            Ok(BalanceStrategy::LeastConnections)
        } else if range_eq_lower(&v, a, b, "ip_hash") || range_eq_lower(&v, a, b, "ip-hash") {
            Ok(BalanceStrategy::IpHash)
        } else {
            let mut e = "invalid load_balance strategy '".to_owned();
            e.append(value);
            e.append(
                "', expected one of: round_robin, weighted_round_robin, least_connections, ip_hash",
            );
            Err(e)
        }
    }

    /// The canonical name of the strategy.
    pub fn as_str(self) -> (s: &'static str)
        ensures
            s == spec_strategy_str(self),
            s@ == spec_strategy_name(self),
    {
        match self {
            BalanceStrategy::RoundRobin => "round_robin",
            BalanceStrategy::LeastConnections => "least_connections",
            BalanceStrategy::IpHash => "ip_hash",
        }
    }
}

impl std::str::FromStr for BalanceStrategy {
    type Err = String;

    fn from_str(value: &str) -> (r: Result<Self, Self::Err>)
        ensures
            match r {
                Ok(s) => spec_parse_strategy(value@) == Some(s),
                Err(e) => spec_parse_strategy(value@) is None && e@ == spec_strategy_error(value@),
            },
    {
        BalanceStrategy::parse(value)
    }
}

impl<'a> TryFrom<&'a str> for BalanceStrategy {
    type Error = String;

    fn try_from(value: &'a str) -> (r: Result<Self, Self::Error>)
        ensures
            match r {
                Ok(s) => spec_parse_strategy(value@) == Some(s),
                Err(e) => spec_parse_strategy(value@) is None && e@ == spec_strategy_error(value@),
            },
    {
        BalanceStrategy::parse(value)
    }
}

/// `try_from` is specified by its own `ensures` above: the error is a
/// `String` whose text that contract states, and no spec value of `String`
/// can be written from a text, so the generic spec is not claimed.
impl<'a> vstd::std_specs::convert::TryFromSpecImpl<&'a str> for BalanceStrategy {
    open spec fn obeys_try_from_spec() -> bool {
        false
    }

    open spec fn try_from_spec(v: &'a str) -> Result<Self, String> {
        match spec_parse_strategy(v@) {
            Some(s) => Ok(s),
            None => Err(vstd::pervasive::arbitrary()),
        }
    }
}

impl From<BalanceStrategy> for &'static str {
    fn from(value: BalanceStrategy) -> (s: &'static str) {
        value.as_str()
    }
}

impl vstd::std_specs::convert::FromSpecImpl<BalanceStrategy> for &'static str {
    open spec fn obeys_from_spec() -> bool {
        true
    }

    open spec fn from_spec(v: BalanceStrategy) -> &'static str {
        spec_strategy_str(v)
    }
}

/// Reading a strategy name ignores the whitespace around it and the case
/// of its letters: a name reads as its trimmed, lower-cased text does.
pub proof fn law_strategy_ignores_space_and_case(s: Seq<char>)
    ensures
        spec_parse_strategy(s) == spec_parse_strategy(to_ascii_lower(trim(s))),
{
    crate::text::lemma_trim_lower_trimmed(s);
    crate::text::lemma_trim_lower_trimmed(trim(s));
}

/// Reading the canonical name of a strategy gives the strategy back.
pub proof fn law_strategy_name_roundtrip(s: BalanceStrategy)
    ensures
        spec_parse_strategy(spec_strategy_name(s)) == Some(s),
{
    reveal_strlit("round_robin");
    reveal_strlit("round-robin");
    reveal_strlit("least_connections");
    reveal_strlit("least-connections");
    reveal_strlit("ip_hash");
    reveal_strlit("ip-hash");
    let n = spec_strategy_name(s);
    assert(trim(n) == n) by {
        assert(!crate::text::is_whitespace(n[0]));
        assert(!crate::text::is_whitespace(n.last()));
        assert(crate::text::trim_start(n) == n);
    }
    assert(to_ascii_lower(n) =~= n);
}

// ============================================================================
// BACKEND SELECTION
// ============================================================================

/// Whether each server is healthy, in order.
pub open spec fn spec_health(servers: Seq<Backend>) -> Seq<bool> {
    servers.map_values(|b: Backend| b.healthy)
}

/// The first healthy position met when walking `h` cyclically from `start`,
/// trying the offsets `k`, `k + 1`, ... below `h.len()`.
pub open spec fn spec_first_healthy_cyclic(h: Seq<bool>, start: int, k: int) -> Option<int>
    decreases h.len() - k,
{
    if k < 0 || k >= h.len() {
        None
    } else if h[(start + k) % (h.len() as int)] {
        Some((start + k) % (h.len() as int))
    } else {
        spec_first_healthy_cyclic(h, start, k + 1)
    }
}

/// Whether the server `k` steps after `start`, cyclically, is healthy.
pub open spec fn spec_cyclic_at(h: Seq<bool>, start: int, k: int) -> bool {
    h[(start + k) % (h.len() as int)]
}

/// Whether the `k`-th hashed candidate is healthy.
pub open spec fn spec_hashed_at(h: Seq<bool>, hash: usize, k: int) -> bool {
    h[spec_hash_step(hash, k) % (h.len() as int)]
}

/// The hash after `k` wrapping increments.
pub open spec fn spec_hash_step(hash: usize, k: int) -> int {
    (hash + k) % (usize::MAX + 1)
}

/// The first healthy position among the candidates `(hash + k) % h.len()`,
/// `hash + k` wrapping around like a `usize`, for the offsets `k`, `k + 1`,
/// ... below `h.len()`.
pub open spec fn spec_first_healthy_hashed(h: Seq<bool>, hash: usize, k: int) -> Option<int>
    decreases h.len() - k,
{
    if k < 0 || k >= h.len() {
        None
    } else if h[spec_hash_step(hash, k) % (h.len() as int)] {
        Some(spec_hash_step(hash, k) % (h.len() as int))
    } else {
        spec_first_healthy_hashed(h, hash, k + 1)
    }
}

/// The least-connections choice between the two candidates `t % n` and
/// `(t + n / 2) % n` ("power of two choices"), falling back to the first
/// healthy server when neither candidate is healthy.
pub open spec fn spec_least_conn_pick(servers: Seq<Backend>, t: int) -> Option<int> {
    let n = servers.len();
    let i1 = t % (n as int);
    let i2 = (t + n / 2) % (n as int);
    let b1 = servers[i1];
    let b2 = servers[i2];
    if b1.healthy && b2.healthy {
        if b1.active_conns <= b2.active_conns {
            Some(i1)
        } else {
            Some(i2)
        }
    } else if b1.healthy {
        Some(i1)
    } else if b2.healthy {
        Some(i2)
    } else {
        spec_first_healthy_cyclic(spec_health(servers), 0, 0)
    }
}

/// The server that the upstream `u` picks for a client whose address hashes
/// to `ip_hash`, if any.
pub open spec fn spec_next_backend(u: Upstream, ip_hash: usize) -> Option<int> {
    let n = u.servers.len();
    if n == 1 {
        if u.servers[0].healthy {
            Some(0)
        } else {
            None
        }
    } else {
        match u.balance_strategy {
            BalanceStrategy::IpHash => spec_first_healthy_hashed(spec_health(u.servers@), ip_hash, 0),
            BalanceStrategy::RoundRobin => spec_first_healthy_cyclic(
                spec_health(u.servers@),
                (u.rr_counter % (n as usize)) as int,
                0,
            ),
            BalanceStrategy::LeastConnections => spec_least_conn_pick(
                u.servers@,
                u.lc_counter as int,
            ),
        }
    }
}

/// The upstream `u` after picking a server: with more than one server the
/// round-robin and least-connections strategies draw a ticket.
pub open spec fn spec_after_pick(pre: Upstream, post: Upstream) -> bool {
    if pre.servers.len() > 1 {
        spec_ticket_taken(pre, post)
    } else {
        post == pre
    }
}

/// What the least-connections strategy needs of its counter: the second
/// candidate's position can be computed without overflow.
pub open spec fn spec_ticket_room(u: Upstream) -> bool {
    u.servers.len() > 1 && u.balance_strategy == BalanceStrategy::LeastConnections
        ==> u.lc_counter + u.servers.len() / 2 <= usize::MAX
}

/// The backend `b` once a request has been routed to it.
pub open spec fn spec_served(b: Backend) -> Backend {
    Backend {
        active_conns: wrap_add_usize(b.active_conns, 1),
        total_requests: wrap_add_u64(b.total_requests, 1),
        ..b
    }
}

/// The upstreams that a load balancer picks from.
#[derive(Debug)]
pub struct LoadBalancer {
    pub upstreams: Vec<Upstream>,
}

/// A pick, when there is one, is a healthy server.
proof fn lemma_cyclic_sound(h: Seq<bool>, start: int, k: int)
    requires
        0 <= start,
        0 <= k,
        h.len() > 0,
    ensures
        match spec_first_healthy_cyclic(h, start, k) {
            Some(i) => 0 <= i < h.len() && h[i],
            None => forall|j: int| k <= j < h.len() ==> !#[trigger] spec_cyclic_at(h, start, j),
        },
    decreases h.len() - k,
{
    if 0 <= k < h.len() && !h[(start + k) % (h.len() as int)] {
        lemma_cyclic_sound(h, start, k + 1);
    }
}

proof fn lemma_hashed_sound(h: Seq<bool>, hash: usize, k: int)
    requires
        0 <= k,
        h.len() > 0,
    ensures
        match spec_first_healthy_hashed(h, hash, k) {
            Some(i) => 0 <= i < h.len() && h[i],
            None => forall|j: int| k <= j < h.len() ==> !#[trigger] spec_hashed_at(h, hash, j),
        },
    decreases h.len() - k,
{
    if 0 <= k < h.len() && !h[spec_hash_step(hash, k) % (h.len() as int)] {
        lemma_hashed_sound(h, hash, k + 1);
    }
}

/// A pick, when there is one, is the position of a healthy server.
pub proof fn lemma_next_backend_sound(u: Upstream, ip_hash: usize)
    requires
        u.servers.len() > 0,
    ensures
        match spec_next_backend(u, ip_hash) {
            Some(i) => 0 <= i < u.servers.len() && u.servers[i].healthy,
            None => true,
        },
{
    let n = u.servers.len();
    let h = spec_health(u.servers@);
    if n > 1 {
        match u.balance_strategy {
            BalanceStrategy::IpHash => lemma_hashed_sound(h, ip_hash, 0),
            BalanceStrategy::RoundRobin => lemma_cyclic_sound(h, (u.rr_counter % (n as usize)) as int, 0),
            BalanceStrategy::LeastConnections => lemma_cyclic_sound(h, 0, 0),
        }
    }
}

/// Some server is healthy.
pub open spec fn spec_any_healthy(servers: Seq<Backend>) -> bool {
    exists|i: int| 0 <= i < servers.len() && #[trigger] servers[i].healthy
}

/// Every position `x` below `n` is reached from `start` within `n` steps.
proof fn lemma_offset_reaches(start: int, n: int, x: int) -> (j: int)
    requires
        0 <= start,
        0 < n,
        0 <= x < n,
    ensures
        0 <= j < n,
        (start + j) % n == x,
{
    let q = start / n;
    let r = start % n;
    vstd::arithmetic::div_mod::lemma_fundamental_div_mod(start, n);
    vstd::arithmetic::div_mod::lemma_small_mod(x as nat, n as nat);
    if x >= r {
        let j = x - r;
        assert(start + j == n * q + x);
        vstd::arithmetic::div_mod::lemma_mod_multiples_vanish(q, x, n);
        j
    } else {
        let j = x - r + n;
        assert(start + j == n * (q + 1) + x) by (nonlinear_arith)
            requires
                start == n * q + r,
                j == x - r + n,
        ;
        vstd::arithmetic::div_mod::lemma_mod_multiples_vanish(q + 1, x, n);
        j
    }
}

proof fn lemma_cyclic_complete(h: Seq<bool>, start: int, x: int)
    requires
        0 <= start,
        h.len() > 0,
        0 <= x < h.len(),
        h[x],
    ensures
        spec_first_healthy_cyclic(h, start, 0) is Some,
{
    let n = h.len() as int;
    let j = lemma_offset_reaches(start, n, x);
    lemma_cyclic_sound(h, start, 0);
    assert(spec_cyclic_at(h, start, j));
}

proof fn lemma_hashed_complete(h: Seq<bool>, hash: usize, x: int)
    requires
        h.len() > 0,
        hash + h.len() - 1 <= usize::MAX,
        0 <= x < h.len(),
        h[x],
    ensures
        spec_first_healthy_hashed(h, hash, 0) is Some,
{
    let n = h.len() as int;
    let j = lemma_offset_reaches(hash as int, n, x);
    assert(spec_hash_step(hash, j) == hash + j) by {
        vstd::arithmetic::div_mod::lemma_small_mod((hash + j) as nat, (usize::MAX + 1) as nat);
    }
    lemma_hashed_sound(h, hash, 0);
    assert(spec_hashed_at(h, hash, j));
}

/// Selection law: an upstream with servers picks a server exactly when one of
/// them is healthy, and the server it picks is healthy. For the hash strategy
/// this holds when the candidate hashes do not wrap around.
pub proof fn law_pick_iff_healthy(u: Upstream, ip_hash: usize)
    requires
        u.servers.len() > 0,
        u.balance_strategy == BalanceStrategy::IpHash ==> ip_hash + u.servers.len() - 1
            <= usize::MAX,
    ensures
        spec_next_backend(u, ip_hash) is Some <==> spec_any_healthy(u.servers@),
        match spec_next_backend(u, ip_hash) {
            Some(i) => 0 <= i < u.servers.len() && u.servers[i].healthy,
            None => true,
        },
{
    lemma_next_backend_sound(u, ip_hash);
    let n = u.servers.len();
    let h = spec_health(u.servers@);
    if spec_any_healthy(u.servers@) {
        let x = choose|i: int| 0 <= i < u.servers.len() && #[trigger] u.servers[i].healthy;
        assert(h[x]);
        if n > 1 {
            match u.balance_strategy {
                BalanceStrategy::IpHash => lemma_hashed_complete(h, ip_hash, x),
                BalanceStrategy::RoundRobin => lemma_cyclic_complete(
                    h,
                    (u.rr_counter % (n as usize)) as int,
                    x,
                ),
                BalanceStrategy::LeastConnections => lemma_cyclic_complete(h, 0, x),
            }
        }
    }
}

/// Round-robin law: while every server is healthy, each pick is the server
/// at the counter's position, and the counter then moves on by one, so that
/// successive requests visit the servers in turn.
pub proof fn law_round_robin_rotates(u: Upstream, ip_hash: usize)
    requires
        u.servers.len() > 1,
        u.balance_strategy == BalanceStrategy::RoundRobin,
        forall|i: int| 0 <= i < u.servers.len() ==> #[trigger] u.servers[i].healthy,
    ensures
        spec_next_backend(u, ip_hash) == Some((u.rr_counter % (u.servers.len() as usize)) as int),
{
    let n = u.servers.len();
    let start = (u.rr_counter % (n as usize)) as int;
    assert((start + 0) % (n as int) == start) by {
        vstd::arithmetic::div_mod::lemma_small_mod(start as nat, n as nat);
    }
    assert(spec_health(u.servers@)[start]);
}

/// Hash law: with the `ip_hash` strategy the pick depends on the client's
/// hash and the servers' health alone, so two upstreams whose servers are
/// equally healthy pick the same server for one client; the pick leaves the
/// counters as they were; and serving a request changes no server's
/// health. So two requests from one client, with no health change between
/// them, go to the same server (or both find none).
pub proof fn law_ip_hash_sticky(u: Upstream, v: Upstream, post: Upstream, ip_hash: usize, i: int)
    requires
        u.balance_strategy == BalanceStrategy::IpHash,
        v.balance_strategy == BalanceStrategy::IpHash,
        spec_health(u.servers@) == spec_health(v.servers@),
        0 <= i < u.servers.len(),
    ensures
        spec_next_backend(u, ip_hash) == spec_next_backend(v, ip_hash),
        spec_after_pick(u, post) ==> post == u,
        spec_health(u.servers@.update(i, spec_served(u.servers[i]))) == spec_health(u.servers@),
{
    assert(u.servers@.len() == spec_health(u.servers@).len());
    assert(v.servers@.len() == spec_health(v.servers@).len());
    if u.servers.len() == 1 {
        assert(u.servers[0].healthy == spec_health(u.servers@)[0]);
        assert(v.servers[0].healthy == spec_health(v.servers@)[0]);
    }
    assert(spec_health(u.servers@.update(i, spec_served(u.servers[i]))) =~= spec_health(u.servers@));
}

/// Least-connections law: the strategy draws two candidates, the servers at
/// `t % n` and `(t + n / 2) % n` for the counter `t`; when both are healthy
/// it picks one of them with no more active connections than the other, and
/// when just one is healthy it picks that one.
pub proof fn law_least_conn_picks_less_loaded(u: Upstream, ip_hash: usize)
    requires
        u.servers.len() > 1,
        u.balance_strategy == BalanceStrategy::LeastConnections,
    ensures
        ({
            let n = u.servers.len() as int;
            let i1 = (u.lc_counter as int) % n;
            let i2 = (u.lc_counter as int + n / 2) % n;
            &&& u.servers[i1].healthy && u.servers[i2].healthy ==> (spec_next_backend(u, ip_hash)
                matches Some(i) && (i == i1 || i == i2) && u.servers[i].active_conns
                <= u.servers[i1].active_conns && u.servers[i].active_conns
                <= u.servers[i2].active_conns)
            &&& u.servers[i1].healthy && !u.servers[i2].healthy ==> spec_next_backend(u, ip_hash)
                == Some(i1)
            &&& !u.servers[i1].healthy && u.servers[i2].healthy ==> spec_next_backend(u, ip_hash)
                == Some(i2)
        }),
{
}

impl LoadBalancer {
    pub fn new(upstreams: Vec<Upstream>) -> (lb: Self)
        ensures
            lb.upstreams == upstreams,
    {
        LoadBalancer { upstreams }
    }

    /// Replaces the list of upstreams as a whole.
    pub fn update_upstreams(&mut self, new_upstreams: Vec<Upstream>)
        ensures
            final(self).upstreams == new_upstreams,
    {
        self.upstreams = new_upstreams;
    }

    /// Picks a backend of the upstream at `upstream_id` for a client whose
    /// address hashes to `ip_hash`, and counts the request and its connection
    /// against that backend. Returns the backend's position in the upstream.
    pub fn select_backend(&mut self, upstream_id: usize, ip_hash: usize) -> (r: Result<
        usize,
        BalancerError,
    >)
        requires
            upstream_id < old(self).upstreams.len(),
            spec_ticket_room(old(self).upstreams[upstream_id as int]),
        ensures
            ({
                let u = old(self).upstreams[upstream_id as int];
                let v = final(self).upstreams[upstream_id as int];
                &&& final(self).upstreams.len() == old(self).upstreams.len()
                &&& forall|j: int|
                    0 <= j < old(self).upstreams.len() && j != upstream_id
                        ==> final(self).upstreams[j] == old(self).upstreams[j]
                &&& if u.servers.len() == 0 {
                    r == Err::<usize, BalancerError>(BalancerError::UpstreamEmpty) && v == u
                } else {
                    match r {
                        Ok(i) => {
                            &&& spec_next_backend(u, ip_hash) == Some(i as int)
                            &&& spec_after_pick(u, Upstream { servers: u.servers, ..v })
                            &&& v.servers@ == u.servers@.update(
                                i as int,
                                spec_served(u.servers[i as int]),
                            )
                        },
                        Err(e) => {
                            &&& e == BalancerError::AllServersUnhealthy
                            &&& spec_next_backend(u, ip_hash) is None
                            &&& spec_after_pick(u, v)
                        },
                    }
                }
            }),
    {
        if self.upstreams[upstream_id].servers.len() == 0 {
            return Err(BalancerError::UpstreamEmpty);
        }
        proof {
            lemma_next_backend_sound(self.upstreams[upstream_id as int], ip_hash);
        }
        let picked = Self::next_backend(&mut self.upstreams[upstream_id], ip_hash);
        match picked {
            None => Err(BalancerError::AllServersUnhealthy),
            Some(i) => {
                let up = &mut self.upstreams[upstream_id];
                let backend = &mut up.servers[i];
                backend.acquire();
                backend.record_request();
                Ok(i)
            },
        }
    }

    /// Picks a healthy backend of `upstream`, drawing a ticket where the
    /// strategy needs one.
    #[verifier::loop_isolation(false)]
    fn next_backend(upstream: &mut Upstream, ip_hash: usize) -> (r: Option<usize>)
        requires
            old(upstream).servers.len() > 0,
            spec_ticket_room(*old(upstream)),
        ensures
            spec_after_pick(*old(upstream), *final(upstream)),
            match r {
                Some(i) => spec_next_backend(*old(upstream), ip_hash) == Some(i as int),
                None => spec_next_backend(*old(upstream), ip_hash) is None,
            },
    {
        let backend_len = upstream.servers.len();
        let ghost h = spec_health(upstream.servers@);
        if backend_len == 1 {
            if upstream.servers[0].is_healthy() {
                return Some(0);
            } else {
                return None;
            }
        }
        match upstream.balance_strategy {
            BalanceStrategy::IpHash => {
                let mut hash = ip_hash;
                let mut k: usize = 0;
                proof {
                    vstd::arithmetic::div_mod::lemma_small_mod(ip_hash as nat, (usize::MAX + 1) as nat);
                }
                while k < backend_len
                    invariant
                        backend_len == upstream.servers.len() > 1,
                        h == spec_health(upstream.servers@),
                        upstream.balance_strategy == BalanceStrategy::IpHash,
                        *upstream == *old(upstream),
                        0 <= k <= backend_len,
                        hash as int == spec_hash_step(ip_hash, k as int),
                        spec_first_healthy_hashed(h, ip_hash, 0) == spec_first_healthy_hashed(
                            h,
                            ip_hash,
                            k as int,
                        ),
                    decreases backend_len - k,
                {
                    let idx = hash % backend_len;
                    if upstream.servers[idx].is_healthy() {
                        return Some(idx);
                    }
                    proof {
                        let m: int = usize::MAX + 1;
                        vstd::arithmetic::div_mod::lemma_add_mod_noop(ip_hash + k, 1, m);
                        vstd::arithmetic::div_mod::lemma_small_mod(1, m as nat);
                        if hash + 1 < m {
                            vstd::arithmetic::div_mod::lemma_small_mod((hash + 1) as nat, m as nat);
                        } else {
                            vstd::arithmetic::div_mod::lemma_mod_self_0(m);
                        }
                    }
                    hash = hash.wrapping_add(1);
                    k = k + 1;
                }
                None
            },
            BalanceStrategy::RoundRobin => {
                let ticket = upstream.next_ticket();
                let start_idx = ticket % backend_len;
                assert((start_idx + 0) % (backend_len as int) == start_idx) by {
                    vstd::arithmetic::div_mod::lemma_small_mod(start_idx as nat, backend_len as nat);
                }
                if upstream.servers[start_idx].is_healthy() {
                    return Some(start_idx);
                }
                let mut i: usize = 1;
                while i < backend_len
                    invariant
                        backend_len == upstream.servers.len() > 1,
                        h == spec_health(upstream.servers@),
                        start_idx < backend_len,
                        start_idx == old(upstream).rr_counter % backend_len,
                        spec_after_pick(*old(upstream), *upstream),
                        1 <= i <= backend_len,
                        spec_first_healthy_cyclic(h, start_idx as int, 0)
                            == spec_first_healthy_cyclic(h, start_idx as int, i as int),
                    decreases backend_len - i,
                {
                    let next_idx = if start_idx >= backend_len - i {
                        start_idx - (backend_len - i)
                    } else {
                        start_idx + i
                    };
                    assert(next_idx == (start_idx + i) % (backend_len as int)) by {
                        if start_idx >= backend_len - i {
                            vstd::arithmetic::div_mod::lemma_mod_add_multiples_vanish(
                                (start_idx + i) as int - backend_len as int,
                                backend_len as int,
                            );
                            vstd::arithmetic::div_mod::lemma_small_mod(next_idx as nat, backend_len as nat);
                        } else {
                            vstd::arithmetic::div_mod::lemma_small_mod(next_idx as nat, backend_len as nat);
                        }
                    }
                    if upstream.servers[next_idx].is_healthy() {
                        return Some(next_idx);
                    }
                    i = i + 1;
                }
                None
            },
            BalanceStrategy::LeastConnections => {
                let ticket = upstream.next_ticket();
                let idx1 = ticket % backend_len;
                let idx2 = (ticket + (backend_len / 2)) % backend_len;
                let h1 = upstream.servers[idx1].is_healthy();
                let h2 = upstream.servers[idx2].is_healthy();
                if h1 && h2 {
                    if upstream.servers[idx1].active_conns() <= upstream.servers[idx2].active_conns() {
                        Some(idx1)
                    } else {
                        Some(idx2)
                    }
                } else if h1 {
                    Some(idx1)
                } else if h2 {
                    Some(idx2)
                } else {
                    let mut j: usize = 0;
                    while j < backend_len
                        invariant
                            backend_len == upstream.servers.len() > 1,
                            h == spec_health(upstream.servers@),
                            0 <= j <= backend_len,
                            spec_first_healthy_cyclic(h, 0, 0) == spec_first_healthy_cyclic(
                                h,
                                0,
                                j as int,
                            ),
                        decreases backend_len - j,
                    {
                        assert((0 + j) % (backend_len as int) == j) by {
                            vstd::arithmetic::div_mod::lemma_small_mod(j as nat, backend_len as nat);
                        }
                        if upstream.servers[j].is_healthy() {
                            return Some(j);
                        }
                        j = j + 1;
                    }
                    None
                }
            },
        }
    }
}

} // verus!
