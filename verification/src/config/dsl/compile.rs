//! Turning raw blocks into the configuration the gateway runs on.
use vstd::prelude::*;
use vstd::string::StringExecFns;
use vstd::string::StrSliceExecFns;
use vstd::string::StringSliceAdditionalSpecFns;

use crate::config::domain::{
    is_unix_text, spec_parse_protocol, spec_protocol_error, spec_transport_error,
    ConnectionConfig, HeaderMutations, HealthCheckConfig, InboundHeaderMutations, ListenerAddress,
    ListenerConfig, MasterConfig, NetworkProtocol, NetworkTransport, OutboundHeaderMutations,
    RouteRewrites, SecurityConfig, TlsCerts,
};
use crate::text::parse_unsigned;
use crate::config::parts::{put, put_text_pair, text_pairs};
use crate::config::parts::TokenSource;
use crate::text::{chars_of, to_ascii_lower, trim, trim_bounds};
use crate::time::{duration_from_secs, spec_duration_from_secs};

use super::errors::spec_decimal;
use super::blocks::{
    RawListener, RawTls, RawHeadersOps, RawHeadersRemove, RawHealthCheck, RawMaster, RawRouteHeadersOpts, RawTokenSource,
    RawUriRewrite, RawWorkers,
};
use super::parser::{parse_raw_master, spec_master, view_strs, MasterText};
use super::reader::view_pairs;

verus! {

/// A problem found while compiling a configuration.
#[derive(Debug, Clone)]
pub struct CompileError {
    pub message: String,
}

impl CompileError {
    pub fn new(msg: String) -> (e: Self)
        ensures
            e.message == msg,
    {
        CompileError { message: msg }
    }

    /// How the error reads: its message.
    pub fn to_display_string(&self) -> (s: String)
        ensures
            s@ == self.message@,
    {
        self.message.clone()
    }
}

/// The worker count that the master block asks for, given the number of
/// hardware threads `max_threads` (taken as at least 1): `auto` is that
/// number; a count above four times it falls back to it, and a count of 0
/// to 1, each of these with an error.
pub open spec fn spec_workers_count(w: RawWorkers, max_threads: usize) -> (usize, bool) {
    let m: int = if max_threads >= 1 { max_threads as int } else { 1 };
    match w {
        RawWorkers::Auto => (m as usize, false),
        RawWorkers::Count(n) => if n > m * 4 {
            (m as usize, true)
        } else if n == 0 {
            (1, true)
        } else {
            (n, false)
        },
    }
}

/// The message of a worker count above the limit.
pub open spec fn spec_workers_limit_message(n: Seq<char>, limit: Seq<char>, m: Seq<char>) -> Seq<char> {
    "workers count "@ + n + " exceeds reasonable limit ("@ + limit + "), using "@ + m
}

fn copy_strs(v: &Vec<&str>) -> (out: Vec<String>)
    ensures
        out@.len() == v@.len(),
        forall|i: int| 0 <= i < v@.len() ==> (#[trigger] out@[i])@ == v@[i]@,
{
    let mut out: Vec<String> = Vec::new();
    for i in 0..v.len()
        invariant
            out@.len() == i,
            forall|j: int| 0 <= j < i ==> (#[trigger] out@[j])@ == v@[j]@,
    {
        out.push(v[i].to_owned());
    }
    out
}

/// Compiles the master block. `max_threads` is the number of hardware
/// threads; a worker count that cannot be used adds an error to `errors`.
pub fn compile_master(raw: &RawMaster, max_threads: usize, errors: &mut Vec<CompileError>) -> (c:
    MasterConfig)
    requires
        max_threads <= usize::MAX / 4,
    ensures
        c.name@ == raw.name@,
        c.user@ == raw.user@,
        c.pid@ == raw.pid@,
        c.error_log@ == raw.error_log@,
        c.includes@.len() == raw.includes@.len(),
        forall|i: int| 0 <= i < raw.includes@.len() ==> (#[trigger] c.includes@[i])@ == raw.includes@[i]@,
        c.workers == spec_workers_count(raw.workers, max_threads).0,
        spec_workers_count(raw.workers, max_threads).1 ==> final(errors)@.len() == old(errors)@.len() + 1
            && final(errors)@.drop_last() == old(errors)@,
        !spec_workers_count(raw.workers, max_threads).1 ==> final(errors)@ == old(errors)@,
        raw.workers == RawWorkers::Count(0) ==> final(errors)@.last().message@
            == "workers count must be at least 1"@,
        ({
            let m: int = if max_threads >= 1 { max_threads as int } else { 1 };
            raw.workers matches RawWorkers::Count(n) ==> (n > m * 4 ==> final(errors)@.last().message@
                == spec_workers_limit_message(
                spec_decimal(n as nat),
                spec_decimal((m * 4) as nat),
                spec_decimal(m as nat),
            ))
        }),
{
    let m = if max_threads >= 1 {
        max_threads
    } else {
        1
    };
    let workers = match raw.workers {
        RawWorkers::Auto => m,
        RawWorkers::Count(n) => {
            if n > m * 4 {
                let mut msg = "workers count ".to_owned();
                crate::config::dsl::errors::push_decimal(&mut msg, n as u64);
                msg.append(" exceeds reasonable limit (");
                crate::config::dsl::errors::push_decimal(&mut msg, (m * 4) as u64);
                msg.append("), using ");
                crate::config::dsl::errors::push_decimal(&mut msg, m as u64);
                errors.push(CompileError::new(msg));
                m
            } else if n == 0 {
                errors.push(CompileError::new("workers count must be at least 1".to_owned()));
                1
            } else {
                n
            }
        },
    };
    MasterConfig {
        name: raw.name.to_owned(),
        user: raw.user.to_owned(),
        workers,
        pid: raw.pid.to_owned(),
        error_log: raw.error_log.to_owned(),
        includes: copy_strs(&raw.includes),
    }
}

/// The PID file that a master file names, if it reads and names one: the
/// `pid` value, trimmed, unless that is empty.
pub open spec fn spec_config_pid(text: Seq<char>) -> Option<Seq<char>> {
    match spec_master(text) {
        Ok(m) => if trim(m.pid).len() == 0 {
            None
        } else {
            Some(trim(m.pid))
        },
        Err(_) => None,
    }
}

/// The PID file that the master file with contents `text` names.
pub fn config_pid(text: &str) -> (r: Option<String>)
    requires
        text@.len() < usize::MAX,
    ensures
        match r {
            Some(p) => spec_config_pid(text@) == Some(p@),
            None => spec_config_pid(text@) is None,
        },
{
    match parse_raw_master(text) {
        Err(_) => None,
        Ok(raw) => {
            let v = chars_of(raw.pid);
            let (a, b) = trim_bounds(&v, 0, v.len());
            assert(v@.subrange(0, v.len() as int) =~= raw.pid@);
            if a == b {
                None
            } else {
                Some(raw.pid.substring_char(a, b).to_owned())
            }
        },
    }
}

/// Compiles a health check: the path defaults to `/`, the interval to 10 s,
/// the timeout to 5 s, the unhealthy threshold to 3 and the healthy one to 2.
pub fn compile_health_check(raw: &RawHealthCheck) -> (r: Result<HealthCheckConfig, String>)
    ensures
        r matches Ok(h) && h.path@ == (match raw.path {
            Some(p) => p@,
            None => "/"@,
        }) && h.interval == (match raw.interval {
            Some(d) => d,
            None => spec_duration_from_secs(10),
        }) && h.timeout == (match raw.timeout {
            Some(d) => d,
            None => spec_duration_from_secs(5),
        }) && h.unhealthy_threshold == (match raw.unhealthy_threshold {
            Some(n) => n,
            None => 3,
        }) && h.healthy_threshold == (match raw.healthy_threshold {
            Some(n) => n,
            None => 2,
        }),
{
    let path = match raw.path {
        Some(p) => p.to_owned(),
        None => "/".to_owned(),
    };
    let interval = match raw.interval {
        Some(d) => d,
        None => duration_from_secs(10),
    };
    let timeout = match raw.timeout {
        Some(d) => d,
        None => duration_from_secs(5),
    };
    let unhealthy_threshold = match raw.unhealthy_threshold {
        Some(n) => n,
        None => 3,
    };
    let healthy_threshold = match raw.healthy_threshold {
        Some(n) => n,
        None => 2,
    };
    Ok(HealthCheckConfig { path, interval, timeout, unhealthy_threshold, healthy_threshold })
}

fn owned_opt(o: Option<&str>) -> (r: Option<String>)
    ensures
        match o {
            Some(s) => r matches Some(t) && t@ == s@,
            None => r is None,
        },
{
    match o {
        Some(s) => Some(s.to_owned()),
        None => None,
    }
}

/// Compiles a rewrite block: every field is copied, the replacements in order.
pub fn compile_rewrite(raw: &RawUriRewrite) -> (r: RouteRewrites)
    ensures
        match raw.strip_prefix {
            Some(s) => r.strip_prefix matches Some(t) && t@ == s@,
            None => r.strip_prefix is None,
        },
        match raw.strip_suffix {
            Some(s) => r.strip_suffix matches Some(t) && t@ == s@,
            None => r.strip_suffix is None,
        },
        match raw.trailing_slash {
            Some(s) => r.trailing_slash matches Some(t) && t@ == s@,
            None => r.trailing_slash is None,
        },
        r.replaces@.len() == raw.replaces@.len(),
        forall|i: int|
            0 <= i < raw.replaces@.len() ==> (#[trigger] r.replaces@[i]).0@ == raw.replaces@[i].0@
                && r.replaces@[i].1@ == raw.replaces@[i].1@,
{
    let mut replaces: Vec<(String, String)> = Vec::new();
    for i in 0..raw.replaces.len()
        invariant
            replaces@.len() == i,
            forall|j: int|
                0 <= j < i ==> (#[trigger] replaces@[j]).0@ == raw.replaces@[j].0@ && replaces@[j].1@
                    == raw.replaces@[j].1@,
    {
        let (k, v) = raw.replaces[i];
        replaces.push((k.to_owned(), v.to_owned()));
    }
    RouteRewrites {
        strip_prefix: owned_opt(raw.strip_prefix),
        strip_suffix: owned_opt(raw.strip_suffix),
        replaces,
        trailing_slash: owned_opt(raw.trailing_slash),
    }
}

/// Whether `c` is the token source that `raw` names, with the same name and
/// prefix.
pub open spec fn token_source_is(c: TokenSource, raw: RawTokenSource) -> bool {
    match (c, raw) {
        (TokenSource::Header { name, prefix }, RawTokenSource::Header { name: n, prefix: p }) => name@
            == n@ && opt_str_is(prefix, p),
        (TokenSource::Cookie { name, prefix }, RawTokenSource::Cookie { name: n, prefix: p }) => name@
            == n@ && opt_str_is(prefix, p),
        (
            TokenSource::QueryParam { name, prefix },
            RawTokenSource::QueryParam { name: n, prefix: p },
        ) => name@ == n@ && opt_str_is(prefix, p),
        _ => false,
    }
}

pub open spec fn opt_str_is(c: Option<String>, raw: Option<&str>) -> bool {
    match (c, raw) {
        (Some(a), Some(b)) => a@ == b@,
        (None, None) => true,
        _ => false,
    }
}

/// Compiles a token source: the same kind, name and prefix.
pub fn compile_token_source(raw: &RawTokenSource) -> (c: TokenSource)
    ensures
        token_source_is(c, *raw),
{
    match raw {
        RawTokenSource::Header { name, prefix } => TokenSource::Header {
            name: (*name).to_owned(),
            prefix: owned_opt(*prefix),
        },
        RawTokenSource::Cookie { name, prefix } => TokenSource::Cookie {
            name: (*name).to_owned(),
            prefix: owned_opt(*prefix),
        },
        RawTokenSource::QueryParam { name, prefix } => TokenSource::QueryParam {
            name: (*name).to_owned(),
            prefix: owned_opt(*prefix),
        },
    }
}

/// Whether `names[i]` already occurs before position `i`.
pub open spec fn spec_repeats_earlier(names: Seq<Seq<char>>, i: int) -> bool {
    exists|j: int| 0 <= j < i && names[j] == names[i]
}

/// The messages for the upstream names that repeat an earlier one, in order.
pub open spec fn spec_duplicate_messages(names: Seq<Seq<char>>, n: int) -> Seq<Seq<char>>
    decreases n,
{
    if n <= 0 || n > names.len() {
        Seq::empty()
    } else if spec_repeats_earlier(names, n - 1) {
        spec_duplicate_messages(names, n - 1).push(
            "upstream '"@ + names[n - 1] + "' defined multiple times"@,
        )
    } else {
        spec_duplicate_messages(names, n - 1)
    }
}

pub open spec fn view_strings(v: Seq<String>) -> Seq<Seq<char>> {
    v.map_values(|s: String| s@)
}

pub open spec fn view_errors(v: Seq<CompileError>) -> Seq<Seq<char>> {
    v.map_values(|e: CompileError| e.message@)
}

/// Adds to `errors` one error for each upstream name that repeats an
/// earlier one.
pub fn validate_upstream_names(names: &Vec<String>, errors: &mut Vec<CompileError>)
    ensures
        view_errors(final(errors)@) == view_errors(old(errors)@) + spec_duplicate_messages(
            view_strings(names@),
            names@.len() as int,
        ),
{
    let ghost ns = view_strings(names@);
    let ghost start = view_errors(errors@);
    for i in 0..names.len()
        invariant
            ns == view_strings(names@),
            view_errors(errors@) == start + spec_duplicate_messages(ns, i as int),
    {
        let mut seen = false;
        let mut j: usize = 0;
        while j < i
            invariant
                0 <= j <= i < names.len(),
                ns == view_strings(names@),
                seen == exists|k: int| 0 <= k < j && ns[k] == ns[i as int],
            decreases i - j,
        {
            if names[j] == names[i] {
                seen = true;
            }
            proof {
                if names@[j as int]@ == names@[i as int]@ {
                    assert(ns[j as int] == ns[i as int]);
                }
                if seen {
                    let w = choose|k: int| 0 <= k < j + 1 && ns[k] == ns[i as int];
                }
            }
            j = j + 1;
        }
        assert(spec_repeats_earlier(ns, i as int) == seen);
        if seen {
            let mut msg = "upstream '".to_owned();
            msg.append(names[i].as_str());
            msg.append("' defined multiple times");
            let ghost before = errors@;
            errors.push(CompileError::new(msg));
            assert(view_errors(errors@) =~= view_errors(before).push(msg@));
        }
    }
}

// ============================================================================
// HEADERS
// ============================================================================

/// A character that may stand in a header name: an HTTP token character
/// (a letter, a digit, or one of ``!#$%&'*+-.^_`|~``).
pub open spec fn is_token_char(c: char) -> bool {
    ||| ('a' <= c && c <= 'z')
    ||| ('A' <= c && c <= 'Z')
    ||| ('0' <= c && c <= '9')
    ||| c == '!' || c == '#' || c == '$' || c == '%' || c == '&' || c == '\''
    ||| c == '*' || c == '+' || c == '-' || c == '.' || c == '^' || c == '_'
    ||| c == '`' || c == '|' || c == '~'
}

/// The canonical name of the header name `k` (what `HeaderName::as_str`
/// gives for `HeaderName::from_bytes` of its bytes): `k` lower-cased, when
/// it has 1 to 65535 characters, each a token character; else `None`.
pub open spec fn spec_header_name(k: Seq<char>) -> Option<Seq<char>> {
    if 1 <= k.len() <= 65535 && forall|i: int| 0 <= i < k.len() ==> #[trigger] is_token_char(k[i]) {
        Some(to_ascii_lower(k))
    } else {
        None
    }
}

/// Calls `http::HeaderName::from_bytes` on the bytes of `k` and gives the
/// name it makes as text (`HeaderName::as_str`), or `None` when it refuses
/// `k`. Its source maps each byte through a table that keeps token
/// characters, lower-casing letters, and refuses any other byte (every byte
/// of a character beyond ASCII among them), and refuses an empty name or one
/// longer than 65535 bytes; token characters are one byte each.
#[verifier::external_body]
fn header_name_of(k: &str) -> (r: Option<String>)
    ensures
        match r {
            Some(n) => spec_header_name(k@) == Some(n@),
            None => spec_header_name(k@) is None,
        },
{
    http::HeaderName::from_bytes(k.as_bytes()).ok().map(|n| n.as_str().to_owned())
}

/// What `http::HeaderValue::from_str` accepts: text whose bytes are all a
/// tab or at least 32 and not 127 (every byte of a character beyond ASCII is
/// at least 128).
pub open spec fn header_value_ok(v: Seq<char>) -> bool {
    forall|i: int| 0 <= i < v.len() ==> (#[trigger] v[i]) == '\t' || ((v[i] as u32) >= 32 && (v[i] as u32) != 127)
}

/// Calls `http::HeaderValue::from_str` on `v` and tells whether it accepts
/// it; its source accepts exactly the text that `header_value_ok` describes.
#[verifier::external_body]
fn header_value_accepted(v: &str) -> (b: bool)
    ensures
        b == header_value_ok(v@),
{
    http::HeaderValue::from_str(v).is_ok()
}

/// The headers of `set` whose name and value are valid, a later value for a
/// name replacing an earlier one.
pub open spec fn set_headers(set: Seq<(Seq<char>, Seq<char>)>) -> Seq<(Seq<char>, Seq<char>)>
    decreases set.len(),
{
    if set.len() == 0 {
        Seq::empty()
    } else {
        let prev = set_headers(set.drop_last());
        let (k, v) = set.last();
        match spec_header_name(k) {
            Some(n) => if header_value_ok(v) {
                put(prev, n, v)
            } else {
                prev
            },
            None => prev,
        }
    }
}

/// The canonical names of the valid header names of `ks`, in order.
pub open spec fn removed_headers(ks: Seq<Seq<char>>) -> Seq<Seq<char>>
    decreases ks.len(),
{
    if ks.len() == 0 {
        Seq::empty()
    } else {
        let prev = removed_headers(ks.drop_last());
        match spec_header_name(ks.last()) {
            Some(n) => prev.push(n),
            None => prev,
        }
    }
}

fn compile_set(set: &Vec<(&str, &str)>) -> (r: Vec<(String, String)>)
    ensures
        text_pairs(r@) == set_headers(view_pairs(set@)),
{
    let ghost all = view_pairs(set@);
    let mut out: Vec<(String, String)> = Vec::new();
    let mut i: usize = 0;
    assert(text_pairs(out@) =~= set_headers(all.take(0)));
    while i < set.len()
        invariant
            0 <= i <= set@.len(),
            all == view_pairs(set@),
            text_pairs(out@) == set_headers(all.take(i as int)),
        decreases set@.len() - i,
    {
        assert(all.take(i + 1).drop_last() =~= all.take(i as int));
        let (k, v) = set[i];
        match header_name_of(k) {
            Some(n) => {
                if header_value_accepted(v) {
                    put_text_pair(&mut out, n, v.to_owned());
                }
            },
            None => {},
        }
        i = i + 1;
    }
    assert(all.take(set@.len() as int) =~= all);
    out
}

fn compile_remove(ks: &Vec<&str>) -> (r: Vec<String>)
    ensures
        view_strings(r@) == removed_headers(view_strs(ks@)),
{
    let ghost all = view_strs(ks@);
    let mut out: Vec<String> = Vec::new();
    let mut i: usize = 0;
    assert(view_strings(out@) =~= removed_headers(all.take(0)));
    while i < ks.len()
        invariant
            0 <= i <= ks@.len(),
            all == view_strs(ks@),
            view_strings(out@) == removed_headers(all.take(i as int)),
        decreases ks@.len() - i,
    {
        assert(all.take(i + 1).drop_last() =~= all.take(i as int));
        match header_name_of(ks[i]) {
            Some(n) => {
                out.push(n);
                assert(view_strings(out@) =~= removed_headers(all.take(i + 1)));
            },
            None => {},
        }
        i = i + 1;
    }
    assert(all.take(ks@.len() as int) =~= all);
    out
}

/// `h` says something: a header to set or remove.
pub open spec fn inbound_given(h: Option<RawRouteHeadersOpts<RawHeadersOps>>) -> bool {
    h matches Some(o) && (o.opts.set@.len() > 0 || o.opts.remove@.len() > 0
        || o.upstream.set@.len() > 0 || o.upstream.remove@.len() > 0)
}

pub open spec fn outbound_given(h: Option<RawRouteHeadersOpts<RawHeadersRemove>>) -> bool {
    h matches Some(o) && (o.opts.set@.len() > 0 || o.opts.remove@.len() > 0
        || o.upstream.remove@.len() > 0)
}

/// `m` holds the header changes of the route's request headers `inbound`
/// (towards the client and the upstream) and response headers `outbound`.
pub open spec fn mutations_are(
    m: HeaderMutations,
    inbound: Option<RawRouteHeadersOpts<RawHeadersOps>>,
    outbound: Option<RawRouteHeadersOpts<RawHeadersRemove>>,
) -> bool {
    &&& match inbound {
        Some(h) => text_pairs(m.inbound.client_set@) == set_headers(view_pairs(h.opts.set@))
            && view_strings(m.inbound.client_remove@) == removed_headers(view_strs(h.opts.remove@))
            && text_pairs(m.inbound.to_upstream_set@) == set_headers(view_pairs(h.upstream.set@))
            && view_strings(m.inbound.to_upstream_remove@) == removed_headers(
            view_strs(h.upstream.remove@),
        ),
        None => m.inbound.client_set@.len() == 0 && m.inbound.client_remove@.len() == 0
            && m.inbound.to_upstream_set@.len() == 0 && m.inbound.to_upstream_remove@.len() == 0,
    }
    &&& match outbound {
        Some(h) => text_pairs(m.outbound.from_upstream_set@) == set_headers(view_pairs(h.opts.set@))
            && view_strings(m.outbound.from_upstream_remove@) == removed_headers(
            view_strs(h.opts.remove@),
        ) && m.outbound.client_set@.len() == 0 && view_strings(m.outbound.client_remove@)
            == removed_headers(view_strs(h.upstream.remove@)),
        None => m.outbound.from_upstream_set@.len() == 0 && m.outbound.from_upstream_remove@.len()
            == 0 && m.outbound.client_set@.len() == 0 && m.outbound.client_remove@.len() == 0,
    }
}

/// Compiles a route's `inbound_headers` and `outbound_headers`: `None` when
/// neither sets or removes anything; else the headers to set (valid names
/// and values only, by canonical name, a later value replacing an earlier
/// one) and to remove (valid names only), each way.
pub fn compile_headers(
    inbound: &Option<RawRouteHeadersOpts<RawHeadersOps>>,
    outbound: &Option<RawRouteHeadersOpts<RawHeadersRemove>>,
) -> (r: Option<HeaderMutations>)
    ensures
        match r {
            Some(m) => (inbound_given(*inbound) || outbound_given(*outbound)) && mutations_are(
                m,
                *inbound,
                *outbound,
            ),
            None => !inbound_given(*inbound) && !outbound_given(*outbound),
        },
{
    let has_inbound = match inbound {
        Some(h) => h.opts.set.len() > 0 || h.opts.remove.len() > 0 || h.upstream.set.len() > 0
            || h.upstream.remove.len() > 0,
        None => false,
    };
    let has_outbound = match outbound {
        Some(h) => h.opts.set.len() > 0 || h.opts.remove.len() > 0 || h.upstream.remove.len() > 0,
        None => false,
    };
    if !has_inbound && !has_outbound {
        return None;
    }
    let inbound_mutations = match inbound {
        Some(h) => InboundHeaderMutations {
            client_set: compile_set(&h.opts.set),
            client_remove: compile_remove(&h.opts.remove),
            to_upstream_set: compile_set(&h.upstream.set),
            to_upstream_remove: compile_remove(&h.upstream.remove),
        },
        None => InboundHeaderMutations::default(),
    };
    let outbound_mutations = match outbound {
        Some(h) => OutboundHeaderMutations {
            from_upstream_set: compile_set(&h.opts.set),
            from_upstream_remove: compile_remove(&h.opts.remove),
            client_set: Vec::new(),
            client_remove: compile_remove(&h.upstream.remove),
        },
        None => OutboundHeaderMutations::default(),
    };
    Some(HeaderMutations { inbound: inbound_mutations, outbound: outbound_mutations })
}

// ============================================================================
// LISTENERS
// ============================================================================

/// How the errors of the listener `name` begin.
pub open spec fn listener_prefix(name: Seq<char>) -> Seq<char> {
    "listener '"@ + name + "': "@
}

/// Why the address text `a` of a listener is refused, if it is: it is not a
/// transport (see `spec_transport_error`), or it names a host where an IP
/// address is needed. `address_is_ip` tells whether the socket address or
/// IP address reader of std reads the trimmed text.
pub open spec fn listener_address_error(a: Seq<char>, address_is_ip: bool) -> Option<Seq<char>> {
    match spec_transport_error(a) {
        Some(e) => Some(e),
        None => {
            let t = trim(a);
            if !is_unix_text(t) && t[0] != ':' && !address_is_ip {
                Some("listener addresses must use an IP address, got hostname '"@ + t + "'"@)
            } else {
                None
            }
        },
    }
}

/// `l` is the address that the accepted text `a` writes, once trimmed.
pub open spec fn listener_address_is(l: ListenerAddress, a: Seq<char>) -> bool {
    let t = trim(a);
    match l {
        ListenerAddress::Uds(p) => is_unix_text(t) && p@ == t.skip(5),
        ListenerAddress::AnyInterface(port) => !is_unix_text(t) && t[0] == ':' && parse_unsigned(
            t.skip(1),
            65535,
        ) == Some(port as int),
        ListenerAddress::Ip(x) => !is_unix_text(t) && t[0] != ':' && x@ == t,
    }
}

/// The protocols of the names `ps` that are protocol names, in order.
pub open spec fn listener_protocols(ps: Seq<Seq<char>>) -> Seq<NetworkProtocol>
    decreases ps.len(),
{
    if ps.len() == 0 {
        Seq::empty()
    } else {
        let prev = listener_protocols(ps.drop_last());
        match spec_parse_protocol(ps.last()) {
            Some(p) => prev.push(p),
            None => prev,
        }
    }
}

/// One error for each name of `ps` that is not a protocol name, in order.
pub open spec fn listener_protocol_errors(name: Seq<char>, ps: Seq<Seq<char>>) -> Seq<Seq<char>>
    decreases ps.len(),
{
    if ps.len() == 0 {
        Seq::empty()
    } else {
        let prev = listener_protocol_errors(name, ps.drop_last());
        if spec_parse_protocol(ps.last()) is None {
            prev.push(listener_prefix(name) + spec_protocol_error(ps.last()))
        } else {
            prev
        }
    }
}

/// The errors for the certificate and key of `tls` that do not exist.
pub open spec fn listener_tls_errors(
    name: Seq<char>,
    tls: Option<RawTls>,
    cert_exists: bool,
    key_exists: bool,
) -> Seq<Seq<char>> {
    match tls {
        None => Seq::empty(),
        Some(t) => (if cert_exists {
            Seq::empty()
        } else {
            seq![listener_prefix(name) + "ssl cert '"@ + t.cert@ + "' not found"@]
        }) + (if key_exists {
            Seq::empty()
        } else {
            seq![listener_prefix(name) + "ssl key '"@ + t.key@ + "' not found"@]
        }),
    }
}

/// `l` is the listener that `raw` declares: its name and address, the
/// protocols among its protocol names, TLS with its certificate, key,
/// client CA (as bytes) and versions when it has a `tls` block, and its
/// limits (the connection count cut to 32 bits) and timeouts.
pub open spec fn listener_is(l: ListenerConfig, raw: RawListener) -> bool {
    &&& l.name@ == raw.name@
    &&& listener_address_is(l.address, raw.address@)
    &&& l.protocols@ == listener_protocols(view_strs(raw.protocols@))
    &&& match raw.tls {
        None => l.security is Plaintext,
        Some(t) => l.security matches SecurityConfig::Tls { certs, versions } && certs.cert@
            == t.cert@ && certs.key@ == t.key@ && view_strings(versions@) == view_strs(t.versions@)
            && match t.client_ca {
            None => certs.client_ca is None,
            Some(c) => certs.client_ca matches Some(b) && b@ == c.spec_bytes(),
        },
    }
    &&& match raw.limits {
        None => l.connection.max_connections is None && l.connection.max_request_size is None,
        Some(lim) => (match lim.connections {
            Some(c) => l.connection.max_connections == Some(c as u32),
            None => l.connection.max_connections is None,
        }) && (match lim.request_size {
            Some(r) => l.connection.max_request_size matches Some(x) && x@ == r@,
            None => l.connection.max_request_size is None,
        }),
    }
    &&& match raw.timeouts {
        None => l.connection.idle_timeout is None && l.connection.keepalive_timeout is None,
        Some(t) => l.connection.idle_timeout == t.idle && l.connection.keepalive_timeout
            == t.keepalive,
    }
}

fn listener_message(name: &str, rest: &str) -> (m: String)
    ensures
        m@ == listener_prefix(name@) + rest@,
{
    let mut m = "listener '".to_owned();
    m.append(name);
    m.append("': ");
    m.append(rest);
    m
}

fn strs_to_strings(v: &Vec<&str>) -> (r: Vec<String>)
    ensures
        view_strings(r@) == view_strs(v@),
{
    let mut r: Vec<String> = Vec::new();
    let mut i: usize = 0;
    while i < v.len()
        invariant
            i <= v@.len(),
            r@.len() == i,
            forall|j: int| 0 <= j < i ==> (#[trigger] r@[j])@ == v@[j]@,
        decreases v@.len() - i,
    {
        r.push(v[i].to_owned());
        i = i + 1;
    }
    assert(view_strings(r@) =~= view_strs(v@));
    r
}

/// Compiles a listener block. The address is refused, with one error and
/// no listener, when it is not a transport or names a host
/// (`address_is_ip` tells whether std's socket or IP address reader reads
/// it); otherwise each protocol name that is not one and each missing
/// certificate or key file (`cert_exists`, `key_exists`) adds an error, and
/// the listener is returned (see `listener_is`).
pub fn compile_listener(
    raw: &RawListener,
    address_is_ip: bool,
    cert_exists: bool,
    key_exists: bool,
    errors: &mut Vec<CompileError>,
) -> (r: Option<ListenerConfig>)
    ensures
        match listener_address_error(raw.address@, address_is_ip) {
            Some(e) => r is None && view_errors(final(errors)@) == view_errors(old(errors)@).push(
                listener_prefix(raw.name@) + e,
            ),
            None => r matches Some(l) && listener_is(l, *raw) && view_errors(final(errors)@)
                == view_errors(old(errors)@) + listener_protocol_errors(
                raw.name@,
                view_strs(raw.protocols@),
            ) + listener_tls_errors(raw.name@, raw.tls, cert_exists, key_exists),
        },
{
    let name = raw.name;
    let ghost start = view_errors(errors@);
    let address = match <NetworkTransport as std::str::FromStr>::from_str(raw.address) {
        Err(e) => {
            let m = listener_message(name, e.as_str());
            errors.push(CompileError::new(m));
            assert(view_errors(errors@) =~= start.push(m@));
            return None;
        },
        Ok(NetworkTransport::Uds(p)) => ListenerAddress::Uds(p),
        Ok(NetworkTransport::AnyInterface(p)) => ListenerAddress::AnyInterface(p),
        Ok(NetworkTransport::Address(t)) => {
            if address_is_ip {
                ListenerAddress::Ip(t)
            } else {
                let mut rest = "listener addresses must use an IP address, got hostname '".to_owned();
                rest.append(t.as_str());
                rest.append("'");
                let m = listener_message(name, rest.as_str());
                errors.push(CompileError::new(m));
                assert(view_errors(errors@) =~= start.push(m@));
                return None;
            }
        },
    };
    let ghost ps = view_strs(raw.protocols@);
    let mut protocols: Vec<NetworkProtocol> = Vec::new();
    let mut i: usize = 0;
    assert(ps.take(0) =~= Seq::<Seq<char>>::empty());
    while i < raw.protocols.len()
        invariant
            i <= raw.protocols@.len(),
            ps == view_strs(raw.protocols@),
            protocols@ == listener_protocols(ps.take(i as int)),
            view_errors(errors@) == start + listener_protocol_errors(name@, ps.take(i as int)),
        decreases raw.protocols@.len() - i,
    {
        assert(ps.take(i + 1).drop_last() =~= ps.take(i as int));
        assert(ps.take(i + 1).last() == raw.protocols@[i as int]@);
        match NetworkProtocol::parse(raw.protocols[i]) {
            Ok(p) => {
                protocols.push(p);
            },
            Err(e) => {
                let ghost before = view_errors(errors@);
                let m = listener_message(name, e.as_str());
                errors.push(CompileError::new(m));
                assert(view_errors(errors@) =~= before.push(m@));
            },
        }
        i = i + 1;
    }
    assert(ps.take(raw.protocols@.len() as int) =~= ps);
    let ghost mid = view_errors(errors@);
    let security = match &raw.tls {
        None => SecurityConfig::Plaintext,
        Some(t) => {
            assert(raw.tls == Some(*t));
            let ghost cert_part: Seq<Seq<char>> = if cert_exists {
                Seq::empty()
            } else {
                seq![listener_prefix(name@) + "ssl cert '"@ + t.cert@ + "' not found"@]
            };
            let ghost key_part: Seq<Seq<char>> = if key_exists {
                Seq::empty()
            } else {
                seq![listener_prefix(name@) + "ssl key '"@ + t.key@ + "' not found"@]
            };
            if !cert_exists {
                let mut rest = "ssl cert '".to_owned();
                rest.append(t.cert);
                rest.append("' not found");
                let m = listener_message(name, rest.as_str());
                errors.push(CompileError::new(m));
                assert(m@ =~= listener_prefix(name@) + "ssl cert '"@ + t.cert@ + "' not found"@);
                assert(view_errors(errors@) =~= mid.push(m@));
            }
            assert(view_errors(errors@) =~= mid + cert_part);
            let ghost after_cert = view_errors(errors@);
            if !key_exists {
                let mut rest = "ssl key '".to_owned();
                rest.append(t.key);
                rest.append("' not found");
                let m = listener_message(name, rest.as_str());
                errors.push(CompileError::new(m));
                assert(m@ =~= listener_prefix(name@) + "ssl key '"@ + t.key@ + "' not found"@);
                assert(view_errors(errors@) =~= after_cert.push(m@));
            }
            assert(view_errors(errors@) =~= mid + cert_part + key_part);
            assert(view_errors(errors@) =~= mid + listener_tls_errors(
                name@,
                raw.tls,
                cert_exists,
                key_exists,
            ));
            let client_ca = match t.client_ca {
                Some(c) => Some(c.as_bytes_vec()),
                None => None,
            };
            SecurityConfig::Tls {
                certs: TlsCerts { cert: t.cert.to_owned(), key: t.key.to_owned(), client_ca },
                versions: strs_to_strings(&t.versions),
            }
        },
    };
    assert(view_errors(errors@) =~= start + listener_protocol_errors(name@, ps) + listener_tls_errors(
        name@,
        raw.tls,
        cert_exists,
        key_exists,
    ));
    let connection = ConnectionConfig {
        max_connections: match &raw.limits {
            Some(lim) => match lim.connections {
                Some(c) => Some(#[verifier::truncate] (c as u32)),
                None => None,
            },
            None => None,
        },
        max_request_size: match &raw.limits {
            Some(lim) => match lim.request_size {
                Some(rs) => Some(rs.to_owned()),
                None => None,
            },
            None => None,
        },
        idle_timeout: match &raw.timeouts {
            Some(t) => t.idle,
            None => None,
        },
        keepalive_timeout: match &raw.timeouts {
            Some(t) => t.keepalive,
            None => None,
        },
    };
    Some(ListenerConfig { name: name.to_owned(), address, protocols, security, connection })
}

} // verus!
