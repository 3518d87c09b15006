//! Semantic checks of a parsed configuration, and their error codes.
use vstd::prelude::*;
use vstd::string::StringExecFns;

verus! {

/// The kind of a semantic configuration error.
#[derive(Debug, Clone, Copy, PartialEq, Eq, Structural)]
pub enum ErrorCode {
    /// Upstream references.
    E001,
    /// Policy references.
    E002,
    /// SSL certificate or key file existence.
    E003,
    /// Port conflicts.
    E004,
    /// Duplicate upstreams.
    E005,
}

pub open spec fn spec_code_str(c: ErrorCode) -> Seq<char> {
    match c {
        ErrorCode::E001 => "E001"@,
        ErrorCode::E002 => "E002"@,
        ErrorCode::E003 => "E003"@,
        ErrorCode::E004 => "E004"@,
        ErrorCode::E005 => "E005"@,
    }
}

impl ErrorCode {
    pub fn as_str(&self) -> (s: &'static str)
        ensures
            s@ == spec_code_str(*self),
    {
        match self {
            ErrorCode::E001 => "E001",
            ErrorCode::E002 => "E002",
            ErrorCode::E003 => "E003",
            ErrorCode::E004 => "E004",
            ErrorCode::E005 => "E005",
        }
    }
}

/// A single configuration validation error.
#[derive(Debug, Clone)]
pub struct ConfigError {
    pub code: ErrorCode,
    pub message: String,
}

impl ConfigError {
    pub fn new(code: ErrorCode, message: String) -> (e: Self)
        ensures
            e.code == code,
            e.message == message,
    {
        ConfigError { code, message }
    }

    /// How the error reads: `error[CODE]: message`.
    pub fn to_display_string(&self) -> (s: String)
        ensures
            s@ == "error["@ + spec_code_str(self.code) + "]: "@ + self.message@,
    {
        let mut s = "error[".to_owned();
        s.append(self.code.as_str());
        s.append("]: ");
        s.append(self.message.as_str());
        s
    }
}

// ============================================================================
// WHAT THE CHECKS READ
// ============================================================================

/// How a route names one of its policies.
#[derive(Debug, Clone)]
pub enum PolicyRef {
    /// A named policy, as it is.
    Reference(String),
    /// A named policy, with overrides.
    Extends(String),
    /// A policy of the route's own.
    Local,
}

/// What the checks read of a route: its path, the upstream it sends to (none
/// for a static backend) and how it names each policy.
#[derive(Debug, Clone)]
pub struct RouteRefs {
    pub path: String,
    pub upstream: Option<String>,
    pub waf: Option<PolicyRef>,
    pub auth: Option<PolicyRef>,
    pub cors: Option<PolicyRef>,
    pub limiter: Option<PolicyRef>,
}

/// A TLS listener's certificate and key files, and whether each exists.
#[derive(Debug, Clone)]
pub struct TlsFiles {
    pub cert: String,
    pub key: String,
    pub cert_exists: bool,
    pub key_exists: bool,
}

/// What the checks read of a listener: its name, the addresses it listens on
/// and, for TLS, its files.
#[derive(Debug, Clone)]
pub struct ListenerRefs {
    pub name: String,
    pub listen: Vec<String>,
    pub tls: Option<TlsFiles>,
}

/// What the checks read of a configuration: its routes and listeners, the
/// names of its upstreams, in order, and the names of its policies of each
/// kind.
#[derive(Debug, Clone)]
pub struct ConfigRefs {
    pub routes: Vec<RouteRefs>,
    pub listeners: Vec<ListenerRefs>,
    pub upstreams: Vec<String>,
    pub waf_policies: Vec<String>,
    pub auth_policies: Vec<String>,
    pub cors_policies: Vec<String>,
    pub limiter_policies: Vec<String>,
}

pub open spec fn view_names(v: Seq<String>) -> Seq<Seq<char>> {
    v.map_values(|s: String| s@)
}

/// The code and message of each error.
pub open spec fn view_errors(v: Seq<ConfigError>) -> Seq<(ErrorCode, Seq<char>)> {
    v.map_values(|e: ConfigError| (e.code, e.message@))
}

/// Whether `name` is among `names`.
fn has_name(names: &Vec<String>, name: &String) -> (b: bool)
    ensures
        b == view_names(names@).contains(name@),
{
    let ghost ns = view_names(names@);
    let mut i: usize = 0;
    while i < names.len()
        invariant
            i <= names.len(),
            ns == view_names(names@),
            forall|k: int| 0 <= k < i ==> ns[k] != name@,
        decreases names.len() - i,
    {
        if names[i] == *name {
            assert(ns[i as int] == name@);
            return true;
        }
        i = i + 1;
    }
    proof {
        if ns.contains(name@) {
            let k = choose|k: int| 0 <= k < ns.len() && ns[k] == name@;
            assert(ns[k] != name@);
        }
    }
    false
}

fn push_error(errors: &mut Vec<ConfigError>, code: ErrorCode, message: String)
    ensures
        view_errors(final(errors)@) == view_errors(old(errors)@).push((code, message@)),
{
    errors.push(ConfigError::new(code, message));
    assert(view_errors(final(errors)@) =~= view_errors(old(errors)@).push((code, message@)));
}

// ============================================================================
// E001: UPSTREAM REFERENCES
// ============================================================================

/// The errors for the routes that send to an upstream that is not defined.
pub open spec fn spec_upstream_ref_errors(routes: Seq<RouteRefs>, upstreams: Seq<Seq<char>>) -> Seq<
    (ErrorCode, Seq<char>),
>
    decreases routes.len(),
{
    if routes.len() == 0 {
        Seq::empty()
    } else {
        let r = routes.last();
        spec_upstream_ref_errors(routes.drop_last(), upstreams) + match r.upstream {
            Some(n) => if upstreams.contains(n@) {
                Seq::empty()
            } else {
                seq![
                    (
                        ErrorCode::E001,
                        "route '"@ + r.path@ + "' references upstream '"@ + n@
                            + "' which is not defined"@,
                    ),
                ]
            },
            None => Seq::empty(),
        }
    }
}

/// The message for a route at `path` that sends to the upstream `name`,
/// which is not defined.
pub open spec fn undefined_upstream_message(path: Seq<char>, name: Seq<char>) -> Seq<char> {
    "route '"@ + path + "' references upstream '"@ + name + "' which is not defined"@
}

/// `x` is the error for the route `r` sending to an undefined upstream.
pub open spec fn upstream_error_of(r: RouteRefs, upstreams: Seq<Seq<char>>, x: (ErrorCode, Seq<char>)) -> bool {
    r.upstream matches Some(n) && !upstreams.contains(n@) && x == (
        ErrorCode::E001,
        undefined_upstream_message(r.path@, n@),
    )
}

/// Upstream reference law: each route that sends to an upstream that is not
/// defined gets an error naming the route and the upstream, and each error
/// is such an error, for a route that does.
pub proof fn law_upstream_refs_reported(routes: Seq<RouteRefs>, upstreams: Seq<Seq<char>>)
    ensures
        forall|k: int|
            0 <= k < routes.len() ==> ((#[trigger] routes[k]).upstream matches Some(n) ==> (!upstreams.contains(n@)
                ==> spec_upstream_ref_errors(routes, upstreams).contains(
                (ErrorCode::E001, undefined_upstream_message(routes[k].path@, n@)),
            ))),
        forall|x: (ErrorCode, Seq<char>)|
            #[trigger] spec_upstream_ref_errors(routes, upstreams).contains(x) ==> exists|k: int|
                0 <= k < routes.len() && upstream_error_of(#[trigger] routes[k], upstreams, x),
    decreases routes.len(),
{
    if routes.len() > 0 {
        let p = routes.drop_last();
        law_upstream_refs_reported(p, upstreams);
        let r = routes.last();
        let tail: Seq<(ErrorCode, Seq<char>)> = match r.upstream {
            Some(n) => if upstreams.contains(n@) {
                Seq::empty()
            } else {
                seq![(ErrorCode::E001, "route '"@ + r.path@ + "' references upstream '"@ + n@ + "' which is not defined"@)]
            },
            None => Seq::empty(),
        };
        let all = spec_upstream_ref_errors(routes, upstreams);
        let pre = spec_upstream_ref_errors(p, upstreams);
        assert(all == pre + tail);
        assert forall|k: int|
            0 <= k < routes.len() implies ((#[trigger] routes[k]).upstream matches Some(n) ==> (!upstreams.contains(n@)
                ==> all.contains((ErrorCode::E001, undefined_upstream_message(routes[k].path@, n@))))) by {
            if k < p.len() {
                assert(p[k] == routes[k]);
                if let Some(n) = routes[k].upstream {
                    if !upstreams.contains(n@) {
                        let x = (ErrorCode::E001, undefined_upstream_message(routes[k].path@, n@));
                        assert(pre.contains(x));
                        let i = choose|i: int| 0 <= i < pre.len() && pre[i] == x;
                        assert(all[i] == x);
                    }
                }
            } else {
                if let Some(n) = r.upstream {
                    if !upstreams.contains(n@) {
                        assert(all[pre.len() as int] == tail[0]);
                    }
                }
            }
        }
        assert forall|x: (ErrorCode, Seq<char>)| #[trigger] all.contains(x) implies exists|k: int|
            0 <= k < routes.len() && upstream_error_of(#[trigger] routes[k], upstreams, x) by {
            let i = choose|i: int| 0 <= i < all.len() && all[i] == x;
            if i < pre.len() {
                assert(pre[i] == x);
                assert(pre.contains(x));
                let k = choose|k: int| 0 <= k < p.len() && upstream_error_of(#[trigger] p[k], upstreams, x);
                assert(p[k] == routes[k]);
                assert(upstream_error_of(routes[k], upstreams, x));
            } else {
                assert(tail[i - pre.len()] == x);
                assert(routes[routes.len() - 1] == r);
                assert(upstream_error_of(routes[routes.len() - 1], upstreams, x));
            }
        }
    }
}

/// Adds an error for each route that sends to an upstream not among
/// `upstreams`.
pub fn validate_upstream_refs(errors: &mut Vec<ConfigError>, routes: &Vec<RouteRefs>, upstreams: &Vec<String>)
    ensures
        view_errors(final(errors)@) == view_errors(old(errors)@) + spec_upstream_ref_errors(
            routes@,
            view_names(upstreams@),
        ),
{
    let ghost start = view_errors(errors@);
    let ghost ups = view_names(upstreams@);
    let mut i: usize = 0;
    assert(routes@.take(0) =~= Seq::<RouteRefs>::empty());
    assert(start + Seq::<(ErrorCode, Seq<char>)>::empty() =~= start);
    while i < routes.len()
        invariant
            i <= routes.len(),
            ups == view_names(upstreams@),
            view_errors(errors@) == start + spec_upstream_ref_errors(routes@.take(i as int), ups),
        decreases routes.len() - i,
    {
        let r = &routes[i];
        assert(routes@.take(i + 1).drop_last() =~= routes@.take(i as int));
        let ghost before = view_errors(errors@);
        if let Some(n) = &r.upstream {
            if !has_name(upstreams, n) {
                let mut m = "route '".to_owned();
                m.append(r.path.as_str());
                m.append("' references upstream '");
                m.append(n.as_str());
                m.append("' which is not defined");
                push_error(errors, ErrorCode::E001, m);
            }
        }
        assert(view_errors(errors@) =~= start + spec_upstream_ref_errors(routes@.take(i + 1), ups));
        i = i + 1;
    }
    assert(routes@.take(routes.len() as int) =~= routes@);
}

// ============================================================================
// E005: DUPLICATE UPSTREAMS
// ============================================================================

/// Whether `names[i]` already occurs before position `i`.
pub open spec fn spec_repeats_earlier(names: Seq<Seq<char>>, i: int) -> bool {
    exists|j: int| 0 <= j < i && names[j] == names[i]
}

/// The errors for the upstream names among the first `n` that repeat an
/// earlier one, in order.
pub open spec fn spec_duplicate_errors(names: Seq<Seq<char>>, n: int) -> Seq<(ErrorCode, Seq<char>)>
    decreases n,
{
    if n <= 0 || n > names.len() {
        Seq::empty()
    } else if spec_repeats_earlier(names, n - 1) {
        spec_duplicate_errors(names, n - 1).push(
            (ErrorCode::E005, "upstream '"@ + names[n - 1] + "' is defined multiple times"@),
        )
    } else {
        spec_duplicate_errors(names, n - 1)
    }
}

/// Duplicate upstream law: each upstream whose name an earlier upstream
/// already has gets an error naming it; with distinct names there is none.
pub proof fn law_duplicate_upstreams_reported(names: Seq<Seq<char>>, n: int)
    requires
        0 <= n <= names.len(),
    ensures
        forall|i: int|
            0 <= i < n && (exists|j: int| 0 <= j < i && names[j] == names[i]) ==> spec_duplicate_errors(
                names,
                n,
            ).contains((ErrorCode::E005, "upstream '"@ + #[trigger] names[i] + "' is defined multiple times"@)),
        (forall|i: int, j: int| 0 <= j < i < n ==> names[j] != names[i]) ==> spec_duplicate_errors(
            names,
            n,
        ).len() == 0,
    decreases n,
{
    if n > 0 {
        law_duplicate_upstreams_reported(names, n - 1);
        let pre = spec_duplicate_errors(names, n - 1);
        let all = spec_duplicate_errors(names, n);
        assert forall|i: int|
            0 <= i < n && (exists|j: int| 0 <= j < i && names[j] == names[i]) implies all.contains(
            (ErrorCode::E005, "upstream '"@ + #[trigger] names[i] + "' is defined multiple times"@),
        ) by {
            let x = (ErrorCode::E005, "upstream '"@ + names[i] + "' is defined multiple times"@);
            if i < n - 1 {
                assert(pre.contains(x));
                let k = choose|k: int| 0 <= k < pre.len() && pre[k] == x;
                if spec_repeats_earlier(names, n - 1) {
                    assert(all[k] == x);
                } else {
                    assert(all == pre);
                }
            } else {
                assert(spec_repeats_earlier(names, n - 1));
                assert(all[pre.len() as int] == x);
            }
        }
    }
}

/// Whether some name among the first `i` of `names` equals `names[i]`.
fn repeats_earlier(names: &Vec<String>, i: usize) -> (b: bool)
    requires
        i < names.len(),
    ensures
        b == spec_repeats_earlier(view_names(names@), i as int),
{
    let ghost ns = view_names(names@);
    let mut j: usize = 0;
    while j < i
        invariant
            j <= i < names.len(),
            ns == view_names(names@),
            forall|k: int| 0 <= k < j ==> ns[k] != ns[i as int],
        decreases i - j,
    {
        if names[j] == names[i] {
            assert(ns[j as int] == ns[i as int]);
            return true;
        }
        j = j + 1;
    }
    false
}

/// Adds an error for each upstream name that repeats an earlier one.
pub fn validate_duplicate_upstreams(errors: &mut Vec<ConfigError>, upstreams: &Vec<String>)
    ensures
        view_errors(final(errors)@) == view_errors(old(errors)@) + spec_duplicate_errors(
            view_names(upstreams@),
            upstreams@.len() as int,
        ),
{
    let ghost ns = view_names(upstreams@);
    let ghost start = view_errors(errors@);
    assert(start + Seq::<(ErrorCode, Seq<char>)>::empty() =~= start);
    let mut i: usize = 0;
    while i < upstreams.len()
        invariant
            i <= upstreams.len(),
            ns == view_names(upstreams@),
            view_errors(errors@) == start + spec_duplicate_errors(ns, i as int),
        decreases upstreams.len() - i,
    {
        if repeats_earlier(upstreams, i) {
            let mut m = "upstream '".to_owned();
            m.append(upstreams[i].as_str());
            m.append("' is defined multiple times");
            push_error(errors, ErrorCode::E005, m);
            assert(view_errors(errors@) =~= start + spec_duplicate_errors(ns, i + 1));
        }
        i = i + 1;
    }
}

// ============================================================================
// E002: POLICY REFERENCES
// ============================================================================

/// The error, if any, for a route at `path` that names its `kind` policy by
/// `r`, where the policies of that kind are `defined`.
pub open spec fn spec_policy_ref_error(
    path: Seq<char>,
    kind: Seq<char>,
    r: Option<PolicyRef>,
    defined: Seq<Seq<char>>,
) -> Seq<(ErrorCode, Seq<char>)> {
    match r {
        Some(PolicyRef::Reference(n)) => if defined.contains(n@) {
            Seq::empty()
        } else {
            seq![
                (
                    ErrorCode::E002,
                    "route '"@ + path + "' references "@ + kind + " policy '"@ + n@
                        + "' which is not defined"@,
                ),
            ]
        },
        Some(PolicyRef::Extends(b)) => if defined.contains(b@) {
            Seq::empty()
        } else {
            seq![
                (
                    ErrorCode::E002,
                    "route '"@ + path + "' extends "@ + kind + " policy '"@ + b@
                        + "' which is not defined"@,
                ),
            ]
        },
        _ => Seq::empty(),
    }
}

/// The errors for a route's policies: waf, auth, cors, then limiter.
pub open spec fn spec_route_policy_errors(r: RouteRefs, c: ConfigRefs) -> Seq<(ErrorCode, Seq<char>)> {
    spec_policy_ref_error(r.path@, "waf"@, r.waf, view_names(c.waf_policies@)) + spec_policy_ref_error(
        r.path@,
        "auth"@,
        r.auth,
        view_names(c.auth_policies@),
    ) + spec_policy_ref_error(r.path@, "cors"@, r.cors, view_names(c.cors_policies@))
        + spec_policy_ref_error(r.path@, "limiter"@, r.limiter, view_names(c.limiter_policies@))
}

/// The errors for the policies of each route, in order.
pub open spec fn spec_policy_ref_errors(routes: Seq<RouteRefs>, c: ConfigRefs) -> Seq<
    (ErrorCode, Seq<char>),
>
    decreases routes.len(),
{
    if routes.len() == 0 {
        Seq::empty()
    } else {
        spec_policy_ref_errors(routes.drop_last(), c) + spec_route_policy_errors(routes.last(), c)
    }
}

/// Adds the error, if any, for a route at `path` that names its `kind` policy
/// by `r`.
fn check_policy_ref(
    errors: &mut Vec<ConfigError>,
    path: &String,
    kind: &str,
    r: &Option<PolicyRef>,
    defined: &Vec<String>,
)
    ensures
        view_errors(final(errors)@) == view_errors(old(errors)@) + spec_policy_ref_error(
            path@,
            kind@,
            *r,
            view_names(defined@),
        ),
{
    let ghost before = view_errors(errors@);
    match r {
        Some(PolicyRef::Reference(n)) => {
            if !has_name(defined, n) {
                let mut m = "route '".to_owned();
                m.append(path.as_str());
                m.append("' references ");
                m.append(kind);
                m.append(" policy '");
                m.append(n.as_str());
                m.append("' which is not defined");
                push_error(errors, ErrorCode::E002, m);
            } else {
                assert(view_errors(errors@) =~= before + Seq::<(ErrorCode, Seq<char>)>::empty());
            }
        },
        Some(PolicyRef::Extends(b)) => {
            if !has_name(defined, b) {
                let mut m = "route '".to_owned();
                m.append(path.as_str());
                m.append("' extends ");
                m.append(kind);
                m.append(" policy '");
                m.append(b.as_str());
                m.append("' which is not defined");
                push_error(errors, ErrorCode::E002, m);
            } else {
                assert(view_errors(errors@) =~= before + Seq::<(ErrorCode, Seq<char>)>::empty());
            }
        },
        _ => {
            assert(view_errors(errors@) =~= before + Seq::<(ErrorCode, Seq<char>)>::empty());
        },
    }
}

/// Adds an error for each policy that a route names and `config` does not
/// define.
pub fn validate_policy_refs(errors: &mut Vec<ConfigError>, routes: &Vec<RouteRefs>, config: &ConfigRefs)
    ensures
        view_errors(final(errors)@) == view_errors(old(errors)@) + spec_policy_ref_errors(routes@, *config),
{
    let ghost start = view_errors(errors@);
    assert(routes@.take(0) =~= Seq::<RouteRefs>::empty());
    assert(start + Seq::<(ErrorCode, Seq<char>)>::empty() =~= start);
    let mut i: usize = 0;
    while i < routes.len()
        invariant
            i <= routes.len(),
            view_errors(errors@) == start + spec_policy_ref_errors(routes@.take(i as int), *config),
        decreases routes.len() - i,
    {
        let r = &routes[i];
        assert(routes@.take(i + 1).drop_last() =~= routes@.take(i as int));
        let ghost e0 = view_errors(errors@);
        check_policy_ref(errors, &r.path, "waf", &r.waf, &config.waf_policies);
        check_policy_ref(errors, &r.path, "auth", &r.auth, &config.auth_policies);
        check_policy_ref(errors, &r.path, "cors", &r.cors, &config.cors_policies);
        check_policy_ref(errors, &r.path, "limiter", &r.limiter, &config.limiter_policies);
        assert(view_errors(errors@) =~= e0 + spec_route_policy_errors(*r, *config));
        assert(view_errors(errors@) =~= start + spec_policy_ref_errors(routes@.take(i + 1), *config));
        i = i + 1;
    }
    assert(routes@.take(routes.len() as int) =~= routes@);
}

proof fn lemma_contains_concat<A>(a: Seq<A>, b: Seq<A>, x: A)
    ensures
        a.contains(x) ==> (a + b).contains(x),
        b.contains(x) ==> (a + b).contains(x),
{
    if a.contains(x) {
        let i = choose|i: int| 0 <= i < a.len() && a[i] == x;
        assert((a + b)[i] == x);
    }
    if b.contains(x) {
        let i = choose|i: int| 0 <= i < b.len() && b[i] == x;
        assert((a + b)[a.len() + i] == x);
    }
}

/// Every error for the route `routes[k]` is among the errors for `routes`.
proof fn lemma_route_errors_kept(routes: Seq<RouteRefs>, c: ConfigRefs, k: int, x: (ErrorCode, Seq<char>))
    requires
        0 <= k < routes.len(),
        spec_route_policy_errors(routes[k], c).contains(x),
    ensures
        spec_policy_ref_errors(routes, c).contains(x),
    decreases routes.len(),
{
    let p = routes.drop_last();
    if k < routes.len() - 1 {
        assert(p[k] == routes[k]);
        lemma_route_errors_kept(p, c, k, x);
        lemma_contains_concat(spec_policy_ref_errors(p, c), spec_route_policy_errors(routes.last(), c), x);
    } else {
        lemma_contains_concat(spec_policy_ref_errors(p, c), spec_route_policy_errors(routes.last(), c), x);
    }
}

/// The error for the `kind` policy that a route at `path` names by `r`,
/// where the policies of that kind are `defined`, is among the errors for
/// `routes` when that route is `routes[k]`.
proof fn lemma_kind_error_kept(routes: Seq<RouteRefs>, c: ConfigRefs, k: int)
    requires
        0 <= k < routes.len(),
    ensures
        ({
            let r = routes[k];
            let all = spec_policy_ref_errors(routes, c);
            &&& forall|x| spec_policy_ref_error(r.path@, "waf"@, r.waf, view_names(c.waf_policies@)).contains(x) ==> #[trigger] all.contains(x)
            &&& forall|x| spec_policy_ref_error(r.path@, "auth"@, r.auth, view_names(c.auth_policies@)).contains(x) ==> #[trigger] all.contains(x)
            &&& forall|x| spec_policy_ref_error(r.path@, "cors"@, r.cors, view_names(c.cors_policies@)).contains(x) ==> #[trigger] all.contains(x)
            &&& forall|x| spec_policy_ref_error(r.path@, "limiter"@, r.limiter, view_names(c.limiter_policies@)).contains(x) ==> #[trigger] all.contains(x)
        }),
{
    let r = routes[k];
    let w = spec_policy_ref_error(r.path@, "waf"@, r.waf, view_names(c.waf_policies@));
    let a = spec_policy_ref_error(r.path@, "auth"@, r.auth, view_names(c.auth_policies@));
    let o = spec_policy_ref_error(r.path@, "cors"@, r.cors, view_names(c.cors_policies@));
    let l = spec_policy_ref_error(r.path@, "limiter"@, r.limiter, view_names(c.limiter_policies@));
    assert(spec_route_policy_errors(r, c) == w + a + o + l);
    assert forall|x| w.contains(x) || a.contains(x) || o.contains(x) || l.contains(x) implies #[trigger] spec_policy_ref_errors(routes, c).contains(x) by {
        lemma_contains_concat(w, a, x);
        lemma_contains_concat(w + a, o, x);
        lemma_contains_concat(w + a + o, l, x);
        lemma_route_errors_kept(routes, c, k, x);
    }
}

/// The message for a route at `path` that `verb`s (`references` or
/// `extends`) the `kind` policy `name`, which is not defined.
pub open spec fn undefined_policy_message(path: Seq<char>, verb: Seq<char>, kind: Seq<char>, name: Seq<char>) -> Seq<char> {
    "route '"@ + path + "' "@ + verb + " "@ + kind + " policy '"@ + name + "' which is not defined"@
}

/// Policy reference law: every route's reference to a policy of any kind
/// that is not defined is reported, each with its own error naming the
/// route, the kind and the policy, whatever other references of the same
/// route are also undefined.
pub proof fn law_every_undefined_policy_reported(routes: Seq<RouteRefs>, c: ConfigRefs, k: int)
    requires
        0 <= k < routes.len(),
    ensures
        ({
            let r = routes[k];
            let all = spec_policy_ref_errors(routes, c);
            &&& r.waf matches Some(PolicyRef::Reference(n)) ==> (!view_names(c.waf_policies@).contains(n@) ==> all.contains((ErrorCode::E002, undefined_policy_message(r.path@, "references"@, "waf"@, n@))))
            &&& r.auth matches Some(PolicyRef::Reference(n)) ==> (!view_names(c.auth_policies@).contains(n@) ==> all.contains((ErrorCode::E002, undefined_policy_message(r.path@, "references"@, "auth"@, n@))))
            &&& r.cors matches Some(PolicyRef::Reference(n)) ==> (!view_names(c.cors_policies@).contains(n@) ==> all.contains((ErrorCode::E002, undefined_policy_message(r.path@, "references"@, "cors"@, n@))))
            &&& r.limiter matches Some(PolicyRef::Reference(n)) ==> (!view_names(c.limiter_policies@).contains(n@) ==> all.contains((ErrorCode::E002, undefined_policy_message(r.path@, "references"@, "limiter"@, n@))))
            &&& r.waf matches Some(PolicyRef::Extends(n)) ==> (!view_names(c.waf_policies@).contains(n@) ==> all.contains((ErrorCode::E002, undefined_policy_message(r.path@, "extends"@, "waf"@, n@))))
            &&& r.auth matches Some(PolicyRef::Extends(n)) ==> (!view_names(c.auth_policies@).contains(n@) ==> all.contains((ErrorCode::E002, undefined_policy_message(r.path@, "extends"@, "auth"@, n@))))
            &&& r.cors matches Some(PolicyRef::Extends(n)) ==> (!view_names(c.cors_policies@).contains(n@) ==> all.contains((ErrorCode::E002, undefined_policy_message(r.path@, "extends"@, "cors"@, n@))))
            &&& r.limiter matches Some(PolicyRef::Extends(n)) ==> (!view_names(c.limiter_policies@).contains(n@) ==> all.contains((ErrorCode::E002, undefined_policy_message(r.path@, "extends"@, "limiter"@, n@))))
        }),
{
    lemma_kind_error_kept(routes, c, k);
    let r = routes[k];
    let p = r.path@;
    reveal_strlit("references");
    reveal_strlit("extends");
    reveal_strlit("route '");
    reveal_strlit("' references ");
    reveal_strlit("' extends ");
    reveal_strlit("' ");
    reveal_strlit(" ");
    assert("' references "@ =~= "' "@ + "references"@ + " "@);
    assert("' extends "@ =~= "' "@ + "extends"@ + " "@);
    assert forall|verb: Seq<char>, kind: Seq<char>, n: Seq<char>|
        (verb == "references"@ || verb == "extends"@) implies #[trigger] undefined_policy_message(p, verb, kind, n)
        == ("route '"@ + p + ("' "@ + verb + " "@) + kind + " policy '"@ + n + "' which is not defined"@) by {
        assert(undefined_policy_message(p, verb, kind, n) =~= "route '"@ + p + ("' "@ + verb + " "@) + kind
            + " policy '"@ + n + "' which is not defined"@);
    }
    let all = spec_policy_ref_errors(routes, c);
    match r.waf {
        Some(PolicyRef::Reference(n)) => {
            if !view_names(c.waf_policies@).contains(n@) {
                let x = (ErrorCode::E002, undefined_policy_message(p, "references"@, "waf"@, n@));
                assert(spec_policy_ref_error(p, "waf"@, r.waf, view_names(c.waf_policies@))[0] == x);
                assert(all.contains(x));
            }
        },
        Some(PolicyRef::Extends(n)) => {
            if !view_names(c.waf_policies@).contains(n@) {
                let x = (ErrorCode::E002, undefined_policy_message(p, "extends"@, "waf"@, n@));
                assert(spec_policy_ref_error(p, "waf"@, r.waf, view_names(c.waf_policies@))[0] == x);
                assert(all.contains(x));
            }
        },
        _ => {},
    }
    match r.auth {
        Some(PolicyRef::Reference(n)) => {
            if !view_names(c.auth_policies@).contains(n@) {
                let x = (ErrorCode::E002, undefined_policy_message(p, "references"@, "auth"@, n@));
                assert(spec_policy_ref_error(p, "auth"@, r.auth, view_names(c.auth_policies@))[0] == x);
                assert(all.contains(x));
            }
        },
        Some(PolicyRef::Extends(n)) => {
            if !view_names(c.auth_policies@).contains(n@) {
                let x = (ErrorCode::E002, undefined_policy_message(p, "extends"@, "auth"@, n@));
                assert(spec_policy_ref_error(p, "auth"@, r.auth, view_names(c.auth_policies@))[0] == x);
                assert(all.contains(x));
            }
        },
        _ => {},
    }
    match r.cors {
        Some(PolicyRef::Reference(n)) => {
            if !view_names(c.cors_policies@).contains(n@) {
                let x = (ErrorCode::E002, undefined_policy_message(p, "references"@, "cors"@, n@));
                assert(spec_policy_ref_error(p, "cors"@, r.cors, view_names(c.cors_policies@))[0] == x);
                assert(all.contains(x));
            }
        },
        Some(PolicyRef::Extends(n)) => {
            if !view_names(c.cors_policies@).contains(n@) {
                let x = (ErrorCode::E002, undefined_policy_message(p, "extends"@, "cors"@, n@));
                assert(spec_policy_ref_error(p, "cors"@, r.cors, view_names(c.cors_policies@))[0] == x);
                assert(all.contains(x));
            }
        },
        _ => {},
    }
    match r.limiter {
        Some(PolicyRef::Reference(n)) => {
            if !view_names(c.limiter_policies@).contains(n@) {
                let x = (ErrorCode::E002, undefined_policy_message(p, "references"@, "limiter"@, n@));
                assert(spec_policy_ref_error(p, "limiter"@, r.limiter, view_names(c.limiter_policies@))[0] == x);
                assert(all.contains(x));
            }
        },
        Some(PolicyRef::Extends(n)) => {
            if !view_names(c.limiter_policies@).contains(n@) {
                let x = (ErrorCode::E002, undefined_policy_message(p, "extends"@, "limiter"@, n@));
                assert(spec_policy_ref_error(p, "limiter"@, r.limiter, view_names(c.limiter_policies@))[0] == x);
                assert(all.contains(x));
            }
        },
        _ => {},
    }
}

// ============================================================================
// E003: CERTIFICATE AND KEY FILES
// ============================================================================

/// The errors for the TLS listeners whose certificate or key file does not
/// exist.
pub open spec fn spec_ssl_errors(ls: Seq<ListenerRefs>) -> Seq<(ErrorCode, Seq<char>)>
    decreases ls.len(),
{
    if ls.len() == 0 {
        Seq::empty()
    } else {
        let l = ls.last();
        spec_ssl_errors(ls.drop_last()) + match l.tls {
            Some(f) => (if f.cert_exists {
                Seq::empty()
            } else {
                seq![
                    (
                        ErrorCode::E003,
                        "listener '"@ + l.name@ + "' references SSL cert '"@ + f.cert@
                            + "' which does not exist"@,
                    ),
                ]
            }) + (if f.key_exists {
                Seq::empty()
            } else {
                seq![
                    (
                        ErrorCode::E003,
                        "listener '"@ + l.name@ + "' references SSL key '"@ + f.key@
                            + "' which does not exist"@,
                    ),
                ]
            }),
            None => Seq::empty(),
        }
    }
}

/// Certificate law: each TLS listener whose certificate or key file does
/// not exist gets an error naming the listener and the file.
pub proof fn law_missing_tls_files_reported(ls: Seq<ListenerRefs>)
    ensures
        forall|k: int|
            0 <= k < ls.len() ==> ((#[trigger] ls[k]).tls matches Some(f) ==> (!f.cert_exists
                ==> spec_ssl_errors(ls).contains(
                (
                    ErrorCode::E003,
                    "listener '"@ + ls[k].name@ + "' references SSL cert '"@ + f.cert@
                        + "' which does not exist"@,
                ),
            ))),
        forall|k: int|
            0 <= k < ls.len() ==> ((#[trigger] ls[k]).tls matches Some(f) ==> (!f.key_exists
                ==> spec_ssl_errors(ls).contains(
                (
                    ErrorCode::E003,
                    "listener '"@ + ls[k].name@ + "' references SSL key '"@ + f.key@
                        + "' which does not exist"@,
                ),
            ))),
    decreases ls.len(),
{
    if ls.len() > 0 {
        let p = ls.drop_last();
        law_missing_tls_files_reported(p);
        let pre = spec_ssl_errors(p);
        let all = spec_ssl_errors(ls);
        let l = ls.last();
        let tail: Seq<(ErrorCode, Seq<char>)> = match l.tls {
            Some(f) => (if f.cert_exists {
                Seq::empty()
            } else {
                seq![(ErrorCode::E003, "listener '"@ + l.name@ + "' references SSL cert '"@ + f.cert@ + "' which does not exist"@)]
            }) + (if f.key_exists {
                Seq::empty()
            } else {
                seq![(ErrorCode::E003, "listener '"@ + l.name@ + "' references SSL key '"@ + f.key@ + "' which does not exist"@)]
            }),
            None => Seq::empty(),
        };
        assert(all == pre + tail);
        assert forall|k: int| 0 <= k < ls.len() implies ((#[trigger] ls[k]).tls matches Some(f) ==> (
            !f.cert_exists ==> all.contains(
                (ErrorCode::E003, "listener '"@ + ls[k].name@ + "' references SSL cert '"@ + f.cert@
                    + "' which does not exist"@),
            ))) && (ls[k].tls matches Some(f) ==> (!f.key_exists ==> all.contains(
                (ErrorCode::E003, "listener '"@ + ls[k].name@ + "' references SSL key '"@ + f.key@
                    + "' which does not exist"@),
            ))) by {
            if k < p.len() {
                assert(p[k] == ls[k]);
                if let Some(f) = ls[k].tls {
                    if !f.cert_exists {
                        let x = (ErrorCode::E003, "listener '"@ + ls[k].name@ + "' references SSL cert '"@ + f.cert@ + "' which does not exist"@);
                        assert(pre.contains(x));
                        let i = choose|i: int| 0 <= i < pre.len() && pre[i] == x;
                        assert(all[i] == x);
                    }
                    if !f.key_exists {
                        let x = (ErrorCode::E003, "listener '"@ + ls[k].name@ + "' references SSL key '"@ + f.key@ + "' which does not exist"@);
                        assert(pre.contains(x));
                        let i = choose|i: int| 0 <= i < pre.len() && pre[i] == x;
                        assert(all[i] == x);
                    }
                }
            } else {
                if let Some(f) = l.tls {
                    if !f.cert_exists {
                        assert(all[pre.len() as int] == tail[0]);
                    }
                    if !f.key_exists {
                        assert(all[pre.len() + tail.len() - 1] == tail[tail.len() - 1]);
                    }
                }
            }
        }
    }
}

/// Adds an error for each certificate or key file of a TLS listener that does
/// not exist.
pub fn validate_ssl_files(errors: &mut Vec<ConfigError>, listeners: &Vec<ListenerRefs>)
    ensures
        view_errors(final(errors)@) == view_errors(old(errors)@) + spec_ssl_errors(listeners@),
{
    let ghost start = view_errors(errors@);
    assert(listeners@.take(0) =~= Seq::<ListenerRefs>::empty());
    assert(start + Seq::<(ErrorCode, Seq<char>)>::empty() =~= start);
    let mut i: usize = 0;
    while i < listeners.len()
        invariant
            i <= listeners.len(),
            view_errors(errors@) == start + spec_ssl_errors(listeners@.take(i as int)),
        decreases listeners.len() - i,
    {
        let l = &listeners[i];
        assert(listeners@.take(i + 1).drop_last() =~= listeners@.take(i as int));
        let ghost e0 = view_errors(errors@);
        if let Some(f) = &l.tls {
            if !f.cert_exists {
                let mut m = "listener '".to_owned();
                m.append(l.name.as_str());
                m.append("' references SSL cert '");
                m.append(f.cert.as_str());
                m.append("' which does not exist");
                push_error(errors, ErrorCode::E003, m);
            }
            let ghost e1 = view_errors(errors@);
            if !f.key_exists {
                let mut m = "listener '".to_owned();
                m.append(l.name.as_str());
                m.append("' references SSL key '");
                m.append(f.key.as_str());
                m.append("' which does not exist");
                push_error(errors, ErrorCode::E003, m);
            }
        }
        assert(view_errors(errors@) =~= start + spec_ssl_errors(listeners@.take(i + 1)));
        i = i + 1;
    }
    assert(listeners@.take(listeners.len() as int) =~= listeners@);
}

// ============================================================================
// E004: PORT CONFLICTS
// ============================================================================

/// The addresses of a listener, each with the listener's name.
pub open spec fn spec_listener_pairs(l: ListenerRefs) -> Seq<(Seq<char>, Seq<char>)> {
    l.listen@.map_values(|a: String| (l.name@, a@))
}

/// Every address of every listener, in order, with the listener's name.
pub open spec fn spec_listen_pairs(ls: Seq<ListenerRefs>) -> Seq<(Seq<char>, Seq<char>)>
    decreases ls.len(),
{
    if ls.len() == 0 {
        Seq::empty()
    } else {
        spec_listen_pairs(ls.drop_last()) + spec_listener_pairs(ls.last())
    }
}

pub open spec fn addresses(q: Seq<(Seq<char>, Seq<char>)>) -> Seq<Seq<char>> {
    q.map_values(|p: (Seq<char>, Seq<char>)| p.1)
}

/// The errors for the addresses in `q` that an earlier one already binds.
pub open spec fn spec_port_errors(q: Seq<(Seq<char>, Seq<char>)>) -> Seq<(ErrorCode, Seq<char>)>
    decreases q.len(),
{
    if q.len() == 0 {
        Seq::empty()
    } else {
        let p = q.last();
        spec_port_errors(q.drop_last()) + if addresses(q.drop_last()).contains(p.1) {
            seq![(ErrorCode::E004, "port '"@ + p.1 + "' is already bound by listener '"@ + p.0 + "'"@)]
        } else {
            Seq::empty()
        }
    }
}

/// Port law: each address that an earlier address of `q` already binds
/// gets an error naming the address and its listener; with distinct
/// addresses there is none.
pub proof fn law_port_conflicts_reported(q: Seq<(Seq<char>, Seq<char>)>)
    ensures
        forall|i: int|
            0 <= i < q.len() && (exists|j: int| 0 <= j < i && q[j].1 == q[i].1) ==> spec_port_errors(q).contains(
                (ErrorCode::E004, "port '"@ + (#[trigger] q[i]).1 + "' is already bound by listener '"@ + q[i].0 + "'"@),
            ),
        (forall|i: int, j: int| 0 <= j < i < q.len() ==> q[j].1 != q[i].1) ==> spec_port_errors(q).len() == 0,
    decreases q.len(),
{
    if q.len() > 0 {
        let p = q.drop_last();
        law_port_conflicts_reported(p);
        let pre = spec_port_errors(p);
        let all = spec_port_errors(q);
        let last = q.last();
        assert forall|i: int|
            0 <= i < q.len() && (exists|j: int| 0 <= j < i && q[j].1 == q[i].1) implies all.contains(
            (ErrorCode::E004, "port '"@ + (#[trigger] q[i]).1 + "' is already bound by listener '"@ + q[i].0 + "'"@),
        ) by {
            let x = (ErrorCode::E004, "port '"@ + q[i].1 + "' is already bound by listener '"@ + q[i].0 + "'"@);
            if i < q.len() - 1 {
                assert(p[i] == q[i]);
                let j = choose|j: int| 0 <= j < i && q[j].1 == q[i].1;
                assert(p[j] == q[j]);
                assert(pre.contains(x));
                let k = choose|k: int| 0 <= k < pre.len() && pre[k] == x;
                assert(all[k] == x);
            } else {
                let j = choose|j: int| 0 <= j < i && q[j].1 == q[i].1;
                assert(addresses(p)[j] == q[j].1);
                assert(addresses(p).contains(last.1));
                assert(all[pre.len() as int] == x);
            }
        }
        if forall|i: int, j: int| 0 <= j < i < q.len() ==> q[j].1 != q[i].1 {
            assert forall|i: int, j: int| 0 <= j < i < p.len() implies p[j].1 != p[i].1 by {
                assert(p[i] == q[i] && p[j] == q[j]);
            }
            assert(!addresses(p).contains(last.1)) by {
                if addresses(p).contains(last.1) {
                    let j = choose|j: int| 0 <= j < addresses(p).len() && addresses(p)[j] == last.1;
                    assert(p[j] == q[j]);
                    assert(q[j].1 == q[q.len() - 1].1);
                }
            }
        }
    }
}

/// Adds an error for each address that a listener listens on and an earlier
/// address already binds.
pub fn validate_port_conflicts(errors: &mut Vec<ConfigError>, listeners: &Vec<ListenerRefs>)
    ensures
        view_errors(final(errors)@) == view_errors(old(errors)@) + spec_port_errors(
            spec_listen_pairs(listeners@),
        ),
{
    let ghost start = view_errors(errors@);
    let mut seen: Vec<String> = Vec::new();
    let ghost mut q: Seq<(Seq<char>, Seq<char>)> = Seq::empty();
    assert(listeners@.take(0) =~= Seq::<ListenerRefs>::empty());
    assert(start + Seq::<(ErrorCode, Seq<char>)>::empty() =~= start);
    assert(view_names(seen@) =~= addresses(q));
    let mut i: usize = 0;
    while i < listeners.len()
        invariant
            i <= listeners.len(),
            q == spec_listen_pairs(listeners@.take(i as int)),
            view_names(seen@) == addresses(q),
            view_errors(errors@) == start + spec_port_errors(q),
        decreases listeners.len() - i,
    {
        let l = &listeners[i];
        assert(listeners@.take(i + 1).drop_last() =~= listeners@.take(i as int));
        let ghost q0 = q;
        let mut j: usize = 0;
        assert(spec_listener_pairs(*l).take(0) =~= Seq::<(Seq<char>, Seq<char>)>::empty());
        assert(q0 + spec_listener_pairs(*l).take(0) =~= q0);
        while j < l.listen.len()
            invariant
                j <= l.listen.len(),
                q == q0 + spec_listener_pairs(*l).take(j as int),
                view_names(seen@) == addresses(q),
                view_errors(errors@) == start + spec_port_errors(q),
            decreases l.listen.len() - j,
        {
            let addr = &l.listen[j];
            let ghost p = (l.name@, addr@);
            assert(spec_listener_pairs(*l)[j as int] == p);
            assert(q0 + spec_listener_pairs(*l).take(j + 1) =~= q.push(p));
            assert(q.push(p).drop_last() =~= q);
            if has_name(&seen, addr) {
                let mut m = "port '".to_owned();
                m.append(addr.as_str());
                m.append("' is already bound by listener '");
                m.append(l.name.as_str());
                m.append("'");
                push_error(errors, ErrorCode::E004, m);
            }
            let ghost s0 = seen@;
            let owned = addr.as_str().to_owned();
            seen.push(owned);
            proof {
                assert(view_names(seen@) =~= view_names(s0).push(addr@));
                assert(addresses(q.push(p)) =~= addresses(q).push(p.1));
                q = q.push(p);
            }
            assert(view_errors(errors@) =~= start + spec_port_errors(q));
            j = j + 1;
        }
        assert(spec_listener_pairs(*l).take(l.listen.len() as int) =~= spec_listener_pairs(*l));
        i = i + 1;
    }
    assert(listeners@.take(listeners.len() as int) =~= listeners@);
}

// ============================================================================
// ALL CHECKS
// ============================================================================

/// Every error of a configuration: upstream references, policy references,
/// certificate and key files, port conflicts, then duplicate upstreams.
pub open spec fn spec_config_errors(c: ConfigRefs) -> Seq<(ErrorCode, Seq<char>)> {
    spec_upstream_ref_errors(c.routes@, view_names(c.upstreams@)) + spec_policy_ref_errors(
        c.routes@,
        c,
    ) + spec_ssl_errors(c.listeners@) + spec_port_errors(spec_listen_pairs(c.listeners@))
        + spec_duplicate_errors(view_names(c.upstreams@), c.upstreams@.len() as int)
}

/// Checks a configuration for semantic errors, all of them in one pass.
pub fn validate_config(config: &ConfigRefs) -> (errors: Vec<ConfigError>)
    ensures
        view_errors(errors@) == spec_config_errors(*config),
{
    let mut errors: Vec<ConfigError> = Vec::new();
    assert(view_errors(errors@) =~= Seq::<(ErrorCode, Seq<char>)>::empty());
    validate_upstream_refs(&mut errors, &config.routes, &config.upstreams);
    validate_policy_refs(&mut errors, &config.routes, config);
    validate_ssl_files(&mut errors, &config.listeners);
    validate_port_conflicts(&mut errors, &config.listeners);
    validate_duplicate_upstreams(&mut errors, &config.upstreams);
    assert(view_errors(errors@) =~= spec_config_errors(*config));
    errors
}

// ============================================================================
// LAWS
// ============================================================================

/// Whether a route's upstream, if any, is defined.
pub open spec fn upstream_resolves(r: RouteRefs, upstreams: Seq<Seq<char>>) -> bool {
    r.upstream matches Some(n) ==> upstreams.contains(n@)
}

/// Whether a named policy, if any, is defined.
pub open spec fn policy_ref_resolves(r: Option<PolicyRef>, defined: Seq<Seq<char>>) -> bool {
    match r {
        Some(PolicyRef::Reference(n)) => defined.contains(n@),
        Some(PolicyRef::Extends(b)) => defined.contains(b@),
        _ => true,
    }
}

/// Whether every policy a route names is defined.
pub open spec fn policies_resolve(r: RouteRefs, c: ConfigRefs) -> bool {
    &&& policy_ref_resolves(r.waf, view_names(c.waf_policies@))
    &&& policy_ref_resolves(r.auth, view_names(c.auth_policies@))
    &&& policy_ref_resolves(r.cors, view_names(c.cors_policies@))
    &&& policy_ref_resolves(r.limiter, view_names(c.limiter_policies@))
}

/// Whether a TLS listener's files, if any, exist.
pub open spec fn files_exist(l: ListenerRefs) -> bool {
    l.tls matches Some(f) ==> f.cert_exists && f.key_exists
}

/// Whether no address in `q` repeats an earlier one.
pub open spec fn addresses_distinct(q: Seq<(Seq<char>, Seq<char>)>) -> bool {
    forall|k: int| 0 <= k < q.len() ==> !addresses(q.take(k)).contains(#[trigger] q[k].1)
}

/// Whether a configuration has none of the faults the checks look for.
pub open spec fn config_is_clean(c: ConfigRefs) -> bool {
    &&& forall|i: int| 0 <= i < c.routes@.len() ==> upstream_resolves(#[trigger] c.routes@[i], view_names(c.upstreams@))
    &&& forall|i: int| 0 <= i < c.routes@.len() ==> policies_resolve(#[trigger] c.routes@[i], c)
    &&& forall|i: int| 0 <= i < c.listeners@.len() ==> files_exist(#[trigger] c.listeners@[i])
    &&& addresses_distinct(spec_listen_pairs(c.listeners@))
    &&& forall|i: int| 0 <= i < c.upstreams@.len() ==> !spec_repeats_earlier(view_names(c.upstreams@), i)
}

proof fn lemma_upstream_errors_empty(rs: Seq<RouteRefs>, ups: Seq<Seq<char>>)
    ensures
        spec_upstream_ref_errors(rs, ups).len() == 0 <==> forall|i: int|
            0 <= i < rs.len() ==> upstream_resolves(#[trigger] rs[i], ups),
    decreases rs.len(),
{
    if rs.len() > 0 {
        let front = rs.drop_last();
        lemma_upstream_errors_empty(front, ups);
        if forall|i: int| 0 <= i < rs.len() ==> upstream_resolves(#[trigger] rs[i], ups) {
            assert forall|i: int| 0 <= i < front.len() implies upstream_resolves(#[trigger] front[i], ups) by {
                assert(front[i] == rs[i]);
            }
            assert(upstream_resolves(rs[rs.len() - 1], ups));
        }
        if spec_upstream_ref_errors(rs, ups).len() == 0 {
            assert forall|i: int| 0 <= i < rs.len() implies upstream_resolves(#[trigger] rs[i], ups) by {
                if i < rs.len() - 1 {
                    assert(front[i] == rs[i]);
                }
            }
        }
    }
}

proof fn lemma_policy_errors_empty(rs: Seq<RouteRefs>, c: ConfigRefs)
    ensures
        spec_policy_ref_errors(rs, c).len() == 0 <==> forall|i: int|
            0 <= i < rs.len() ==> policies_resolve(#[trigger] rs[i], c),
    decreases rs.len(),
{
    if rs.len() > 0 {
        let front = rs.drop_last();
        lemma_policy_errors_empty(front, c);
        if forall|i: int| 0 <= i < rs.len() ==> policies_resolve(#[trigger] rs[i], c) {
            assert forall|i: int| 0 <= i < front.len() implies policies_resolve(#[trigger] front[i], c) by {
                assert(front[i] == rs[i]);
            }
            assert(policies_resolve(rs[rs.len() - 1], c));
        }
        if spec_policy_ref_errors(rs, c).len() == 0 {
            assert forall|i: int| 0 <= i < rs.len() implies policies_resolve(#[trigger] rs[i], c) by {
                if i < rs.len() - 1 {
                    assert(front[i] == rs[i]);
                }
            }
        }
    }
}

proof fn lemma_ssl_errors_empty(ls: Seq<ListenerRefs>)
    ensures
        spec_ssl_errors(ls).len() == 0 <==> forall|i: int| 0 <= i < ls.len() ==> files_exist(#[trigger] ls[i]),
    decreases ls.len(),
{
    if ls.len() > 0 {
        let front = ls.drop_last();
        lemma_ssl_errors_empty(front);
        if forall|i: int| 0 <= i < ls.len() ==> files_exist(#[trigger] ls[i]) {
            assert forall|i: int| 0 <= i < front.len() implies files_exist(#[trigger] front[i]) by {
                assert(front[i] == ls[i]);
            }
            assert(files_exist(ls[ls.len() - 1]));
        }
        if spec_ssl_errors(ls).len() == 0 {
            assert forall|i: int| 0 <= i < ls.len() implies files_exist(#[trigger] ls[i]) by {
                if i < ls.len() - 1 {
                    assert(front[i] == ls[i]);
                }
            }
        }
    }
}

proof fn lemma_port_errors_empty(q: Seq<(Seq<char>, Seq<char>)>)
    ensures
        spec_port_errors(q).len() == 0 <==> addresses_distinct(q),
    decreases q.len(),
{
    if q.len() > 0 {
        let front = q.drop_last();
        let n = q.len() - 1;
        lemma_port_errors_empty(front);
        assert(q.take(n) =~= front);
        assert forall|k: int| 0 <= k < front.len() implies (addresses(q.take(k)).contains(q[k].1)
            <==> addresses(front.take(k)).contains(#[trigger] front[k].1)) by {
            assert(q.take(k) =~= front.take(k));
            assert(q[k] == front[k]);
        }
        if addresses_distinct(q) {
            assert(!addresses(q.take(n)).contains(q[n].1));
            assert forall|k: int| 0 <= k < front.len() implies !addresses(front.take(k)).contains(
                #[trigger] front[k].1,
            ) by {
                assert(!addresses(q.take(k)).contains(q[k].1));
            }
            assert(addresses_distinct(front));
            assert(spec_port_errors(q).len() == 0);
        }
        if spec_port_errors(q).len() == 0 {
            assert(addresses_distinct(front));
            assert(!addresses(front).contains(q.last().1));
            assert forall|k: int| 0 <= k < q.len() implies !addresses(q.take(k)).contains(#[trigger] q[k].1) by {
                if k < n {
                    assert(!addresses(front.take(k)).contains(front[k].1));
                }
            }
        }
    }
}

proof fn lemma_duplicate_errors_empty(names: Seq<Seq<char>>, n: int)
    requires
        0 <= n <= names.len(),
    ensures
        spec_duplicate_errors(names, n).len() == 0 <==> forall|i: int|
            0 <= i < n ==> !#[trigger] spec_repeats_earlier(names, i),
    decreases n,
{
    if n > 0 {
        lemma_duplicate_errors_empty(names, n - 1);
    }
}

/// The checks report nothing exactly when every route's upstream and
/// policies are defined, every TLS listener's files exist, no address is
/// bound twice and no upstream name repeats.
pub proof fn law_no_errors_iff_clean(c: ConfigRefs)
    ensures
        spec_config_errors(c).len() == 0 <==> config_is_clean(c),
{
    lemma_upstream_errors_empty(c.routes@, view_names(c.upstreams@));
    lemma_policy_errors_empty(c.routes@, c);
    lemma_ssl_errors_empty(c.listeners@);
    lemma_port_errors_empty(spec_listen_pairs(c.listeners@));
    lemma_duplicate_errors_empty(view_names(c.upstreams@), c.upstreams@.len() as int);
}

} // verus!
