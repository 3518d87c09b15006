//! All the gateway files of a configuration put together: the policies of
//! every gateway merged by name, and the listeners, routes and upstreams of
//! every gateway in one list each.
//!
//! The gateways keep their listeners, routes and upstreams; the lists here
//! share them, each entry naming a place `(gateway, position)` in
//! `gateways`.
use vstd::prelude::*;

use crate::config::dsl::files::ConfigFileTracker;
use crate::config::dsl_parser::MasterConfig;
use vstd::string::StringExecFns;

use crate::config::parts::{
    cors_same, keyed, lemma_key_index_bound, limiter_same, oauth_same, opt_keyed, put, put_all,
    put_named, waf_same, CorsConfig, GatewayConfig, LimiterConfig, OAuthConfig, PolicyConfig,
    WafConfig,
};
use crate::text::{chars_of, strip_end_char};

verus! {

/// Every place `(gateway, position)` of lists whose lengths are `lens`,
/// gateway by gateway and in order within each.
pub open spec fn places(lens: Seq<usize>) -> Seq<(usize, usize)>
    decreases lens.len(),
{
    if lens.len() == 0 {
        Seq::empty()
    } else {
        let g = (lens.len() - 1) as usize;
        places(lens.drop_last()) + Seq::new(lens.last() as nat, |j: int| (g, j as usize))
    }
}

pub proof fn lemma_places_valid(lens: Seq<usize>)
    requires
        lens.len() <= usize::MAX,
    ensures
        forall|k: int|
            0 <= k < places(lens).len() ==> {
                let p = #[trigger] places(lens)[k];
                p.0 < lens.len() && p.1 < lens[p.0 as int]
            },
    decreases lens.len(),
{
    if lens.len() > 0 {
        lemma_places_valid(lens.drop_last());
        let a = places(lens.drop_last());
        assert forall|k: int| 0 <= k < places(lens).len() implies {
            let p = #[trigger] places(lens)[k];
            p.0 < lens.len() && p.1 < lens[p.0 as int]
        } by {
            let g = (lens.len() - 1) as usize;
            let b = Seq::new(lens.last() as nat, |j: int| (g, j as usize));
            assert(places(lens) == a + b);
            if k < a.len() {
                assert(places(lens)[k] == a[k]);
                assert(a[k].0 < lens.drop_last().len());
                assert(lens.drop_last()[a[k].0 as int] == lens[a[k].0 as int]);
            } else {
                assert(places(lens)[k] == b[k - a.len()]);
                assert(g as int == lens.len() - 1);
            }
        }
    }
}

/// The listeners of each gateway, by number.
pub open spec fn listener_counts(gws: Seq<GatewayConfig>) -> Seq<usize> {
    gws.map_values(|g: GatewayConfig| g.listeners@.len() as usize)
}

/// The routes of each gateway, by number.
pub open spec fn route_counts(gws: Seq<GatewayConfig>) -> Seq<usize> {
    gws.map_values(|g: GatewayConfig| g.routes@.len() as usize)
}

/// The upstreams of each gateway, by number.
pub open spec fn upstream_counts(gws: Seq<GatewayConfig>) -> Seq<usize> {
    gws.map_values(|g: GatewayConfig| g.upstreams@.len() as usize)
}

/// Each upstream place with the name of the upstream there.
pub open spec fn upstream_keys(gws: Seq<GatewayConfig>, ps: Seq<(usize, usize)>) -> Seq<
    (Seq<char>, (usize, usize)),
> {
    ps.map_values(|p: (usize, usize)| (gws[p.0 as int].upstreams@[p.1 as int].name@, p))
}

/// The places of lists whose lengths are `lens`.
fn places_of(lens: &Vec<usize>) -> (out: Vec<(usize, usize)>)
    ensures
        out@ == places(lens@),
{
    let mut out: Vec<(usize, usize)> = Vec::new();
    let mut g: usize = 0;
    while g < lens.len()
        invariant
            g <= lens@.len(),
            out@ == places(lens@.take(g as int)),
        decreases lens@.len() - g,
    {
        let n = lens[g];
        let mut j: usize = 0;
        while j < n
            invariant
                g < lens@.len(),
                n == lens@[g as int],
                j <= n,
                out@ == places(lens@.take(g as int)) + Seq::new(
                    j as nat,
                    |i: int| (g, i as usize),
                ),
            decreases n - j,
        {
            out.push((g, j));
            assert(out@ =~= places(lens@.take(g as int)) + Seq::new(
                (j + 1) as nat,
                |i: int| (g, i as usize),
            ));
            j = j + 1;
        }
        assert(lens@.take(g + 1).drop_last() =~= lens@.take(g as int));
        assert(out@ =~= places(lens@.take(g + 1)));
        g = g + 1;
    }
    assert(lens@.take(lens@.len() as int) =~= lens@);
    out
}

fn listener_counts_of(gws: &Vec<GatewayConfig>) -> (out: Vec<usize>)
    ensures
        out@ == listener_counts(gws@),
{
    let mut out: Vec<usize> = Vec::new();
    let mut g: usize = 0;
    while g < gws.len()
        invariant
            g <= gws@.len(),
            out@ == listener_counts(gws@.take(g as int)),
        decreases gws@.len() - g,
    {
        out.push(gws[g].listeners.len());
        assert(out@ =~= listener_counts(gws@.take(g + 1)));
        g = g + 1;
    }
    assert(gws@.take(gws@.len() as int) =~= gws@);
    out
}

fn route_counts_of(gws: &Vec<GatewayConfig>) -> (out: Vec<usize>)
    ensures
        out@ == route_counts(gws@),
{
    let mut out: Vec<usize> = Vec::new();
    let mut g: usize = 0;
    while g < gws.len()
        invariant
            g <= gws@.len(),
            out@ == route_counts(gws@.take(g as int)),
        decreases gws@.len() - g,
    {
        out.push(gws[g].routes.len());
        assert(out@ =~= route_counts(gws@.take(g + 1)));
        g = g + 1;
    }
    assert(gws@.take(gws@.len() as int) =~= gws@);
    out
}

fn upstream_counts_of(gws: &Vec<GatewayConfig>) -> (out: Vec<usize>)
    ensures
        out@ == upstream_counts(gws@),
{
    let mut out: Vec<usize> = Vec::new();
    let mut g: usize = 0;
    while g < gws.len()
        invariant
            g <= gws@.len(),
            out@ == upstream_counts(gws@.take(g as int)),
        decreases gws@.len() - g,
    {
        out.push(gws[g].upstreams.len());
        assert(out@ =~= upstream_counts(gws@.take(g + 1)));
        g = g + 1;
    }
    assert(gws@.take(gws@.len() as int) =~= gws@);
    out
}

/// The upstreams at the places `ps`, by name; a later upstream with a name
/// replaces an earlier one.
fn upstream_index_of(gws: &Vec<GatewayConfig>, ps: &Vec<(usize, usize)>) -> (out: Vec<
    (String, (usize, usize)),
>)
    requires
        ps@ == places(upstream_counts(gws@)),
    ensures
        keyed(out@) == put_all(Seq::empty(), upstream_keys(gws@, ps@)),
{
    let ng = gws.len();
    proof {
        assert(upstream_counts(gws@).len() == ng);
        lemma_places_valid(upstream_counts(gws@));
    }
    let ghost all = upstream_keys(gws@, ps@);
    let mut out: Vec<(String, (usize, usize))> = Vec::new();
    let mut k: usize = 0;
    assert(all.take(0) =~= Seq::<(Seq<char>, (usize, usize))>::empty());
    while k < ps.len()
        invariant
            k <= ps@.len(),
            all == upstream_keys(gws@, ps@),
            ps@ == places(upstream_counts(gws@)),
            forall|m: int|
                0 <= m < places(upstream_counts(gws@)).len() ==> {
                    let p = #[trigger] places(upstream_counts(gws@))[m];
                    p.0 < upstream_counts(gws@).len() && p.1 < upstream_counts(gws@)[p.0 as int]
                },
            keyed(out@) == put_all(Seq::empty(), all.take(k as int)),
        decreases ps@.len() - k,
    {
        let (g, i) = ps[k];
        assert(ps@[k as int] == places(upstream_counts(gws@))[k as int]);
        let name = gws[g].upstreams[i].name.clone();
        put_named(&mut out, name, (g, i));
        assert(all.take(k + 1).drop_last() =~= all.take(k as int));
        k = k + 1;
    }
    assert(all.take(ps@.len() as int) =~= all);
    out
}


// ============================================================
// PREFIX MATCHING
// ============================================================

/// The bytes that UTF-8 takes for `c`.
pub open spec fn char_width(c: char) -> int {
    if (c as u32) < 0x80 {
        1
    } else if (c as u32) < 0x800 {
        2
    } else if (c as u32) < 0x10000 {
        3
    } else {
        4
    }
}

/// The length of `s` in UTF-8 bytes, as `str::len` gives it.
pub open spec fn utf8_len(s: Seq<char>) -> int
    decreases s.len(),
{
    if s.len() == 0 {
        0
    } else {
        utf8_len(s.drop_last()) + char_width(s.last())
    }
}

/// A route's path without its trailing `*`s, with the route's place.
pub type MatchEntry = (String, (usize, usize));

pub open spec fn match_view(v: Seq<MatchEntry>) -> Seq<(Seq<char>, (usize, usize))> {
    v.map_values(|e: MatchEntry| (e.0@, e.1))
}

/// How many entries at the front of `t` are at least `k` bytes long.
pub open spec fn first_shorter(t: Seq<(Seq<char>, (usize, usize))>, k: int) -> int
    decreases t.len(),
{
    if t.len() == 0 {
        0
    } else if utf8_len(t[0].0) < k {
        0
    } else {
        1 + first_shorter(t.drop_first(), k)
    }
}

/// `x` put into `t` after every entry at least as long as it.
pub open spec fn insert_by_len(t: Seq<(Seq<char>, (usize, usize))>, x: (Seq<char>, (usize, usize))) -> Seq<
    (Seq<char>, (usize, usize)),
> {
    t.insert(first_shorter(t, utf8_len(x.0)), x)
}

/// `s` ordered from the longest text to the shortest, entries of equal
/// length keeping their order (a stable sort).
pub open spec fn sort_by_len(s: Seq<(Seq<char>, (usize, usize))>) -> Seq<(Seq<char>, (usize, usize))>
    decreases s.len(),
{
    if s.len() == 0 {
        s
    } else {
        insert_by_len(sort_by_len(s.drop_last()), s.last())
    }
}

/// No entry of `t` is longer than one before it.
pub open spec fn longest_first(t: Seq<(Seq<char>, (usize, usize))>) -> bool {
    forall|i: int, j: int| 0 <= i < j < t.len() ==> utf8_len(#[trigger] t[i].0) >= utf8_len(#[trigger] t[j].0)
}

proof fn lemma_first_shorter(t: Seq<(Seq<char>, (usize, usize))>, k: int)
    ensures
        0 <= first_shorter(t, k) <= t.len(),
        forall|i: int| 0 <= i < first_shorter(t, k) ==> utf8_len(#[trigger] t[i].0) >= k,
        longest_first(t) ==> forall|i: int|
            first_shorter(t, k) <= i < t.len() ==> utf8_len(#[trigger] t[i].0) < k,
    decreases t.len(),
{
    if t.len() > 0 && utf8_len(t[0].0) >= k {
        let r = t.drop_first();
        lemma_first_shorter(r, k);
        assert forall|i: int| 0 <= i < first_shorter(t, k) implies utf8_len(#[trigger] t[i].0) >= k by {
            if i > 0 {
                assert(t[i] == r[i - 1]);
            }
        }
        if longest_first(t) {
            assert(longest_first(r)) by {
                assert forall|i: int, j: int| 0 <= i < j < r.len() implies utf8_len(#[trigger] r[i].0)
                    >= utf8_len(#[trigger] r[j].0) by {
                    assert(r[i] == t[i + 1] && r[j] == t[j + 1]);
                }
            }
            assert forall|i: int| first_shorter(t, k) <= i < t.len() implies utf8_len(#[trigger] t[i].0)
                < k by {
                assert(t[i] == r[i - 1]);
            }
        }
    } else if t.len() > 0 {
        if longest_first(t) {
            assert forall|i: int| first_shorter(t, k) <= i < t.len() implies utf8_len(#[trigger] t[i].0)
                < k by {
                if i > 0 {
                    assert(utf8_len(t[0].0) >= utf8_len(t[i].0));
                }
            }
        }
    }
}

/// The order `sort_by_len` gives: no entry is longer than one before it.
pub proof fn law_fast_match_longest_first(s: Seq<(Seq<char>, (usize, usize))>)
    ensures
        longest_first(sort_by_len(s)),
        sort_by_len(s).len() == s.len(),
    decreases s.len(),
{
    if s.len() > 0 {
        let t = sort_by_len(s.drop_last());
        law_fast_match_longest_first(s.drop_last());
        let x = s.last();
        let k = utf8_len(x.0);
        lemma_first_shorter(t, k);
        let f = first_shorter(t, k);
        let r = t.insert(f, x);
        assert(r == sort_by_len(s));
        assert forall|i: int, j: int| 0 <= i < j < r.len() implies utf8_len(#[trigger] r[i].0) >= utf8_len(
            #[trigger] r[j].0,
        ) by {
            if j < f {
                assert(r[i] == t[i] && r[j] == t[j]);
            } else if j == f {
                assert(r[i] == t[i] && r[j] == x);
            } else if i < f {
                assert(r[i] == t[i] && r[j] == t[j - 1]);
            } else if i == f {
                assert(r[i] == x && r[j] == t[j - 1]);
            } else {
                assert(r[i] == t[i - 1] && r[j] == t[j - 1]);
            }
        }
    }
}

/// The length of `s` in UTF-8 bytes.
fn utf8_len_of(s: &str) -> (n: u128)
    ensures
        n == utf8_len(s@),
{
    let v = chars_of(s);
    let mut n: u128 = 0;
    let mut i: usize = 0;
    while i < v.len()
        invariant
            i <= v@.len(),
            n == utf8_len(v@.take(i as int)),
            n <= 4 * i,
        decreases v@.len() - i,
    {
        let u = v[i] as u32;
        let w: u128 = if u < 0x80 {
            1
        } else if u < 0x800 {
            2
        } else if u < 0x10000 {
            3
        } else {
            4
        };
        assert(v@.take(i + 1).drop_last() =~= v@.take(i as int));
        n = n + w;
        i = i + 1;
    }
    assert(v@.take(v@.len() as int) =~= s@);
    n
}

/// `path` without its trailing `*`s.
fn without_stars(path: &String) -> (r: String)
    ensures
        r@ == strip_end_char(path@, '*'),
{
    let s = path.as_str();
    let v = chars_of(s);
    let mut b = v.len();
    assert(v@.subrange(0, b as int) =~= path@);
    while b > 0 && v[b - 1] == '*'
        invariant
            b <= v@.len(),
            v@ == path@,
            strip_end_char(path@, '*') == strip_end_char(v@.subrange(0, b as int), '*'),
        decreases b,
    {
        assert(v@.subrange(0, b as int).drop_last() =~= v@.subrange(0, b - 1));
        b = b - 1;
    }
    s.substring_char(0, b).to_owned()
}

/// Each route place with the route's path, its trailing `*`s gone.
pub open spec fn route_keys(gws: Seq<GatewayConfig>, ps: Seq<(usize, usize)>) -> Seq<
    (Seq<char>, (usize, usize)),
> {
    ps.map_values(
        |p: (usize, usize)| (strip_end_char(gws[p.0 as int].routes@[p.1 as int].path@, '*'), p),
    )
}

/// Puts `e`, `k` bytes long, into `out` after every entry at least as long.
fn insert_sorted(out: &mut Vec<MatchEntry>, lens: &mut Vec<u128>, e: MatchEntry, k: u128)
    requires
        old(lens)@.len() == old(out)@.len(),
        forall|i: int| 0 <= i < old(out)@.len() ==> old(lens)@[i] == utf8_len(#[trigger] old(out)@[i].0@),
        k == utf8_len(e.0@),
    ensures
        match_view(final(out)@) == insert_by_len(match_view(old(out)@), (e.0@, e.1)),
        final(lens)@.len() == final(out)@.len(),
        forall|i: int| 0 <= i < final(out)@.len() ==> final(lens)@[i] == utf8_len(#[trigger] final(out)@[i].0@),
{
    let ghost t = match_view(out@);
    let ghost x = (e.0@, e.1);
    let mut i: usize = 0;
    assert(t.skip(0) =~= t);
    while i < out.len() && lens[i] >= k
        invariant
            i <= out@.len(),
            lens@.len() == out@.len(),
            t == match_view(out@),
            forall|m: int| 0 <= m < out@.len() ==> lens@[m] == utf8_len(#[trigger] out@[m].0@),
            first_shorter(t, k as int) == i + first_shorter(t.skip(i as int), k as int),
        decreases out@.len() - i,
    {
        assert(t.skip(i as int)[0] == t[i as int]);
        assert(t.skip(i as int).drop_first() =~= t.skip(i + 1));
        i = i + 1;
    }
    if i < out.len() {
        assert(t.skip(i as int)[0] == t[i as int]);
    } else {
        assert(t.skip(i as int).len() == 0);
    }
    let ghost before = out@;
    let ghost lbefore = lens@;
    out.insert(i, e);
    lens.insert(i, k);
    assert(match_view(out@) =~= t.insert(i as int, x));
    assert forall|m: int| 0 <= m < out@.len() implies lens@[m] == utf8_len(#[trigger] out@[m].0@) by {
        if m < i {
            assert(out@[m] == before[m] && lens@[m] == lbefore[m]);
        } else if m > i {
            assert(out@[m] == before[m - 1] && lens@[m] == lbefore[m - 1]);
        }
    }
}

/// The routes at the places `ps` by their paths without trailing `*`s, from
/// the longest path to the shortest.
fn fast_match_of(gws: &Vec<GatewayConfig>, ps: &Vec<(usize, usize)>) -> (out: Vec<MatchEntry>)
    requires
        ps@ == places(route_counts(gws@)),
    ensures
        match_view(out@) == sort_by_len(route_keys(gws@, ps@)),
{
    let ng = gws.len();
    proof {
        assert(route_counts(gws@).len() == ng);
        lemma_places_valid(route_counts(gws@));
    }
    let ghost all = route_keys(gws@, ps@);
    let mut out: Vec<MatchEntry> = Vec::new();
    let mut lens: Vec<u128> = Vec::new();
    let mut k: usize = 0;
    assert(all.take(0) =~= Seq::<(Seq<char>, (usize, usize))>::empty());
    assert(match_view(out@) =~= Seq::<(Seq<char>, (usize, usize))>::empty());
    while k < ps.len()
        invariant
            k <= ps@.len(),
            all == route_keys(gws@, ps@),
            ps@ == places(route_counts(gws@)),
            forall|m: int|
                0 <= m < places(route_counts(gws@)).len() ==> {
                    let p = #[trigger] places(route_counts(gws@))[m];
                    p.0 < route_counts(gws@).len() && p.1 < route_counts(gws@)[p.0 as int]
                },
            lens@.len() == out@.len(),
            forall|i: int| 0 <= i < out@.len() ==> lens@[i] == utf8_len(#[trigger] out@[i].0@),
            match_view(out@) == sort_by_len(all.take(k as int)),
        decreases ps@.len() - k,
    {
        let (g, i) = ps[k];
        assert(ps@[k as int] == places(route_counts(gws@))[k as int]);
        let key = without_stars(&gws[g].routes[i].path);
        let n = utf8_len_of(key.as_str());
        assert(all[k as int] == (key@, (g, i)));
        insert_sorted(&mut out, &mut lens, (key, (g, i)), n);
        assert(all.take(k + 1).drop_last() =~= all.take(k as int));
        assert(all.take(k + 1).last() == all[k as int]);
        k = k + 1;
    }
    assert(all.take(ps@.len() as int) =~= all);
    out
}


// ============================================================
// POLICIES
// ============================================================

/// The names of a list of named policies, in order.
pub open spec fn opt_names<T>(o: Option<Vec<(String, T)>>) -> Option<Seq<Seq<char>>> {
    match o {
        Some(v) => Some(v@.map_values(|p: (String, T)| p.0@)),
        None => None,
    }
}

pub open spec fn opt_texts(o: Option<Vec<String>>) -> Option<Seq<Seq<char>>> {
    match o {
        Some(v) => Some(v@.map_values(|s: String| s@)),
        None => None,
    }
}

/// The names `ns` of gateway `g`, each with its place.
pub open spec fn named_places(ns: Seq<Seq<char>>, g: usize) -> Seq<(Seq<char>, (usize, usize))> {
    Seq::new(ns.len(), |j: int| (ns[j], (g, j as usize)))
}

/// Where each policy of the merged list comes from, given the names that
/// each gateway declares (`None` where a gateway declares no list): the
/// lists are merged in gateway order as `PolicyConfig::merge_all` merges
/// them, a name taking the place of its last declaration.
pub open spec fn policy_places(lists: Seq<Option<Seq<Seq<char>>>>) -> Option<
    Seq<(Seq<char>, (usize, usize))>,
>
    decreases lists.len(),
{
    if lists.len() == 0 {
        None
    } else {
        let prev = policy_places(lists.drop_last());
        match lists.last() {
            None => prev,
            Some(ns) => Some(
                put_all(
                    match prev {
                        Some(p) => p,
                        None => Seq::empty(),
                    },
                    named_places(ns, (lists.len() - 1) as usize),
                ),
            ),
        }
    }
}

/// `e` names a declared policy: its gateway declares a list, and the name
/// at its position there is its name.
pub open spec fn place_ok(lists: Seq<Option<Seq<Seq<char>>>>, e: (Seq<char>, (usize, usize))) -> bool {
    &&& e.1.0 < lists.len()
    &&& lists[e.1.0 as int] matches Some(ns) && e.1.1 < ns.len() && ns[e.1.1 as int] == e.0
}

proof fn lemma_put_keeps(
    lists: Seq<Option<Seq<Seq<char>>>>,
    s: Seq<(Seq<char>, (usize, usize))>,
    k: Seq<char>,
    x: (usize, usize),
)
    requires
        forall|i: int| 0 <= i < s.len() ==> place_ok(lists, #[trigger] s[i]),
        place_ok(lists, (k, x)),
    ensures
        forall|i: int| 0 <= i < put(s, k, x).len() ==> place_ok(lists, #[trigger] put(s, k, x)[i]),
{
    lemma_key_index_bound(s, k);
}

proof fn lemma_put_all_keeps(
    lists: Seq<Option<Seq<Seq<char>>>>,
    s: Seq<(Seq<char>, (usize, usize))>,
    o: Seq<(Seq<char>, (usize, usize))>,
)
    requires
        forall|i: int| 0 <= i < s.len() ==> place_ok(lists, #[trigger] s[i]),
        forall|i: int| 0 <= i < o.len() ==> place_ok(lists, #[trigger] o[i]),
    ensures
        forall|i: int| 0 <= i < put_all(s, o).len() ==> place_ok(lists, #[trigger] put_all(s, o)[i]),
    decreases o.len(),
{
    if o.len() > 0 {
        assert forall|i: int| 0 <= i < o.drop_last().len() implies place_ok(lists, #[trigger] o.drop_last()[i]) by {
            assert(o.drop_last()[i] == o[i]);
        }
        lemma_put_all_keeps(lists, s, o.drop_last());
        assert(place_ok(lists, o[o.len() - 1]));
        lemma_put_keeps(lists, put_all(s, o.drop_last()), o.last().0, o.last().1);
    }
}

/// Every policy of the merged list names a declared policy.
pub proof fn lemma_policy_places_ok(lists: Seq<Option<Seq<Seq<char>>>>)
    requires
        lists.len() <= usize::MAX,
        forall|g: int| 0 <= g < lists.len() ==> (#[trigger] lists[g] matches Some(ns) ==> ns.len() <= usize::MAX),
    ensures
        policy_places(lists) is Some ==> forall|i: int|
            0 <= i < policy_places(lists)->0.len() ==> place_ok(lists, #[trigger] policy_places(lists)->0[i]),
    decreases lists.len(),
{
    if lists.len() > 0 {
        let l = lists.drop_last();
        assert forall|g: int| 0 <= g < l.len() implies (#[trigger] l[g] matches Some(ns) ==> ns.len() <= usize::MAX) by {
            assert(l[g] == lists[g]);
        }
        lemma_policy_places_ok(l);
        let g = (lists.len() - 1) as usize;
        let start = match policy_places(l) {
            Some(p) => p,
            None => Seq::empty(),
        };
        assert forall|i: int| 0 <= i < start.len() implies place_ok(lists, #[trigger] start[i]) by {
            assert(place_ok(l, start[i]));
            assert(l[start[i].1.0 as int] == lists[start[i].1.0 as int]);
        }
        match lists.last() {
            None => {},
            Some(ns) => {
                let o = named_places(ns, g);
                assert(lists[lists.len() - 1] == lists.last());
                assert forall|i: int| 0 <= i < o.len() implies place_ok(lists, #[trigger] o[i]) by {
                    assert(g as int == lists.len() - 1);
                    assert((i as usize) as int == i);
                }
                lemma_put_all_keeps(lists, start, o);
            },
        }
    }
}

/// The names of the list `o`.
fn names_of<T>(o: &Option<Vec<(String, T)>>) -> (r: Option<Vec<String>>)
    ensures
        opt_texts(r) == opt_names(*o),
{
    match o {
        None => None,
        Some(v) => {
            let mut out: Vec<String> = Vec::new();
            let mut i: usize = 0;
            while i < v.len()
                invariant
                    i <= v@.len(),
                    out@.len() == i,
                    forall|m: int| 0 <= m < i ==> (#[trigger] out@[m])@ == v@[m].0@,
                decreases v@.len() - i,
            {
                out.push(v[i].0.clone());
                i = i + 1;
            }
            assert(out@.map_values(|s: String| s@) =~= v@.map_values(|p: (String, T)| p.0@));
            Some(out)
        },
    }
}

pub open spec fn texts_lists(v: Seq<Option<Vec<String>>>) -> Seq<Option<Seq<Seq<char>>>> {
    v.map_values(|o: Option<Vec<String>>| opt_texts(o))
}

/// The places of the merged list of policies whose names each gateway
/// declares in `lists`.
fn merge_places(lists: &Vec<Option<Vec<String>>>) -> (r: Option<Vec<(String, (usize, usize))>>)
    ensures
        opt_keyed(r) == policy_places(texts_lists(lists@)),
        forall|g: int|
            0 <= g < lists@.len() ==> (#[trigger] texts_lists(lists@)[g] matches Some(ns) ==> ns.len()
                <= usize::MAX),
{
    let ghost all = texts_lists(lists@);
    let mut cur: Option<Vec<(String, (usize, usize))>> = None;
    let mut g: usize = 0;
    while g < lists.len()
        invariant
            g <= lists@.len(),
            all == texts_lists(lists@),
            opt_keyed(cur) == policy_places(all.take(g as int)),
            forall|h: int| 0 <= h < g ==> (#[trigger] all[h] matches Some(ns) ==> ns.len() <= usize::MAX),
        decreases lists@.len() - g,
    {
        assert(all.take(g + 1).drop_last() =~= all.take(g as int));
        assert(all.take(g + 1).last() == all[g as int]);
        match &lists[g] {
            None => {},
            Some(ns) => {
                let ghost nv = ns@.map_values(|s: String| s@);
                let nn = ns.len();
                assert(all[g as int] == Some(nv));
                let ghost o = named_places(nv, g);
                let mut v: Vec<(String, (usize, usize))> = match cur.take() {
                    Some(x) => x,
                    None => Vec::new(),
                };
                let ghost start = keyed(v@);
                assert(start =~= match policy_places(all.take(g as int)) {
                    Some(p) => p,
                    None => Seq::<(Seq<char>, (usize, usize))>::empty(),
                });
                let mut j: usize = 0;
                assert(o.take(0) =~= Seq::<(Seq<char>, (usize, usize))>::empty());
                while j < ns.len()
                    invariant
                        j <= ns@.len(),
                        nv == ns@.map_values(|s: String| s@),
                        o == named_places(nv, g),
                        keyed(v@) == put_all(start, o.take(j as int)),
                    decreases ns@.len() - j,
                {
                    put_named(&mut v, ns[j].clone(), (g, j));
                    assert(o.take(j + 1).drop_last() =~= o.take(j as int));
                    assert(o.take(j + 1).last() == o[j as int]);
                    j = j + 1;
                }
                assert(o.take(ns@.len() as int) =~= o);
                assert((all.take(g + 1).len() - 1) as usize == g);
                cur = Some(v);
            },
        }
        g = g + 1;
    }
    assert(all.take(lists@.len() as int) =~= all);
    cur
}


/// The merged list `r` holds, for each entry of `p`, its name and settings
/// the same as those at its place in `lists`; none when `p` is none.
pub open spec fn picked<T>(
    r: Option<Vec<(String, T)>>,
    p: Option<Seq<(Seq<char>, (usize, usize))>>,
    lists: Seq<Option<Vec<(String, T)>>>,
    same: spec_fn(T, T) -> bool,
) -> bool {
    match p {
        None => r is None,
        Some(q) => r matches Some(v) && v@.len() == q.len() && forall|i: int|
            0 <= i < q.len() ==> (#[trigger] v@[i]).0@ == q[i].0 && (lists[q[i].1.0 as int] matches Some(w) && same(v@[i].1, w@[q[i].1.1 as int].1)),
    }
}

/// The `auth` list of each gateway.
pub open spec fn auth_lists(gws: Seq<GatewayConfig>) -> Seq<Option<Vec<(String, OAuthConfig)>>> {
    gws.map_values(|g: GatewayConfig| g.policies.auth)
}

/// The names in the `auth` list of each gateway.
pub open spec fn auth_names(gws: Seq<GatewayConfig>) -> Seq<Option<Seq<Seq<char>>>> {
    gws.map_values(|g: GatewayConfig| opt_names(g.policies.auth))
}

/// The `auth` policies at the places of `q`, by the names there.
fn pick_auth(gws: &Vec<GatewayConfig>, q: &Vec<(String, (usize, usize))>) -> (out: Vec<(String, OAuthConfig)>)
    requires
        forall|i: int| 0 <= i < q@.len() ==> place_ok(auth_names(gws@), #[trigger] keyed(q@)[i]),
    ensures
        out@.len() == q@.len(),
        forall|i: int|
            0 <= i < q@.len() ==> (#[trigger] out@[i]).0@ == q@[i].0@ && (gws@[q@[i].1.0 as int].policies.auth matches Some(w) && oauth_same(out@[i].1, w@[q@[i].1.1 as int].1)),
{
    let mut out: Vec<(String, OAuthConfig)> = Vec::new();
    let mut i: usize = 0;
    while i < q.len()
        invariant
            i <= q@.len(),
            out@.len() == i,
            forall|m: int| 0 <= m < q@.len() ==> place_ok(auth_names(gws@), #[trigger] keyed(q@)[m]),
            forall|m: int|
                0 <= m < i ==> (#[trigger] out@[m]).0@ == q@[m].0@ && (gws@[q@[m].1.0 as int].policies.auth matches Some(w) && oauth_same(out@[m].1, w@[q@[m].1.1 as int].1)),
        decreases q@.len() - i,
    {
        let (name, place) = &q[i];
        let g = place.0;
        let j = place.1;
        assert(place_ok(auth_names(gws@), keyed(q@)[i as int]));
        assert(keyed(q@)[i as int] == (name@, (g, j)));
        assert(auth_names(gws@)[g as int] == opt_names(gws@[g as int].policies.auth));
        match &gws[g].policies.auth {
            Some(w) => {
                assert(j < w@.len());
                out.push((name.clone(), w[j].1.duplicate()));
            },
            None => {
                proof {
                    assert(false);
                }
            },
        }
        i = i + 1;
    }
    out
}

/// The `cors` list of each gateway.
pub open spec fn cors_lists(gws: Seq<GatewayConfig>) -> Seq<Option<Vec<(String, CorsConfig)>>> {
    gws.map_values(|g: GatewayConfig| g.policies.cors)
}

/// The names in the `cors` list of each gateway.
pub open spec fn cors_names(gws: Seq<GatewayConfig>) -> Seq<Option<Seq<Seq<char>>>> {
    gws.map_values(|g: GatewayConfig| opt_names(g.policies.cors))
}

/// The `cors` policies at the places of `q`, by the names there.
fn pick_cors(gws: &Vec<GatewayConfig>, q: &Vec<(String, (usize, usize))>) -> (out: Vec<(String, CorsConfig)>)
    requires
        forall|i: int| 0 <= i < q@.len() ==> place_ok(cors_names(gws@), #[trigger] keyed(q@)[i]),
    ensures
        out@.len() == q@.len(),
        forall|i: int|
            0 <= i < q@.len() ==> (#[trigger] out@[i]).0@ == q@[i].0@ && (gws@[q@[i].1.0 as int].policies.cors matches Some(w) && cors_same(out@[i].1, w@[q@[i].1.1 as int].1)),
{
    let mut out: Vec<(String, CorsConfig)> = Vec::new();
    let mut i: usize = 0;
    while i < q.len()
        invariant
            i <= q@.len(),
            out@.len() == i,
            forall|m: int| 0 <= m < q@.len() ==> place_ok(cors_names(gws@), #[trigger] keyed(q@)[m]),
            forall|m: int|
                0 <= m < i ==> (#[trigger] out@[m]).0@ == q@[m].0@ && (gws@[q@[m].1.0 as int].policies.cors matches Some(w) && cors_same(out@[m].1, w@[q@[m].1.1 as int].1)),
        decreases q@.len() - i,
    {
        let (name, place) = &q[i];
        let g = place.0;
        let j = place.1;
        assert(place_ok(cors_names(gws@), keyed(q@)[i as int]));
        assert(keyed(q@)[i as int] == (name@, (g, j)));
        assert(cors_names(gws@)[g as int] == opt_names(gws@[g as int].policies.cors));
        match &gws[g].policies.cors {
            Some(w) => {
                assert(j < w@.len());
                out.push((name.clone(), w[j].1.duplicate()));
            },
            None => {
                proof {
                    assert(false);
                }
            },
        }
        i = i + 1;
    }
    out
}

/// The `waf` list of each gateway.
pub open spec fn waf_lists(gws: Seq<GatewayConfig>) -> Seq<Option<Vec<(String, WafConfig)>>> {
    gws.map_values(|g: GatewayConfig| g.policies.waf)
}

/// The names in the `waf` list of each gateway.
pub open spec fn waf_names(gws: Seq<GatewayConfig>) -> Seq<Option<Seq<Seq<char>>>> {
    gws.map_values(|g: GatewayConfig| opt_names(g.policies.waf))
}

/// The `waf` policies at the places of `q`, by the names there.
fn pick_waf(gws: &Vec<GatewayConfig>, q: &Vec<(String, (usize, usize))>) -> (out: Vec<(String, WafConfig)>)
    requires
        forall|i: int| 0 <= i < q@.len() ==> place_ok(waf_names(gws@), #[trigger] keyed(q@)[i]),
    ensures
        out@.len() == q@.len(),
        forall|i: int|
            0 <= i < q@.len() ==> (#[trigger] out@[i]).0@ == q@[i].0@ && (gws@[q@[i].1.0 as int].policies.waf matches Some(w) && waf_same(out@[i].1, w@[q@[i].1.1 as int].1)),
{
    let mut out: Vec<(String, WafConfig)> = Vec::new();
    let mut i: usize = 0;
    while i < q.len()
        invariant
            i <= q@.len(),
            out@.len() == i,
            forall|m: int| 0 <= m < q@.len() ==> place_ok(waf_names(gws@), #[trigger] keyed(q@)[m]),
            forall|m: int|
                0 <= m < i ==> (#[trigger] out@[m]).0@ == q@[m].0@ && (gws@[q@[m].1.0 as int].policies.waf matches Some(w) && waf_same(out@[m].1, w@[q@[m].1.1 as int].1)),
        decreases q@.len() - i,
    {
        let (name, place) = &q[i];
        let g = place.0;
        let j = place.1;
        assert(place_ok(waf_names(gws@), keyed(q@)[i as int]));
        assert(keyed(q@)[i as int] == (name@, (g, j)));
        assert(waf_names(gws@)[g as int] == opt_names(gws@[g as int].policies.waf));
        match &gws[g].policies.waf {
            Some(w) => {
                assert(j < w@.len());
                out.push((name.clone(), w[j].1.duplicate()));
            },
            None => {
                proof {
                    assert(false);
                }
            },
        }
        i = i + 1;
    }
    out
}

/// The `limiter` list of each gateway.
pub open spec fn limiter_lists(gws: Seq<GatewayConfig>) -> Seq<Option<Vec<(String, LimiterConfig)>>> {
    gws.map_values(|g: GatewayConfig| g.policies.limiter)
}

/// The names in the `limiter` list of each gateway.
pub open spec fn limiter_names(gws: Seq<GatewayConfig>) -> Seq<Option<Seq<Seq<char>>>> {
    gws.map_values(|g: GatewayConfig| opt_names(g.policies.limiter))
}

/// The `limiter` policies at the places of `q`, by the names there.
fn pick_limiter(gws: &Vec<GatewayConfig>, q: &Vec<(String, (usize, usize))>) -> (out: Vec<(String, LimiterConfig)>)
    requires
        forall|i: int| 0 <= i < q@.len() ==> place_ok(limiter_names(gws@), #[trigger] keyed(q@)[i]),
    ensures
        out@.len() == q@.len(),
        forall|i: int|
            0 <= i < q@.len() ==> (#[trigger] out@[i]).0@ == q@[i].0@ && (gws@[q@[i].1.0 as int].policies.limiter matches Some(w) && limiter_same(out@[i].1, w@[q@[i].1.1 as int].1)),
{
    let mut out: Vec<(String, LimiterConfig)> = Vec::new();
    let mut i: usize = 0;
    while i < q.len()
        invariant
            i <= q@.len(),
            out@.len() == i,
            forall|m: int| 0 <= m < q@.len() ==> place_ok(limiter_names(gws@), #[trigger] keyed(q@)[m]),
            forall|m: int|
                0 <= m < i ==> (#[trigger] out@[m]).0@ == q@[m].0@ && (gws@[q@[m].1.0 as int].policies.limiter matches Some(w) && limiter_same(out@[m].1, w@[q@[m].1.1 as int].1)),
        decreases q@.len() - i,
    {
        let (name, place) = &q[i];
        let g = place.0;
        let j = place.1;
        assert(place_ok(limiter_names(gws@), keyed(q@)[i as int]));
        assert(keyed(q@)[i as int] == (name@, (g, j)));
        assert(limiter_names(gws@)[g as int] == opt_names(gws@[g as int].policies.limiter));
        match &gws[g].policies.limiter {
            Some(w) => {
                assert(j < w@.len());
                out.push((name.clone(), w[j].1.duplicate()));
            },
            None => {
                proof {
                    assert(false);
                }
            },
        }
        i = i + 1;
    }
    out
}

/// The names of each kind of policy, gateway by gateway.
fn kind_names(gws: &Vec<GatewayConfig>) -> (r: (
    Vec<Option<Vec<String>>>,
    Vec<Option<Vec<String>>>,
    Vec<Option<Vec<String>>>,
    Vec<Option<Vec<String>>>,
))
    ensures
        texts_lists(r.0@) == auth_names(gws@),
        texts_lists(r.1@) == cors_names(gws@),
        texts_lists(r.2@) == waf_names(gws@),
        texts_lists(r.3@) == limiter_names(gws@),
{
    let mut a: Vec<Option<Vec<String>>> = Vec::new();
    let mut c: Vec<Option<Vec<String>>> = Vec::new();
    let mut w: Vec<Option<Vec<String>>> = Vec::new();
    let mut l: Vec<Option<Vec<String>>> = Vec::new();
    let mut g: usize = 0;
    while g < gws.len()
        invariant
            g <= gws@.len(),
            a@.len() == g && c@.len() == g && w@.len() == g && l@.len() == g,
            texts_lists(a@) == auth_names(gws@.take(g as int)),
            texts_lists(c@) == cors_names(gws@.take(g as int)),
            texts_lists(w@) == waf_names(gws@.take(g as int)),
            texts_lists(l@) == limiter_names(gws@.take(g as int)),
        decreases gws@.len() - g,
    {
        let ghost a0 = a@;
        let na = names_of(&gws[g].policies.auth);
        assert(opt_texts(na) == auth_names(gws@.take(g + 1))[g as int]);
        a.push(na);
        assert forall|m: int| 0 <= m < g implies #[trigger] texts_lists(a@)[m] == auth_names(gws@.take(g + 1))[m] by {
            assert(a@[m] == a0[m]);
            assert(texts_lists(a0)[m] == auth_names(gws@.take(g as int))[m]);
        }
        assert(texts_lists(a@) =~= auth_names(gws@.take(g + 1)));
        let ghost c0 = c@;
        let nc = names_of(&gws[g].policies.cors);
        assert(opt_texts(nc) == cors_names(gws@.take(g + 1))[g as int]);
        c.push(nc);
        assert forall|m: int| 0 <= m < g implies #[trigger] texts_lists(c@)[m] == cors_names(gws@.take(g + 1))[m] by {
            assert(c@[m] == c0[m]);
            assert(texts_lists(c0)[m] == cors_names(gws@.take(g as int))[m]);
        }
        assert(texts_lists(c@) =~= cors_names(gws@.take(g + 1)));
        let ghost w0 = w@;
        let nw = names_of(&gws[g].policies.waf);
        assert(opt_texts(nw) == waf_names(gws@.take(g + 1))[g as int]);
        w.push(nw);
        assert forall|m: int| 0 <= m < g implies #[trigger] texts_lists(w@)[m] == waf_names(gws@.take(g + 1))[m] by {
            assert(w@[m] == w0[m]);
            assert(texts_lists(w0)[m] == waf_names(gws@.take(g as int))[m]);
        }
        assert(texts_lists(w@) =~= waf_names(gws@.take(g + 1)));
        let ghost l0 = l@;
        let nl = names_of(&gws[g].policies.limiter);
        assert(opt_texts(nl) == limiter_names(gws@.take(g + 1))[g as int]);
        l.push(nl);
        assert forall|m: int| 0 <= m < g implies #[trigger] texts_lists(l@)[m] == limiter_names(gws@.take(g + 1))[m] by {
            assert(l@[m] == l0[m]);
            assert(texts_lists(l0)[m] == limiter_names(gws@.take(g as int))[m]);
        }
        assert(texts_lists(l@) =~= limiter_names(gws@.take(g + 1)));
        g = g + 1;
    }
    assert(gws@.take(gws@.len() as int) =~= gws@);
    (a, c, w, l)
}


// ============================================================
// THE WHOLE CONFIGURATION
// ============================================================

/// The master file, its gateways, and what they declare put together.
#[derive(Debug, Clone)]
pub struct OphanConfig {
    pub master: MasterConfig,
    pub gateways: Vec<GatewayConfig>,
    /// The named policies of all gateways, a later declaration of a name
    /// replacing an earlier one.
    pub policies: PolicyConfig,
    pub master_tracker: ConfigFileTracker,
    pub gateway_trackers: Vec<ConfigFileTracker>,
    /// Every listener, by its place in `gateways`.
    pub listeners: Vec<(usize, usize)>,
    /// Every route, by its place in `gateways`.
    pub routes: Vec<(usize, usize)>,
    /// Every upstream, by its place in `gateways`.
    pub upstreams: Vec<(usize, usize)>,
    /// The upstreams by name, a later upstream with a name replacing an
    /// earlier one.
    pub upstreams_index: Vec<(String, (usize, usize))>,
    /// Every route by its path without trailing `*`s, the longest path (in
    /// UTF-8 bytes) first, routes of equal length in order.
    pub routes_fast_match: Vec<MatchEntry>,
}

/// The merged policies of the kind whose lists are `lists` and names are
/// `names`.
fn merged_kind(names: &Vec<Option<Vec<String>>>, n: usize) -> (r: Option<Vec<(String, (usize, usize))>>)
    requires
        names@.len() == n,
    ensures
        opt_keyed(r) == policy_places(texts_lists(names@)),
        r matches Some(q) ==> forall|i: int|
            0 <= i < q@.len() ==> place_ok(texts_lists(names@), #[trigger] keyed(q@)[i]),
{
    let r = merge_places(names);
    proof {
        let lists = texts_lists(names@);
        assert(lists.len() == n);
        assert forall|g: int| 0 <= g < lists.len() implies (#[trigger] lists[g] matches Some(ns) ==> ns.len()
            <= usize::MAX) by {
            assert(texts_lists(names@)[g] == lists[g]);
        }
        lemma_policy_places_ok(lists);
        let ghost gr = r;
        match gr {
            Some(q) => {
                let pq = keyed(q@);
                assert(policy_places(lists) == Some(pq));
                assert(pq.len() == q@.len());
                assert forall|i: int| 0 <= i < q@.len() implies place_ok(lists, #[trigger] keyed(q@)[i]) by {
                    assert(0 <= i < policy_places(lists)->0.len());
                    assert(place_ok(lists, policy_places(lists)->0[i]));
                    assert(policy_places(lists)->0[i] == keyed(q@)[i]);
                }
            },
            None => {},
        }
    }
    r
}

impl OphanConfig {
    /// Puts together the master file and the gateways read from its
    /// includes (with the trackers of those files): merges the policies of
    /// the gateways in order, lists every listener, route and upstream,
    /// indexes the upstreams by name and orders the routes for prefix
    /// matching.
    pub fn assemble(
        master: MasterConfig,
        gateways: Vec<GatewayConfig>,
        master_tracker: ConfigFileTracker,
        gateway_trackers: Vec<ConfigFileTracker>,
    ) -> (c: Self)
        ensures
            c.master == master,
            c.gateways@ == gateways@,
            c.master_tracker == master_tracker,
            c.gateway_trackers@ == gateway_trackers@,
            c.listeners@ == places(listener_counts(gateways@)),
            c.routes@ == places(route_counts(gateways@)),
            c.upstreams@ == places(upstream_counts(gateways@)),
            keyed(c.upstreams_index@) == put_all(Seq::empty(), upstream_keys(gateways@, c.upstreams@)),
            match_view(c.routes_fast_match@) == sort_by_len(route_keys(gateways@, c.routes@)),
            picked(
                c.policies.auth,
                policy_places(auth_names(gateways@)),
                auth_lists(gateways@),
                |x: OAuthConfig, y: OAuthConfig| oauth_same(x, y),
            ),
            picked(
                c.policies.cors,
                policy_places(cors_names(gateways@)),
                cors_lists(gateways@),
                |x: CorsConfig, y: CorsConfig| cors_same(x, y),
            ),
            picked(
                c.policies.waf,
                policy_places(waf_names(gateways@)),
                waf_lists(gateways@),
                |x: WafConfig, y: WafConfig| waf_same(x, y),
            ),
            picked(
                c.policies.limiter,
                policy_places(limiter_names(gateways@)),
                limiter_lists(gateways@),
                |x: LimiterConfig, y: LimiterConfig| limiter_same(x, y),
            ),
    {
        let gws = &gateways;
        let n = gws.len();
        let listeners = places_of(&listener_counts_of(gws));
        let routes = places_of(&route_counts_of(gws));
        let upstreams = places_of(&upstream_counts_of(gws));
        let upstreams_index = upstream_index_of(gws, &upstreams);
        let routes_fast_match = fast_match_of(gws, &routes);
        let (an, cn, wn, ln) = kind_names(gws);
        let auth = match merged_kind(&an, n) {
            Some(q) => Some(pick_auth(gws, &q)),
            None => None,
        };
        let cors = match merged_kind(&cn, n) {
            Some(q) => Some(pick_cors(gws, &q)),
            None => None,
        };
        let waf = match merged_kind(&wn, n) {
            Some(q) => Some(pick_waf(gws, &q)),
            None => None,
        };
        let limiter = match merged_kind(&ln, n) {
            Some(q) => Some(pick_limiter(gws, &q)),
            None => None,
        };
        OphanConfig {
            master,
            gateways,
            policies: PolicyConfig { auth, cors, waf, limiter },
            master_tracker,
            gateway_trackers,
            listeners,
            routes,
            upstreams,
            upstreams_index,
            routes_fast_match,
        }
    }
}

} // verus!
