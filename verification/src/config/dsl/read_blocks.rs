//! Readers for the blocks of a gateway file. Each reads the entries of one
//! block: which it accepts, and what its fields get from them.
use std::time::Duration;
use vstd::prelude::*;
use vstd::string::StringExecFns;

use crate::text::{parse_unsigned, parse_unsigned_range, range_eq};
use crate::time::{duration_from_millis, spec_duration_from_millis, spec_duration_from_secs};

use super::blocks::{
    RawCorsConfig, RawHelmetConfig, RawLimiterConfig, RawListener, RawListenerLimits,
    RawHealthCheck, RawListenerTimeouts, RawNetworkPolicy, RawRouteTimeouts, RawStreaming, RawTls,
    RawUpstreamServer, RawUpstream, RawHeadersOps, RawHeadersRemove, RawRouteHeadersOpts, RawUriRewrite, RawCookieConfig, RawWafRule, RawTokenSource, RawAuthMode, RawInjectTarget,
    RawInjectConfig, RawRefreshConfig, RawAuthConfig, RawWafConfig, RawRouteAction, RawRoutePolicies,
    RawBackend, RawStaticBackend, RawStaticFlags, RawPathRoute, RawRoute,
};
use super::errors::ConfigError;
use super::lexer::{Token, TokenKind};
use super::parser::{
    is_read_error, is_syntax_error, line_col, parse_duration_millis, parse_rate, spec_csv_values,
    spec_duration_millis, spec_line_col, spec_rate, split_csv_values, tok_pos, tok_text,
};
use super::reader::{
    assign_text, block_entry, block_range, object_range, object_assign, is_object_assign, bool_field, duration_field, is_block_entry,
    is_list_assign, is_text_assign, is_value_assign, lemma_first_bad, lemma_last_key2_step,
    lemma_last_key_step, list_assign, list_field, list_of_texts, list_texts, number_field, opt_int,
    opt_text, raw_field, spec_first_bad, spec_last_key, spec_last_key2, text_assign, text_field,
    text_of, value_assign, value_text, value_text_of, view_strs, acc_pairs, lemma_acc_pairs_step,
    pairs_ok, read_pairs, view_pairs, acc_replaces, directive_field, head_only, is_directive,
    is_replace, lemma_acc_replaces_step, arrow_assign,
};
use super::syntax::{
    entries, fields, lemma_entries_in, lemma_fields_in, lemma_match_after, match_bracket,
    spec_entries, spec_fields, tokens_in, tokens_sorted, items, lemma_items_in, spec_items,
    spec_value_end, value_end, is_punct_tok,
};

verus! {

/// The error for an entry that has no place in its block: a syntax error
/// at the entry, naming its key and the block.
pub fn field_error(input: &str, v: &Vec<char>, toks: &Vec<Token>, e: usize, block: &str) -> (err:
    ConfigError)
    requires
        e < toks.len(),
        v@ == input@,
        v.len() < usize::MAX,
        tokens_in(v@, toks@),
    ensures
        err matches ConfigError::Parse { message, line, col, file_path } && message@
            == "unexpected field '"@ + tok_text(v@, toks@[e as int]) + "' in "@ + block@ && (
        line as int,
        col as int,
        ) == spec_line_col(v@, toks@[e as int].lo as int) && file_path is None,
{
    let mut m = "unexpected field '".to_owned();
    m.append(text_of(input, v, toks, e));
    m.append("' in ");
    m.append(block);
    let (line, col) = line_col(v, toks[e].lo);
    ConfigError::Parse { message: m, line, col, file_path: None }
}

/// A value that the configuration does not accept: `before`, the text of
/// token `j`, then `after`.
pub fn value_error(input: &str, v: &Vec<char>, toks: &Vec<Token>, j: usize, before: &str, after: &str) -> (err:
    ConfigError)
    requires
        j < toks.len(),
        v@ == input@,
        tokens_in(v@, toks@),
    ensures
        err == (ConfigError::Validation { code: "PARSE", message: err->Validation_message, file_path: None }),
        err->Validation_message@ == before@ + tok_text(v@, toks@[j as int]) + after@,
{
    let mut m = before.to_owned();
    m.append(text_of(input, v, toks, j));
    m.append(after);
    ConfigError::parse(m)
}

/// Whether `x` reads exactly `lit`.
pub fn str_is(x: &str, lit: &str) -> (b: bool)
    ensures
        b == (x@ == lit@),
{
    let v = crate::text::chars_of(x);
    let n = v.len();
    assert(v@.subrange(0, n as int) =~= x@);
    range_eq(&v, 0, n, lit)
}

/// The number that `x` reads as, no larger than `max`.
pub fn parse_unsigned_str(x: &str, max: u64) -> (r: Option<u64>)
    ensures
        match r {
            Some(n) => parse_unsigned(x@, max as int) == Some(n as int),
            None => parse_unsigned(x@, max as int) is None,
        },
{
    let v = crate::text::chars_of(x);
    let n = v.len();
    assert(v@.subrange(0, n as int) =~= x@);
    parse_unsigned_range(&v, 0, n, max)
}

/// The error for a block whose tokens are not entries: a syntax error at
/// the block's first token.
pub fn block_syntax_error(v: &Vec<char>, toks: &Vec<Token>, lo: usize, hi: usize) -> (err: ConfigError)
    requires
        lo <= hi <= toks.len(),
        v.len() < usize::MAX,
        tokens_in(v@, toks@),
    ensures
        err matches ConfigError::Parse { message, line, col, file_path } && message@
            == "syntax error in gateway file"@ && (line as int, col as int) == spec_line_col(
            v@,
            tok_pos(v@, toks@, lo as int),
        ) && file_path is None,
{
    let at = if lo < toks.len() {
        toks[lo].lo
    } else {
        v.len()
    };
    let (line, col) = line_col(v, at);
    ConfigError::Parse { message: "syntax error in gateway file".to_owned(), line, col, file_path: None }
}

/// Whether the entry at `e` can stand in a `tls` block.
pub open spec fn tls_entry_ok(s: Seq<char>, t: Seq<Token>, hi: int, e: int) -> bool {
    let k = tok_text(s, t[e]);
    ((k == "cert"@) && is_text_assign(s, t, e, hi))
    || ((k == "key"@) && is_text_assign(s, t, e, hi))
    || ((k == "versions"@) && is_list_assign(s, t, e, hi) && list_texts(s, t, e + 2) is Some)
    || ((k == "client_auth"@) && is_text_assign(s, t, e, hi))
    || ((k == "client_ca"@) && is_text_assign(s, t, e, hi))
    || ((k == "ciphers"@) && is_list_assign(s, t, e, hi) && list_texts(s, t, e + 2) is Some)
}

/// The entries that can stand in a `tls` block whose tokens end at `hi`.
pub open spec fn tls_entry(s: Seq<char>, t: Seq<Token>, hi: int) -> spec_fn(int) -> bool {
    |e: int| tls_entry_ok(s, t, hi, e)
}

/// Whether the tokens from `lo` to `hi` read as a `tls` block.
pub open spec fn tls_ok(s: Seq<char>, t: Seq<Token>, lo: int, hi: int) -> bool {
    spec_entries(s, t, lo, hi) matches Some(es) && spec_first_bad(es, tls_entry(s, t, hi)) is None
}

/// The error for an entry at `e` that cannot stand in a `tls` block.
pub open spec fn tls_fault_is(err: ConfigError, s: Seq<char>, t: Seq<Token>, hi: int, e: int) -> bool {
    let k = tok_text(s, t[e]);
    is_syntax_error(err, "unexpected field '"@ + k + "' in "@ + "ssl block"@, s, t[e].lo as int)
}

/// The error that reading a `tls` block from `lo` to `hi` ends with, when it does not read.
#[verifier::opaque]
pub open spec fn tls_error_is(err: ConfigError, s: Seq<char>, t: Seq<Token>, lo: int, hi: int) -> bool {
    match spec_entries(s, t, lo, hi) {
        None => is_syntax_error(err, "syntax error in gateway file"@, s, tok_pos(s, t, lo)),
        Some(es) => match spec_first_bad(es, tls_entry(s, t, hi)) {
            Some(e) => tls_fault_is(err, s, t, hi, e),
            None => true,
        },
    }
}

/// Whether `r` holds what a `tls` block from `lo` to `hi` sets: each field the value of
/// the last entry that sets it.
pub open spec fn tls_is(r: RawTls<'_>, s: Seq<char>, t: Seq<Token>, lo: int, hi: int) -> bool {
    let es = match spec_entries(s, t, lo, hi) { Some(es) => es, None => Seq::empty() };
    r.cert@ == (match text_field(s, t, spec_last_key(s, t, es, "cert"@)) { Some(x) => x, None => Seq::<char>::empty() })
    && r.key@ == (match text_field(s, t, spec_last_key(s, t, es, "key"@)) { Some(x) => x, None => Seq::<char>::empty() })
    && view_strs(r.versions@) == list_field(s, t, spec_last_key(s, t, es, "versions"@))
    && opt_text(r.client_auth) == text_field(s, t, spec_last_key(s, t, es, "client_auth"@))
    && opt_text(r.client_ca) == text_field(s, t, spec_last_key(s, t, es, "client_ca"@))
    && view_strs(r.ciphers@) == list_field(s, t, spec_last_key(s, t, es, "ciphers"@))
}

pub proof fn lemma_tls_error(err: ConfigError, s: Seq<char>, t: Seq<Token>, lo: int, hi: int, es: Seq<int>, e: int)
    requires
        spec_entries(s, t, lo, hi) == Some(es),
        spec_first_bad(es, tls_entry(s, t, hi)) == Some(e),
        tls_fault_is(err, s, t, hi, e),
    ensures
        tls_error_is(err, s, t, lo, hi),
{
    reveal(tls_error_is);
}

/// Reads a `tls` block from the tokens `lo` to `hi`.
#[verifier::spinoff_prover]
#[verifier::rlimit(100)]
pub fn read_tls<'a>(input: &'a str, v: &Vec<char>, toks: &Vec<Token>, lo: usize, hi: usize) -> (r: Result<RawTls<'a>, ConfigError>)
    requires
        lo <= hi <= toks.len(),
        v@ == input@,
        v.len() < usize::MAX,
        tokens_in(v@, toks@),
        tokens_sorted(toks@),
    ensures
        match r {
            Ok(b) => tls_ok(v@, toks@, lo as int, hi as int) && tls_is(b, v@, toks@, lo as int, hi as int),
            Err(err) => !tls_ok(v@, toks@, lo as int, hi as int) && tls_error_is(err, v@, toks@, lo as int, hi as int),
        },
{
    let es = match entries(v, toks, lo, hi) { Some(es) => es, None => { proof { reveal(tls_error_is); } return Err(block_syntax_error(v, toks, lo, hi)); } };
    let ghost ees = es@.map_values(|e: usize| e as int);
    let ghost ok = tls_entry(v@, toks@, hi as int);
    proof {
        lemma_entries_in(v@, toks@, lo as int, hi as int, ees);
        reveal_strlit(""); reveal_strlit("cert"); reveal_strlit("key"); reveal_strlit("versions"); reveal_strlit("client_auth"); reveal_strlit("client_ca"); reveal_strlit("ciphers");
    }
    let mut cert: &'a str = "";
    let mut key: &'a str = "";
    let mut versions: Vec<&'a str> = Vec::new();
    let mut client_auth: Option<&'a str> = None;
    let mut client_ca: Option<&'a str> = None;
    let mut ciphers: Vec<&'a str> = Vec::new();
    let mut i: usize = 0;
    while i < es.len()
        invariant
            i <= es.len(),
            lo <= hi <= toks.len(),
            v@ == input@,
            v.len() < usize::MAX,
            tokens_in(v@, toks@),
            tokens_sorted(toks@),
            ees == es@.map_values(|e: usize| e as int),
            spec_entries(v@, toks@, lo as int, hi as int) == Some(ees),
            forall|m: int| 0 <= m < es.len() ==> lo <= #[trigger] ees[m] < hi,
            ok == tls_entry(v@, toks@, hi as int),
            forall|m: int| 0 <= m < i ==> ok(#[trigger] ees[m]),
            cert@ == (match text_field(v@, toks@, spec_last_key(v@, toks@, ees.take(i as int), "cert"@)) { Some(x) => x, None => Seq::<char>::empty() }),
            key@ == (match text_field(v@, toks@, spec_last_key(v@, toks@, ees.take(i as int), "key"@)) { Some(x) => x, None => Seq::<char>::empty() }),
            view_strs(versions@) == list_field(v@, toks@, spec_last_key(v@, toks@, ees.take(i as int), "versions"@)),
            opt_text(client_auth) == text_field(v@, toks@, spec_last_key(v@, toks@, ees.take(i as int), "client_auth"@)),
            opt_text(client_ca) == text_field(v@, toks@, spec_last_key(v@, toks@, ees.take(i as int), "client_ca"@)),
            view_strs(ciphers@) == list_field(v@, toks@, spec_last_key(v@, toks@, ees.take(i as int), "ciphers"@)),
        decreases es.len() - i,
    {
        let e = es[i];
        assert(ees[i as int] == e as int);
        proof {
             reveal_strlit("cert"); reveal_strlit("key"); reveal_strlit("versions"); reveal_strlit("client_auth"); reveal_strlit("client_ca"); reveal_strlit("ciphers"); reveal_strlit("true"); reveal_strlit("->"); reveal_strlit("extends");
            assert("cert"@.len() == 4);
            assert("key"@.len() == 3);
            assert("versions"@.len() == 8);
            assert("client_auth"@.len() == 11);
            assert("client_ca"@.len() == 9);
            assert("ciphers"@.len() == 7);
            lemma_last_key_step(v@, toks@, ees, i as int, "cert"@);
            lemma_last_key_step(v@, toks@, ees, i as int, "key"@);
            lemma_last_key_step(v@, toks@, ees, i as int, "versions"@);
            lemma_last_key_step(v@, toks@, ees, i as int, "client_auth"@);
            lemma_last_key_step(v@, toks@, ees, i as int, "client_ca"@);
            lemma_last_key_step(v@, toks@, ees, i as int, "ciphers"@);
        }
        if range_eq(v, toks[e].lo, toks[e].hi, "cert") {
            assert((tok_text(v@, toks@[e as int]) == "cert"@));
            if text_assign(v, toks, e, hi) { cert = text_of(input, v, toks, e + 2); } else { let err = field_error(input, v, toks, e, "ssl block"); proof { lemma_first_bad(ees, ok, i as int); lemma_tls_error(err, v@, toks@, lo as int, hi as int, ees, ees[i as int]); } return Err(err); }
        } else if range_eq(v, toks[e].lo, toks[e].hi, "key") {
            assert((tok_text(v@, toks@[e as int]) == "key"@));
            if text_assign(v, toks, e, hi) { key = text_of(input, v, toks, e + 2); } else { let err = field_error(input, v, toks, e, "ssl block"); proof { lemma_first_bad(ees, ok, i as int); lemma_tls_error(err, v@, toks@, lo as int, hi as int, ees, ees[i as int]); } return Err(err); }
        } else if range_eq(v, toks[e].lo, toks[e].hi, "versions") {
            assert((tok_text(v@, toks@[e as int]) == "versions"@));
            if list_assign(v, toks, e, hi) { match list_of_texts(input, v, toks, e + 2) { Some(xs) => { versions = xs; }, None => { let err = field_error(input, v, toks, e, "ssl block"); proof { lemma_first_bad(ees, ok, i as int); lemma_tls_error(err, v@, toks@, lo as int, hi as int, ees, ees[i as int]); } return Err(err); } } } else { let err = field_error(input, v, toks, e, "ssl block"); proof { lemma_first_bad(ees, ok, i as int); lemma_tls_error(err, v@, toks@, lo as int, hi as int, ees, ees[i as int]); } return Err(err); }
        } else if range_eq(v, toks[e].lo, toks[e].hi, "client_auth") {
            assert((tok_text(v@, toks@[e as int]) == "client_auth"@));
            if text_assign(v, toks, e, hi) { client_auth = Some(text_of(input, v, toks, e + 2)); } else { let err = field_error(input, v, toks, e, "ssl block"); proof { lemma_first_bad(ees, ok, i as int); lemma_tls_error(err, v@, toks@, lo as int, hi as int, ees, ees[i as int]); } return Err(err); }
        } else if range_eq(v, toks[e].lo, toks[e].hi, "client_ca") {
            assert((tok_text(v@, toks@[e as int]) == "client_ca"@));
            if text_assign(v, toks, e, hi) { client_ca = Some(text_of(input, v, toks, e + 2)); } else { let err = field_error(input, v, toks, e, "ssl block"); proof { lemma_first_bad(ees, ok, i as int); lemma_tls_error(err, v@, toks@, lo as int, hi as int, ees, ees[i as int]); } return Err(err); }
        } else if range_eq(v, toks[e].lo, toks[e].hi, "ciphers") {
            assert((tok_text(v@, toks@[e as int]) == "ciphers"@));
            if list_assign(v, toks, e, hi) { match list_of_texts(input, v, toks, e + 2) { Some(xs) => { ciphers = xs; }, None => { let err = field_error(input, v, toks, e, "ssl block"); proof { lemma_first_bad(ees, ok, i as int); lemma_tls_error(err, v@, toks@, lo as int, hi as int, ees, ees[i as int]); } return Err(err); } } } else { let err = field_error(input, v, toks, e, "ssl block"); proof { lemma_first_bad(ees, ok, i as int); lemma_tls_error(err, v@, toks@, lo as int, hi as int, ees, ees[i as int]); } return Err(err); }
        } else {
            { let err = field_error(input, v, toks, e, "ssl block"); proof { lemma_first_bad(ees, ok, i as int); lemma_tls_error(err, v@, toks@, lo as int, hi as int, ees, ees[i as int]); } return Err(err); }
        }
        i = i + 1;
    }
    proof {
        lemma_first_bad(ees, ok, es.len() as int);
        assert(ees.take(es.len() as int) =~= ees);
    }

    Ok(RawTls { cert, key, versions, client_auth, client_ca, ciphers })
}

/// Whether the entry at `e` can stand in a `network_policy` block.
pub open spec fn network_policy_entry_ok(s: Seq<char>, t: Seq<Token>, hi: int, e: int) -> bool {
    let k = tok_text(s, t[e]);
    ((k == "allowed_ip_ranges"@) && is_list_assign(s, t, e, hi) && list_texts(s, t, e + 2) is Some)
    || ((k == "blocked_ip_ranges"@) && is_list_assign(s, t, e, hi) && list_texts(s, t, e + 2) is Some)
    || ((k == "real_ip_header"@) && is_text_assign(s, t, e, hi))
    || ((k == "proxy_allowed_ips"@) && is_list_assign(s, t, e, hi) && list_texts(s, t, e + 2) is Some)
    || ((k == "policy"@) && is_text_assign(s, t, e, hi))
}

/// The entries that can stand in a `network_policy` block whose tokens end at `hi`.
pub open spec fn network_policy_entry(s: Seq<char>, t: Seq<Token>, hi: int) -> spec_fn(int) -> bool {
    |e: int| network_policy_entry_ok(s, t, hi, e)
}

/// Whether the tokens from `lo` to `hi` read as a `network_policy` block.
pub open spec fn network_policy_ok(s: Seq<char>, t: Seq<Token>, lo: int, hi: int) -> bool {
    spec_entries(s, t, lo, hi) matches Some(es) && spec_first_bad(es, network_policy_entry(s, t, hi)) is None
}

/// The error for an entry at `e` that cannot stand in a `network_policy` block.
pub open spec fn network_policy_fault_is(err: ConfigError, s: Seq<char>, t: Seq<Token>, hi: int, e: int) -> bool {
    let k = tok_text(s, t[e]);
    is_syntax_error(err, "unexpected field '"@ + k + "' in "@ + "network_policy"@, s, t[e].lo as int)
}

/// The error that reading a `network_policy` block from `lo` to `hi` ends with, when it does not read.
#[verifier::opaque]
pub open spec fn network_policy_error_is(err: ConfigError, s: Seq<char>, t: Seq<Token>, lo: int, hi: int) -> bool {
    match spec_entries(s, t, lo, hi) {
        None => is_syntax_error(err, "syntax error in gateway file"@, s, tok_pos(s, t, lo)),
        Some(es) => match spec_first_bad(es, network_policy_entry(s, t, hi)) {
            Some(e) => network_policy_fault_is(err, s, t, hi, e),
            None => true,
        },
    }
}

/// Whether `r` holds what a `network_policy` block from `lo` to `hi` sets: each field the value of
/// the last entry that sets it.
pub open spec fn network_policy_is(r: RawNetworkPolicy<'_>, s: Seq<char>, t: Seq<Token>, lo: int, hi: int) -> bool {
    let es = match spec_entries(s, t, lo, hi) { Some(es) => es, None => Seq::empty() };
    view_strs(r.allowed_ip_ranges@) == list_field(s, t, spec_last_key(s, t, es, "allowed_ip_ranges"@))
    && view_strs(r.blocked_ip_ranges@) == list_field(s, t, spec_last_key(s, t, es, "blocked_ip_ranges"@))
    && opt_text(r.real_ip_header) == text_field(s, t, spec_last_key(s, t, es, "real_ip_header"@))
    && (match r.proxy_allowed_ips { Some(xs) => spec_last_key(s, t, es, "proxy_allowed_ips"@) is Some && view_strs(xs@) == list_field(s, t, spec_last_key(s, t, es, "proxy_allowed_ips"@)), None => spec_last_key(s, t, es, "proxy_allowed_ips"@) is None })
}

pub proof fn lemma_network_policy_error(err: ConfigError, s: Seq<char>, t: Seq<Token>, lo: int, hi: int, es: Seq<int>, e: int)
    requires
        spec_entries(s, t, lo, hi) == Some(es),
        spec_first_bad(es, network_policy_entry(s, t, hi)) == Some(e),
        network_policy_fault_is(err, s, t, hi, e),
    ensures
        network_policy_error_is(err, s, t, lo, hi),
{
    reveal(network_policy_error_is);
}

/// Reads a `network_policy` block from the tokens `lo` to `hi`.
#[verifier::spinoff_prover]
#[verifier::rlimit(100)]
pub fn read_network_policy<'a>(input: &'a str, v: &Vec<char>, toks: &Vec<Token>, lo: usize, hi: usize) -> (r: Result<RawNetworkPolicy<'a>, ConfigError>)
    requires
        lo <= hi <= toks.len(),
        v@ == input@,
        v.len() < usize::MAX,
        tokens_in(v@, toks@),
        tokens_sorted(toks@),
    ensures
        match r {
            Ok(b) => network_policy_ok(v@, toks@, lo as int, hi as int) && network_policy_is(b, v@, toks@, lo as int, hi as int),
            Err(err) => !network_policy_ok(v@, toks@, lo as int, hi as int) && network_policy_error_is(err, v@, toks@, lo as int, hi as int),
        },
{
    let es = match entries(v, toks, lo, hi) { Some(es) => es, None => { proof { reveal(network_policy_error_is); } return Err(block_syntax_error(v, toks, lo, hi)); } };
    let ghost ees = es@.map_values(|e: usize| e as int);
    let ghost ok = network_policy_entry(v@, toks@, hi as int);
    proof {
        lemma_entries_in(v@, toks@, lo as int, hi as int, ees);
        reveal_strlit(""); reveal_strlit("allowed_ip_ranges"); reveal_strlit("blocked_ip_ranges"); reveal_strlit("real_ip_header"); reveal_strlit("proxy_allowed_ips"); reveal_strlit("policy");
    }
    let mut allowed_ip_ranges: Vec<&'a str> = Vec::new();
    let mut blocked_ip_ranges: Vec<&'a str> = Vec::new();
    let mut real_ip_header: Option<&'a str> = None;
    let mut proxy_allowed_ips: Option<Vec<&'a str>> = None;
    let mut i: usize = 0;
    while i < es.len()
        invariant
            i <= es.len(),
            lo <= hi <= toks.len(),
            v@ == input@,
            v.len() < usize::MAX,
            tokens_in(v@, toks@),
            tokens_sorted(toks@),
            ees == es@.map_values(|e: usize| e as int),
            spec_entries(v@, toks@, lo as int, hi as int) == Some(ees),
            forall|m: int| 0 <= m < es.len() ==> lo <= #[trigger] ees[m] < hi,
            ok == network_policy_entry(v@, toks@, hi as int),
            forall|m: int| 0 <= m < i ==> ok(#[trigger] ees[m]),
            view_strs(allowed_ip_ranges@) == list_field(v@, toks@, spec_last_key(v@, toks@, ees.take(i as int), "allowed_ip_ranges"@)),
            view_strs(blocked_ip_ranges@) == list_field(v@, toks@, spec_last_key(v@, toks@, ees.take(i as int), "blocked_ip_ranges"@)),
            opt_text(real_ip_header) == text_field(v@, toks@, spec_last_key(v@, toks@, ees.take(i as int), "real_ip_header"@)),
            (match proxy_allowed_ips { Some(xs) => spec_last_key(v@, toks@, ees.take(i as int), "proxy_allowed_ips"@) is Some && view_strs(xs@) == list_field(v@, toks@, spec_last_key(v@, toks@, ees.take(i as int), "proxy_allowed_ips"@)), None => spec_last_key(v@, toks@, ees.take(i as int), "proxy_allowed_ips"@) is None }),
        decreases es.len() - i,
    {
        let e = es[i];
        assert(ees[i as int] == e as int);
        proof {
             reveal_strlit("allowed_ip_ranges"); reveal_strlit("blocked_ip_ranges"); reveal_strlit("real_ip_header"); reveal_strlit("proxy_allowed_ips"); reveal_strlit("policy"); reveal_strlit("true"); reveal_strlit("->"); reveal_strlit("extends");
            assert("allowed_ip_ranges"@.len() == 17);
            assert("blocked_ip_ranges"@.len() == 17);
            assert("real_ip_header"@.len() == 14);
            assert("proxy_allowed_ips"@.len() == 17);
            assert("policy"@.len() == 6);
            assert("allowed_ip_ranges"@[0] != "blocked_ip_ranges"@[0]);
            assert("allowed_ip_ranges"@[0] != "proxy_allowed_ips"@[0]);
            assert("blocked_ip_ranges"@[0] != "proxy_allowed_ips"@[0]);
            lemma_last_key_step(v@, toks@, ees, i as int, "allowed_ip_ranges"@);
            lemma_last_key_step(v@, toks@, ees, i as int, "blocked_ip_ranges"@);
            lemma_last_key_step(v@, toks@, ees, i as int, "real_ip_header"@);
            lemma_last_key_step(v@, toks@, ees, i as int, "proxy_allowed_ips"@);
            lemma_last_key_step(v@, toks@, ees, i as int, "policy"@);
        }
        if range_eq(v, toks[e].lo, toks[e].hi, "allowed_ip_ranges") {
            assert((tok_text(v@, toks@[e as int]) == "allowed_ip_ranges"@));
            if list_assign(v, toks, e, hi) { match list_of_texts(input, v, toks, e + 2) { Some(xs) => { allowed_ip_ranges = xs; }, None => { let err = field_error(input, v, toks, e, "network_policy"); proof { lemma_first_bad(ees, ok, i as int); lemma_network_policy_error(err, v@, toks@, lo as int, hi as int, ees, ees[i as int]); } return Err(err); } } } else { let err = field_error(input, v, toks, e, "network_policy"); proof { lemma_first_bad(ees, ok, i as int); lemma_network_policy_error(err, v@, toks@, lo as int, hi as int, ees, ees[i as int]); } return Err(err); }
        } else if range_eq(v, toks[e].lo, toks[e].hi, "blocked_ip_ranges") {
            assert((tok_text(v@, toks@[e as int]) == "blocked_ip_ranges"@));
            if list_assign(v, toks, e, hi) { match list_of_texts(input, v, toks, e + 2) { Some(xs) => { blocked_ip_ranges = xs; }, None => { let err = field_error(input, v, toks, e, "network_policy"); proof { lemma_first_bad(ees, ok, i as int); lemma_network_policy_error(err, v@, toks@, lo as int, hi as int, ees, ees[i as int]); } return Err(err); } } } else { let err = field_error(input, v, toks, e, "network_policy"); proof { lemma_first_bad(ees, ok, i as int); lemma_network_policy_error(err, v@, toks@, lo as int, hi as int, ees, ees[i as int]); } return Err(err); }
        } else if range_eq(v, toks[e].lo, toks[e].hi, "real_ip_header") {
            assert((tok_text(v@, toks@[e as int]) == "real_ip_header"@));
            if text_assign(v, toks, e, hi) { real_ip_header = Some(text_of(input, v, toks, e + 2)); } else { let err = field_error(input, v, toks, e, "network_policy"); proof { lemma_first_bad(ees, ok, i as int); lemma_network_policy_error(err, v@, toks@, lo as int, hi as int, ees, ees[i as int]); } return Err(err); }
        } else if range_eq(v, toks[e].lo, toks[e].hi, "proxy_allowed_ips") {
            assert((tok_text(v@, toks@[e as int]) == "proxy_allowed_ips"@));
            if list_assign(v, toks, e, hi) { match list_of_texts(input, v, toks, e + 2) { Some(xs) => { proxy_allowed_ips = Some(xs); }, None => { let err = field_error(input, v, toks, e, "network_policy"); proof { lemma_first_bad(ees, ok, i as int); lemma_network_policy_error(err, v@, toks@, lo as int, hi as int, ees, ees[i as int]); } return Err(err); } } } else { let err = field_error(input, v, toks, e, "network_policy"); proof { lemma_first_bad(ees, ok, i as int); lemma_network_policy_error(err, v@, toks@, lo as int, hi as int, ees, ees[i as int]); } return Err(err); }
        } else if range_eq(v, toks[e].lo, toks[e].hi, "policy") {
            assert((tok_text(v@, toks@[e as int]) == "policy"@));
            if text_assign(v, toks, e, hi) { } else { let err = field_error(input, v, toks, e, "network_policy"); proof { lemma_first_bad(ees, ok, i as int); lemma_network_policy_error(err, v@, toks@, lo as int, hi as int, ees, ees[i as int]); } return Err(err); }
        } else {
            { let err = field_error(input, v, toks, e, "network_policy"); proof { lemma_first_bad(ees, ok, i as int); lemma_network_policy_error(err, v@, toks@, lo as int, hi as int, ees, ees[i as int]); } return Err(err); }
        }
        i = i + 1;
    }
    proof {
        lemma_first_bad(ees, ok, es.len() as int);
        assert(ees.take(es.len() as int) =~= ees);
    }

    Ok(RawNetworkPolicy { allowed_ip_ranges, blocked_ip_ranges, real_ip_header, proxy_allowed_ips })
}

/// Whether the entry at `e` can stand in a `limits` block.
pub open spec fn limits_entry_ok(s: Seq<char>, t: Seq<Token>, hi: int, e: int) -> bool {
    let k = tok_text(s, t[e]);
    ((k == "connections"@) && is_text_assign(s, t, e, hi))
    || ((k == "request_size"@) && is_text_assign(s, t, e, hi))
}

/// The entries that can stand in a `limits` block whose tokens end at `hi`.
pub open spec fn limits_entry(s: Seq<char>, t: Seq<Token>, hi: int) -> spec_fn(int) -> bool {
    |e: int| limits_entry_ok(s, t, hi, e)
}

/// Whether the tokens from `lo` to `hi` read as a `limits` block.
pub open spec fn limits_ok(s: Seq<char>, t: Seq<Token>, lo: int, hi: int) -> bool {
    spec_entries(s, t, lo, hi) matches Some(es) && spec_first_bad(es, limits_entry(s, t, hi)) is None
}

/// The error for an entry at `e` that cannot stand in a `limits` block.
pub open spec fn limits_fault_is(err: ConfigError, s: Seq<char>, t: Seq<Token>, hi: int, e: int) -> bool {
    let k = tok_text(s, t[e]);
    is_syntax_error(err, "unexpected field '"@ + k + "' in "@ + "limits block"@, s, t[e].lo as int)
}

/// The error that reading a `limits` block from `lo` to `hi` ends with, when it does not read.
#[verifier::opaque]
pub open spec fn limits_error_is(err: ConfigError, s: Seq<char>, t: Seq<Token>, lo: int, hi: int) -> bool {
    match spec_entries(s, t, lo, hi) {
        None => is_syntax_error(err, "syntax error in gateway file"@, s, tok_pos(s, t, lo)),
        Some(es) => match spec_first_bad(es, limits_entry(s, t, hi)) {
            Some(e) => limits_fault_is(err, s, t, hi, e),
            None => true,
        },
    }
}

/// Whether `r` holds what a `limits` block from `lo` to `hi` sets: each field the value of
/// the last entry that sets it.
pub open spec fn limits_is(r: RawListenerLimits<'_>, s: Seq<char>, t: Seq<Token>, lo: int, hi: int) -> bool {
    let es = match spec_entries(s, t, lo, hi) { Some(es) => es, None => Seq::empty() };
    opt_int(r.connections, |x: u64| x as int) == number_field(s, t, spec_last_key(s, t, es, "connections"@), u64::MAX as int)
    && opt_text(r.request_size) == text_field(s, t, spec_last_key(s, t, es, "request_size"@))
}

pub proof fn lemma_limits_error(err: ConfigError, s: Seq<char>, t: Seq<Token>, lo: int, hi: int, es: Seq<int>, e: int)
    requires
        spec_entries(s, t, lo, hi) == Some(es),
        spec_first_bad(es, limits_entry(s, t, hi)) == Some(e),
        limits_fault_is(err, s, t, hi, e),
    ensures
        limits_error_is(err, s, t, lo, hi),
{
    reveal(limits_error_is);
}

/// Reads a `limits` block from the tokens `lo` to `hi`.
#[verifier::spinoff_prover]
#[verifier::rlimit(100)]
pub fn read_limits<'a>(input: &'a str, v: &Vec<char>, toks: &Vec<Token>, lo: usize, hi: usize) -> (r: Result<RawListenerLimits<'a>, ConfigError>)
    requires
        lo <= hi <= toks.len(),
        v@ == input@,
        v.len() < usize::MAX,
        tokens_in(v@, toks@),
        tokens_sorted(toks@),
    ensures
        match r {
            Ok(b) => limits_ok(v@, toks@, lo as int, hi as int) && limits_is(b, v@, toks@, lo as int, hi as int),
            Err(err) => !limits_ok(v@, toks@, lo as int, hi as int) && limits_error_is(err, v@, toks@, lo as int, hi as int),
        },
{
    let es = match entries(v, toks, lo, hi) { Some(es) => es, None => { proof { reveal(limits_error_is); } return Err(block_syntax_error(v, toks, lo, hi)); } };
    let ghost ees = es@.map_values(|e: usize| e as int);
    let ghost ok = limits_entry(v@, toks@, hi as int);
    proof {
        lemma_entries_in(v@, toks@, lo as int, hi as int, ees);
        reveal_strlit(""); reveal_strlit("connections"); reveal_strlit("request_size");
    }
    let mut connections: Option<u64> = None;
    let mut request_size: Option<&'a str> = None;
    let mut i: usize = 0;
    while i < es.len()
        invariant
            i <= es.len(),
            lo <= hi <= toks.len(),
            v@ == input@,
            v.len() < usize::MAX,
            tokens_in(v@, toks@),
            tokens_sorted(toks@),
            ees == es@.map_values(|e: usize| e as int),
            spec_entries(v@, toks@, lo as int, hi as int) == Some(ees),
            forall|m: int| 0 <= m < es.len() ==> lo <= #[trigger] ees[m] < hi,
            ok == limits_entry(v@, toks@, hi as int),
            forall|m: int| 0 <= m < i ==> ok(#[trigger] ees[m]),
            opt_int(connections, |x: u64| x as int) == number_field(v@, toks@, spec_last_key(v@, toks@, ees.take(i as int), "connections"@), u64::MAX as int),
            opt_text(request_size) == text_field(v@, toks@, spec_last_key(v@, toks@, ees.take(i as int), "request_size"@)),
        decreases es.len() - i,
    {
        let e = es[i];
        assert(ees[i as int] == e as int);
        proof {
             reveal_strlit("connections"); reveal_strlit("request_size"); reveal_strlit("true"); reveal_strlit("->"); reveal_strlit("extends");
            assert("connections"@.len() == 11);
            assert("request_size"@.len() == 12);
            lemma_last_key_step(v@, toks@, ees, i as int, "connections"@);
            lemma_last_key_step(v@, toks@, ees, i as int, "request_size"@);
        }
        if range_eq(v, toks[e].lo, toks[e].hi, "connections") {
            assert((tok_text(v@, toks@[e as int]) == "connections"@));
            if text_assign(v, toks, e, hi) { connections = match parse_unsigned_range(v, toks[e + 2].lo, toks[e + 2].hi, u64::MAX as u64) { Some(n) => Some(n as u64), None => None }; } else { let err = field_error(input, v, toks, e, "limits block"); proof { lemma_first_bad(ees, ok, i as int); lemma_limits_error(err, v@, toks@, lo as int, hi as int, ees, ees[i as int]); } return Err(err); }
        } else if range_eq(v, toks[e].lo, toks[e].hi, "request_size") {
            assert((tok_text(v@, toks@[e as int]) == "request_size"@));
            if text_assign(v, toks, e, hi) { request_size = Some(text_of(input, v, toks, e + 2)); } else { let err = field_error(input, v, toks, e, "limits block"); proof { lemma_first_bad(ees, ok, i as int); lemma_limits_error(err, v@, toks@, lo as int, hi as int, ees, ees[i as int]); } return Err(err); }
        } else {
            { let err = field_error(input, v, toks, e, "limits block"); proof { lemma_first_bad(ees, ok, i as int); lemma_limits_error(err, v@, toks@, lo as int, hi as int, ees, ees[i as int]); } return Err(err); }
        }
        i = i + 1;
    }
    proof {
        lemma_first_bad(ees, ok, es.len() as int);
        assert(ees.take(es.len() as int) =~= ees);
    }

    Ok(RawListenerLimits { connections, request_size })
}

/// Whether the entry at `e` can stand in a listener `timeouts` block.
pub open spec fn listener_timeouts_entry_ok(s: Seq<char>, t: Seq<Token>, hi: int, e: int) -> bool {
    let k = tok_text(s, t[e]);
    ((k == "idle"@) && is_text_assign(s, t, e, hi))
    || ((k == "keepalive"@) && is_text_assign(s, t, e, hi))
}

/// The entries that can stand in a listener `timeouts` block whose tokens end at `hi`.
pub open spec fn listener_timeouts_entry(s: Seq<char>, t: Seq<Token>, hi: int) -> spec_fn(int) -> bool {
    |e: int| listener_timeouts_entry_ok(s, t, hi, e)
}

/// Whether the tokens from `lo` to `hi` read as a listener `timeouts` block.
pub open spec fn listener_timeouts_ok(s: Seq<char>, t: Seq<Token>, lo: int, hi: int) -> bool {
    spec_entries(s, t, lo, hi) matches Some(es) && spec_first_bad(es, listener_timeouts_entry(s, t, hi)) is None
}

/// The error for an entry at `e` that cannot stand in a listener `timeouts` block.
pub open spec fn listener_timeouts_fault_is(err: ConfigError, s: Seq<char>, t: Seq<Token>, hi: int, e: int) -> bool {
    let k = tok_text(s, t[e]);
    is_syntax_error(err, "unexpected field '"@ + k + "' in "@ + "timeouts block"@, s, t[e].lo as int)
}

/// The error that reading a listener `timeouts` block from `lo` to `hi` ends with, when it does not read.
#[verifier::opaque]
pub open spec fn listener_timeouts_error_is(err: ConfigError, s: Seq<char>, t: Seq<Token>, lo: int, hi: int) -> bool {
    match spec_entries(s, t, lo, hi) {
        None => is_syntax_error(err, "syntax error in gateway file"@, s, tok_pos(s, t, lo)),
        Some(es) => match spec_first_bad(es, listener_timeouts_entry(s, t, hi)) {
            Some(e) => listener_timeouts_fault_is(err, s, t, hi, e),
            None => true,
        },
    }
}

/// Whether `r` holds what a listener `timeouts` block from `lo` to `hi` sets: each field the value of
/// the last entry that sets it.
pub open spec fn listener_timeouts_is(r: RawListenerTimeouts, s: Seq<char>, t: Seq<Token>, lo: int, hi: int) -> bool {
    let es = match spec_entries(s, t, lo, hi) { Some(es) => es, None => Seq::empty() };
    r.idle == duration_field(s, t, spec_last_key(s, t, es, "idle"@))
    && r.keepalive == duration_field(s, t, spec_last_key(s, t, es, "keepalive"@))
}

pub proof fn lemma_listener_timeouts_error(err: ConfigError, s: Seq<char>, t: Seq<Token>, lo: int, hi: int, es: Seq<int>, e: int)
    requires
        spec_entries(s, t, lo, hi) == Some(es),
        spec_first_bad(es, listener_timeouts_entry(s, t, hi)) == Some(e),
        listener_timeouts_fault_is(err, s, t, hi, e),
    ensures
        listener_timeouts_error_is(err, s, t, lo, hi),
{
    reveal(listener_timeouts_error_is);
}

/// Reads a listener `timeouts` block from the tokens `lo` to `hi`.
#[verifier::spinoff_prover]
#[verifier::rlimit(100)]
pub fn read_listener_timeouts<'a>(input: &'a str, v: &Vec<char>, toks: &Vec<Token>, lo: usize, hi: usize) -> (r: Result<RawListenerTimeouts, ConfigError>)
    requires
        lo <= hi <= toks.len(),
        v@ == input@,
        v.len() < usize::MAX,
        tokens_in(v@, toks@),
        tokens_sorted(toks@),
    ensures
        match r {
            Ok(b) => listener_timeouts_ok(v@, toks@, lo as int, hi as int) && listener_timeouts_is(b, v@, toks@, lo as int, hi as int),
            Err(err) => !listener_timeouts_ok(v@, toks@, lo as int, hi as int) && listener_timeouts_error_is(err, v@, toks@, lo as int, hi as int),
        },
{
    let es = match entries(v, toks, lo, hi) { Some(es) => es, None => { proof { reveal(listener_timeouts_error_is); } return Err(block_syntax_error(v, toks, lo, hi)); } };
    let ghost ees = es@.map_values(|e: usize| e as int);
    let ghost ok = listener_timeouts_entry(v@, toks@, hi as int);
    proof {
        lemma_entries_in(v@, toks@, lo as int, hi as int, ees);
        reveal_strlit(""); reveal_strlit("idle"); reveal_strlit("keepalive");
    }
    let mut idle: Option<Duration> = None;
    let mut keepalive: Option<Duration> = None;
    let mut i: usize = 0;
    while i < es.len()
        invariant
            i <= es.len(),
            lo <= hi <= toks.len(),
            v@ == input@,
            v.len() < usize::MAX,
            tokens_in(v@, toks@),
            tokens_sorted(toks@),
            ees == es@.map_values(|e: usize| e as int),
            spec_entries(v@, toks@, lo as int, hi as int) == Some(ees),
            forall|m: int| 0 <= m < es.len() ==> lo <= #[trigger] ees[m] < hi,
            ok == listener_timeouts_entry(v@, toks@, hi as int),
            forall|m: int| 0 <= m < i ==> ok(#[trigger] ees[m]),
            idle == duration_field(v@, toks@, spec_last_key(v@, toks@, ees.take(i as int), "idle"@)),
            keepalive == duration_field(v@, toks@, spec_last_key(v@, toks@, ees.take(i as int), "keepalive"@)),
        decreases es.len() - i,
    {
        let e = es[i];
        assert(ees[i as int] == e as int);
        proof {
             reveal_strlit("idle"); reveal_strlit("keepalive"); reveal_strlit("true"); reveal_strlit("->"); reveal_strlit("extends");
            assert("idle"@.len() == 4);
            assert("keepalive"@.len() == 9);
            lemma_last_key_step(v@, toks@, ees, i as int, "idle"@);
            lemma_last_key_step(v@, toks@, ees, i as int, "keepalive"@);
        }
        if range_eq(v, toks[e].lo, toks[e].hi, "idle") {
            assert((tok_text(v@, toks@[e as int]) == "idle"@));
            if text_assign(v, toks, e, hi) { idle = match parse_duration_millis(text_of(input, v, toks, e + 2)) { Ok(ms) => Some(duration_from_millis(ms)), Err(_) => None }; } else { let err = field_error(input, v, toks, e, "timeouts block"); proof { lemma_first_bad(ees, ok, i as int); lemma_listener_timeouts_error(err, v@, toks@, lo as int, hi as int, ees, ees[i as int]); } return Err(err); }
        } else if range_eq(v, toks[e].lo, toks[e].hi, "keepalive") {
            assert((tok_text(v@, toks@[e as int]) == "keepalive"@));
            if text_assign(v, toks, e, hi) { keepalive = match parse_duration_millis(text_of(input, v, toks, e + 2)) { Ok(ms) => Some(duration_from_millis(ms)), Err(_) => None }; } else { let err = field_error(input, v, toks, e, "timeouts block"); proof { lemma_first_bad(ees, ok, i as int); lemma_listener_timeouts_error(err, v@, toks@, lo as int, hi as int, ees, ees[i as int]); } return Err(err); }
        } else {
            { let err = field_error(input, v, toks, e, "timeouts block"); proof { lemma_first_bad(ees, ok, i as int); lemma_listener_timeouts_error(err, v@, toks@, lo as int, hi as int, ees, ees[i as int]); } return Err(err); }
        }
        i = i + 1;
    }
    proof {
        lemma_first_bad(ees, ok, es.len() as int);
        assert(ees.take(es.len() as int) =~= ees);
    }

    Ok(RawListenerTimeouts { idle, keepalive })
}

/// Whether the entry at `e` can stand in a route `timeouts` block.
pub open spec fn route_timeouts_entry_ok(s: Seq<char>, t: Seq<Token>, hi: int, e: int) -> bool {
    let k = tok_text(s, t[e]);
    ((k == "connect"@) && is_text_assign(s, t, e, hi) && spec_duration_millis(assign_text(s, t, e)) is Ok)
    || ((k == "read"@) && is_text_assign(s, t, e, hi) && spec_duration_millis(assign_text(s, t, e)) is Ok)
    || ((k == "send"@) && is_text_assign(s, t, e, hi) && spec_duration_millis(assign_text(s, t, e)) is Ok)
}

/// The entries that can stand in a route `timeouts` block whose tokens end at `hi`.
pub open spec fn route_timeouts_entry(s: Seq<char>, t: Seq<Token>, hi: int) -> spec_fn(int) -> bool {
    |e: int| route_timeouts_entry_ok(s, t, hi, e)
}

/// Whether the tokens from `lo` to `hi` read as a route `timeouts` block.
pub open spec fn route_timeouts_ok(s: Seq<char>, t: Seq<Token>, lo: int, hi: int) -> bool {
    spec_entries(s, t, lo, hi) matches Some(es) && spec_first_bad(es, route_timeouts_entry(s, t, hi)) is None
}

/// The error for an entry at `e` that cannot stand in a route `timeouts` block.
pub open spec fn route_timeouts_fault_is(err: ConfigError, s: Seq<char>, t: Seq<Token>, hi: int, e: int) -> bool {
    let k = tok_text(s, t[e]);
    if (k == "connect"@) {
        (if !is_text_assign(s, t, e, hi) { is_syntax_error(err, "unexpected field '"@ + k + "' in "@ + "timeouts block"@, s, t[e].lo as int) } else { match spec_duration_millis(assign_text(s, t, e)) { Err(m) => is_read_error(err, m), Ok(_) => true } })
    } else if (k == "read"@) {
        (if !is_text_assign(s, t, e, hi) { is_syntax_error(err, "unexpected field '"@ + k + "' in "@ + "timeouts block"@, s, t[e].lo as int) } else { match spec_duration_millis(assign_text(s, t, e)) { Err(m) => is_read_error(err, m), Ok(_) => true } })
    } else if (k == "send"@) {
        (if !is_text_assign(s, t, e, hi) { is_syntax_error(err, "unexpected field '"@ + k + "' in "@ + "timeouts block"@, s, t[e].lo as int) } else { match spec_duration_millis(assign_text(s, t, e)) { Err(m) => is_read_error(err, m), Ok(_) => true } })
    } else {
        is_syntax_error(err, "unexpected field '"@ + k + "' in "@ + "timeouts block"@, s, t[e].lo as int)
    }
}

/// The error that reading a route `timeouts` block from `lo` to `hi` ends with, when it does not read.
#[verifier::opaque]
pub open spec fn route_timeouts_error_is(err: ConfigError, s: Seq<char>, t: Seq<Token>, lo: int, hi: int) -> bool {
    match spec_entries(s, t, lo, hi) {
        None => is_syntax_error(err, "syntax error in gateway file"@, s, tok_pos(s, t, lo)),
        Some(es) => match spec_first_bad(es, route_timeouts_entry(s, t, hi)) {
            Some(e) => route_timeouts_fault_is(err, s, t, hi, e),
            None => true,
        },
    }
}

/// Whether `r` holds what a route `timeouts` block from `lo` to `hi` sets: each field the value of
/// the last entry that sets it.
pub open spec fn route_timeouts_is(r: RawRouteTimeouts, s: Seq<char>, t: Seq<Token>, lo: int, hi: int) -> bool {
    let es = match spec_entries(s, t, lo, hi) { Some(es) => es, None => Seq::empty() };
    r.connect == duration_field(s, t, spec_last_key(s, t, es, "connect"@))
    && r.read == duration_field(s, t, spec_last_key(s, t, es, "read"@))
    && r.send == duration_field(s, t, spec_last_key(s, t, es, "send"@))
}

pub proof fn lemma_route_timeouts_error(err: ConfigError, s: Seq<char>, t: Seq<Token>, lo: int, hi: int, es: Seq<int>, e: int)
    requires
        spec_entries(s, t, lo, hi) == Some(es),
        spec_first_bad(es, route_timeouts_entry(s, t, hi)) == Some(e),
        route_timeouts_fault_is(err, s, t, hi, e),
    ensures
        route_timeouts_error_is(err, s, t, lo, hi),
{
    reveal(route_timeouts_error_is);
}

/// Reads a route `timeouts` block from the tokens `lo` to `hi`.
#[verifier::spinoff_prover]
#[verifier::rlimit(100)]
pub fn read_route_timeouts<'a>(input: &'a str, v: &Vec<char>, toks: &Vec<Token>, lo: usize, hi: usize) -> (r: Result<RawRouteTimeouts, ConfigError>)
    requires
        lo <= hi <= toks.len(),
        v@ == input@,
        v.len() < usize::MAX,
        tokens_in(v@, toks@),
        tokens_sorted(toks@),
    ensures
        match r {
            Ok(b) => route_timeouts_ok(v@, toks@, lo as int, hi as int) && route_timeouts_is(b, v@, toks@, lo as int, hi as int),
            Err(err) => !route_timeouts_ok(v@, toks@, lo as int, hi as int) && route_timeouts_error_is(err, v@, toks@, lo as int, hi as int),
        },
{
    let es = match entries(v, toks, lo, hi) { Some(es) => es, None => { proof { reveal(route_timeouts_error_is); } return Err(block_syntax_error(v, toks, lo, hi)); } };
    let ghost ees = es@.map_values(|e: usize| e as int);
    let ghost ok = route_timeouts_entry(v@, toks@, hi as int);
    proof {
        lemma_entries_in(v@, toks@, lo as int, hi as int, ees);
        reveal_strlit(""); reveal_strlit("connect"); reveal_strlit("read"); reveal_strlit("send");
    }
    let mut connect: Option<Duration> = None;
    let mut read: Option<Duration> = None;
    let mut send: Option<Duration> = None;
    let mut i: usize = 0;
    while i < es.len()
        invariant
            i <= es.len(),
            lo <= hi <= toks.len(),
            v@ == input@,
            v.len() < usize::MAX,
            tokens_in(v@, toks@),
            tokens_sorted(toks@),
            ees == es@.map_values(|e: usize| e as int),
            spec_entries(v@, toks@, lo as int, hi as int) == Some(ees),
            forall|m: int| 0 <= m < es.len() ==> lo <= #[trigger] ees[m] < hi,
            ok == route_timeouts_entry(v@, toks@, hi as int),
            forall|m: int| 0 <= m < i ==> ok(#[trigger] ees[m]),
            connect == duration_field(v@, toks@, spec_last_key(v@, toks@, ees.take(i as int), "connect"@)),
            read == duration_field(v@, toks@, spec_last_key(v@, toks@, ees.take(i as int), "read"@)),
            send == duration_field(v@, toks@, spec_last_key(v@, toks@, ees.take(i as int), "send"@)),
        decreases es.len() - i,
    {
        let e = es[i];
        assert(ees[i as int] == e as int);
        proof {
             reveal_strlit("connect"); reveal_strlit("read"); reveal_strlit("send"); reveal_strlit("true"); reveal_strlit("->"); reveal_strlit("extends");
            assert("connect"@.len() == 7);
            assert("read"@.len() == 4);
            assert("send"@.len() == 4);
            assert("read"@[0] != "send"@[0]);
            lemma_last_key_step(v@, toks@, ees, i as int, "connect"@);
            lemma_last_key_step(v@, toks@, ees, i as int, "read"@);
            lemma_last_key_step(v@, toks@, ees, i as int, "send"@);
        }
        if range_eq(v, toks[e].lo, toks[e].hi, "connect") {
            assert((tok_text(v@, toks@[e as int]) == "connect"@));
            if text_assign(v, toks, e, hi) { match parse_duration_millis(text_of(input, v, toks, e + 2)) { Ok(ms) => { connect = Some(duration_from_millis(ms)); }, Err(m) => { let err = ConfigError::parse(m); proof { lemma_first_bad(ees, ok, i as int); lemma_route_timeouts_error(err, v@, toks@, lo as int, hi as int, ees, ees[i as int]); } return Err(err); } } } else { let err = field_error(input, v, toks, e, "timeouts block"); proof { lemma_first_bad(ees, ok, i as int); lemma_route_timeouts_error(err, v@, toks@, lo as int, hi as int, ees, ees[i as int]); } return Err(err); }
        } else if range_eq(v, toks[e].lo, toks[e].hi, "read") {
            assert((tok_text(v@, toks@[e as int]) == "read"@));
            if text_assign(v, toks, e, hi) { match parse_duration_millis(text_of(input, v, toks, e + 2)) { Ok(ms) => { read = Some(duration_from_millis(ms)); }, Err(m) => { let err = ConfigError::parse(m); proof { lemma_first_bad(ees, ok, i as int); lemma_route_timeouts_error(err, v@, toks@, lo as int, hi as int, ees, ees[i as int]); } return Err(err); } } } else { let err = field_error(input, v, toks, e, "timeouts block"); proof { lemma_first_bad(ees, ok, i as int); lemma_route_timeouts_error(err, v@, toks@, lo as int, hi as int, ees, ees[i as int]); } return Err(err); }
        } else if range_eq(v, toks[e].lo, toks[e].hi, "send") {
            assert((tok_text(v@, toks@[e as int]) == "send"@));
            if text_assign(v, toks, e, hi) { match parse_duration_millis(text_of(input, v, toks, e + 2)) { Ok(ms) => { send = Some(duration_from_millis(ms)); }, Err(m) => { let err = ConfigError::parse(m); proof { lemma_first_bad(ees, ok, i as int); lemma_route_timeouts_error(err, v@, toks@, lo as int, hi as int, ees, ees[i as int]); } return Err(err); } } } else { let err = field_error(input, v, toks, e, "timeouts block"); proof { lemma_first_bad(ees, ok, i as int); lemma_route_timeouts_error(err, v@, toks@, lo as int, hi as int, ees, ees[i as int]); } return Err(err); }
        } else {
            { let err = field_error(input, v, toks, e, "timeouts block"); proof { lemma_first_bad(ees, ok, i as int); lemma_route_timeouts_error(err, v@, toks@, lo as int, hi as int, ees, ees[i as int]); } return Err(err); }
        }
        i = i + 1;
    }
    proof {
        lemma_first_bad(ees, ok, es.len() as int);
        assert(ees.take(es.len() as int) =~= ees);
    }

    Ok(RawRouteTimeouts { connect, read, send })
}

/// Whether the entry at `e` can stand in a `streaming` block.
pub open spec fn streaming_entry_ok(s: Seq<char>, t: Seq<Token>, hi: int, e: int) -> bool {
    let k = tok_text(s, t[e]);
    ((k == "buffering"@) && is_text_assign(s, t, e, hi))
    || ((k == "chunked"@) && is_text_assign(s, t, e, hi))
}

/// The entries that can stand in a `streaming` block whose tokens end at `hi`.
pub open spec fn streaming_entry(s: Seq<char>, t: Seq<Token>, hi: int) -> spec_fn(int) -> bool {
    |e: int| streaming_entry_ok(s, t, hi, e)
}

/// Whether the tokens from `lo` to `hi` read as a `streaming` block.
pub open spec fn streaming_ok(s: Seq<char>, t: Seq<Token>, lo: int, hi: int) -> bool {
    spec_entries(s, t, lo, hi) matches Some(es) && spec_first_bad(es, streaming_entry(s, t, hi)) is None
}

/// The error for an entry at `e` that cannot stand in a `streaming` block.
pub open spec fn streaming_fault_is(err: ConfigError, s: Seq<char>, t: Seq<Token>, hi: int, e: int) -> bool {
    let k = tok_text(s, t[e]);
    is_syntax_error(err, "unexpected field '"@ + k + "' in "@ + "streaming block"@, s, t[e].lo as int)
}

/// The error that reading a `streaming` block from `lo` to `hi` ends with, when it does not read.
#[verifier::opaque]
pub open spec fn streaming_error_is(err: ConfigError, s: Seq<char>, t: Seq<Token>, lo: int, hi: int) -> bool {
    match spec_entries(s, t, lo, hi) {
        None => is_syntax_error(err, "syntax error in gateway file"@, s, tok_pos(s, t, lo)),
        Some(es) => match spec_first_bad(es, streaming_entry(s, t, hi)) {
            Some(e) => streaming_fault_is(err, s, t, hi, e),
            None => true,
        },
    }
}

/// Whether `r` holds what a `streaming` block from `lo` to `hi` sets: each field the value of
/// the last entry that sets it.
pub open spec fn streaming_is(r: RawStreaming, s: Seq<char>, t: Seq<Token>, lo: int, hi: int) -> bool {
    let es = match spec_entries(s, t, lo, hi) { Some(es) => es, None => Seq::empty() };
    r.buffering == bool_field(s, t, spec_last_key(s, t, es, "buffering"@))
    && r.chunked == bool_field(s, t, spec_last_key(s, t, es, "chunked"@))
}

pub proof fn lemma_streaming_error(err: ConfigError, s: Seq<char>, t: Seq<Token>, lo: int, hi: int, es: Seq<int>, e: int)
    requires
        spec_entries(s, t, lo, hi) == Some(es),
        spec_first_bad(es, streaming_entry(s, t, hi)) == Some(e),
        streaming_fault_is(err, s, t, hi, e),
    ensures
        streaming_error_is(err, s, t, lo, hi),
{
    reveal(streaming_error_is);
}

/// Reads a `streaming` block from the tokens `lo` to `hi`.
#[verifier::spinoff_prover]
#[verifier::rlimit(100)]
pub fn read_streaming<'a>(input: &'a str, v: &Vec<char>, toks: &Vec<Token>, lo: usize, hi: usize) -> (r: Result<RawStreaming, ConfigError>)
    requires
        lo <= hi <= toks.len(),
        v@ == input@,
        v.len() < usize::MAX,
        tokens_in(v@, toks@),
        tokens_sorted(toks@),
    ensures
        match r {
            Ok(b) => streaming_ok(v@, toks@, lo as int, hi as int) && streaming_is(b, v@, toks@, lo as int, hi as int),
            Err(err) => !streaming_ok(v@, toks@, lo as int, hi as int) && streaming_error_is(err, v@, toks@, lo as int, hi as int),
        },
{
    let es = match entries(v, toks, lo, hi) { Some(es) => es, None => { proof { reveal(streaming_error_is); } return Err(block_syntax_error(v, toks, lo, hi)); } };
    let ghost ees = es@.map_values(|e: usize| e as int);
    let ghost ok = streaming_entry(v@, toks@, hi as int);
    proof {
        lemma_entries_in(v@, toks@, lo as int, hi as int, ees);
        reveal_strlit(""); reveal_strlit("buffering"); reveal_strlit("chunked");
    }
    let mut buffering: Option<bool> = None;
    let mut chunked: Option<bool> = None;
    let mut i: usize = 0;
    while i < es.len()
        invariant
            i <= es.len(),
            lo <= hi <= toks.len(),
            v@ == input@,
            v.len() < usize::MAX,
            tokens_in(v@, toks@),
            tokens_sorted(toks@),
            ees == es@.map_values(|e: usize| e as int),
            spec_entries(v@, toks@, lo as int, hi as int) == Some(ees),
            forall|m: int| 0 <= m < es.len() ==> lo <= #[trigger] ees[m] < hi,
            ok == streaming_entry(v@, toks@, hi as int),
            forall|m: int| 0 <= m < i ==> ok(#[trigger] ees[m]),
            buffering == bool_field(v@, toks@, spec_last_key(v@, toks@, ees.take(i as int), "buffering"@)),
            chunked == bool_field(v@, toks@, spec_last_key(v@, toks@, ees.take(i as int), "chunked"@)),
        decreases es.len() - i,
    {
        let e = es[i];
        assert(ees[i as int] == e as int);
        proof {
             reveal_strlit("buffering"); reveal_strlit("chunked"); reveal_strlit("true"); reveal_strlit("->"); reveal_strlit("extends");
            assert("buffering"@.len() == 9);
            assert("chunked"@.len() == 7);
            lemma_last_key_step(v@, toks@, ees, i as int, "buffering"@);
            lemma_last_key_step(v@, toks@, ees, i as int, "chunked"@);
        }
        if range_eq(v, toks[e].lo, toks[e].hi, "buffering") {
            assert((tok_text(v@, toks@[e as int]) == "buffering"@));
            if text_assign(v, toks, e, hi) { buffering = Some(range_eq(v, toks[e + 2].lo, toks[e + 2].hi, "true")); } else { let err = field_error(input, v, toks, e, "streaming block"); proof { lemma_first_bad(ees, ok, i as int); lemma_streaming_error(err, v@, toks@, lo as int, hi as int, ees, ees[i as int]); } return Err(err); }
        } else if range_eq(v, toks[e].lo, toks[e].hi, "chunked") {
            assert((tok_text(v@, toks@[e as int]) == "chunked"@));
            if text_assign(v, toks, e, hi) { chunked = Some(range_eq(v, toks[e + 2].lo, toks[e + 2].hi, "true")); } else { let err = field_error(input, v, toks, e, "streaming block"); proof { lemma_first_bad(ees, ok, i as int); lemma_streaming_error(err, v@, toks@, lo as int, hi as int, ees, ees[i as int]); } return Err(err); }
        } else {
            { let err = field_error(input, v, toks, e, "streaming block"); proof { lemma_first_bad(ees, ok, i as int); lemma_streaming_error(err, v@, toks@, lo as int, hi as int, ees, ees[i as int]); } return Err(err); }
        }
        i = i + 1;
    }
    proof {
        lemma_first_bad(ees, ok, es.len() as int);
        assert(ees.take(es.len() as int) =~= ees);
    }

    Ok(RawStreaming { buffering, chunked })
}

/// Whether the entry at `e` can stand in a `helmet` policy.
pub open spec fn helmet_entry_ok(s: Seq<char>, t: Seq<Token>, hi: int, e: int) -> bool {
    let k = tok_text(s, t[e]);
    ((k == "target"@) && is_value_assign(s, t, e, hi))
    || ((k == "level"@) && is_value_assign(s, t, e, hi))
    || !((k == "target"@) || (k == "level"@))
}

/// The entries that can stand in a `helmet` policy whose tokens end at `hi`.
pub open spec fn helmet_entry(s: Seq<char>, t: Seq<Token>, hi: int) -> spec_fn(int) -> bool {
    |e: int| helmet_entry_ok(s, t, hi, e)
}

/// Whether the tokens from `lo` to `hi` read as a `helmet` policy.
pub open spec fn helmet_ok(s: Seq<char>, t: Seq<Token>, lo: int, hi: int) -> bool {
    spec_entries(s, t, lo, hi) matches Some(es) && spec_first_bad(es, helmet_entry(s, t, hi)) is None
}

/// The error for an entry at `e` that cannot stand in a `helmet` policy.
pub open spec fn helmet_fault_is(err: ConfigError, s: Seq<char>, t: Seq<Token>, hi: int, e: int) -> bool {
    let k = tok_text(s, t[e]);
    if ((k == "target"@) || (k == "level"@)) {
        is_syntax_error(err, "unexpected field '"@ + k + "' in "@ + "helmet policy"@, s, t[e].lo as int)
    } else {
        true
    }
}

/// The error that reading a `helmet` policy from `lo` to `hi` ends with, when it does not read.
#[verifier::opaque]
pub open spec fn helmet_error_is(err: ConfigError, s: Seq<char>, t: Seq<Token>, lo: int, hi: int) -> bool {
    match spec_entries(s, t, lo, hi) {
        None => is_syntax_error(err, "syntax error in gateway file"@, s, tok_pos(s, t, lo)),
        Some(es) => match spec_first_bad(es, helmet_entry(s, t, hi)) {
            Some(e) => helmet_fault_is(err, s, t, hi, e),
            None => true,
        },
    }
}

/// Whether `r` holds what a `helmet` policy from `lo` to `hi` sets: each field the value of
/// the last entry that sets it.
pub open spec fn helmet_is(r: RawHelmetConfig<'_>, s: Seq<char>, t: Seq<Token>, lo: int, hi: int) -> bool {
    let es = match spec_entries(s, t, lo, hi) { Some(es) => es, None => Seq::empty() };
    opt_text(r.target) == raw_field(s, t, hi, spec_last_key(s, t, es, "target"@))
    && opt_text(r.level) == raw_field(s, t, hi, spec_last_key(s, t, es, "level"@))
}

pub proof fn lemma_helmet_error(err: ConfigError, s: Seq<char>, t: Seq<Token>, lo: int, hi: int, es: Seq<int>, e: int)
    requires
        spec_entries(s, t, lo, hi) == Some(es),
        spec_first_bad(es, helmet_entry(s, t, hi)) == Some(e),
        helmet_fault_is(err, s, t, hi, e),
    ensures
        helmet_error_is(err, s, t, lo, hi),
{
    reveal(helmet_error_is);
}

/// Reads a `helmet` policy from the tokens `lo` to `hi`.
#[verifier::spinoff_prover]
#[verifier::rlimit(100)]
pub fn read_helmet<'a>(input: &'a str, v: &Vec<char>, toks: &Vec<Token>, lo: usize, hi: usize) -> (r: Result<RawHelmetConfig<'a>, ConfigError>)
    requires
        lo <= hi <= toks.len(),
        v@ == input@,
        v.len() < usize::MAX,
        tokens_in(v@, toks@),
        tokens_sorted(toks@),
    ensures
        match r {
            Ok(b) => helmet_ok(v@, toks@, lo as int, hi as int) && helmet_is(b, v@, toks@, lo as int, hi as int),
            Err(err) => !helmet_ok(v@, toks@, lo as int, hi as int) && helmet_error_is(err, v@, toks@, lo as int, hi as int),
        },
{
    let es = match entries(v, toks, lo, hi) { Some(es) => es, None => { proof { reveal(helmet_error_is); } return Err(block_syntax_error(v, toks, lo, hi)); } };
    let ghost ees = es@.map_values(|e: usize| e as int);
    let ghost ok = helmet_entry(v@, toks@, hi as int);
    proof {
        lemma_entries_in(v@, toks@, lo as int, hi as int, ees);
        reveal_strlit(""); reveal_strlit("target"); reveal_strlit("level");
    }
    let mut target: Option<&'a str> = None;
    let mut level: Option<&'a str> = None;
    let mut i: usize = 0;
    while i < es.len()
        invariant
            i <= es.len(),
            lo <= hi <= toks.len(),
            v@ == input@,
            v.len() < usize::MAX,
            tokens_in(v@, toks@),
            tokens_sorted(toks@),
            ees == es@.map_values(|e: usize| e as int),
            spec_entries(v@, toks@, lo as int, hi as int) == Some(ees),
            forall|m: int| 0 <= m < es.len() ==> lo <= #[trigger] ees[m] < hi,
            ok == helmet_entry(v@, toks@, hi as int),
            forall|m: int| 0 <= m < i ==> ok(#[trigger] ees[m]),
            opt_text(target) == raw_field(v@, toks@, hi as int, spec_last_key(v@, toks@, ees.take(i as int), "target"@)),
            opt_text(level) == raw_field(v@, toks@, hi as int, spec_last_key(v@, toks@, ees.take(i as int), "level"@)),
        decreases es.len() - i,
    {
        let e = es[i];
        assert(ees[i as int] == e as int);
        proof {
             reveal_strlit("target"); reveal_strlit("level"); reveal_strlit("true"); reveal_strlit("->"); reveal_strlit("extends");
            assert("target"@.len() == 6);
            assert("level"@.len() == 5);
            lemma_last_key_step(v@, toks@, ees, i as int, "target"@);
            lemma_last_key_step(v@, toks@, ees, i as int, "level"@);
        }
        if range_eq(v, toks[e].lo, toks[e].hi, "target") {
            assert((tok_text(v@, toks@[e as int]) == "target"@));
            if value_assign(v, toks, e, hi) { target = Some(value_text_of(input, v, toks, e, hi)); } else { let err = field_error(input, v, toks, e, "helmet policy"); proof { lemma_first_bad(ees, ok, i as int); lemma_helmet_error(err, v@, toks@, lo as int, hi as int, ees, ees[i as int]); } return Err(err); }
        } else if range_eq(v, toks[e].lo, toks[e].hi, "level") {
            assert((tok_text(v@, toks@[e as int]) == "level"@));
            if value_assign(v, toks, e, hi) { level = Some(value_text_of(input, v, toks, e, hi)); } else { let err = field_error(input, v, toks, e, "helmet policy"); proof { lemma_first_bad(ees, ok, i as int); lemma_helmet_error(err, v@, toks@, lo as int, hi as int, ees, ees[i as int]); } return Err(err); }
        } else {
            assert(ok(ees[i as int]));
        }
        i = i + 1;
    }
    proof {
        lemma_first_bad(ees, ok, es.len() as int);
        assert(ees.take(es.len() as int) =~= ees);
    }

    Ok(RawHelmetConfig { target, level })
}

/// Whether the entry at `e` can stand in a `limiter` policy.
pub open spec fn limiter_entry_ok(s: Seq<char>, t: Seq<Token>, hi: int, e: int) -> bool {
    let k = tok_text(s, t[e]);
    ((k == "rate"@) && is_value_assign(s, t, e, hi) && spec_rate(value_text(s, t, e, hi)) is Ok)
    || ((k == "burst"@) && is_value_assign(s, t, e, hi))
    || ((k == "strategy"@) && is_value_assign(s, t, e, hi))
    || ((k == "identifier"@) && is_value_assign(s, t, e, hi))
    || ((k == "exclude_paths"@) && is_value_assign(s, t, e, hi))
    || !((k == "rate"@) || (k == "burst"@) || (k == "strategy"@) || (k == "identifier"@) || (k == "exclude_paths"@))
}

/// The entries that can stand in a `limiter` policy whose tokens end at `hi`.
pub open spec fn limiter_entry(s: Seq<char>, t: Seq<Token>, hi: int) -> spec_fn(int) -> bool {
    |e: int| limiter_entry_ok(s, t, hi, e)
}

/// Whether the tokens from `lo` to `hi` read as a `limiter` policy.
pub open spec fn limiter_ok(s: Seq<char>, t: Seq<Token>, lo: int, hi: int) -> bool {
    spec_entries(s, t, lo, hi) matches Some(es) && spec_first_bad(es, limiter_entry(s, t, hi)) is None
}

/// The error for an entry at `e` that cannot stand in a `limiter` policy.
pub open spec fn limiter_fault_is(err: ConfigError, s: Seq<char>, t: Seq<Token>, hi: int, e: int) -> bool {
    let k = tok_text(s, t[e]);
    if (k == "rate"@) {
        (if !is_value_assign(s, t, e, hi) { is_syntax_error(err, "unexpected field '"@ + k + "' in "@ + "limiter policy"@, s, t[e].lo as int) } else { match spec_rate(value_text(s, t, e, hi)) { Err(m) => is_read_error(err, m), Ok(_) => true } })
    } else if ((k == "burst"@) || (k == "strategy"@) || (k == "identifier"@) || (k == "exclude_paths"@)) {
        is_syntax_error(err, "unexpected field '"@ + k + "' in "@ + "limiter policy"@, s, t[e].lo as int)
    } else {
        true
    }
}

/// The error that reading a `limiter` policy from `lo` to `hi` ends with, when it does not read.
#[verifier::opaque]
pub open spec fn limiter_error_is(err: ConfigError, s: Seq<char>, t: Seq<Token>, lo: int, hi: int) -> bool {
    match spec_entries(s, t, lo, hi) {
        None => is_syntax_error(err, "syntax error in gateway file"@, s, tok_pos(s, t, lo)),
        Some(es) => match spec_first_bad(es, limiter_entry(s, t, hi)) {
            Some(e) => limiter_fault_is(err, s, t, hi, e),
            None => true,
        },
    }
}

/// Whether `r` holds what a `limiter` policy from `lo` to `hi` sets: each field the value of
/// the last entry that sets it.
pub open spec fn limiter_is(r: RawLimiterConfig<'_>, s: Seq<char>, t: Seq<Token>, lo: int, hi: int) -> bool {
    let es = match spec_entries(s, t, lo, hi) { Some(es) => es, None => Seq::empty() };
    r.rate == (match raw_field(s, t, hi, spec_last_key(s, t, es, "rate"@)) { Some(x) => match spec_rate(x) { Ok(np) => Some((np.0, spec_duration_from_secs(np.1))), Err(_) => None }, None => None::<(u64, Duration)> })
    && opt_int(r.burst, |x: u64| x as int) == (match raw_field(s, t, hi, spec_last_key(s, t, es, "burst"@)) { Some(x) => parse_unsigned(x, u64::MAX as int), None => None::<int> })
    && opt_text(r.strategy) == raw_field(s, t, hi, spec_last_key(s, t, es, "strategy"@))
    && opt_text(r.identifier) == raw_field(s, t, hi, spec_last_key(s, t, es, "identifier"@))
    && view_strs(r.exclude_paths@) == (match raw_field(s, t, hi, spec_last_key(s, t, es, "exclude_paths"@)) { Some(x) => spec_csv_values(x), None => Seq::<Seq<char>>::empty() })
}

pub proof fn lemma_limiter_error(err: ConfigError, s: Seq<char>, t: Seq<Token>, lo: int, hi: int, es: Seq<int>, e: int)
    requires
        spec_entries(s, t, lo, hi) == Some(es),
        spec_first_bad(es, limiter_entry(s, t, hi)) == Some(e),
        limiter_fault_is(err, s, t, hi, e),
    ensures
        limiter_error_is(err, s, t, lo, hi),
{
    reveal(limiter_error_is);
}

/// Reads a `limiter` policy from the tokens `lo` to `hi`.
#[verifier::spinoff_prover]
#[verifier::rlimit(100)]
pub fn read_limiter<'a>(input: &'a str, v: &Vec<char>, toks: &Vec<Token>, lo: usize, hi: usize) -> (r: Result<RawLimiterConfig<'a>, ConfigError>)
    requires
        lo <= hi <= toks.len(),
        v@ == input@,
        v.len() < usize::MAX,
        tokens_in(v@, toks@),
        tokens_sorted(toks@),
    ensures
        match r {
            Ok(b) => limiter_ok(v@, toks@, lo as int, hi as int) && limiter_is(b, v@, toks@, lo as int, hi as int),
            Err(err) => !limiter_ok(v@, toks@, lo as int, hi as int) && limiter_error_is(err, v@, toks@, lo as int, hi as int),
        },
{
    let es = match entries(v, toks, lo, hi) { Some(es) => es, None => { proof { reveal(limiter_error_is); } return Err(block_syntax_error(v, toks, lo, hi)); } };
    let ghost ees = es@.map_values(|e: usize| e as int);
    let ghost ok = limiter_entry(v@, toks@, hi as int);
    proof {
        lemma_entries_in(v@, toks@, lo as int, hi as int, ees);
        reveal_strlit(""); reveal_strlit("rate"); reveal_strlit("burst"); reveal_strlit("strategy"); reveal_strlit("identifier"); reveal_strlit("exclude_paths");
    }
    let mut rate: Option<(u64, Duration)> = None;
    let mut burst: Option<u64> = None;
    let mut strategy: Option<&'a str> = None;
    let mut identifier: Option<&'a str> = None;
    let mut exclude_paths: Vec<&'a str> = Vec::new();
    let mut i: usize = 0;
    while i < es.len()
        invariant
            i <= es.len(),
            lo <= hi <= toks.len(),
            v@ == input@,
            v.len() < usize::MAX,
            tokens_in(v@, toks@),
            tokens_sorted(toks@),
            ees == es@.map_values(|e: usize| e as int),
            spec_entries(v@, toks@, lo as int, hi as int) == Some(ees),
            forall|m: int| 0 <= m < es.len() ==> lo <= #[trigger] ees[m] < hi,
            ok == limiter_entry(v@, toks@, hi as int),
            forall|m: int| 0 <= m < i ==> ok(#[trigger] ees[m]),
            rate == (match raw_field(v@, toks@, hi as int, spec_last_key(v@, toks@, ees.take(i as int), "rate"@)) { Some(x) => match spec_rate(x) { Ok(np) => Some((np.0, spec_duration_from_secs(np.1))), Err(_) => None }, None => None::<(u64, Duration)> }),
            opt_int(burst, |x: u64| x as int) == (match raw_field(v@, toks@, hi as int, spec_last_key(v@, toks@, ees.take(i as int), "burst"@)) { Some(x) => parse_unsigned(x, u64::MAX as int), None => None::<int> }),
            opt_text(strategy) == raw_field(v@, toks@, hi as int, spec_last_key(v@, toks@, ees.take(i as int), "strategy"@)),
            opt_text(identifier) == raw_field(v@, toks@, hi as int, spec_last_key(v@, toks@, ees.take(i as int), "identifier"@)),
            view_strs(exclude_paths@) == (match raw_field(v@, toks@, hi as int, spec_last_key(v@, toks@, ees.take(i as int), "exclude_paths"@)) { Some(x) => spec_csv_values(x), None => Seq::<Seq<char>>::empty() }),
        decreases es.len() - i,
    {
        let e = es[i];
        assert(ees[i as int] == e as int);
        proof {
             reveal_strlit("rate"); reveal_strlit("burst"); reveal_strlit("strategy"); reveal_strlit("identifier"); reveal_strlit("exclude_paths"); reveal_strlit("true"); reveal_strlit("->"); reveal_strlit("extends");
            assert("rate"@.len() == 4);
            assert("burst"@.len() == 5);
            assert("strategy"@.len() == 8);
            assert("identifier"@.len() == 10);
            assert("exclude_paths"@.len() == 13);
            lemma_last_key_step(v@, toks@, ees, i as int, "rate"@);
            lemma_last_key_step(v@, toks@, ees, i as int, "burst"@);
            lemma_last_key_step(v@, toks@, ees, i as int, "strategy"@);
            lemma_last_key_step(v@, toks@, ees, i as int, "identifier"@);
            lemma_last_key_step(v@, toks@, ees, i as int, "exclude_paths"@);
        }
        if range_eq(v, toks[e].lo, toks[e].hi, "rate") {
            assert((tok_text(v@, toks@[e as int]) == "rate"@));
            if value_assign(v, toks, e, hi) { match parse_rate(value_text_of(input, v, toks, e, hi)) { Ok(r) => { rate = Some(r); }, Err(m) => { let err = ConfigError::parse(m); proof { lemma_first_bad(ees, ok, i as int); lemma_limiter_error(err, v@, toks@, lo as int, hi as int, ees, ees[i as int]); } return Err(err); } } } else { let err = field_error(input, v, toks, e, "limiter policy"); proof { lemma_first_bad(ees, ok, i as int); lemma_limiter_error(err, v@, toks@, lo as int, hi as int, ees, ees[i as int]); } return Err(err); }
        } else if range_eq(v, toks[e].lo, toks[e].hi, "burst") {
            assert((tok_text(v@, toks@[e as int]) == "burst"@));
            if value_assign(v, toks, e, hi) { let x = value_text_of(input, v, toks, e, hi); burst = match parse_unsigned_str(x, u64::MAX as u64) { Some(n) => Some(n as u64), None => None }; } else { let err = field_error(input, v, toks, e, "limiter policy"); proof { lemma_first_bad(ees, ok, i as int); lemma_limiter_error(err, v@, toks@, lo as int, hi as int, ees, ees[i as int]); } return Err(err); }
        } else if range_eq(v, toks[e].lo, toks[e].hi, "strategy") {
            assert((tok_text(v@, toks@[e as int]) == "strategy"@));
            if value_assign(v, toks, e, hi) { strategy = Some(value_text_of(input, v, toks, e, hi)); } else { let err = field_error(input, v, toks, e, "limiter policy"); proof { lemma_first_bad(ees, ok, i as int); lemma_limiter_error(err, v@, toks@, lo as int, hi as int, ees, ees[i as int]); } return Err(err); }
        } else if range_eq(v, toks[e].lo, toks[e].hi, "identifier") {
            assert((tok_text(v@, toks@[e as int]) == "identifier"@));
            if value_assign(v, toks, e, hi) { identifier = Some(value_text_of(input, v, toks, e, hi)); } else { let err = field_error(input, v, toks, e, "limiter policy"); proof { lemma_first_bad(ees, ok, i as int); lemma_limiter_error(err, v@, toks@, lo as int, hi as int, ees, ees[i as int]); } return Err(err); }
        } else if range_eq(v, toks[e].lo, toks[e].hi, "exclude_paths") {
            assert((tok_text(v@, toks@[e as int]) == "exclude_paths"@));
            if value_assign(v, toks, e, hi) { exclude_paths = split_csv_values(value_text_of(input, v, toks, e, hi)); } else { let err = field_error(input, v, toks, e, "limiter policy"); proof { lemma_first_bad(ees, ok, i as int); lemma_limiter_error(err, v@, toks@, lo as int, hi as int, ees, ees[i as int]); } return Err(err); }
        } else {
            assert(ok(ees[i as int]));
        }
        i = i + 1;
    }
    proof {
        lemma_first_bad(ees, ok, es.len() as int);
        assert(ees.take(es.len() as int) =~= ees);
    }

    Ok(RawLimiterConfig { rate, burst, identifier, strategy, exclude_paths })
}

/// Whether the entry at `e` can stand in a `cors` policy.
pub open spec fn cors_entry_ok(s: Seq<char>, t: Seq<Token>, hi: int, e: int) -> bool {
    let k = tok_text(s, t[e]);
    ((k == "allow_origins"@) && is_value_assign(s, t, e, hi))
    || ((k == "allow_credentials"@) && is_value_assign(s, t, e, hi))
    || ((k == "max_age"@) && is_value_assign(s, t, e, hi) && spec_duration_millis(value_text(s, t, e, hi)) is Ok)
    || ((k == "allow_methods"@) && is_value_assign(s, t, e, hi))
    || ((k == "allow_headers"@) && is_value_assign(s, t, e, hi))
    || ((k == "expose_headers"@) && is_value_assign(s, t, e, hi))
    || ((k == "exclude_paths"@) && is_value_assign(s, t, e, hi))
    || !((k == "allow_origins"@) || (k == "allow_credentials"@) || (k == "max_age"@) || (k == "allow_methods"@) || (k == "allow_headers"@) || (k == "expose_headers"@) || (k == "exclude_paths"@))
}

/// The entries that can stand in a `cors` policy whose tokens end at `hi`.
pub open spec fn cors_entry(s: Seq<char>, t: Seq<Token>, hi: int) -> spec_fn(int) -> bool {
    |e: int| cors_entry_ok(s, t, hi, e)
}

/// Whether the tokens from `lo` to `hi` read as a `cors` policy.
pub open spec fn cors_ok(s: Seq<char>, t: Seq<Token>, lo: int, hi: int) -> bool {
    spec_entries(s, t, lo, hi) matches Some(es) && spec_first_bad(es, cors_entry(s, t, hi)) is None
}

/// The error for an entry at `e` that cannot stand in a `cors` policy.
pub open spec fn cors_fault_is(err: ConfigError, s: Seq<char>, t: Seq<Token>, hi: int, e: int) -> bool {
    let k = tok_text(s, t[e]);
    if (k == "max_age"@) {
        (if !is_value_assign(s, t, e, hi) { is_syntax_error(err, "unexpected field '"@ + k + "' in "@ + "cors policy"@, s, t[e].lo as int) } else { match spec_duration_millis(value_text(s, t, e, hi)) { Err(m) => is_read_error(err, m), Ok(_) => true } })
    } else if ((k == "allow_origins"@) || (k == "allow_credentials"@) || (k == "allow_methods"@) || (k == "allow_headers"@) || (k == "expose_headers"@) || (k == "exclude_paths"@)) {
        is_syntax_error(err, "unexpected field '"@ + k + "' in "@ + "cors policy"@, s, t[e].lo as int)
    } else {
        true
    }
}

/// The error that reading a `cors` policy from `lo` to `hi` ends with, when it does not read.
#[verifier::opaque]
pub open spec fn cors_error_is(err: ConfigError, s: Seq<char>, t: Seq<Token>, lo: int, hi: int) -> bool {
    match spec_entries(s, t, lo, hi) {
        None => is_syntax_error(err, "syntax error in gateway file"@, s, tok_pos(s, t, lo)),
        Some(es) => match spec_first_bad(es, cors_entry(s, t, hi)) {
            Some(e) => cors_fault_is(err, s, t, hi, e),
            None => true,
        },
    }
}

/// Whether `r` holds what a `cors` policy from `lo` to `hi` sets: each field the value of
/// the last entry that sets it.
pub open spec fn cors_is(r: RawCorsConfig<'_>, s: Seq<char>, t: Seq<Token>, lo: int, hi: int) -> bool {
    let es = match spec_entries(s, t, lo, hi) { Some(es) => es, None => Seq::empty() };
    view_strs(r.allow_origins@) == (match raw_field(s, t, hi, spec_last_key(s, t, es, "allow_origins"@)) { Some(x) => spec_csv_values(x), None => Seq::<Seq<char>>::empty() })
    && r.allow_credentials == (match raw_field(s, t, hi, spec_last_key(s, t, es, "allow_credentials"@)) { Some(x) => Some(x == "true"@), None => None::<bool> })
    && r.max_age == (match raw_field(s, t, hi, spec_last_key(s, t, es, "max_age"@)) { Some(x) => match spec_duration_millis(x) { Ok(ms) => Some(spec_duration_from_millis(ms)), Err(_) => None }, None => None::<Duration> })
    && view_strs(r.allow_methods@) == (match raw_field(s, t, hi, spec_last_key(s, t, es, "allow_methods"@)) { Some(x) => spec_csv_values(x), None => Seq::<Seq<char>>::empty() })
    && view_strs(r.allow_headers@) == (match raw_field(s, t, hi, spec_last_key(s, t, es, "allow_headers"@)) { Some(x) => spec_csv_values(x), None => Seq::<Seq<char>>::empty() })
    && view_strs(r.expose_headers@) == (match raw_field(s, t, hi, spec_last_key(s, t, es, "expose_headers"@)) { Some(x) => spec_csv_values(x), None => Seq::<Seq<char>>::empty() })
    && view_strs(r.exclude_paths@) == (match raw_field(s, t, hi, spec_last_key(s, t, es, "exclude_paths"@)) { Some(x) => spec_csv_values(x), None => Seq::<Seq<char>>::empty() })
}

pub proof fn lemma_cors_error(err: ConfigError, s: Seq<char>, t: Seq<Token>, lo: int, hi: int, es: Seq<int>, e: int)
    requires
        spec_entries(s, t, lo, hi) == Some(es),
        spec_first_bad(es, cors_entry(s, t, hi)) == Some(e),
        cors_fault_is(err, s, t, hi, e),
    ensures
        cors_error_is(err, s, t, lo, hi),
{
    reveal(cors_error_is);
}

/// Reads a `cors` policy from the tokens `lo` to `hi`.
#[verifier::spinoff_prover]
#[verifier::rlimit(100)]
pub fn read_cors<'a>(input: &'a str, v: &Vec<char>, toks: &Vec<Token>, lo: usize, hi: usize) -> (r: Result<RawCorsConfig<'a>, ConfigError>)
    requires
        lo <= hi <= toks.len(),
        v@ == input@,
        v.len() < usize::MAX,
        tokens_in(v@, toks@),
        tokens_sorted(toks@),
    ensures
        match r {
            Ok(b) => cors_ok(v@, toks@, lo as int, hi as int) && cors_is(b, v@, toks@, lo as int, hi as int),
            Err(err) => !cors_ok(v@, toks@, lo as int, hi as int) && cors_error_is(err, v@, toks@, lo as int, hi as int),
        },
{
    let es = match entries(v, toks, lo, hi) { Some(es) => es, None => { proof { reveal(cors_error_is); } return Err(block_syntax_error(v, toks, lo, hi)); } };
    let ghost ees = es@.map_values(|e: usize| e as int);
    let ghost ok = cors_entry(v@, toks@, hi as int);
    proof {
        lemma_entries_in(v@, toks@, lo as int, hi as int, ees);
        reveal_strlit(""); reveal_strlit("allow_origins"); reveal_strlit("allow_credentials"); reveal_strlit("max_age"); reveal_strlit("allow_methods"); reveal_strlit("allow_headers"); reveal_strlit("expose_headers"); reveal_strlit("exclude_paths");
    }
    let mut allow_origins: Vec<&'a str> = Vec::new();
    let mut allow_credentials: Option<bool> = None;
    let mut max_age: Option<Duration> = None;
    let mut allow_methods: Vec<&'a str> = Vec::new();
    let mut allow_headers: Vec<&'a str> = Vec::new();
    let mut expose_headers: Vec<&'a str> = Vec::new();
    let mut exclude_paths: Vec<&'a str> = Vec::new();
    let mut i: usize = 0;
    while i < es.len()
        invariant
            i <= es.len(),
            lo <= hi <= toks.len(),
            v@ == input@,
            v.len() < usize::MAX,
            tokens_in(v@, toks@),
            tokens_sorted(toks@),
            ees == es@.map_values(|e: usize| e as int),
            spec_entries(v@, toks@, lo as int, hi as int) == Some(ees),
            forall|m: int| 0 <= m < es.len() ==> lo <= #[trigger] ees[m] < hi,
            ok == cors_entry(v@, toks@, hi as int),
            forall|m: int| 0 <= m < i ==> ok(#[trigger] ees[m]),
            view_strs(allow_origins@) == (match raw_field(v@, toks@, hi as int, spec_last_key(v@, toks@, ees.take(i as int), "allow_origins"@)) { Some(x) => spec_csv_values(x), None => Seq::<Seq<char>>::empty() }),
            allow_credentials == (match raw_field(v@, toks@, hi as int, spec_last_key(v@, toks@, ees.take(i as int), "allow_credentials"@)) { Some(x) => Some(x == "true"@), None => None::<bool> }),
            max_age == (match raw_field(v@, toks@, hi as int, spec_last_key(v@, toks@, ees.take(i as int), "max_age"@)) { Some(x) => match spec_duration_millis(x) { Ok(ms) => Some(spec_duration_from_millis(ms)), Err(_) => None }, None => None::<Duration> }),
            view_strs(allow_methods@) == (match raw_field(v@, toks@, hi as int, spec_last_key(v@, toks@, ees.take(i as int), "allow_methods"@)) { Some(x) => spec_csv_values(x), None => Seq::<Seq<char>>::empty() }),
            view_strs(allow_headers@) == (match raw_field(v@, toks@, hi as int, spec_last_key(v@, toks@, ees.take(i as int), "allow_headers"@)) { Some(x) => spec_csv_values(x), None => Seq::<Seq<char>>::empty() }),
            view_strs(expose_headers@) == (match raw_field(v@, toks@, hi as int, spec_last_key(v@, toks@, ees.take(i as int), "expose_headers"@)) { Some(x) => spec_csv_values(x), None => Seq::<Seq<char>>::empty() }),
            view_strs(exclude_paths@) == (match raw_field(v@, toks@, hi as int, spec_last_key(v@, toks@, ees.take(i as int), "exclude_paths"@)) { Some(x) => spec_csv_values(x), None => Seq::<Seq<char>>::empty() }),
        decreases es.len() - i,
    {
        let e = es[i];
        assert(ees[i as int] == e as int);
        proof {
             reveal_strlit("allow_origins"); reveal_strlit("allow_credentials"); reveal_strlit("max_age"); reveal_strlit("allow_methods"); reveal_strlit("allow_headers"); reveal_strlit("expose_headers"); reveal_strlit("exclude_paths"); reveal_strlit("true"); reveal_strlit("->"); reveal_strlit("extends");
            assert("allow_origins"@.len() == 13);
            assert("allow_credentials"@.len() == 17);
            assert("max_age"@.len() == 7);
            assert("allow_methods"@.len() == 13);
            assert("allow_headers"@.len() == 13);
            assert("expose_headers"@.len() == 14);
            assert("exclude_paths"@.len() == 13);
            assert("allow_origins"@[6] != "allow_methods"@[6]);
            assert("allow_origins"@[6] != "allow_headers"@[6]);
            assert("allow_origins"@[0] != "exclude_paths"@[0]);
            assert("allow_methods"@[6] != "allow_headers"@[6]);
            assert("allow_methods"@[0] != "exclude_paths"@[0]);
            assert("allow_headers"@[0] != "exclude_paths"@[0]);
            lemma_last_key_step(v@, toks@, ees, i as int, "allow_origins"@);
            lemma_last_key_step(v@, toks@, ees, i as int, "allow_credentials"@);
            lemma_last_key_step(v@, toks@, ees, i as int, "max_age"@);
            lemma_last_key_step(v@, toks@, ees, i as int, "allow_methods"@);
            lemma_last_key_step(v@, toks@, ees, i as int, "allow_headers"@);
            lemma_last_key_step(v@, toks@, ees, i as int, "expose_headers"@);
            lemma_last_key_step(v@, toks@, ees, i as int, "exclude_paths"@);
        }
        if range_eq(v, toks[e].lo, toks[e].hi, "allow_origins") {
            assert((tok_text(v@, toks@[e as int]) == "allow_origins"@));
            if value_assign(v, toks, e, hi) { allow_origins = split_csv_values(value_text_of(input, v, toks, e, hi)); } else { let err = field_error(input, v, toks, e, "cors policy"); proof { lemma_first_bad(ees, ok, i as int); lemma_cors_error(err, v@, toks@, lo as int, hi as int, ees, ees[i as int]); } return Err(err); }
        } else if range_eq(v, toks[e].lo, toks[e].hi, "allow_credentials") {
            assert((tok_text(v@, toks@[e as int]) == "allow_credentials"@));
            if value_assign(v, toks, e, hi) { let x = value_text_of(input, v, toks, e, hi); allow_credentials = Some(str_is(x, "true")); } else { let err = field_error(input, v, toks, e, "cors policy"); proof { lemma_first_bad(ees, ok, i as int); lemma_cors_error(err, v@, toks@, lo as int, hi as int, ees, ees[i as int]); } return Err(err); }
        } else if range_eq(v, toks[e].lo, toks[e].hi, "max_age") {
            assert((tok_text(v@, toks@[e as int]) == "max_age"@));
            if value_assign(v, toks, e, hi) { match parse_duration_millis(value_text_of(input, v, toks, e, hi)) { Ok(ms) => { max_age = Some(duration_from_millis(ms)); }, Err(m) => { let err = ConfigError::parse(m); proof { lemma_first_bad(ees, ok, i as int); lemma_cors_error(err, v@, toks@, lo as int, hi as int, ees, ees[i as int]); } return Err(err); } } } else { let err = field_error(input, v, toks, e, "cors policy"); proof { lemma_first_bad(ees, ok, i as int); lemma_cors_error(err, v@, toks@, lo as int, hi as int, ees, ees[i as int]); } return Err(err); }
        } else if range_eq(v, toks[e].lo, toks[e].hi, "allow_methods") {
            assert((tok_text(v@, toks@[e as int]) == "allow_methods"@));
            if value_assign(v, toks, e, hi) { allow_methods = split_csv_values(value_text_of(input, v, toks, e, hi)); } else { let err = field_error(input, v, toks, e, "cors policy"); proof { lemma_first_bad(ees, ok, i as int); lemma_cors_error(err, v@, toks@, lo as int, hi as int, ees, ees[i as int]); } return Err(err); }
        } else if range_eq(v, toks[e].lo, toks[e].hi, "allow_headers") {
            assert((tok_text(v@, toks@[e as int]) == "allow_headers"@));
            if value_assign(v, toks, e, hi) { allow_headers = split_csv_values(value_text_of(input, v, toks, e, hi)); } else { let err = field_error(input, v, toks, e, "cors policy"); proof { lemma_first_bad(ees, ok, i as int); lemma_cors_error(err, v@, toks@, lo as int, hi as int, ees, ees[i as int]); } return Err(err); }
        } else if range_eq(v, toks[e].lo, toks[e].hi, "expose_headers") {
            assert((tok_text(v@, toks@[e as int]) == "expose_headers"@));
            if value_assign(v, toks, e, hi) { expose_headers = split_csv_values(value_text_of(input, v, toks, e, hi)); } else { let err = field_error(input, v, toks, e, "cors policy"); proof { lemma_first_bad(ees, ok, i as int); lemma_cors_error(err, v@, toks@, lo as int, hi as int, ees, ees[i as int]); } return Err(err); }
        } else if range_eq(v, toks[e].lo, toks[e].hi, "exclude_paths") {
            assert((tok_text(v@, toks@[e as int]) == "exclude_paths"@));
            if value_assign(v, toks, e, hi) { exclude_paths = split_csv_values(value_text_of(input, v, toks, e, hi)); } else { let err = field_error(input, v, toks, e, "cors policy"); proof { lemma_first_bad(ees, ok, i as int); lemma_cors_error(err, v@, toks@, lo as int, hi as int, ees, ees[i as int]); } return Err(err); }
        } else {
            assert(ok(ees[i as int]));
        }
        i = i + 1;
    }
    proof {
        lemma_first_bad(ees, ok, es.len() as int);
        assert(ees.take(es.len() as int) =~= ees);
    }

    Ok(RawCorsConfig { allow_origins, allow_methods, allow_headers, expose_headers, allow_credentials, max_age, exclude_paths })
}

/// Whether the entry at `e` can stand in a `listener` block.
pub open spec fn listener_entry_ok(s: Seq<char>, t: Seq<Token>, hi: int, e: int) -> bool {
    let k = tok_text(s, t[e]);
    ((k == "address"@) && is_text_assign(s, t, e, hi))
    || ((k == "protocols"@) && is_list_assign(s, t, e, hi) && list_texts(s, t, e + 2) is Some)
    || ((k == "tls"@ || k == "ssl"@) && is_block_entry(s, t, e, hi, 0) && tls_ok(s, t, block_range(t, e, 0).0, block_range(t, e, 0).1))
    || ((k == "network_policy"@) && is_block_entry(s, t, e, hi, 0) && network_policy_ok(s, t, block_range(t, e, 0).0, block_range(t, e, 0).1))
    || ((k == "limits"@) && is_block_entry(s, t, e, hi, 0) && limits_ok(s, t, block_range(t, e, 0).0, block_range(t, e, 0).1))
    || ((k == "timeouts"@) && is_block_entry(s, t, e, hi, 0) && listener_timeouts_ok(s, t, block_range(t, e, 0).0, block_range(t, e, 0).1))
}

/// The entries that can stand in a `listener` block whose tokens end at `hi`.
pub open spec fn listener_entry(s: Seq<char>, t: Seq<Token>, hi: int) -> spec_fn(int) -> bool {
    |e: int| listener_entry_ok(s, t, hi, e)
}

/// Whether the tokens from `lo` to `hi` read as a `listener` block.
pub open spec fn listener_ok(s: Seq<char>, t: Seq<Token>, lo: int, hi: int) -> bool {
    spec_entries(s, t, lo, hi) matches Some(es) && spec_first_bad(es, listener_entry(s, t, hi)) is None
}

/// The error for an entry at `e` that cannot stand in a `listener` block.
pub open spec fn listener_fault_is(err: ConfigError, s: Seq<char>, t: Seq<Token>, hi: int, e: int) -> bool {
    let k = tok_text(s, t[e]);
    if (k == "tls"@ || k == "ssl"@) {
        tls_entry_error_is(err, s, t, hi, e, "listener"@)
    } else if (k == "network_policy"@) {
        network_policy_entry_error_is(err, s, t, hi, e, "listener"@)
    } else if (k == "limits"@) {
        limits_entry_error_is(err, s, t, hi, e, "listener"@)
    } else if (k == "timeouts"@) {
        listener_timeouts_entry_error_is(err, s, t, hi, e, "listener"@)
    } else {
        is_syntax_error(err, "unexpected field '"@ + k + "' in "@ + "listener"@, s, t[e].lo as int)
    }
}

/// The error that reading a `listener` block from `lo` to `hi` ends with, when it does not read.
#[verifier::opaque]
pub open spec fn listener_error_is(err: ConfigError, s: Seq<char>, t: Seq<Token>, nt: int, lo: int, hi: int) -> bool {
    match spec_entries(s, t, lo, hi) {
        None => is_syntax_error(err, "syntax error in gateway file"@, s, tok_pos(s, t, lo)),
        Some(es) => match spec_first_bad(es, listener_entry(s, t, hi)) {
            Some(e) => listener_fault_is(err, s, t, hi, e),
            None => true,
        },
    }
}

/// Whether `r` holds what a `listener` block from `lo` to `hi` sets: each field the value of
/// the last entry that sets it.
pub open spec fn listener_is(r: RawListener<'_>, s: Seq<char>, t: Seq<Token>, nt: int, lo: int, hi: int) -> bool {
    let es = match spec_entries(s, t, lo, hi) { Some(es) => es, None => Seq::empty() };
    r.name@ == tok_text(s, t[nt])
    && r.address@ == (match text_field(s, t, spec_last_key(s, t, es, "address"@)) { Some(x) => x, None => Seq::<char>::empty() })
    && view_strs(r.protocols@) == list_field(s, t, spec_last_key(s, t, es, "protocols"@))
    && (match r.tls { Some(x) => spec_last_key2(s, t, es, "tls"@, "ssl"@) is Some && tls_is(x, s, t, block_range(t, spec_last_key2(s, t, es, "tls"@, "ssl"@)->0, 0).0, block_range(t, spec_last_key2(s, t, es, "tls"@, "ssl"@)->0, 0).1), None => spec_last_key2(s, t, es, "tls"@, "ssl"@) is None })
    && (match r.network_policy { Some(x) => spec_last_key(s, t, es, "network_policy"@) is Some && network_policy_is(x, s, t, block_range(t, spec_last_key(s, t, es, "network_policy"@)->0, 0).0, block_range(t, spec_last_key(s, t, es, "network_policy"@)->0, 0).1), None => spec_last_key(s, t, es, "network_policy"@) is None })
    && (match r.limits { Some(x) => spec_last_key(s, t, es, "limits"@) is Some && limits_is(x, s, t, block_range(t, spec_last_key(s, t, es, "limits"@)->0, 0).0, block_range(t, spec_last_key(s, t, es, "limits"@)->0, 0).1), None => spec_last_key(s, t, es, "limits"@) is None })
    && (match r.timeouts { Some(x) => spec_last_key(s, t, es, "timeouts"@) is Some && listener_timeouts_is(x, s, t, block_range(t, spec_last_key(s, t, es, "timeouts"@)->0, 0).0, block_range(t, spec_last_key(s, t, es, "timeouts"@)->0, 0).1), None => spec_last_key(s, t, es, "timeouts"@) is None })
}

pub proof fn lemma_listener_error(err: ConfigError, s: Seq<char>, t: Seq<Token>, nt: int, lo: int, hi: int, es: Seq<int>, e: int)
    requires
        spec_entries(s, t, lo, hi) == Some(es),
        spec_first_bad(es, listener_entry(s, t, hi)) == Some(e),
        listener_fault_is(err, s, t, hi, e),
    ensures
        listener_error_is(err, s, t, nt, lo, hi),
{
    reveal(listener_error_is);
}

/// Reads a `listener` block from the tokens `lo` to `hi`.
#[verifier::spinoff_prover]
#[verifier::rlimit(100)]
pub fn read_listener<'a>(input: &'a str, v: &Vec<char>, toks: &Vec<Token>, nt: usize, lo: usize, hi: usize) -> (r: Result<RawListener<'a>, ConfigError>)
    requires
        lo <= hi <= toks.len(),
        v@ == input@,
        v.len() < usize::MAX,
        tokens_in(v@, toks@),
        tokens_sorted(toks@),
        nt < toks.len(),
    ensures
        match r {
            Ok(b) => listener_ok(v@, toks@, lo as int, hi as int) && listener_is(b, v@, toks@, nt as int, lo as int, hi as int),
            Err(err) => !listener_ok(v@, toks@, lo as int, hi as int) && listener_error_is(err, v@, toks@, nt as int, lo as int, hi as int),
        },
{
    let es = match entries(v, toks, lo, hi) { Some(es) => es, None => { proof { reveal(listener_error_is); } return Err(block_syntax_error(v, toks, lo, hi)); } };
    let ghost ees = es@.map_values(|e: usize| e as int);
    let ghost ok = listener_entry(v@, toks@, hi as int);
    proof {
        lemma_entries_in(v@, toks@, lo as int, hi as int, ees);
        reveal_strlit(""); reveal_strlit("address"); reveal_strlit("protocols"); reveal_strlit("tls"); reveal_strlit("ssl"); reveal_strlit("network_policy"); reveal_strlit("limits"); reveal_strlit("timeouts");
    }
    let mut address: &'a str = "";
    let mut protocols: Vec<&'a str> = Vec::new();
    let mut tls: Option<RawTls<'a>> = None;
    let mut network_policy: Option<RawNetworkPolicy<'a>> = None;
    let mut limits: Option<RawListenerLimits<'a>> = None;
    let mut timeouts: Option<RawListenerTimeouts> = None;
    let mut i: usize = 0;
    while i < es.len()
        invariant
            i <= es.len(),
            lo <= hi <= toks.len(),
            v@ == input@,
            v.len() < usize::MAX,
            tokens_in(v@, toks@),
            tokens_sorted(toks@),
            ees == es@.map_values(|e: usize| e as int),
            spec_entries(v@, toks@, lo as int, hi as int) == Some(ees),
            forall|m: int| 0 <= m < es.len() ==> lo <= #[trigger] ees[m] < hi,
            ok == listener_entry(v@, toks@, hi as int),
            forall|m: int| 0 <= m < i ==> ok(#[trigger] ees[m]),
            address@ == (match text_field(v@, toks@, spec_last_key(v@, toks@, ees.take(i as int), "address"@)) { Some(x) => x, None => Seq::<char>::empty() }),
            view_strs(protocols@) == list_field(v@, toks@, spec_last_key(v@, toks@, ees.take(i as int), "protocols"@)),
            (match tls { Some(x) => spec_last_key2(v@, toks@, ees.take(i as int), "tls"@, "ssl"@) is Some && tls_is(x, v@, toks@, block_range(toks@, spec_last_key2(v@, toks@, ees.take(i as int), "tls"@, "ssl"@)->0, 0).0, block_range(toks@, spec_last_key2(v@, toks@, ees.take(i as int), "tls"@, "ssl"@)->0, 0).1), None => spec_last_key2(v@, toks@, ees.take(i as int), "tls"@, "ssl"@) is None }),
            (match network_policy { Some(x) => spec_last_key(v@, toks@, ees.take(i as int), "network_policy"@) is Some && network_policy_is(x, v@, toks@, block_range(toks@, spec_last_key(v@, toks@, ees.take(i as int), "network_policy"@)->0, 0).0, block_range(toks@, spec_last_key(v@, toks@, ees.take(i as int), "network_policy"@)->0, 0).1), None => spec_last_key(v@, toks@, ees.take(i as int), "network_policy"@) is None }),
            (match limits { Some(x) => spec_last_key(v@, toks@, ees.take(i as int), "limits"@) is Some && limits_is(x, v@, toks@, block_range(toks@, spec_last_key(v@, toks@, ees.take(i as int), "limits"@)->0, 0).0, block_range(toks@, spec_last_key(v@, toks@, ees.take(i as int), "limits"@)->0, 0).1), None => spec_last_key(v@, toks@, ees.take(i as int), "limits"@) is None }),
            (match timeouts { Some(x) => spec_last_key(v@, toks@, ees.take(i as int), "timeouts"@) is Some && listener_timeouts_is(x, v@, toks@, block_range(toks@, spec_last_key(v@, toks@, ees.take(i as int), "timeouts"@)->0, 0).0, block_range(toks@, spec_last_key(v@, toks@, ees.take(i as int), "timeouts"@)->0, 0).1), None => spec_last_key(v@, toks@, ees.take(i as int), "timeouts"@) is None }),
        decreases es.len() - i,
    {
        let e = es[i];
        assert(ees[i as int] == e as int);
        proof {
             reveal_strlit("address"); reveal_strlit("protocols"); reveal_strlit("tls"); reveal_strlit("ssl"); reveal_strlit("network_policy"); reveal_strlit("limits"); reveal_strlit("timeouts"); reveal_strlit("true"); reveal_strlit("->"); reveal_strlit("extends");
            assert("address"@.len() == 7);
            assert("protocols"@.len() == 9);
            assert("tls"@.len() == 3);
            assert("ssl"@.len() == 3);
            assert("network_policy"@.len() == 14);
            assert("limits"@.len() == 6);
            assert("timeouts"@.len() == 8);
            assert("tls"@[0] != "ssl"@[0]);
            lemma_last_key_step(v@, toks@, ees, i as int, "address"@);
            lemma_last_key_step(v@, toks@, ees, i as int, "protocols"@);
            lemma_last_key2_step(v@, toks@, ees, i as int, "tls"@, "ssl"@);
            lemma_last_key_step(v@, toks@, ees, i as int, "network_policy"@);
            lemma_last_key_step(v@, toks@, ees, i as int, "limits"@);
            lemma_last_key_step(v@, toks@, ees, i as int, "timeouts"@);
        }
        if range_eq(v, toks[e].lo, toks[e].hi, "address") {
            assert((tok_text(v@, toks@[e as int]) == "address"@));
            if text_assign(v, toks, e, hi) { address = text_of(input, v, toks, e + 2); } else { let err = field_error(input, v, toks, e, "listener"); proof { lemma_first_bad(ees, ok, i as int); lemma_listener_error(err, v@, toks@, nt as int, lo as int, hi as int, ees, ees[i as int]); } return Err(err); }
        } else if range_eq(v, toks[e].lo, toks[e].hi, "protocols") {
            assert((tok_text(v@, toks@[e as int]) == "protocols"@));
            if list_assign(v, toks, e, hi) { match list_of_texts(input, v, toks, e + 2) { Some(xs) => { protocols = xs; }, None => { let err = field_error(input, v, toks, e, "listener"); proof { lemma_first_bad(ees, ok, i as int); lemma_listener_error(err, v@, toks@, nt as int, lo as int, hi as int, ees, ees[i as int]); } return Err(err); } } } else { let err = field_error(input, v, toks, e, "listener"); proof { lemma_first_bad(ees, ok, i as int); lemma_listener_error(err, v@, toks@, nt as int, lo as int, hi as int, ees, ees[i as int]); } return Err(err); }
        } else if range_eq(v, toks[e].lo, toks[e].hi, "tls") || range_eq(v, toks[e].lo, toks[e].hi, "ssl") {
            assert((tok_text(v@, toks@[e as int]) == "tls"@ || tok_text(v@, toks@[e as int]) == "ssl"@));
            match read_tls_entry(input, v, toks, e, hi, "listener") { Ok(x) => { tls = Some(x); }, Err(err) => { proof { lemma_first_bad(ees, ok, i as int); lemma_listener_error(err, v@, toks@, nt as int, lo as int, hi as int, ees, ees[i as int]); } return Err(err); } }
        } else if range_eq(v, toks[e].lo, toks[e].hi, "network_policy") {
            assert((tok_text(v@, toks@[e as int]) == "network_policy"@));
            match read_network_policy_entry(input, v, toks, e, hi, "listener") { Ok(x) => { network_policy = Some(x); }, Err(err) => { proof { lemma_first_bad(ees, ok, i as int); lemma_listener_error(err, v@, toks@, nt as int, lo as int, hi as int, ees, ees[i as int]); } return Err(err); } }
        } else if range_eq(v, toks[e].lo, toks[e].hi, "limits") {
            assert((tok_text(v@, toks@[e as int]) == "limits"@));
            match read_limits_entry(input, v, toks, e, hi, "listener") { Ok(x) => { limits = Some(x); }, Err(err) => { proof { lemma_first_bad(ees, ok, i as int); lemma_listener_error(err, v@, toks@, nt as int, lo as int, hi as int, ees, ees[i as int]); } return Err(err); } }
        } else if range_eq(v, toks[e].lo, toks[e].hi, "timeouts") {
            assert((tok_text(v@, toks@[e as int]) == "timeouts"@));
            match read_listener_timeouts_entry(input, v, toks, e, hi, "listener") { Ok(x) => { timeouts = Some(x); }, Err(err) => { proof { lemma_first_bad(ees, ok, i as int); lemma_listener_error(err, v@, toks@, nt as int, lo as int, hi as int, ees, ees[i as int]); } return Err(err); } }
        } else {
            { let err = field_error(input, v, toks, e, "listener"); proof { lemma_first_bad(ees, ok, i as int); lemma_listener_error(err, v@, toks@, nt as int, lo as int, hi as int, ees, ees[i as int]); } return Err(err); }
        }
        i = i + 1;
    }
    proof {
        lemma_first_bad(ees, ok, es.len() as int);
        assert(ees.take(es.len() as int) =~= ees);
    }

    Ok(RawListener { name: text_of(input, v, toks, nt), address, protocols, tls, network_policy, limits, timeouts })
}

/// Whether the entry at `e` can stand in a `health_check` object.
pub open spec fn health_check_entry_ok(s: Seq<char>, t: Seq<Token>, hi: int, e: int) -> bool {
    let k = tok_text(s, t[e]);
    ((k == "path"@) && is_text_assign(s, t, e, hi))
    || ((k == "interval"@) && is_text_assign(s, t, e, hi) && spec_duration_millis(assign_text(s, t, e)) is Ok)
    || ((k == "timeout"@) && is_text_assign(s, t, e, hi) && spec_duration_millis(assign_text(s, t, e)) is Ok)
    || ((k == "unhealthy_threshold"@) && is_text_assign(s, t, e, hi) && parse_unsigned(assign_text(s, t, e), u32::MAX as int) is Some)
    || ((k == "healthy_threshold"@) && is_text_assign(s, t, e, hi) && parse_unsigned(assign_text(s, t, e), u32::MAX as int) is Some)
}

/// The entries that can stand in a `health_check` object whose tokens end at `hi`.
pub open spec fn health_check_entry(s: Seq<char>, t: Seq<Token>, hi: int) -> spec_fn(int) -> bool {
    |e: int| health_check_entry_ok(s, t, hi, e)
}

/// Whether the tokens from `lo` to `hi` read as a `health_check` object.
pub open spec fn health_check_ok(s: Seq<char>, t: Seq<Token>, lo: int, hi: int) -> bool {
    spec_fields(s, t, lo, hi) matches Some(es) && spec_first_bad(es, health_check_entry(s, t, hi)) is None
}

/// The error for an entry at `e` that cannot stand in a `health_check` object.
pub open spec fn health_check_fault_is(err: ConfigError, s: Seq<char>, t: Seq<Token>, hi: int, e: int) -> bool {
    let k = tok_text(s, t[e]);
    if (k == "interval"@) {
        (if !is_text_assign(s, t, e, hi) { is_read_error(err, "unknown key '"@ + k + "' in health_check"@) } else { match spec_duration_millis(assign_text(s, t, e)) { Err(m) => is_read_error(err, m), Ok(_) => true } })
    } else if (k == "timeout"@) {
        (if !is_text_assign(s, t, e, hi) { is_read_error(err, "unknown key '"@ + k + "' in health_check"@) } else { match spec_duration_millis(assign_text(s, t, e)) { Err(m) => is_read_error(err, m), Ok(_) => true } })
    } else if (k == "unhealthy_threshold"@) {
        (if !is_text_assign(s, t, e, hi) { is_read_error(err, "unknown key '"@ + k + "' in health_check"@) } else { is_read_error(err, "invalid unhealthy_threshold '"@ + assign_text(s, t, e) + "', expected a number"@) })
    } else if (k == "healthy_threshold"@) {
        (if !is_text_assign(s, t, e, hi) { is_read_error(err, "unknown key '"@ + k + "' in health_check"@) } else { is_read_error(err, "invalid healthy_threshold '"@ + assign_text(s, t, e) + "', expected a number"@) })
    } else {
        is_read_error(err, "unknown key '"@ + k + "' in health_check"@)
    }
}

/// The error that reading a `health_check` object from `lo` to `hi` ends with, when it does not read.
#[verifier::opaque]
pub open spec fn health_check_error_is(err: ConfigError, s: Seq<char>, t: Seq<Token>, lo: int, hi: int) -> bool {
    match spec_fields(s, t, lo, hi) {
        None => is_syntax_error(err, "syntax error in gateway file"@, s, tok_pos(s, t, lo)),
        Some(es) => match spec_first_bad(es, health_check_entry(s, t, hi)) {
            Some(e) => health_check_fault_is(err, s, t, hi, e),
            None => true,
        },
    }
}

/// Whether `r` holds what a `health_check` object from `lo` to `hi` sets: each field the value of
/// the last entry that sets it.
pub open spec fn health_check_is(r: RawHealthCheck<'_>, s: Seq<char>, t: Seq<Token>, lo: int, hi: int) -> bool {
    let es = match spec_fields(s, t, lo, hi) { Some(es) => es, None => Seq::empty() };
    opt_text(r.path) == text_field(s, t, spec_last_key(s, t, es, "path"@))
    && r.interval == duration_field(s, t, spec_last_key(s, t, es, "interval"@))
    && r.timeout == duration_field(s, t, spec_last_key(s, t, es, "timeout"@))
    && opt_int(r.unhealthy_threshold, |x: u32| x as int) == number_field(s, t, spec_last_key(s, t, es, "unhealthy_threshold"@), u32::MAX as int)
    && opt_int(r.healthy_threshold, |x: u32| x as int) == number_field(s, t, spec_last_key(s, t, es, "healthy_threshold"@), u32::MAX as int)
}

pub proof fn lemma_health_check_error(err: ConfigError, s: Seq<char>, t: Seq<Token>, lo: int, hi: int, es: Seq<int>, e: int)
    requires
        spec_fields(s, t, lo, hi) == Some(es),
        spec_first_bad(es, health_check_entry(s, t, hi)) == Some(e),
        health_check_fault_is(err, s, t, hi, e),
    ensures
        health_check_error_is(err, s, t, lo, hi),
{
    reveal(health_check_error_is);
}

/// Reads a `health_check` object from the tokens `lo` to `hi`.
#[verifier::spinoff_prover]
#[verifier::rlimit(100)]
pub fn read_health_check<'a>(input: &'a str, v: &Vec<char>, toks: &Vec<Token>, lo: usize, hi: usize) -> (r: Result<RawHealthCheck<'a>, ConfigError>)
    requires
        lo <= hi <= toks.len(),
        v@ == input@,
        v.len() < usize::MAX,
        tokens_in(v@, toks@),
        tokens_sorted(toks@),
    ensures
        match r {
            Ok(b) => health_check_ok(v@, toks@, lo as int, hi as int) && health_check_is(b, v@, toks@, lo as int, hi as int),
            Err(err) => !health_check_ok(v@, toks@, lo as int, hi as int) && health_check_error_is(err, v@, toks@, lo as int, hi as int),
        },
{
    let es = match fields(v, toks, lo, hi) { Some(es) => es, None => { proof { reveal(health_check_error_is); } return Err(block_syntax_error(v, toks, lo, hi)); } };
    let ghost ees = es@.map_values(|e: usize| e as int);
    let ghost ok = health_check_entry(v@, toks@, hi as int);
    proof {
        lemma_fields_in(v@, toks@, lo as int, hi as int, ees);
        reveal_strlit(""); reveal_strlit("path"); reveal_strlit("interval"); reveal_strlit("timeout"); reveal_strlit("unhealthy_threshold"); reveal_strlit("healthy_threshold");
    }
    let mut path: Option<&'a str> = None;
    let mut interval: Option<Duration> = None;
    let mut timeout: Option<Duration> = None;
    let mut unhealthy_threshold: Option<u32> = None;
    let mut healthy_threshold: Option<u32> = None;
    let mut i: usize = 0;
    while i < es.len()
        invariant
            i <= es.len(),
            lo <= hi <= toks.len(),
            v@ == input@,
            v.len() < usize::MAX,
            tokens_in(v@, toks@),
            tokens_sorted(toks@),
            ees == es@.map_values(|e: usize| e as int),
            spec_fields(v@, toks@, lo as int, hi as int) == Some(ees),
            forall|m: int| 0 <= m < es.len() ==> lo <= #[trigger] ees[m] < hi,
            ok == health_check_entry(v@, toks@, hi as int),
            forall|m: int| 0 <= m < i ==> ok(#[trigger] ees[m]),
            opt_text(path) == text_field(v@, toks@, spec_last_key(v@, toks@, ees.take(i as int), "path"@)),
            interval == duration_field(v@, toks@, spec_last_key(v@, toks@, ees.take(i as int), "interval"@)),
            timeout == duration_field(v@, toks@, spec_last_key(v@, toks@, ees.take(i as int), "timeout"@)),
            opt_int(unhealthy_threshold, |x: u32| x as int) == number_field(v@, toks@, spec_last_key(v@, toks@, ees.take(i as int), "unhealthy_threshold"@), u32::MAX as int),
            opt_int(healthy_threshold, |x: u32| x as int) == number_field(v@, toks@, spec_last_key(v@, toks@, ees.take(i as int), "healthy_threshold"@), u32::MAX as int),
        decreases es.len() - i,
    {
        let e = es[i];
        assert(ees[i as int] == e as int);
        proof {
             reveal_strlit("path"); reveal_strlit("interval"); reveal_strlit("timeout"); reveal_strlit("unhealthy_threshold"); reveal_strlit("healthy_threshold"); reveal_strlit("true"); reveal_strlit("->"); reveal_strlit("extends");
            assert("path"@.len() == 4);
            assert("interval"@.len() == 8);
            assert("timeout"@.len() == 7);
            assert("unhealthy_threshold"@.len() == 19);
            assert("healthy_threshold"@.len() == 17);
            lemma_last_key_step(v@, toks@, ees, i as int, "path"@);
            lemma_last_key_step(v@, toks@, ees, i as int, "interval"@);
            lemma_last_key_step(v@, toks@, ees, i as int, "timeout"@);
            lemma_last_key_step(v@, toks@, ees, i as int, "unhealthy_threshold"@);
            lemma_last_key_step(v@, toks@, ees, i as int, "healthy_threshold"@);
        }
        if range_eq(v, toks[e].lo, toks[e].hi, "path") {
            assert((tok_text(v@, toks@[e as int]) == "path"@));
            if text_assign(v, toks, e, hi) { path = Some(text_of(input, v, toks, e + 2)); } else { let err = value_error(input, v, toks, e, "unknown key '", "' in health_check"); proof { lemma_first_bad(ees, ok, i as int); lemma_health_check_error(err, v@, toks@, lo as int, hi as int, ees, ees[i as int]); } return Err(err); }
        } else if range_eq(v, toks[e].lo, toks[e].hi, "interval") {
            assert((tok_text(v@, toks@[e as int]) == "interval"@));
            if text_assign(v, toks, e, hi) { match parse_duration_millis(text_of(input, v, toks, e + 2)) { Ok(ms) => { interval = Some(duration_from_millis(ms)); }, Err(m) => { let err = ConfigError::parse(m); proof { lemma_first_bad(ees, ok, i as int); lemma_health_check_error(err, v@, toks@, lo as int, hi as int, ees, ees[i as int]); } return Err(err); } } } else { let err = value_error(input, v, toks, e, "unknown key '", "' in health_check"); proof { lemma_first_bad(ees, ok, i as int); lemma_health_check_error(err, v@, toks@, lo as int, hi as int, ees, ees[i as int]); } return Err(err); }
        } else if range_eq(v, toks[e].lo, toks[e].hi, "timeout") {
            assert((tok_text(v@, toks@[e as int]) == "timeout"@));
            if text_assign(v, toks, e, hi) { match parse_duration_millis(text_of(input, v, toks, e + 2)) { Ok(ms) => { timeout = Some(duration_from_millis(ms)); }, Err(m) => { let err = ConfigError::parse(m); proof { lemma_first_bad(ees, ok, i as int); lemma_health_check_error(err, v@, toks@, lo as int, hi as int, ees, ees[i as int]); } return Err(err); } } } else { let err = value_error(input, v, toks, e, "unknown key '", "' in health_check"); proof { lemma_first_bad(ees, ok, i as int); lemma_health_check_error(err, v@, toks@, lo as int, hi as int, ees, ees[i as int]); } return Err(err); }
        } else if range_eq(v, toks[e].lo, toks[e].hi, "unhealthy_threshold") {
            assert((tok_text(v@, toks@[e as int]) == "unhealthy_threshold"@));
            if text_assign(v, toks, e, hi) { match parse_unsigned_range(v, toks[e + 2].lo, toks[e + 2].hi, u32::MAX as u64) { Some(n) => { unhealthy_threshold = Some(n as u32); }, None => { let err = value_error(input, v, toks, e + 2, "invalid unhealthy_threshold '", "', expected a number"); proof { lemma_first_bad(ees, ok, i as int); lemma_health_check_error(err, v@, toks@, lo as int, hi as int, ees, ees[i as int]); } return Err(err); } } } else { let err = value_error(input, v, toks, e, "unknown key '", "' in health_check"); proof { lemma_first_bad(ees, ok, i as int); lemma_health_check_error(err, v@, toks@, lo as int, hi as int, ees, ees[i as int]); } return Err(err); }
        } else if range_eq(v, toks[e].lo, toks[e].hi, "healthy_threshold") {
            assert((tok_text(v@, toks@[e as int]) == "healthy_threshold"@));
            if text_assign(v, toks, e, hi) { match parse_unsigned_range(v, toks[e + 2].lo, toks[e + 2].hi, u32::MAX as u64) { Some(n) => { healthy_threshold = Some(n as u32); }, None => { let err = value_error(input, v, toks, e + 2, "invalid healthy_threshold '", "', expected a number"); proof { lemma_first_bad(ees, ok, i as int); lemma_health_check_error(err, v@, toks@, lo as int, hi as int, ees, ees[i as int]); } return Err(err); } } } else { let err = value_error(input, v, toks, e, "unknown key '", "' in health_check"); proof { lemma_first_bad(ees, ok, i as int); lemma_health_check_error(err, v@, toks@, lo as int, hi as int, ees, ees[i as int]); } return Err(err); }
        } else {
            { let err = value_error(input, v, toks, e, "unknown key '", "' in health_check"); proof { lemma_first_bad(ees, ok, i as int); lemma_health_check_error(err, v@, toks@, lo as int, hi as int, ees, ees[i as int]); } return Err(err); }
        }
        i = i + 1;
    }
    proof {
        lemma_first_bad(ees, ok, es.len() as int);
        assert(ees.take(es.len() as int) =~= ees);
    }

    Ok(RawHealthCheck { path, interval, timeout, healthy_threshold, unhealthy_threshold })
}

/// Whether the entry at `e` can stand in a server object.
pub open spec fn server_object_entry_ok(s: Seq<char>, t: Seq<Token>, hi: int, e: int) -> bool {
    let k = tok_text(s, t[e]);
    ((k == "endpoint"@ || k == "address"@) && is_text_assign(s, t, e, hi))
    || ((k == "weight"@) && is_text_assign(s, t, e, hi) && parse_unsigned(assign_text(s, t, e), u16::MAX as int) is Some)
    || ((k == "protocol"@) && is_text_assign(s, t, e, hi))
}

/// The entries that can stand in a server object whose tokens end at `hi`.
pub open spec fn server_object_entry(s: Seq<char>, t: Seq<Token>, hi: int) -> spec_fn(int) -> bool {
    |e: int| server_object_entry_ok(s, t, hi, e)
}

/// Whether the tokens from `lo` to `hi` read as a server object.
pub open spec fn server_object_ok(s: Seq<char>, t: Seq<Token>, lo: int, hi: int) -> bool {
    spec_fields(s, t, lo, hi) matches Some(es) && spec_first_bad(es, server_object_entry(s, t, hi)) is None
}

/// The error for an entry at `e` that cannot stand in a server object.
pub open spec fn server_object_fault_is(err: ConfigError, s: Seq<char>, t: Seq<Token>, hi: int, e: int) -> bool {
    let k = tok_text(s, t[e]);
    if (k == "weight"@) {
        (if !is_text_assign(s, t, e, hi) { is_read_error(err, "unknown key '"@ + k + "' in server object"@) } else { is_read_error(err, "invalid weight '"@ + assign_text(s, t, e) + "' in server object, expected a number"@) })
    } else {
        is_read_error(err, "unknown key '"@ + k + "' in server object"@)
    }
}

/// The error that reading a server object from `lo` to `hi` ends with, when it does not read.
#[verifier::opaque]
pub open spec fn server_object_error_is(err: ConfigError, s: Seq<char>, t: Seq<Token>, lo: int, hi: int) -> bool {
    match spec_fields(s, t, lo, hi) {
        None => is_syntax_error(err, "syntax error in gateway file"@, s, tok_pos(s, t, lo)),
        Some(es) => match spec_first_bad(es, server_object_entry(s, t, hi)) {
            Some(e) => server_object_fault_is(err, s, t, hi, e),
            None => true,
        },
    }
}

/// Whether `r` holds what a server object from `lo` to `hi` sets: each field the value of
/// the last entry that sets it.
pub open spec fn server_object_is(r: RawUpstreamServer<'_>, s: Seq<char>, t: Seq<Token>, lo: int, hi: int) -> bool {
    let es = match spec_fields(s, t, lo, hi) { Some(es) => es, None => Seq::empty() };
    r.endpoint@ == (match text_field(s, t, spec_last_key2(s, t, es, "endpoint"@, "address"@)) { Some(x) => x, None => Seq::<char>::empty() })
    && r.weight as int == (match spec_last_key(s, t, es, "weight"@) { Some(e) => match parse_unsigned(assign_text(s, t, e), u16::MAX as int) { Some(n) => n, None => 0 }, None => 1 })
    && opt_text(r.protocol) == text_field(s, t, spec_last_key(s, t, es, "protocol"@))
}

pub proof fn lemma_server_object_error(err: ConfigError, s: Seq<char>, t: Seq<Token>, lo: int, hi: int, es: Seq<int>, e: int)
    requires
        spec_fields(s, t, lo, hi) == Some(es),
        spec_first_bad(es, server_object_entry(s, t, hi)) == Some(e),
        server_object_fault_is(err, s, t, hi, e),
    ensures
        server_object_error_is(err, s, t, lo, hi),
{
    reveal(server_object_error_is);
}

/// Reads a server object from the tokens `lo` to `hi`.
#[verifier::spinoff_prover]
#[verifier::rlimit(100)]
pub fn read_server_object<'a>(input: &'a str, v: &Vec<char>, toks: &Vec<Token>, lo: usize, hi: usize) -> (r: Result<RawUpstreamServer<'a>, ConfigError>)
    requires
        lo <= hi <= toks.len(),
        v@ == input@,
        v.len() < usize::MAX,
        tokens_in(v@, toks@),
        tokens_sorted(toks@),
    ensures
        match r {
            Ok(b) => server_object_ok(v@, toks@, lo as int, hi as int) && server_object_is(b, v@, toks@, lo as int, hi as int),
            Err(err) => !server_object_ok(v@, toks@, lo as int, hi as int) && server_object_error_is(err, v@, toks@, lo as int, hi as int),
        },
{
    let es = match fields(v, toks, lo, hi) { Some(es) => es, None => { proof { reveal(server_object_error_is); } return Err(block_syntax_error(v, toks, lo, hi)); } };
    let ghost ees = es@.map_values(|e: usize| e as int);
    let ghost ok = server_object_entry(v@, toks@, hi as int);
    proof {
        lemma_fields_in(v@, toks@, lo as int, hi as int, ees);
        reveal_strlit(""); reveal_strlit("endpoint"); reveal_strlit("address"); reveal_strlit("weight"); reveal_strlit("protocol");
    }
    let mut endpoint: &'a str = "";
    let mut weight: u16 = 1;
    let mut protocol: Option<&'a str> = None;
    let mut i: usize = 0;
    while i < es.len()
        invariant
            i <= es.len(),
            lo <= hi <= toks.len(),
            v@ == input@,
            v.len() < usize::MAX,
            tokens_in(v@, toks@),
            tokens_sorted(toks@),
            ees == es@.map_values(|e: usize| e as int),
            spec_fields(v@, toks@, lo as int, hi as int) == Some(ees),
            forall|m: int| 0 <= m < es.len() ==> lo <= #[trigger] ees[m] < hi,
            ok == server_object_entry(v@, toks@, hi as int),
            forall|m: int| 0 <= m < i ==> ok(#[trigger] ees[m]),
            endpoint@ == (match text_field(v@, toks@, spec_last_key2(v@, toks@, ees.take(i as int), "endpoint"@, "address"@)) { Some(x) => x, None => Seq::<char>::empty() }),
            weight as int == (match spec_last_key(v@, toks@, ees.take(i as int), "weight"@) { Some(e) => match parse_unsigned(assign_text(v@, toks@, e), u16::MAX as int) { Some(n) => n, None => 0 }, None => 1 }),
            opt_text(protocol) == text_field(v@, toks@, spec_last_key(v@, toks@, ees.take(i as int), "protocol"@)),
        decreases es.len() - i,
    {
        let e = es[i];
        assert(ees[i as int] == e as int);
        proof {
             reveal_strlit("endpoint"); reveal_strlit("address"); reveal_strlit("weight"); reveal_strlit("protocol"); reveal_strlit("true"); reveal_strlit("->"); reveal_strlit("extends");
            assert("endpoint"@.len() == 8);
            assert("address"@.len() == 7);
            assert("weight"@.len() == 6);
            assert("protocol"@.len() == 8);
            assert("endpoint"@[0] != "protocol"@[0]);
            lemma_last_key2_step(v@, toks@, ees, i as int, "endpoint"@, "address"@);
            lemma_last_key_step(v@, toks@, ees, i as int, "weight"@);
            lemma_last_key_step(v@, toks@, ees, i as int, "protocol"@);
        }
        if range_eq(v, toks[e].lo, toks[e].hi, "endpoint") || range_eq(v, toks[e].lo, toks[e].hi, "address") {
            assert((tok_text(v@, toks@[e as int]) == "endpoint"@ || tok_text(v@, toks@[e as int]) == "address"@));
            if text_assign(v, toks, e, hi) { endpoint = text_of(input, v, toks, e + 2); } else { let err = value_error(input, v, toks, e, "unknown key '", "' in server object"); proof { lemma_first_bad(ees, ok, i as int); lemma_server_object_error(err, v@, toks@, lo as int, hi as int, ees, ees[i as int]); } return Err(err); }
        } else if range_eq(v, toks[e].lo, toks[e].hi, "weight") {
            assert((tok_text(v@, toks@[e as int]) == "weight"@));
            if text_assign(v, toks, e, hi) { match parse_unsigned_range(v, toks[e + 2].lo, toks[e + 2].hi, u16::MAX as u64) { Some(n) => { weight = n as u16; }, None => { let err = value_error(input, v, toks, e + 2, "invalid weight '", "' in server object, expected a number"); proof { lemma_first_bad(ees, ok, i as int); lemma_server_object_error(err, v@, toks@, lo as int, hi as int, ees, ees[i as int]); } return Err(err); } } } else { let err = value_error(input, v, toks, e, "unknown key '", "' in server object"); proof { lemma_first_bad(ees, ok, i as int); lemma_server_object_error(err, v@, toks@, lo as int, hi as int, ees, ees[i as int]); } return Err(err); }
        } else if range_eq(v, toks[e].lo, toks[e].hi, "protocol") {
            assert((tok_text(v@, toks@[e as int]) == "protocol"@));
            if text_assign(v, toks, e, hi) { protocol = Some(text_of(input, v, toks, e + 2)); } else { let err = value_error(input, v, toks, e, "unknown key '", "' in server object"); proof { lemma_first_bad(ees, ok, i as int); lemma_server_object_error(err, v@, toks@, lo as int, hi as int, ees, ees[i as int]); } return Err(err); }
        } else {
            { let err = value_error(input, v, toks, e, "unknown key '", "' in server object"); proof { lemma_first_bad(ees, ok, i as int); lemma_server_object_error(err, v@, toks@, lo as int, hi as int, ees, ees[i as int]); } return Err(err); }
        }
        i = i + 1;
    }
    proof {
        lemma_first_bad(ees, ok, es.len() as int);
        assert(ees.take(es.len() as int) =~= ees);
    }

    Ok(RawUpstreamServer { endpoint, weight, protocol })
}

/// Whether the entry at `e` can stand in an `upstream` block.
pub open spec fn upstream_entry_ok(s: Seq<char>, t: Seq<Token>, hi: int, e: int) -> bool {
    let k = tok_text(s, t[e]);
    ((k == "balance_strategy"@) && is_text_assign(s, t, e, hi))
    || ((k == "static_servers"@) && is_value_assign(s, t, e, hi) && servers_ok(s, t, e + 2, hi))
    || ((k == "health_check"@) && is_object_assign(s, t, e, hi) && health_check_ok(s, t, object_range(t, e).0, object_range(t, e).1))
}

/// The entries that can stand in an `upstream` block whose tokens end at `hi`.
pub open spec fn upstream_entry(s: Seq<char>, t: Seq<Token>, hi: int) -> spec_fn(int) -> bool {
    |e: int| upstream_entry_ok(s, t, hi, e)
}

/// Whether the tokens from `lo` to `hi` read as an `upstream` block.
pub open spec fn upstream_ok(s: Seq<char>, t: Seq<Token>, lo: int, hi: int) -> bool {
    spec_entries(s, t, lo, hi) matches Some(es) && spec_first_bad(es, upstream_entry(s, t, hi)) is None
}

/// The error for an entry at `e` that cannot stand in an `upstream` block.
pub open spec fn upstream_fault_is(err: ConfigError, s: Seq<char>, t: Seq<Token>, hi: int, e: int) -> bool {
    let k = tok_text(s, t[e]);
    if (k == "static_servers"@) {
        (if !is_value_assign(s, t, e, hi) { is_syntax_error(err, "unexpected field '"@ + k + "' in "@ + "upstream"@, s, t[e].lo as int) } else { servers_error_is(err, s, t, e + 2, hi) })
    } else if (k == "health_check"@) {
        (if !is_object_assign(s, t, e, hi) { is_syntax_error(err, "unexpected field '"@ + k + "' in "@ + "upstream"@, s, t[e].lo as int) } else { health_check_error_is(err, s, t, object_range(t, e).0, object_range(t, e).1) })
    } else {
        is_syntax_error(err, "unexpected field '"@ + k + "' in "@ + "upstream"@, s, t[e].lo as int)
    }
}

/// The error that reading an `upstream` block from `lo` to `hi` ends with, when it does not read.
#[verifier::opaque]
pub open spec fn upstream_error_is(err: ConfigError, s: Seq<char>, t: Seq<Token>, nt: int, lo: int, hi: int) -> bool {
    match spec_entries(s, t, lo, hi) {
        None => is_syntax_error(err, "syntax error in gateway file"@, s, tok_pos(s, t, lo)),
        Some(es) => match spec_first_bad(es, upstream_entry(s, t, hi)) {
            Some(e) => upstream_fault_is(err, s, t, hi, e),
            None => true,
        },
    }
}

/// Whether `r` holds what an `upstream` block from `lo` to `hi` sets: each field the value of
/// the last entry that sets it.
pub open spec fn upstream_is(r: RawUpstream<'_>, s: Seq<char>, t: Seq<Token>, nt: int, lo: int, hi: int) -> bool {
    let es = match spec_entries(s, t, lo, hi) { Some(es) => es, None => Seq::empty() };
    r.name@ == tok_text(s, t[nt])
    && opt_text(r.balance_strategy) == text_field(s, t, spec_last_key(s, t, es, "balance_strategy"@))
    && (match spec_last_key(s, t, es, "static_servers"@) { Some(e) => servers_is(r.static_servers@, s, t, e + 2, hi), None => r.static_servers@.len() == 0 })
    && (match r.health_check { Some(x) => spec_last_key(s, t, es, "health_check"@) is Some && health_check_is(x, s, t, object_range(t, spec_last_key(s, t, es, "health_check"@)->0).0, object_range(t, spec_last_key(s, t, es, "health_check"@)->0).1), None => spec_last_key(s, t, es, "health_check"@) is None })
}

pub proof fn lemma_upstream_error(err: ConfigError, s: Seq<char>, t: Seq<Token>, nt: int, lo: int, hi: int, es: Seq<int>, e: int)
    requires
        spec_entries(s, t, lo, hi) == Some(es),
        spec_first_bad(es, upstream_entry(s, t, hi)) == Some(e),
        upstream_fault_is(err, s, t, hi, e),
    ensures
        upstream_error_is(err, s, t, nt, lo, hi),
{
    reveal(upstream_error_is);
}

/// Reads an `upstream` block from the tokens `lo` to `hi`.
#[verifier::spinoff_prover]
#[verifier::rlimit(100)]
pub fn read_upstream<'a>(input: &'a str, v: &Vec<char>, toks: &Vec<Token>, nt: usize, lo: usize, hi: usize) -> (r: Result<RawUpstream<'a>, ConfigError>)
    requires
        lo <= hi <= toks.len(),
        v@ == input@,
        v.len() < usize::MAX,
        tokens_in(v@, toks@),
        tokens_sorted(toks@),
        nt < toks.len(),
    ensures
        match r {
            Ok(b) => upstream_ok(v@, toks@, lo as int, hi as int) && upstream_is(b, v@, toks@, nt as int, lo as int, hi as int),
            Err(err) => !upstream_ok(v@, toks@, lo as int, hi as int) && upstream_error_is(err, v@, toks@, nt as int, lo as int, hi as int),
        },
{
    let es = match entries(v, toks, lo, hi) { Some(es) => es, None => { proof { reveal(upstream_error_is); } return Err(block_syntax_error(v, toks, lo, hi)); } };
    let ghost ees = es@.map_values(|e: usize| e as int);
    let ghost ok = upstream_entry(v@, toks@, hi as int);
    proof {
        lemma_entries_in(v@, toks@, lo as int, hi as int, ees);
        reveal_strlit(""); reveal_strlit("balance_strategy"); reveal_strlit("static_servers"); reveal_strlit("health_check");
    }
    let mut balance_strategy: Option<&'a str> = None;
    let mut static_servers: Vec<RawUpstreamServer<'a>> = Vec::new();
    let mut health_check: Option<RawHealthCheck<'a>> = None;
    let mut i: usize = 0;
    while i < es.len()
        invariant
            i <= es.len(),
            lo <= hi <= toks.len(),
            v@ == input@,
            v.len() < usize::MAX,
            tokens_in(v@, toks@),
            tokens_sorted(toks@),
            ees == es@.map_values(|e: usize| e as int),
            spec_entries(v@, toks@, lo as int, hi as int) == Some(ees),
            forall|m: int| 0 <= m < es.len() ==> lo <= #[trigger] ees[m] < hi,
            ok == upstream_entry(v@, toks@, hi as int),
            forall|m: int| 0 <= m < i ==> ok(#[trigger] ees[m]),
            opt_text(balance_strategy) == text_field(v@, toks@, spec_last_key(v@, toks@, ees.take(i as int), "balance_strategy"@)),
            (match spec_last_key(v@, toks@, ees.take(i as int), "static_servers"@) { Some(e) => servers_is(static_servers@, v@, toks@, e + 2, hi as int), None => static_servers@.len() == 0 }),
            (match health_check { Some(x) => spec_last_key(v@, toks@, ees.take(i as int), "health_check"@) is Some && health_check_is(x, v@, toks@, object_range(toks@, spec_last_key(v@, toks@, ees.take(i as int), "health_check"@)->0).0, object_range(toks@, spec_last_key(v@, toks@, ees.take(i as int), "health_check"@)->0).1), None => spec_last_key(v@, toks@, ees.take(i as int), "health_check"@) is None }),
        decreases es.len() - i,
    {
        let e = es[i];
        assert(ees[i as int] == e as int);
        proof {
             reveal_strlit("balance_strategy"); reveal_strlit("static_servers"); reveal_strlit("health_check"); reveal_strlit("true"); reveal_strlit("->"); reveal_strlit("extends");
            assert("balance_strategy"@.len() == 16);
            assert("static_servers"@.len() == 14);
            assert("health_check"@.len() == 12);
            lemma_last_key_step(v@, toks@, ees, i as int, "balance_strategy"@);
            lemma_last_key_step(v@, toks@, ees, i as int, "static_servers"@);
            lemma_last_key_step(v@, toks@, ees, i as int, "health_check"@);
        }
        if range_eq(v, toks[e].lo, toks[e].hi, "balance_strategy") {
            assert((tok_text(v@, toks@[e as int]) == "balance_strategy"@));
            if text_assign(v, toks, e, hi) { balance_strategy = Some(text_of(input, v, toks, e + 2)); } else { let err = field_error(input, v, toks, e, "upstream"); proof { lemma_first_bad(ees, ok, i as int); lemma_upstream_error(err, v@, toks@, nt as int, lo as int, hi as int, ees, ees[i as int]); } return Err(err); }
        } else if range_eq(v, toks[e].lo, toks[e].hi, "static_servers") {
            assert((tok_text(v@, toks@[e as int]) == "static_servers"@));
            if value_assign(v, toks, e, hi) { match read_servers(input, v, toks, e + 2, hi) { Ok(x) => { static_servers = x; }, Err(err) => { proof { lemma_first_bad(ees, ok, i as int); lemma_upstream_error(err, v@, toks@, nt as int, lo as int, hi as int, ees, ees[i as int]); } return Err(err); } } } else { let err = field_error(input, v, toks, e, "upstream"); proof { lemma_first_bad(ees, ok, i as int); lemma_upstream_error(err, v@, toks@, nt as int, lo as int, hi as int, ees, ees[i as int]); } return Err(err); }
        } else if range_eq(v, toks[e].lo, toks[e].hi, "health_check") {
            assert((tok_text(v@, toks@[e as int]) == "health_check"@));
            if object_assign(v, toks, e, hi) { let c = match_bracket(toks, e + 2).unwrap(); proof { lemma_match_after(toks@, e + 2); } match read_health_check(input, v, toks, e + 3, c) { Ok(x) => { health_check = Some(x); }, Err(err) => { proof { lemma_first_bad(ees, ok, i as int); lemma_upstream_error(err, v@, toks@, nt as int, lo as int, hi as int, ees, ees[i as int]); } return Err(err); } } } else { let err = field_error(input, v, toks, e, "upstream"); proof { lemma_first_bad(ees, ok, i as int); lemma_upstream_error(err, v@, toks@, nt as int, lo as int, hi as int, ees, ees[i as int]); } return Err(err); }
        } else {
            { let err = field_error(input, v, toks, e, "upstream"); proof { lemma_first_bad(ees, ok, i as int); lemma_upstream_error(err, v@, toks@, nt as int, lo as int, hi as int, ees, ees[i as int]); } return Err(err); }
        }
        i = i + 1;
    }
    proof {
        lemma_first_bad(ees, ok, es.len() as int);
        assert(ees.take(es.len() as int) =~= ees);
    }

    Ok(RawUpstream { name: text_of(input, v, toks, nt), balance_strategy, static_servers, security: None, health_check, circuit_breaker: None, discovery: None, registry: None })
}

/// Whether the entry at `e` is a `listener "name" { ... }` block that reads.
pub open spec fn listeners_entry_ok(s: Seq<char>, t: Seq<Token>, hi: int, e: int) -> bool {
    tok_text(s, t[e]) == "listener"@ && is_block_entry(s, t, e, hi, 1) && t[e + 1].kind == TokenKind::Str
        && listener_ok(s, t, block_range(t, e, 1).0, block_range(t, e, 1).1)
}

pub open spec fn listeners_entry(s: Seq<char>, t: Seq<Token>, hi: int) -> spec_fn(int) -> bool {
    |e: int| listeners_entry_ok(s, t, hi, e)
}

/// Whether the tokens from `lo` to `hi` read as a `listeners` block.
pub open spec fn listeners_ok(s: Seq<char>, t: Seq<Token>, lo: int, hi: int) -> bool {
    spec_entries(s, t, lo, hi) matches Some(es) && spec_first_bad(es, listeners_entry(s, t, hi)) is None
}

/// The error for an entry at `e` that cannot stand in a `listeners` block.
pub open spec fn listeners_fault_is(err: ConfigError, s: Seq<char>, t: Seq<Token>, hi: int, e: int) -> bool {
    if !(tok_text(s, t[e]) == "listener"@ && is_block_entry(s, t, e, hi, 1) && t[e + 1].kind == TokenKind::Str) {
        is_syntax_error(err, "unexpected field '"@ + tok_text(s, t[e]) + "' in "@ + "listeners block"@, s, t[e].lo as int)
    } else {
        listener_error_is(err, s, t, e + 1, block_range(t, e, 1).0, block_range(t, e, 1).1)
    }
}

pub proof fn lemma_listeners_error(err: ConfigError, s: Seq<char>, t: Seq<Token>, lo: int, hi: int, es: Seq<int>, e: int)
    requires
        spec_entries(s, t, lo, hi) == Some(es),
        spec_first_bad(es, listeners_entry(s, t, hi)) == Some(e),
        listeners_fault_is(err, s, t, hi, e),
    ensures
        listeners_error_is(err, s, t, lo, hi),
{
    reveal(listeners_error_is);
}

/// The error that reading a `listeners` block from `lo` to `hi` ends with, when it does not read.
#[verifier::opaque]
pub open spec fn listeners_error_is(err: ConfigError, s: Seq<char>, t: Seq<Token>, lo: int, hi: int) -> bool {
    match spec_entries(s, t, lo, hi) {
        None => is_syntax_error(err, "syntax error in gateway file"@, s, tok_pos(s, t, lo)),
        Some(es) => match spec_first_bad(es, listeners_entry(s, t, hi)) {
            Some(e) => listeners_fault_is(err, s, t, hi, e),
            None => true,
        },
    }
}

/// Whether `r` holds, in order, what the blocks of a `listeners` block say.
pub open spec fn listeners_is(r: Seq<RawListener<'_>>, s: Seq<char>, t: Seq<Token>, lo: int, hi: int) -> bool {
    let es = match spec_entries(s, t, lo, hi) { Some(es) => es, None => Seq::empty() };
    r.len() == es.len() && forall|m: int| 0 <= m < es.len() ==> #[trigger] listener_is(r[m], s, t, es[m] + 1, block_range(t, es[m], 1).0, block_range(t, es[m], 1).1)
}

/// Reads a `listeners` block from the tokens `lo` to `hi`.
#[verifier::spinoff_prover]
#[verifier::rlimit(50)]
pub fn read_listeners<'a>(input: &'a str, v: &Vec<char>, toks: &Vec<Token>, lo: usize, hi: usize) -> (r: Result<Vec<RawListener<'a>>, ConfigError>)
    requires
        lo <= hi <= toks.len(),
        v@ == input@,
        v.len() < usize::MAX,
        tokens_in(v@, toks@),
        tokens_sorted(toks@),
    ensures
        match r {
            Ok(b) => listeners_ok(v@, toks@, lo as int, hi as int) && listeners_is(b@, v@, toks@, lo as int, hi as int),
            Err(err) => !listeners_ok(v@, toks@, lo as int, hi as int) && listeners_error_is(err, v@, toks@, lo as int, hi as int),
        },
{
    let es = match entries(v, toks, lo, hi) { Some(es) => es, None => { proof { reveal(listeners_error_is); } return Err(block_syntax_error(v, toks, lo, hi)); } };
    let ghost ees = es@.map_values(|e: usize| e as int);
    let ghost ok = listeners_entry(v@, toks@, hi as int);
    proof { lemma_entries_in(v@, toks@, lo as int, hi as int, ees); reveal_strlit("listener"); }
    let mut out: Vec<RawListener<'a>> = Vec::new();
    let mut i: usize = 0;
    while i < es.len()
        invariant
            i <= es.len(),
            lo <= hi <= toks.len(),
            v@ == input@,
            v.len() < usize::MAX,
            tokens_in(v@, toks@),
            tokens_sorted(toks@),
            ees == es@.map_values(|e: usize| e as int),
            spec_entries(v@, toks@, lo as int, hi as int) == Some(ees),
            forall|m: int| 0 <= m < es.len() ==> lo <= #[trigger] ees[m] < hi,
            ok == listeners_entry(v@, toks@, hi as int),
            forall|m: int| 0 <= m < i ==> ok(#[trigger] ees[m]),
            out@.len() == i,
            forall|m: int| 0 <= m < i ==> #[trigger] listener_is(out@[m], v@, toks@, ees[m] + 1, block_range(toks@, ees[m], 1).0, block_range(toks@, ees[m], 1).1),
        decreases es.len() - i,
    {
        let e = es[i];
        assert(ees[i as int] == e as int);
        if !(range_eq(v, toks[e].lo, toks[e].hi, "listener") && block_entry(v, toks, e, hi, 1) && toks[e + 1].kind == TokenKind::Str) {
            let err = field_error(input, v, toks, e, "listeners block");
            proof { lemma_first_bad(ees, ok, i as int); lemma_listeners_error(err, v@, toks@, lo as int, hi as int, ees, ees[i as int]); }
            return Err(err);
        }
        let c = match_bracket(toks, e + 2).unwrap();
        proof { lemma_match_after(toks@, e + 2); }
        match read_listener(input, v, toks, e + 1, e + 3, c) {
            Ok(x) => { out.push(x); },
            Err(err) => { proof { lemma_first_bad(ees, ok, i as int); lemma_listeners_error(err, v@, toks@, lo as int, hi as int, ees, ees[i as int]); } return Err(err); },
        }
        i = i + 1;
    }
    proof {
        lemma_first_bad(ees, ok, es.len() as int);
    }
    Ok(out)
}

/// Whether the entry at `e` is a `upstream "name" { ... }` block that reads.
pub open spec fn upstreams_entry_ok(s: Seq<char>, t: Seq<Token>, hi: int, e: int) -> bool {
    tok_text(s, t[e]) == "upstream"@ && is_block_entry(s, t, e, hi, 1) && t[e + 1].kind == TokenKind::Str
        && upstream_ok(s, t, block_range(t, e, 1).0, block_range(t, e, 1).1)
}

pub open spec fn upstreams_entry(s: Seq<char>, t: Seq<Token>, hi: int) -> spec_fn(int) -> bool {
    |e: int| upstreams_entry_ok(s, t, hi, e)
}

/// Whether the tokens from `lo` to `hi` read as an `upstreams` block.
pub open spec fn upstreams_ok(s: Seq<char>, t: Seq<Token>, lo: int, hi: int) -> bool {
    spec_entries(s, t, lo, hi) matches Some(es) && spec_first_bad(es, upstreams_entry(s, t, hi)) is None
}

/// The error for an entry at `e` that cannot stand in an `upstreams` block.
pub open spec fn upstreams_fault_is(err: ConfigError, s: Seq<char>, t: Seq<Token>, hi: int, e: int) -> bool {
    if !(tok_text(s, t[e]) == "upstream"@ && is_block_entry(s, t, e, hi, 1) && t[e + 1].kind == TokenKind::Str) {
        is_syntax_error(err, "unexpected field '"@ + tok_text(s, t[e]) + "' in "@ + "upstreams block"@, s, t[e].lo as int)
    } else {
        upstream_error_is(err, s, t, e + 1, block_range(t, e, 1).0, block_range(t, e, 1).1)
    }
}

pub proof fn lemma_upstreams_error(err: ConfigError, s: Seq<char>, t: Seq<Token>, lo: int, hi: int, es: Seq<int>, e: int)
    requires
        spec_entries(s, t, lo, hi) == Some(es),
        spec_first_bad(es, upstreams_entry(s, t, hi)) == Some(e),
        upstreams_fault_is(err, s, t, hi, e),
    ensures
        upstreams_error_is(err, s, t, lo, hi),
{
    reveal(upstreams_error_is);
}

/// The error that reading an `upstreams` block from `lo` to `hi` ends with, when it does not read.
#[verifier::opaque]
pub open spec fn upstreams_error_is(err: ConfigError, s: Seq<char>, t: Seq<Token>, lo: int, hi: int) -> bool {
    match spec_entries(s, t, lo, hi) {
        None => is_syntax_error(err, "syntax error in gateway file"@, s, tok_pos(s, t, lo)),
        Some(es) => match spec_first_bad(es, upstreams_entry(s, t, hi)) {
            Some(e) => upstreams_fault_is(err, s, t, hi, e),
            None => true,
        },
    }
}

/// Whether `r` holds, in order, what the blocks of an `upstreams` block say.
pub open spec fn upstreams_is(r: Seq<RawUpstream<'_>>, s: Seq<char>, t: Seq<Token>, lo: int, hi: int) -> bool {
    let es = match spec_entries(s, t, lo, hi) { Some(es) => es, None => Seq::empty() };
    r.len() == es.len() && forall|m: int| 0 <= m < es.len() ==> #[trigger] upstream_is(r[m], s, t, es[m] + 1, block_range(t, es[m], 1).0, block_range(t, es[m], 1).1)
}

/// Reads an `upstreams` block from the tokens `lo` to `hi`.
#[verifier::spinoff_prover]
#[verifier::rlimit(50)]
pub fn read_upstreams<'a>(input: &'a str, v: &Vec<char>, toks: &Vec<Token>, lo: usize, hi: usize) -> (r: Result<Vec<RawUpstream<'a>>, ConfigError>)
    requires
        lo <= hi <= toks.len(),
        v@ == input@,
        v.len() < usize::MAX,
        tokens_in(v@, toks@),
        tokens_sorted(toks@),
    ensures
        match r {
            Ok(b) => upstreams_ok(v@, toks@, lo as int, hi as int) && upstreams_is(b@, v@, toks@, lo as int, hi as int),
            Err(err) => !upstreams_ok(v@, toks@, lo as int, hi as int) && upstreams_error_is(err, v@, toks@, lo as int, hi as int),
        },
{
    let es = match entries(v, toks, lo, hi) { Some(es) => es, None => { proof { reveal(upstreams_error_is); } return Err(block_syntax_error(v, toks, lo, hi)); } };
    let ghost ees = es@.map_values(|e: usize| e as int);
    let ghost ok = upstreams_entry(v@, toks@, hi as int);
    proof { lemma_entries_in(v@, toks@, lo as int, hi as int, ees); reveal_strlit("upstream"); }
    let mut out: Vec<RawUpstream<'a>> = Vec::new();
    let mut i: usize = 0;
    while i < es.len()
        invariant
            i <= es.len(),
            lo <= hi <= toks.len(),
            v@ == input@,
            v.len() < usize::MAX,
            tokens_in(v@, toks@),
            tokens_sorted(toks@),
            ees == es@.map_values(|e: usize| e as int),
            spec_entries(v@, toks@, lo as int, hi as int) == Some(ees),
            forall|m: int| 0 <= m < es.len() ==> lo <= #[trigger] ees[m] < hi,
            ok == upstreams_entry(v@, toks@, hi as int),
            forall|m: int| 0 <= m < i ==> ok(#[trigger] ees[m]),
            out@.len() == i,
            forall|m: int| 0 <= m < i ==> #[trigger] upstream_is(out@[m], v@, toks@, ees[m] + 1, block_range(toks@, ees[m], 1).0, block_range(toks@, ees[m], 1).1),
        decreases es.len() - i,
    {
        let e = es[i];
        assert(ees[i as int] == e as int);
        if !(range_eq(v, toks[e].lo, toks[e].hi, "upstream") && block_entry(v, toks, e, hi, 1) && toks[e + 1].kind == TokenKind::Str) {
            let err = field_error(input, v, toks, e, "upstreams block");
            proof { lemma_first_bad(ees, ok, i as int); lemma_upstreams_error(err, v@, toks@, lo as int, hi as int, ees, ees[i as int]); }
            return Err(err);
        }
        let c = match_bracket(toks, e + 2).unwrap();
        proof { lemma_match_after(toks@, e + 2); }
        match read_upstream(input, v, toks, e + 1, e + 3, c) {
            Ok(x) => { out.push(x); },
            Err(err) => { proof { lemma_first_bad(ees, ok, i as int); lemma_upstreams_error(err, v@, toks@, lo as int, hi as int, ees, ees[i as int]); } return Err(err); },
        }
        i = i + 1;
    }
    proof {
        lemma_first_bad(ees, ok, es.len() as int);
    }
    Ok(out)
}

/// Whether the entry at `e` can stand in a `to_upstream` or `from_upstream` block.
pub open spec fn direction_entry_ok(s: Seq<char>, t: Seq<Token>, hi: int, e: int) -> bool {
    let k = tok_text(s, t[e]);
    ((k == "set"@ || k == "add"@) && is_object_assign(s, t, e, hi) && pairs_ok(s, t, object_range(t, e).0, object_range(t, e).1))
    || ((k == "remove"@) && is_list_assign(s, t, e, hi) && list_texts(s, t, e + 2) is Some)
}

/// The entries that can stand in a `to_upstream` or `from_upstream` block whose tokens end at `hi`.
pub open spec fn direction_entry(s: Seq<char>, t: Seq<Token>, hi: int) -> spec_fn(int) -> bool {
    |e: int| direction_entry_ok(s, t, hi, e)
}

/// Whether the tokens from `lo` to `hi` read as a `to_upstream` or `from_upstream` block.
pub open spec fn direction_ok(s: Seq<char>, t: Seq<Token>, lo: int, hi: int) -> bool {
    spec_entries(s, t, lo, hi) matches Some(es) && spec_first_bad(es, direction_entry(s, t, hi)) is None
}

/// The error for an entry at `e` that cannot stand in a `to_upstream` or `from_upstream` block.
pub open spec fn direction_fault_is(err: ConfigError, s: Seq<char>, t: Seq<Token>, hi: int, e: int) -> bool {
    let k = tok_text(s, t[e]);
    is_syntax_error(err, "unexpected field '"@ + k + "' in "@ + "headers block"@, s, t[e].lo as int)
}

/// The error that reading a `to_upstream` or `from_upstream` block from `lo` to `hi` ends with, when it does not read.
#[verifier::opaque]
pub open spec fn direction_error_is(err: ConfigError, s: Seq<char>, t: Seq<Token>, lo: int, hi: int) -> bool {
    match spec_entries(s, t, lo, hi) {
        None => is_syntax_error(err, "syntax error in gateway file"@, s, tok_pos(s, t, lo)),
        Some(es) => match spec_first_bad(es, direction_entry(s, t, hi)) {
            Some(e) => direction_fault_is(err, s, t, hi, e),
            None => true,
        },
    }
}

/// Whether `r` holds what a `to_upstream` or `from_upstream` block from `lo` to `hi` sets: each field the value of
/// the last entry that sets it.
pub open spec fn direction_is(r: RawHeadersOps<'_>, s: Seq<char>, t: Seq<Token>, lo: int, hi: int) -> bool {
    let es = match spec_entries(s, t, lo, hi) { Some(es) => es, None => Seq::empty() };
    view_pairs(r.set@) == acc_pairs(s, t, es, "set"@, "add"@)
    && view_strs(r.remove@) == list_field(s, t, spec_last_key(s, t, es, "remove"@))
}

pub proof fn lemma_direction_error(err: ConfigError, s: Seq<char>, t: Seq<Token>, lo: int, hi: int, es: Seq<int>, e: int)
    requires
        spec_entries(s, t, lo, hi) == Some(es),
        spec_first_bad(es, direction_entry(s, t, hi)) == Some(e),
        direction_fault_is(err, s, t, hi, e),
    ensures
        direction_error_is(err, s, t, lo, hi),
{
    reveal(direction_error_is);
}

/// Reads a `to_upstream` or `from_upstream` block from the tokens `lo` to `hi`.
#[verifier::spinoff_prover]
#[verifier::rlimit(100)]
pub fn read_direction<'a>(input: &'a str, v: &Vec<char>, toks: &Vec<Token>, lo: usize, hi: usize) -> (r: Result<RawHeadersOps<'a>, ConfigError>)
    requires
        lo <= hi <= toks.len(),
        v@ == input@,
        v.len() < usize::MAX,
        tokens_in(v@, toks@),
        tokens_sorted(toks@),
    ensures
        match r {
            Ok(b) => direction_ok(v@, toks@, lo as int, hi as int) && direction_is(b, v@, toks@, lo as int, hi as int),
            Err(err) => !direction_ok(v@, toks@, lo as int, hi as int) && direction_error_is(err, v@, toks@, lo as int, hi as int),
        },
{
    let es = match entries(v, toks, lo, hi) { Some(es) => es, None => { proof { reveal(direction_error_is); } return Err(block_syntax_error(v, toks, lo, hi)); } };
    let ghost ees = es@.map_values(|e: usize| e as int);
    let ghost ok = direction_entry(v@, toks@, hi as int);
    proof {
        lemma_entries_in(v@, toks@, lo as int, hi as int, ees);
        reveal_strlit(""); reveal_strlit("set"); reveal_strlit("add"); reveal_strlit("remove");
    }
    let mut set: Vec<(&'a str, &'a str)> = Vec::new();
    let mut remove: Vec<&'a str> = Vec::new();
    let mut i: usize = 0;
    while i < es.len()
        invariant
            i <= es.len(),
            lo <= hi <= toks.len(),
            v@ == input@,
            v.len() < usize::MAX,
            tokens_in(v@, toks@),
            tokens_sorted(toks@),
            ees == es@.map_values(|e: usize| e as int),
            spec_entries(v@, toks@, lo as int, hi as int) == Some(ees),
            forall|m: int| 0 <= m < es.len() ==> lo <= #[trigger] ees[m] < hi,
            ok == direction_entry(v@, toks@, hi as int),
            forall|m: int| 0 <= m < i ==> ok(#[trigger] ees[m]),
            view_pairs(set@) == acc_pairs(v@, toks@, ees.take(i as int), "set"@, "add"@),
            view_strs(remove@) == list_field(v@, toks@, spec_last_key(v@, toks@, ees.take(i as int), "remove"@)),
        decreases es.len() - i,
    {
        let e = es[i];
        assert(ees[i as int] == e as int);
        proof {
             reveal_strlit("set"); reveal_strlit("add"); reveal_strlit("remove"); reveal_strlit("true"); reveal_strlit("->"); reveal_strlit("extends");
            assert("set"@.len() == 3);
            assert("add"@.len() == 3);
            assert("remove"@.len() == 6);
            assert("set"@[0] != "add"@[0]);
            lemma_acc_pairs_step(v@, toks@, ees, i as int, "set"@, "add"@);
            lemma_last_key_step(v@, toks@, ees, i as int, "remove"@);
        }
        if range_eq(v, toks[e].lo, toks[e].hi, "set") || range_eq(v, toks[e].lo, toks[e].hi, "add") {
            assert((tok_text(v@, toks@[e as int]) == "set"@ || tok_text(v@, toks@[e as int]) == "add"@));
            if object_assign(v, toks, e, hi) { let c = match_bracket(toks, e + 2).unwrap(); proof { lemma_match_after(toks@, e + 2); } match read_pairs(input, v, toks, e + 3, c) { Some(mut ps) => { let ghost a = set@; let ghost b = ps@; set.append(&mut ps); assert(view_pairs(set@) =~= view_pairs(a) + view_pairs(b)); }, None => { let err = field_error(input, v, toks, e, "headers block"); proof { lemma_first_bad(ees, ok, i as int); lemma_direction_error(err, v@, toks@, lo as int, hi as int, ees, ees[i as int]); } return Err(err); } } } else { let err = field_error(input, v, toks, e, "headers block"); proof { lemma_first_bad(ees, ok, i as int); lemma_direction_error(err, v@, toks@, lo as int, hi as int, ees, ees[i as int]); } return Err(err); }
        } else if range_eq(v, toks[e].lo, toks[e].hi, "remove") {
            assert((tok_text(v@, toks@[e as int]) == "remove"@));
            if list_assign(v, toks, e, hi) { match list_of_texts(input, v, toks, e + 2) { Some(xs) => { remove = xs; }, None => { let err = field_error(input, v, toks, e, "headers block"); proof { lemma_first_bad(ees, ok, i as int); lemma_direction_error(err, v@, toks@, lo as int, hi as int, ees, ees[i as int]); } return Err(err); } } } else { let err = field_error(input, v, toks, e, "headers block"); proof { lemma_first_bad(ees, ok, i as int); lemma_direction_error(err, v@, toks@, lo as int, hi as int, ees, ees[i as int]); } return Err(err); }
        } else {
            { let err = field_error(input, v, toks, e, "headers block"); proof { lemma_first_bad(ees, ok, i as int); lemma_direction_error(err, v@, toks@, lo as int, hi as int, ees, ees[i as int]); } return Err(err); }
        }
        i = i + 1;
    }
    proof {
        lemma_first_bad(ees, ok, es.len() as int);
        assert(ees.take(es.len() as int) =~= ees);
    }

    Ok(RawHeadersOps { set, remove })
}

/// Whether the entry at `e` can stand in an `inbound_headers` block.
pub open spec fn inbound_headers_entry_ok(s: Seq<char>, t: Seq<Token>, hi: int, e: int) -> bool {
    let k = tok_text(s, t[e]);
    ((k == "set"@ || k == "add"@) && is_object_assign(s, t, e, hi) && pairs_ok(s, t, object_range(t, e).0, object_range(t, e).1))
    || ((k == "remove"@) && is_list_assign(s, t, e, hi) && list_texts(s, t, e + 2) is Some)
    || ((k == "to_upstream"@) && is_block_entry(s, t, e, hi, 0) && direction_ok(s, t, block_range(t, e, 0).0, block_range(t, e, 0).1))
}

/// The entries that can stand in an `inbound_headers` block whose tokens end at `hi`.
pub open spec fn inbound_headers_entry(s: Seq<char>, t: Seq<Token>, hi: int) -> spec_fn(int) -> bool {
    |e: int| inbound_headers_entry_ok(s, t, hi, e)
}

/// Whether the tokens from `lo` to `hi` read as an `inbound_headers` block.
pub open spec fn inbound_headers_ok(s: Seq<char>, t: Seq<Token>, lo: int, hi: int) -> bool {
    spec_entries(s, t, lo, hi) matches Some(es) && spec_first_bad(es, inbound_headers_entry(s, t, hi)) is None
}

/// The error for an entry at `e` that cannot stand in an `inbound_headers` block.
pub open spec fn inbound_headers_fault_is(err: ConfigError, s: Seq<char>, t: Seq<Token>, hi: int, e: int) -> bool {
    let k = tok_text(s, t[e]);
    if (k == "to_upstream"@) {
        direction_entry_error_is(err, s, t, hi, e, "inbound_headers block"@)
    } else {
        is_syntax_error(err, "unexpected field '"@ + k + "' in "@ + "inbound_headers block"@, s, t[e].lo as int)
    }
}

/// The error that reading an `inbound_headers` block from `lo` to `hi` ends with, when it does not read.
#[verifier::opaque]
pub open spec fn inbound_headers_error_is(err: ConfigError, s: Seq<char>, t: Seq<Token>, lo: int, hi: int) -> bool {
    match spec_entries(s, t, lo, hi) {
        None => is_syntax_error(err, "syntax error in gateway file"@, s, tok_pos(s, t, lo)),
        Some(es) => match spec_first_bad(es, inbound_headers_entry(s, t, hi)) {
            Some(e) => inbound_headers_fault_is(err, s, t, hi, e),
            None => true,
        },
    }
}

/// Whether `r` holds what an `inbound_headers` block from `lo` to `hi` sets: each field the value of
/// the last entry that sets it.
pub open spec fn inbound_headers_is(r: RawRouteHeadersOpts<'_, RawHeadersOps<'_>>, s: Seq<char>, t: Seq<Token>, lo: int, hi: int) -> bool {
    let es = match spec_entries(s, t, lo, hi) { Some(es) => es, None => Seq::empty() };
    view_pairs(r.opts.set@) == acc_pairs(s, t, es, "set"@, "add"@)
    && view_strs(r.opts.remove@) == list_field(s, t, spec_last_key(s, t, es, "remove"@))
    && (match spec_last_key(s, t, es, "to_upstream"@) { Some(e) => direction_is(r.upstream, s, t, block_range(t, e, 0).0, block_range(t, e, 0).1), None => r.upstream.set@.len() == 0 && r.upstream.remove@.len() == 0 })
}

pub proof fn lemma_inbound_headers_error(err: ConfigError, s: Seq<char>, t: Seq<Token>, lo: int, hi: int, es: Seq<int>, e: int)
    requires
        spec_entries(s, t, lo, hi) == Some(es),
        spec_first_bad(es, inbound_headers_entry(s, t, hi)) == Some(e),
        inbound_headers_fault_is(err, s, t, hi, e),
    ensures
        inbound_headers_error_is(err, s, t, lo, hi),
{
    reveal(inbound_headers_error_is);
}

/// Reads an `inbound_headers` block from the tokens `lo` to `hi`.
#[verifier::spinoff_prover]
#[verifier::rlimit(100)]
pub fn read_inbound_headers<'a>(input: &'a str, v: &Vec<char>, toks: &Vec<Token>, lo: usize, hi: usize) -> (r: Result<RawRouteHeadersOpts<'a, RawHeadersOps<'a>>, ConfigError>)
    requires
        lo <= hi <= toks.len(),
        v@ == input@,
        v.len() < usize::MAX,
        tokens_in(v@, toks@),
        tokens_sorted(toks@),
    ensures
        match r {
            Ok(b) => inbound_headers_ok(v@, toks@, lo as int, hi as int) && inbound_headers_is(b, v@, toks@, lo as int, hi as int),
            Err(err) => !inbound_headers_ok(v@, toks@, lo as int, hi as int) && inbound_headers_error_is(err, v@, toks@, lo as int, hi as int),
        },
{
    let es = match entries(v, toks, lo, hi) { Some(es) => es, None => { proof { reveal(inbound_headers_error_is); } return Err(block_syntax_error(v, toks, lo, hi)); } };
    let ghost ees = es@.map_values(|e: usize| e as int);
    let ghost ok = inbound_headers_entry(v@, toks@, hi as int);
    proof {
        lemma_entries_in(v@, toks@, lo as int, hi as int, ees);
        reveal_strlit(""); reveal_strlit("set"); reveal_strlit("add"); reveal_strlit("remove"); reveal_strlit("to_upstream");
    }
    let mut set: Vec<(&'a str, &'a str)> = Vec::new();
    let mut remove: Vec<&'a str> = Vec::new();
    let mut to_upstream: Option<RawHeadersOps<'a>> = None;
    let mut i: usize = 0;
    while i < es.len()
        invariant
            i <= es.len(),
            lo <= hi <= toks.len(),
            v@ == input@,
            v.len() < usize::MAX,
            tokens_in(v@, toks@),
            tokens_sorted(toks@),
            ees == es@.map_values(|e: usize| e as int),
            spec_entries(v@, toks@, lo as int, hi as int) == Some(ees),
            forall|m: int| 0 <= m < es.len() ==> lo <= #[trigger] ees[m] < hi,
            ok == inbound_headers_entry(v@, toks@, hi as int),
            forall|m: int| 0 <= m < i ==> ok(#[trigger] ees[m]),
            view_pairs(set@) == acc_pairs(v@, toks@, ees.take(i as int), "set"@, "add"@),
            view_strs(remove@) == list_field(v@, toks@, spec_last_key(v@, toks@, ees.take(i as int), "remove"@)),
            (match to_upstream { Some(x) => spec_last_key(v@, toks@, ees.take(i as int), "to_upstream"@) is Some && direction_is(x, v@, toks@, block_range(toks@, spec_last_key(v@, toks@, ees.take(i as int), "to_upstream"@)->0, 0).0, block_range(toks@, spec_last_key(v@, toks@, ees.take(i as int), "to_upstream"@)->0, 0).1), None => spec_last_key(v@, toks@, ees.take(i as int), "to_upstream"@) is None }),
        decreases es.len() - i,
    {
        let e = es[i];
        assert(ees[i as int] == e as int);
        proof {
             reveal_strlit("set"); reveal_strlit("add"); reveal_strlit("remove"); reveal_strlit("to_upstream"); reveal_strlit("true"); reveal_strlit("->"); reveal_strlit("extends");
            assert("set"@.len() == 3);
            assert("add"@.len() == 3);
            assert("remove"@.len() == 6);
            assert("to_upstream"@.len() == 11);
            assert("set"@[0] != "add"@[0]);
            lemma_acc_pairs_step(v@, toks@, ees, i as int, "set"@, "add"@);
            lemma_last_key_step(v@, toks@, ees, i as int, "remove"@);
            lemma_last_key_step(v@, toks@, ees, i as int, "to_upstream"@);
        }
        if range_eq(v, toks[e].lo, toks[e].hi, "set") || range_eq(v, toks[e].lo, toks[e].hi, "add") {
            assert((tok_text(v@, toks@[e as int]) == "set"@ || tok_text(v@, toks@[e as int]) == "add"@));
            if object_assign(v, toks, e, hi) { let c = match_bracket(toks, e + 2).unwrap(); proof { lemma_match_after(toks@, e + 2); } match read_pairs(input, v, toks, e + 3, c) { Some(mut ps) => { let ghost a = set@; let ghost b = ps@; set.append(&mut ps); assert(view_pairs(set@) =~= view_pairs(a) + view_pairs(b)); }, None => { let err = field_error(input, v, toks, e, "inbound_headers block"); proof { lemma_first_bad(ees, ok, i as int); lemma_inbound_headers_error(err, v@, toks@, lo as int, hi as int, ees, ees[i as int]); } return Err(err); } } } else { let err = field_error(input, v, toks, e, "inbound_headers block"); proof { lemma_first_bad(ees, ok, i as int); lemma_inbound_headers_error(err, v@, toks@, lo as int, hi as int, ees, ees[i as int]); } return Err(err); }
        } else if range_eq(v, toks[e].lo, toks[e].hi, "remove") {
            assert((tok_text(v@, toks@[e as int]) == "remove"@));
            if list_assign(v, toks, e, hi) { match list_of_texts(input, v, toks, e + 2) { Some(xs) => { remove = xs; }, None => { let err = field_error(input, v, toks, e, "inbound_headers block"); proof { lemma_first_bad(ees, ok, i as int); lemma_inbound_headers_error(err, v@, toks@, lo as int, hi as int, ees, ees[i as int]); } return Err(err); } } } else { let err = field_error(input, v, toks, e, "inbound_headers block"); proof { lemma_first_bad(ees, ok, i as int); lemma_inbound_headers_error(err, v@, toks@, lo as int, hi as int, ees, ees[i as int]); } return Err(err); }
        } else if range_eq(v, toks[e].lo, toks[e].hi, "to_upstream") {
            assert((tok_text(v@, toks@[e as int]) == "to_upstream"@));
            match read_direction_entry(input, v, toks, e, hi, "inbound_headers block") { Ok(x) => { to_upstream = Some(x); }, Err(err) => { proof { lemma_first_bad(ees, ok, i as int); lemma_inbound_headers_error(err, v@, toks@, lo as int, hi as int, ees, ees[i as int]); } return Err(err); } }
        } else {
            { let err = field_error(input, v, toks, e, "inbound_headers block"); proof { lemma_first_bad(ees, ok, i as int); lemma_inbound_headers_error(err, v@, toks@, lo as int, hi as int, ees, ees[i as int]); } return Err(err); }
        }
        i = i + 1;
    }
    proof {
        lemma_first_bad(ees, ok, es.len() as int);
        assert(ees.take(es.len() as int) =~= ees);
    }

    Ok(RawRouteHeadersOpts { opts: RawHeadersOps { set, remove }, upstream: match to_upstream { Some(d) => d, None => RawHeadersOps { set: Vec::new(), remove: Vec::new() } } })
}

/// Whether the entry at `e` can stand in an `outbound_headers` block.
pub open spec fn outbound_headers_entry_ok(s: Seq<char>, t: Seq<Token>, hi: int, e: int) -> bool {
    let k = tok_text(s, t[e]);
    ((k == "set"@ || k == "add"@) && is_object_assign(s, t, e, hi) && pairs_ok(s, t, object_range(t, e).0, object_range(t, e).1))
    || ((k == "remove"@) && is_list_assign(s, t, e, hi) && list_texts(s, t, e + 2) is Some)
    || ((k == "from_upstream"@) && is_block_entry(s, t, e, hi, 0) && direction_ok(s, t, block_range(t, e, 0).0, block_range(t, e, 0).1))
}

/// The entries that can stand in an `outbound_headers` block whose tokens end at `hi`.
pub open spec fn outbound_headers_entry(s: Seq<char>, t: Seq<Token>, hi: int) -> spec_fn(int) -> bool {
    |e: int| outbound_headers_entry_ok(s, t, hi, e)
}

/// Whether the tokens from `lo` to `hi` read as an `outbound_headers` block.
pub open spec fn outbound_headers_ok(s: Seq<char>, t: Seq<Token>, lo: int, hi: int) -> bool {
    spec_entries(s, t, lo, hi) matches Some(es) && spec_first_bad(es, outbound_headers_entry(s, t, hi)) is None
}

/// The error for an entry at `e` that cannot stand in an `outbound_headers` block.
pub open spec fn outbound_headers_fault_is(err: ConfigError, s: Seq<char>, t: Seq<Token>, hi: int, e: int) -> bool {
    let k = tok_text(s, t[e]);
    if (k == "from_upstream"@) {
        direction_entry_error_is(err, s, t, hi, e, "outbound_headers block"@)
    } else {
        is_syntax_error(err, "unexpected field '"@ + k + "' in "@ + "outbound_headers block"@, s, t[e].lo as int)
    }
}

/// The error that reading an `outbound_headers` block from `lo` to `hi` ends with, when it does not read.
#[verifier::opaque]
pub open spec fn outbound_headers_error_is(err: ConfigError, s: Seq<char>, t: Seq<Token>, lo: int, hi: int) -> bool {
    match spec_entries(s, t, lo, hi) {
        None => is_syntax_error(err, "syntax error in gateway file"@, s, tok_pos(s, t, lo)),
        Some(es) => match spec_first_bad(es, outbound_headers_entry(s, t, hi)) {
            Some(e) => outbound_headers_fault_is(err, s, t, hi, e),
            None => true,
        },
    }
}

/// Whether `r` holds what an `outbound_headers` block from `lo` to `hi` sets: each field the value of
/// the last entry that sets it.
pub open spec fn outbound_headers_is(r: RawRouteHeadersOpts<'_, RawHeadersRemove<'_>>, s: Seq<char>, t: Seq<Token>, lo: int, hi: int) -> bool {
    let es = match spec_entries(s, t, lo, hi) { Some(es) => es, None => Seq::empty() };
    view_pairs(r.opts.set@) == acc_pairs(s, t, es, "set"@, "add"@)
    && view_strs(r.opts.remove@) == list_field(s, t, spec_last_key(s, t, es, "remove"@))
    && (match spec_last_key(s, t, es, "from_upstream"@) { Some(e) => view_strs(r.upstream.remove@) == direction_remove(s, t, block_range(t, e, 0).0, block_range(t, e, 0).1), None => r.upstream.remove@.len() == 0 })
}

pub proof fn lemma_outbound_headers_error(err: ConfigError, s: Seq<char>, t: Seq<Token>, lo: int, hi: int, es: Seq<int>, e: int)
    requires
        spec_entries(s, t, lo, hi) == Some(es),
        spec_first_bad(es, outbound_headers_entry(s, t, hi)) == Some(e),
        outbound_headers_fault_is(err, s, t, hi, e),
    ensures
        outbound_headers_error_is(err, s, t, lo, hi),
{
    reveal(outbound_headers_error_is);
}

/// Reads an `outbound_headers` block from the tokens `lo` to `hi`.
#[verifier::spinoff_prover]
#[verifier::rlimit(100)]
pub fn read_outbound_headers<'a>(input: &'a str, v: &Vec<char>, toks: &Vec<Token>, lo: usize, hi: usize) -> (r: Result<RawRouteHeadersOpts<'a, RawHeadersRemove<'a>>, ConfigError>)
    requires
        lo <= hi <= toks.len(),
        v@ == input@,
        v.len() < usize::MAX,
        tokens_in(v@, toks@),
        tokens_sorted(toks@),
    ensures
        match r {
            Ok(b) => outbound_headers_ok(v@, toks@, lo as int, hi as int) && outbound_headers_is(b, v@, toks@, lo as int, hi as int),
            Err(err) => !outbound_headers_ok(v@, toks@, lo as int, hi as int) && outbound_headers_error_is(err, v@, toks@, lo as int, hi as int),
        },
{
    let es = match entries(v, toks, lo, hi) { Some(es) => es, None => { proof { reveal(outbound_headers_error_is); } return Err(block_syntax_error(v, toks, lo, hi)); } };
    let ghost ees = es@.map_values(|e: usize| e as int);
    let ghost ok = outbound_headers_entry(v@, toks@, hi as int);
    proof {
        lemma_entries_in(v@, toks@, lo as int, hi as int, ees);
        reveal_strlit(""); reveal_strlit("set"); reveal_strlit("add"); reveal_strlit("remove"); reveal_strlit("from_upstream");
    }
    let mut set: Vec<(&'a str, &'a str)> = Vec::new();
    let mut remove: Vec<&'a str> = Vec::new();
    let mut from_upstream: Option<RawHeadersOps<'a>> = None;
    let mut i: usize = 0;
    while i < es.len()
        invariant
            i <= es.len(),
            lo <= hi <= toks.len(),
            v@ == input@,
            v.len() < usize::MAX,
            tokens_in(v@, toks@),
            tokens_sorted(toks@),
            ees == es@.map_values(|e: usize| e as int),
            spec_entries(v@, toks@, lo as int, hi as int) == Some(ees),
            forall|m: int| 0 <= m < es.len() ==> lo <= #[trigger] ees[m] < hi,
            ok == outbound_headers_entry(v@, toks@, hi as int),
            forall|m: int| 0 <= m < i ==> ok(#[trigger] ees[m]),
            view_pairs(set@) == acc_pairs(v@, toks@, ees.take(i as int), "set"@, "add"@),
            view_strs(remove@) == list_field(v@, toks@, spec_last_key(v@, toks@, ees.take(i as int), "remove"@)),
            (match from_upstream { Some(x) => spec_last_key(v@, toks@, ees.take(i as int), "from_upstream"@) is Some && direction_is(x, v@, toks@, block_range(toks@, spec_last_key(v@, toks@, ees.take(i as int), "from_upstream"@)->0, 0).0, block_range(toks@, spec_last_key(v@, toks@, ees.take(i as int), "from_upstream"@)->0, 0).1), None => spec_last_key(v@, toks@, ees.take(i as int), "from_upstream"@) is None }),
        decreases es.len() - i,
    {
        let e = es[i];
        assert(ees[i as int] == e as int);
        proof {
             reveal_strlit("set"); reveal_strlit("add"); reveal_strlit("remove"); reveal_strlit("from_upstream"); reveal_strlit("true"); reveal_strlit("->"); reveal_strlit("extends");
            assert("set"@.len() == 3);
            assert("add"@.len() == 3);
            assert("remove"@.len() == 6);
            assert("from_upstream"@.len() == 13);
            assert("set"@[0] != "add"@[0]);
            lemma_acc_pairs_step(v@, toks@, ees, i as int, "set"@, "add"@);
            lemma_last_key_step(v@, toks@, ees, i as int, "remove"@);
            lemma_last_key_step(v@, toks@, ees, i as int, "from_upstream"@);
        }
        if range_eq(v, toks[e].lo, toks[e].hi, "set") || range_eq(v, toks[e].lo, toks[e].hi, "add") {
            assert((tok_text(v@, toks@[e as int]) == "set"@ || tok_text(v@, toks@[e as int]) == "add"@));
            if object_assign(v, toks, e, hi) { let c = match_bracket(toks, e + 2).unwrap(); proof { lemma_match_after(toks@, e + 2); } match read_pairs(input, v, toks, e + 3, c) { Some(mut ps) => { let ghost a = set@; let ghost b = ps@; set.append(&mut ps); assert(view_pairs(set@) =~= view_pairs(a) + view_pairs(b)); }, None => { let err = field_error(input, v, toks, e, "outbound_headers block"); proof { lemma_first_bad(ees, ok, i as int); lemma_outbound_headers_error(err, v@, toks@, lo as int, hi as int, ees, ees[i as int]); } return Err(err); } } } else { let err = field_error(input, v, toks, e, "outbound_headers block"); proof { lemma_first_bad(ees, ok, i as int); lemma_outbound_headers_error(err, v@, toks@, lo as int, hi as int, ees, ees[i as int]); } return Err(err); }
        } else if range_eq(v, toks[e].lo, toks[e].hi, "remove") {
            assert((tok_text(v@, toks@[e as int]) == "remove"@));
            if list_assign(v, toks, e, hi) { match list_of_texts(input, v, toks, e + 2) { Some(xs) => { remove = xs; }, None => { let err = field_error(input, v, toks, e, "outbound_headers block"); proof { lemma_first_bad(ees, ok, i as int); lemma_outbound_headers_error(err, v@, toks@, lo as int, hi as int, ees, ees[i as int]); } return Err(err); } } } else { let err = field_error(input, v, toks, e, "outbound_headers block"); proof { lemma_first_bad(ees, ok, i as int); lemma_outbound_headers_error(err, v@, toks@, lo as int, hi as int, ees, ees[i as int]); } return Err(err); }
        } else if range_eq(v, toks[e].lo, toks[e].hi, "from_upstream") {
            assert((tok_text(v@, toks@[e as int]) == "from_upstream"@));
            match read_direction_entry(input, v, toks, e, hi, "outbound_headers block") { Ok(x) => { from_upstream = Some(x); }, Err(err) => { proof { lemma_first_bad(ees, ok, i as int); lemma_outbound_headers_error(err, v@, toks@, lo as int, hi as int, ees, ees[i as int]); } return Err(err); } }
        } else {
            { let err = field_error(input, v, toks, e, "outbound_headers block"); proof { lemma_first_bad(ees, ok, i as int); lemma_outbound_headers_error(err, v@, toks@, lo as int, hi as int, ees, ees[i as int]); } return Err(err); }
        }
        i = i + 1;
    }
    proof {
        lemma_first_bad(ees, ok, es.len() as int);
        assert(ees.take(es.len() as int) =~= ees);
    }

    Ok(RawRouteHeadersOpts { opts: RawHeadersOps { set, remove }, upstream: RawHeadersRemove { remove: match from_upstream { Some(d) => d.remove, None => Vec::new() } } })
}

/// Whether the entry at `e` can stand in a `rewrite` block.
pub open spec fn rewrite_entry_ok(s: Seq<char>, t: Seq<Token>, hi: int, e: int) -> bool {
    let k = tok_text(s, t[e]);
    ((k == "strip_prefix"@) && is_directive(s, t, e, hi))
    || ((k == "strip_suffix"@) && is_directive(s, t, e, hi))
    || ((k == "replace"@) && is_replace(s, t, e, hi))
    || ((k == "trailing_slash"@) && is_directive(s, t, e, hi))
}

/// The entries that can stand in a `rewrite` block whose tokens end at `hi`.
pub open spec fn rewrite_entry(s: Seq<char>, t: Seq<Token>, hi: int) -> spec_fn(int) -> bool {
    |e: int| rewrite_entry_ok(s, t, hi, e)
}

/// Whether the tokens from `lo` to `hi` read as a `rewrite` block.
pub open spec fn rewrite_ok(s: Seq<char>, t: Seq<Token>, lo: int, hi: int) -> bool {
    spec_entries(s, t, lo, hi) matches Some(es) && spec_first_bad(es, rewrite_entry(s, t, hi)) is None
}

/// The error for an entry at `e` that cannot stand in a `rewrite` block.
pub open spec fn rewrite_fault_is(err: ConfigError, s: Seq<char>, t: Seq<Token>, hi: int, e: int) -> bool {
    let k = tok_text(s, t[e]);
    is_syntax_error(err, "unexpected field '"@ + k + "' in "@ + "rewrite block"@, s, t[e].lo as int)
}

/// The error that reading a `rewrite` block from `lo` to `hi` ends with, when it does not read.
#[verifier::opaque]
pub open spec fn rewrite_error_is(err: ConfigError, s: Seq<char>, t: Seq<Token>, lo: int, hi: int) -> bool {
    match spec_entries(s, t, lo, hi) {
        None => is_syntax_error(err, "syntax error in gateway file"@, s, tok_pos(s, t, lo)),
        Some(es) => match spec_first_bad(es, rewrite_entry(s, t, hi)) {
            Some(e) => rewrite_fault_is(err, s, t, hi, e),
            None => true,
        },
    }
}

/// Whether `r` holds what a `rewrite` block from `lo` to `hi` sets: each field the value of
/// the last entry that sets it.
pub open spec fn rewrite_is(r: RawUriRewrite<'_>, s: Seq<char>, t: Seq<Token>, lo: int, hi: int) -> bool {
    let es = match spec_entries(s, t, lo, hi) { Some(es) => es, None => Seq::empty() };
    opt_text(r.strip_prefix) == directive_field(s, t, hi, spec_last_key(s, t, es, "strip_prefix"@))
    && opt_text(r.strip_suffix) == directive_field(s, t, hi, spec_last_key(s, t, es, "strip_suffix"@))
    && view_pairs(r.replaces@) == acc_replaces(s, t, es, hi, "replace"@)
    && opt_text(r.trailing_slash) == directive_field(s, t, hi, spec_last_key(s, t, es, "trailing_slash"@))
}

pub proof fn lemma_rewrite_error(err: ConfigError, s: Seq<char>, t: Seq<Token>, lo: int, hi: int, es: Seq<int>, e: int)
    requires
        spec_entries(s, t, lo, hi) == Some(es),
        spec_first_bad(es, rewrite_entry(s, t, hi)) == Some(e),
        rewrite_fault_is(err, s, t, hi, e),
    ensures
        rewrite_error_is(err, s, t, lo, hi),
{
    reveal(rewrite_error_is);
}

/// Reads a `rewrite` block from the tokens `lo` to `hi`.
#[verifier::spinoff_prover]
#[verifier::rlimit(100)]
pub fn read_rewrite<'a>(input: &'a str, v: &Vec<char>, toks: &Vec<Token>, lo: usize, hi: usize) -> (r: Result<RawUriRewrite<'a>, ConfigError>)
    requires
        lo <= hi <= toks.len(),
        v@ == input@,
        v.len() < usize::MAX,
        tokens_in(v@, toks@),
        tokens_sorted(toks@),
    ensures
        match r {
            Ok(b) => rewrite_ok(v@, toks@, lo as int, hi as int) && rewrite_is(b, v@, toks@, lo as int, hi as int),
            Err(err) => !rewrite_ok(v@, toks@, lo as int, hi as int) && rewrite_error_is(err, v@, toks@, lo as int, hi as int),
        },
{
    let es = match entries(v, toks, lo, hi) { Some(es) => es, None => { proof { reveal(rewrite_error_is); } return Err(block_syntax_error(v, toks, lo, hi)); } };
    let ghost ees = es@.map_values(|e: usize| e as int);
    let ghost ok = rewrite_entry(v@, toks@, hi as int);
    proof {
        lemma_entries_in(v@, toks@, lo as int, hi as int, ees);
        reveal_strlit(""); reveal_strlit("strip_prefix"); reveal_strlit("strip_suffix"); reveal_strlit("replace"); reveal_strlit("trailing_slash");
    }
    let mut strip_prefix: Option<&'a str> = None;
    let mut strip_suffix: Option<&'a str> = None;
    let mut replaces: Vec<(&'a str, &'a str)> = Vec::new();
    let mut trailing_slash: Option<&'a str> = None;
    let mut i: usize = 0;
    while i < es.len()
        invariant
            i <= es.len(),
            lo <= hi <= toks.len(),
            v@ == input@,
            v.len() < usize::MAX,
            tokens_in(v@, toks@),
            tokens_sorted(toks@),
            ees == es@.map_values(|e: usize| e as int),
            spec_entries(v@, toks@, lo as int, hi as int) == Some(ees),
            forall|m: int| 0 <= m < es.len() ==> lo <= #[trigger] ees[m] < hi,
            ok == rewrite_entry(v@, toks@, hi as int),
            forall|m: int| 0 <= m < i ==> ok(#[trigger] ees[m]),
            opt_text(strip_prefix) == directive_field(v@, toks@, hi as int, spec_last_key(v@, toks@, ees.take(i as int), "strip_prefix"@)),
            opt_text(strip_suffix) == directive_field(v@, toks@, hi as int, spec_last_key(v@, toks@, ees.take(i as int), "strip_suffix"@)),
            view_pairs(replaces@) == acc_replaces(v@, toks@, ees.take(i as int), hi as int, "replace"@),
            opt_text(trailing_slash) == directive_field(v@, toks@, hi as int, spec_last_key(v@, toks@, ees.take(i as int), "trailing_slash"@)),
        decreases es.len() - i,
    {
        let e = es[i];
        assert(ees[i as int] == e as int);
        proof {
             reveal_strlit("strip_prefix"); reveal_strlit("strip_suffix"); reveal_strlit("replace"); reveal_strlit("trailing_slash"); reveal_strlit("true"); reveal_strlit("->"); reveal_strlit("extends");
            assert("strip_prefix"@.len() == 12);
            assert("strip_suffix"@.len() == 12);
            assert("replace"@.len() == 7);
            assert("trailing_slash"@.len() == 14);
            assert("strip_prefix"@[6] != "strip_suffix"@[6]);
            lemma_last_key_step(v@, toks@, ees, i as int, "strip_prefix"@);
            lemma_last_key_step(v@, toks@, ees, i as int, "strip_suffix"@);
            lemma_acc_replaces_step(v@, toks@, ees, i as int, hi as int, "replace"@);
            lemma_last_key_step(v@, toks@, ees, i as int, "trailing_slash"@);
        }
        if range_eq(v, toks[e].lo, toks[e].hi, "strip_prefix") {
            assert((tok_text(v@, toks@[e as int]) == "strip_prefix"@));
            if text_assign(v, toks, e, hi) { strip_prefix = Some(text_of(input, v, toks, e + 2)); } else if head_only(v, toks, e, hi, 2) && toks[e + 1].kind == TokenKind::Str { strip_prefix = Some(text_of(input, v, toks, e + 1)); } else { let err = field_error(input, v, toks, e, "rewrite block"); proof { lemma_first_bad(ees, ok, i as int); lemma_rewrite_error(err, v@, toks@, lo as int, hi as int, ees, ees[i as int]); } return Err(err); }
        } else if range_eq(v, toks[e].lo, toks[e].hi, "strip_suffix") {
            assert((tok_text(v@, toks@[e as int]) == "strip_suffix"@));
            if text_assign(v, toks, e, hi) { strip_suffix = Some(text_of(input, v, toks, e + 2)); } else if head_only(v, toks, e, hi, 2) && toks[e + 1].kind == TokenKind::Str { strip_suffix = Some(text_of(input, v, toks, e + 1)); } else { let err = field_error(input, v, toks, e, "rewrite block"); proof { lemma_first_bad(ees, ok, i as int); lemma_rewrite_error(err, v@, toks@, lo as int, hi as int, ees, ees[i as int]); } return Err(err); }
        } else if range_eq(v, toks[e].lo, toks[e].hi, "replace") {
            assert((tok_text(v@, toks@[e as int]) == "replace"@));
            if arrow_assign(v, toks, e, hi) { let p = (text_of(input, v, toks, e + 2), text_of(input, v, toks, e + 4)); let ghost a = replaces@; replaces.push(p); assert(view_pairs(replaces@) =~= view_pairs(a).push((p.0@, p.1@))); } else if head_only(v, toks, e, hi, 4) && toks[e + 1].kind == TokenKind::Str && toks[e + 2].kind == TokenKind::Word && range_eq(v, toks[e + 2].lo, toks[e + 2].hi, "->") && toks[e + 3].kind == TokenKind::Str { let p = (text_of(input, v, toks, e + 1), text_of(input, v, toks, e + 3)); let ghost a = replaces@; replaces.push(p); assert(view_pairs(replaces@) =~= view_pairs(a).push((p.0@, p.1@))); } else if head_only(v, toks, e, hi, 3) && toks[e + 1].kind == TokenKind::Str && toks[e + 2].kind == TokenKind::Str { let p = (text_of(input, v, toks, e + 1), text_of(input, v, toks, e + 2)); let ghost a = replaces@; replaces.push(p); assert(view_pairs(replaces@) =~= view_pairs(a).push((p.0@, p.1@))); } else { let err = field_error(input, v, toks, e, "rewrite block"); proof { lemma_first_bad(ees, ok, i as int); lemma_rewrite_error(err, v@, toks@, lo as int, hi as int, ees, ees[i as int]); } return Err(err); }
        } else if range_eq(v, toks[e].lo, toks[e].hi, "trailing_slash") {
            assert((tok_text(v@, toks@[e as int]) == "trailing_slash"@));
            if text_assign(v, toks, e, hi) { trailing_slash = Some(text_of(input, v, toks, e + 2)); } else if head_only(v, toks, e, hi, 2) && toks[e + 1].kind == TokenKind::Str { trailing_slash = Some(text_of(input, v, toks, e + 1)); } else { let err = field_error(input, v, toks, e, "rewrite block"); proof { lemma_first_bad(ees, ok, i as int); lemma_rewrite_error(err, v@, toks@, lo as int, hi as int, ees, ees[i as int]); } return Err(err); }
        } else {
            { let err = field_error(input, v, toks, e, "rewrite block"); proof { lemma_first_bad(ees, ok, i as int); lemma_rewrite_error(err, v@, toks@, lo as int, hi as int, ees, ees[i as int]); } return Err(err); }
        }
        i = i + 1;
    }
    proof {
        lemma_first_bad(ees, ok, es.len() as int);
        assert(ees.take(es.len() as int) =~= ees);
    }

    Ok(RawUriRewrite { strip_prefix, strip_suffix, replaces, trailing_slash })
}

/// Whether the entry at `e` can stand in a token source block.
pub open spec fn source_fields_entry_ok(s: Seq<char>, t: Seq<Token>, hi: int, e: int) -> bool {
    let k = tok_text(s, t[e]);
    ((k == "name"@) && is_text_assign(s, t, e, hi))
    || ((k == "prefix"@) && is_text_assign(s, t, e, hi))
}

/// The entries that can stand in a token source block whose tokens end at `hi`.
pub open spec fn source_fields_entry(s: Seq<char>, t: Seq<Token>, hi: int) -> spec_fn(int) -> bool {
    |e: int| source_fields_entry_ok(s, t, hi, e)
}

/// Whether the tokens from `lo` to `hi` read as a token source block.
pub open spec fn source_fields_ok(s: Seq<char>, t: Seq<Token>, lo: int, hi: int) -> bool {
    spec_entries(s, t, lo, hi) matches Some(es) && spec_first_bad(es, source_fields_entry(s, t, hi)) is None
}

/// The error for an entry at `e` that cannot stand in a token source block.
pub open spec fn source_fields_fault_is(err: ConfigError, s: Seq<char>, t: Seq<Token>, hi: int, e: int) -> bool {
    let k = tok_text(s, t[e]);
    is_syntax_error(err, "unexpected field '"@ + k + "' in "@ + "source block"@, s, t[e].lo as int)
}

/// The error that reading a token source block from `lo` to `hi` ends with, when it does not read.
#[verifier::opaque]
pub open spec fn source_fields_error_is(err: ConfigError, s: Seq<char>, t: Seq<Token>, lo: int, hi: int) -> bool {
    match spec_entries(s, t, lo, hi) {
        None => is_syntax_error(err, "syntax error in gateway file"@, s, tok_pos(s, t, lo)),
        Some(es) => match spec_first_bad(es, source_fields_entry(s, t, hi)) {
            Some(e) => source_fields_fault_is(err, s, t, hi, e),
            None => true,
        },
    }
}

/// Whether `r` holds what a token source block from `lo` to `hi` sets: each field the value of
/// the last entry that sets it.
pub open spec fn source_fields_is(r: SourceFields<'_>, s: Seq<char>, t: Seq<Token>, lo: int, hi: int) -> bool {
    let es = match spec_entries(s, t, lo, hi) { Some(es) => es, None => Seq::empty() };
    r.name@ == (match text_field(s, t, spec_last_key(s, t, es, "name"@)) { Some(x) => x, None => Seq::<char>::empty() })
    && opt_text(r.prefix) == text_field(s, t, spec_last_key(s, t, es, "prefix"@))
}

pub proof fn lemma_source_fields_error(err: ConfigError, s: Seq<char>, t: Seq<Token>, lo: int, hi: int, es: Seq<int>, e: int)
    requires
        spec_entries(s, t, lo, hi) == Some(es),
        spec_first_bad(es, source_fields_entry(s, t, hi)) == Some(e),
        source_fields_fault_is(err, s, t, hi, e),
    ensures
        source_fields_error_is(err, s, t, lo, hi),
{
    reveal(source_fields_error_is);
}

/// Reads a token source block from the tokens `lo` to `hi`.
#[verifier::spinoff_prover]
#[verifier::rlimit(100)]
pub fn read_source_fields<'a>(input: &'a str, v: &Vec<char>, toks: &Vec<Token>, lo: usize, hi: usize) -> (r: Result<SourceFields<'a>, ConfigError>)
    requires
        lo <= hi <= toks.len(),
        v@ == input@,
        v.len() < usize::MAX,
        tokens_in(v@, toks@),
        tokens_sorted(toks@),
    ensures
        match r {
            Ok(b) => source_fields_ok(v@, toks@, lo as int, hi as int) && source_fields_is(b, v@, toks@, lo as int, hi as int),
            Err(err) => !source_fields_ok(v@, toks@, lo as int, hi as int) && source_fields_error_is(err, v@, toks@, lo as int, hi as int),
        },
{
    let es = match entries(v, toks, lo, hi) { Some(es) => es, None => { proof { reveal(source_fields_error_is); } return Err(block_syntax_error(v, toks, lo, hi)); } };
    let ghost ees = es@.map_values(|e: usize| e as int);
    let ghost ok = source_fields_entry(v@, toks@, hi as int);
    proof {
        lemma_entries_in(v@, toks@, lo as int, hi as int, ees);
        reveal_strlit(""); reveal_strlit("name"); reveal_strlit("prefix");
    }
    let mut name: &'a str = "";
    let mut prefix: Option<&'a str> = None;
    let mut i: usize = 0;
    while i < es.len()
        invariant
            i <= es.len(),
            lo <= hi <= toks.len(),
            v@ == input@,
            v.len() < usize::MAX,
            tokens_in(v@, toks@),
            tokens_sorted(toks@),
            ees == es@.map_values(|e: usize| e as int),
            spec_entries(v@, toks@, lo as int, hi as int) == Some(ees),
            forall|m: int| 0 <= m < es.len() ==> lo <= #[trigger] ees[m] < hi,
            ok == source_fields_entry(v@, toks@, hi as int),
            forall|m: int| 0 <= m < i ==> ok(#[trigger] ees[m]),
            name@ == (match text_field(v@, toks@, spec_last_key(v@, toks@, ees.take(i as int), "name"@)) { Some(x) => x, None => Seq::<char>::empty() }),
            opt_text(prefix) == text_field(v@, toks@, spec_last_key(v@, toks@, ees.take(i as int), "prefix"@)),
        decreases es.len() - i,
    {
        let e = es[i];
        assert(ees[i as int] == e as int);
        proof {
             reveal_strlit("name"); reveal_strlit("prefix"); reveal_strlit("true"); reveal_strlit("->"); reveal_strlit("extends");
            assert("name"@.len() == 4);
            assert("prefix"@.len() == 6);
            lemma_last_key_step(v@, toks@, ees, i as int, "name"@);
            lemma_last_key_step(v@, toks@, ees, i as int, "prefix"@);
        }
        if range_eq(v, toks[e].lo, toks[e].hi, "name") {
            assert((tok_text(v@, toks@[e as int]) == "name"@));
            if text_assign(v, toks, e, hi) { name = text_of(input, v, toks, e + 2); } else { let err = field_error(input, v, toks, e, "source block"); proof { lemma_first_bad(ees, ok, i as int); lemma_source_fields_error(err, v@, toks@, lo as int, hi as int, ees, ees[i as int]); } return Err(err); }
        } else if range_eq(v, toks[e].lo, toks[e].hi, "prefix") {
            assert((tok_text(v@, toks@[e as int]) == "prefix"@));
            if text_assign(v, toks, e, hi) { prefix = Some(text_of(input, v, toks, e + 2)); } else { let err = field_error(input, v, toks, e, "source block"); proof { lemma_first_bad(ees, ok, i as int); lemma_source_fields_error(err, v@, toks@, lo as int, hi as int, ees, ees[i as int]); } return Err(err); }
        } else {
            { let err = field_error(input, v, toks, e, "source block"); proof { lemma_first_bad(ees, ok, i as int); lemma_source_fields_error(err, v@, toks@, lo as int, hi as int, ees, ees[i as int]); } return Err(err); }
        }
        i = i + 1;
    }
    proof {
        lemma_first_bad(ees, ok, es.len() as int);
        assert(ees.take(es.len() as int) =~= ees);
    }

    Ok(SourceFields { name, prefix })
}

/// Whether the entry at `e` can stand in a `cookie` target block.
pub open spec fn cookie_entry_ok(s: Seq<char>, t: Seq<Token>, hi: int, e: int) -> bool {
    let k = tok_text(s, t[e]);
    ((k == "name"@) && is_text_assign(s, t, e, hi))
    || ((k == "path"@) && is_text_assign(s, t, e, hi))
    || ((k == "http_only"@) && is_text_assign(s, t, e, hi))
    || ((k == "secure"@) && is_text_assign(s, t, e, hi))
    || ((k == "same_site"@) && is_text_assign(s, t, e, hi))
}

/// The entries that can stand in a `cookie` target block whose tokens end at `hi`.
pub open spec fn cookie_entry(s: Seq<char>, t: Seq<Token>, hi: int) -> spec_fn(int) -> bool {
    |e: int| cookie_entry_ok(s, t, hi, e)
}

/// Whether the tokens from `lo` to `hi` read as a `cookie` target block.
pub open spec fn cookie_ok(s: Seq<char>, t: Seq<Token>, lo: int, hi: int) -> bool {
    spec_entries(s, t, lo, hi) matches Some(es) && spec_first_bad(es, cookie_entry(s, t, hi)) is None
}

/// The error for an entry at `e` that cannot stand in a `cookie` target block.
pub open spec fn cookie_fault_is(err: ConfigError, s: Seq<char>, t: Seq<Token>, hi: int, e: int) -> bool {
    let k = tok_text(s, t[e]);
    is_syntax_error(err, "unexpected field '"@ + k + "' in "@ + "cookie block"@, s, t[e].lo as int)
}

/// The error that reading a `cookie` target block from `lo` to `hi` ends with, when it does not read.
#[verifier::opaque]
pub open spec fn cookie_error_is(err: ConfigError, s: Seq<char>, t: Seq<Token>, lo: int, hi: int) -> bool {
    match spec_entries(s, t, lo, hi) {
        None => is_syntax_error(err, "syntax error in gateway file"@, s, tok_pos(s, t, lo)),
        Some(es) => match spec_first_bad(es, cookie_entry(s, t, hi)) {
            Some(e) => cookie_fault_is(err, s, t, hi, e),
            None => true,
        },
    }
}

/// Whether `r` holds what a `cookie` target block from `lo` to `hi` sets: each field the value of
/// the last entry that sets it.
pub open spec fn cookie_is(r: RawCookieConfig<'_>, s: Seq<char>, t: Seq<Token>, lo: int, hi: int) -> bool {
    let es = match spec_entries(s, t, lo, hi) { Some(es) => es, None => Seq::empty() };
    r.name@ == (match text_field(s, t, spec_last_key(s, t, es, "name"@)) { Some(x) => x, None => Seq::<char>::empty() })
    && opt_text(r.path) == text_field(s, t, spec_last_key(s, t, es, "path"@))
    && r.http_only == bool_field(s, t, spec_last_key(s, t, es, "http_only"@))
    && r.secure == bool_field(s, t, spec_last_key(s, t, es, "secure"@))
    && opt_text(r.same_site) == text_field(s, t, spec_last_key(s, t, es, "same_site"@))
}

pub proof fn lemma_cookie_error(err: ConfigError, s: Seq<char>, t: Seq<Token>, lo: int, hi: int, es: Seq<int>, e: int)
    requires
        spec_entries(s, t, lo, hi) == Some(es),
        spec_first_bad(es, cookie_entry(s, t, hi)) == Some(e),
        cookie_fault_is(err, s, t, hi, e),
    ensures
        cookie_error_is(err, s, t, lo, hi),
{
    reveal(cookie_error_is);
}

/// Reads a `cookie` target block from the tokens `lo` to `hi`.
#[verifier::spinoff_prover]
#[verifier::rlimit(100)]
pub fn read_cookie<'a>(input: &'a str, v: &Vec<char>, toks: &Vec<Token>, lo: usize, hi: usize) -> (r: Result<RawCookieConfig<'a>, ConfigError>)
    requires
        lo <= hi <= toks.len(),
        v@ == input@,
        v.len() < usize::MAX,
        tokens_in(v@, toks@),
        tokens_sorted(toks@),
    ensures
        match r {
            Ok(b) => cookie_ok(v@, toks@, lo as int, hi as int) && cookie_is(b, v@, toks@, lo as int, hi as int),
            Err(err) => !cookie_ok(v@, toks@, lo as int, hi as int) && cookie_error_is(err, v@, toks@, lo as int, hi as int),
        },
{
    let es = match entries(v, toks, lo, hi) { Some(es) => es, None => { proof { reveal(cookie_error_is); } return Err(block_syntax_error(v, toks, lo, hi)); } };
    let ghost ees = es@.map_values(|e: usize| e as int);
    let ghost ok = cookie_entry(v@, toks@, hi as int);
    proof {
        lemma_entries_in(v@, toks@, lo as int, hi as int, ees);
        reveal_strlit(""); reveal_strlit("name"); reveal_strlit("path"); reveal_strlit("http_only"); reveal_strlit("secure"); reveal_strlit("same_site");
    }
    let mut name: &'a str = "";
    let mut path: Option<&'a str> = None;
    let mut http_only: Option<bool> = None;
    let mut secure: Option<bool> = None;
    let mut same_site: Option<&'a str> = None;
    let mut i: usize = 0;
    while i < es.len()
        invariant
            i <= es.len(),
            lo <= hi <= toks.len(),
            v@ == input@,
            v.len() < usize::MAX,
            tokens_in(v@, toks@),
            tokens_sorted(toks@),
            ees == es@.map_values(|e: usize| e as int),
            spec_entries(v@, toks@, lo as int, hi as int) == Some(ees),
            forall|m: int| 0 <= m < es.len() ==> lo <= #[trigger] ees[m] < hi,
            ok == cookie_entry(v@, toks@, hi as int),
            forall|m: int| 0 <= m < i ==> ok(#[trigger] ees[m]),
            name@ == (match text_field(v@, toks@, spec_last_key(v@, toks@, ees.take(i as int), "name"@)) { Some(x) => x, None => Seq::<char>::empty() }),
            opt_text(path) == text_field(v@, toks@, spec_last_key(v@, toks@, ees.take(i as int), "path"@)),
            http_only == bool_field(v@, toks@, spec_last_key(v@, toks@, ees.take(i as int), "http_only"@)),
            secure == bool_field(v@, toks@, spec_last_key(v@, toks@, ees.take(i as int), "secure"@)),
            opt_text(same_site) == text_field(v@, toks@, spec_last_key(v@, toks@, ees.take(i as int), "same_site"@)),
        decreases es.len() - i,
    {
        let e = es[i];
        assert(ees[i as int] == e as int);
        proof {
             reveal_strlit("name"); reveal_strlit("path"); reveal_strlit("http_only"); reveal_strlit("secure"); reveal_strlit("same_site"); reveal_strlit("true"); reveal_strlit("->"); reveal_strlit("extends");
            assert("name"@.len() == 4);
            assert("path"@.len() == 4);
            assert("http_only"@.len() == 9);
            assert("secure"@.len() == 6);
            assert("same_site"@.len() == 9);
            assert("name"@[0] != "path"@[0]);
            assert("http_only"@[0] != "same_site"@[0]);
            lemma_last_key_step(v@, toks@, ees, i as int, "name"@);
            lemma_last_key_step(v@, toks@, ees, i as int, "path"@);
            lemma_last_key_step(v@, toks@, ees, i as int, "http_only"@);
            lemma_last_key_step(v@, toks@, ees, i as int, "secure"@);
            lemma_last_key_step(v@, toks@, ees, i as int, "same_site"@);
        }
        if range_eq(v, toks[e].lo, toks[e].hi, "name") {
            assert((tok_text(v@, toks@[e as int]) == "name"@));
            if text_assign(v, toks, e, hi) { name = text_of(input, v, toks, e + 2); } else { let err = field_error(input, v, toks, e, "cookie block"); proof { lemma_first_bad(ees, ok, i as int); lemma_cookie_error(err, v@, toks@, lo as int, hi as int, ees, ees[i as int]); } return Err(err); }
        } else if range_eq(v, toks[e].lo, toks[e].hi, "path") {
            assert((tok_text(v@, toks@[e as int]) == "path"@));
            if text_assign(v, toks, e, hi) { path = Some(text_of(input, v, toks, e + 2)); } else { let err = field_error(input, v, toks, e, "cookie block"); proof { lemma_first_bad(ees, ok, i as int); lemma_cookie_error(err, v@, toks@, lo as int, hi as int, ees, ees[i as int]); } return Err(err); }
        } else if range_eq(v, toks[e].lo, toks[e].hi, "http_only") {
            assert((tok_text(v@, toks@[e as int]) == "http_only"@));
            if text_assign(v, toks, e, hi) { http_only = Some(range_eq(v, toks[e + 2].lo, toks[e + 2].hi, "true")); } else { let err = field_error(input, v, toks, e, "cookie block"); proof { lemma_first_bad(ees, ok, i as int); lemma_cookie_error(err, v@, toks@, lo as int, hi as int, ees, ees[i as int]); } return Err(err); }
        } else if range_eq(v, toks[e].lo, toks[e].hi, "secure") {
            assert((tok_text(v@, toks@[e as int]) == "secure"@));
            if text_assign(v, toks, e, hi) { secure = Some(range_eq(v, toks[e + 2].lo, toks[e + 2].hi, "true")); } else { let err = field_error(input, v, toks, e, "cookie block"); proof { lemma_first_bad(ees, ok, i as int); lemma_cookie_error(err, v@, toks@, lo as int, hi as int, ees, ees[i as int]); } return Err(err); }
        } else if range_eq(v, toks[e].lo, toks[e].hi, "same_site") {
            assert((tok_text(v@, toks@[e as int]) == "same_site"@));
            if text_assign(v, toks, e, hi) { same_site = Some(text_of(input, v, toks, e + 2)); } else { let err = field_error(input, v, toks, e, "cookie block"); proof { lemma_first_bad(ees, ok, i as int); lemma_cookie_error(err, v@, toks@, lo as int, hi as int, ees, ees[i as int]); } return Err(err); }
        } else {
            { let err = field_error(input, v, toks, e, "cookie block"); proof { lemma_first_bad(ees, ok, i as int); lemma_cookie_error(err, v@, toks@, lo as int, hi as int, ees, ees[i as int]); } return Err(err); }
        }
        i = i + 1;
    }
    proof {
        lemma_first_bad(ees, ok, es.len() as int);
        assert(ees.take(es.len() as int) =~= ees);
    }

    Ok(RawCookieConfig { name, path, http_only, secure, same_site })
}

/// Whether the entry at `e` can stand in a WAF `rule` block.
pub open spec fn waf_rule_entry_ok(s: Seq<char>, t: Seq<Token>, hi: int, e: int) -> bool {
    let k = tok_text(s, t[e]);
    ((k == "phase"@) && is_text_assign(s, t, e, hi))
    || ((k == "when"@) && is_text_assign(s, t, e, hi))
    || ((k == "action"@) && is_text_assign(s, t, e, hi))
    || ((k == "score"@) && is_text_assign(s, t, e, hi))
    || ((k == "message"@) && is_text_assign(s, t, e, hi))
}

/// The entries that can stand in a WAF `rule` block whose tokens end at `hi`.
pub open spec fn waf_rule_entry(s: Seq<char>, t: Seq<Token>, hi: int) -> spec_fn(int) -> bool {
    |e: int| waf_rule_entry_ok(s, t, hi, e)
}

/// Whether the tokens from `lo` to `hi` read as a WAF `rule` block.
pub open spec fn waf_rule_ok(s: Seq<char>, t: Seq<Token>, lo: int, hi: int) -> bool {
    spec_entries(s, t, lo, hi) matches Some(es) && spec_first_bad(es, waf_rule_entry(s, t, hi)) is None
}

/// The error for an entry at `e` that cannot stand in a WAF `rule` block.
pub open spec fn waf_rule_fault_is(err: ConfigError, s: Seq<char>, t: Seq<Token>, hi: int, e: int) -> bool {
    let k = tok_text(s, t[e]);
    is_syntax_error(err, "unexpected field '"@ + k + "' in "@ + "rule block"@, s, t[e].lo as int)
}

/// The error that reading a WAF `rule` block from `lo` to `hi` ends with, when it does not read.
#[verifier::opaque]
pub open spec fn waf_rule_error_is(err: ConfigError, s: Seq<char>, t: Seq<Token>, nt: int, lo: int, hi: int) -> bool {
    match spec_entries(s, t, lo, hi) {
        None => is_syntax_error(err, "syntax error in gateway file"@, s, tok_pos(s, t, lo)),
        Some(es) => match spec_first_bad(es, waf_rule_entry(s, t, hi)) {
            Some(e) => waf_rule_fault_is(err, s, t, hi, e),
            None => true,
        },
    }
}

/// Whether `r` holds what a WAF `rule` block from `lo` to `hi` sets: each field the value of
/// the last entry that sets it.
pub open spec fn waf_rule_is(r: RawWafRule<'_>, s: Seq<char>, t: Seq<Token>, nt: int, lo: int, hi: int) -> bool {
    let es = match spec_entries(s, t, lo, hi) { Some(es) => es, None => Seq::empty() };
    r.name@ == tok_text(s, t[nt])
    && r.phase@ == (match text_field(s, t, spec_last_key(s, t, es, "phase"@)) { Some(x) => x, None => Seq::<char>::empty() })
    && r.when@ == (match text_field(s, t, spec_last_key(s, t, es, "when"@)) { Some(x) => x, None => Seq::<char>::empty() })
    && r.action@ == (match text_field(s, t, spec_last_key(s, t, es, "action"@)) { Some(x) => x, None => Seq::<char>::empty() })
    && opt_int(r.score, |x: u32| x as int) == number_field(s, t, spec_last_key(s, t, es, "score"@), u32::MAX as int)
    && opt_text(r.message) == text_field(s, t, spec_last_key(s, t, es, "message"@))
}

pub proof fn lemma_waf_rule_error(err: ConfigError, s: Seq<char>, t: Seq<Token>, nt: int, lo: int, hi: int, es: Seq<int>, e: int)
    requires
        spec_entries(s, t, lo, hi) == Some(es),
        spec_first_bad(es, waf_rule_entry(s, t, hi)) == Some(e),
        waf_rule_fault_is(err, s, t, hi, e),
    ensures
        waf_rule_error_is(err, s, t, nt, lo, hi),
{
    reveal(waf_rule_error_is);
}

/// Reads a WAF `rule` block from the tokens `lo` to `hi`.
#[verifier::spinoff_prover]
#[verifier::rlimit(100)]
pub fn read_waf_rule<'a>(input: &'a str, v: &Vec<char>, toks: &Vec<Token>, nt: usize, lo: usize, hi: usize) -> (r: Result<RawWafRule<'a>, ConfigError>)
    requires
        lo <= hi <= toks.len(),
        v@ == input@,
        v.len() < usize::MAX,
        tokens_in(v@, toks@),
        tokens_sorted(toks@),
        nt < toks.len(),
    ensures
        match r {
            Ok(b) => waf_rule_ok(v@, toks@, lo as int, hi as int) && waf_rule_is(b, v@, toks@, nt as int, lo as int, hi as int),
            Err(err) => !waf_rule_ok(v@, toks@, lo as int, hi as int) && waf_rule_error_is(err, v@, toks@, nt as int, lo as int, hi as int),
        },
{
    let es = match entries(v, toks, lo, hi) { Some(es) => es, None => { proof { reveal(waf_rule_error_is); } return Err(block_syntax_error(v, toks, lo, hi)); } };
    let ghost ees = es@.map_values(|e: usize| e as int);
    let ghost ok = waf_rule_entry(v@, toks@, hi as int);
    proof {
        lemma_entries_in(v@, toks@, lo as int, hi as int, ees);
        reveal_strlit(""); reveal_strlit("phase"); reveal_strlit("when"); reveal_strlit("action"); reveal_strlit("score"); reveal_strlit("message");
    }
    let mut phase: &'a str = "";
    let mut when_cond: &'a str = "";
    let mut action: &'a str = "";
    let mut score: Option<u32> = None;
    let mut message: Option<&'a str> = None;
    let mut i: usize = 0;
    while i < es.len()
        invariant
            i <= es.len(),
            lo <= hi <= toks.len(),
            v@ == input@,
            v.len() < usize::MAX,
            tokens_in(v@, toks@),
            tokens_sorted(toks@),
            ees == es@.map_values(|e: usize| e as int),
            spec_entries(v@, toks@, lo as int, hi as int) == Some(ees),
            forall|m: int| 0 <= m < es.len() ==> lo <= #[trigger] ees[m] < hi,
            ok == waf_rule_entry(v@, toks@, hi as int),
            forall|m: int| 0 <= m < i ==> ok(#[trigger] ees[m]),
            phase@ == (match text_field(v@, toks@, spec_last_key(v@, toks@, ees.take(i as int), "phase"@)) { Some(x) => x, None => Seq::<char>::empty() }),
            when_cond@ == (match text_field(v@, toks@, spec_last_key(v@, toks@, ees.take(i as int), "when"@)) { Some(x) => x, None => Seq::<char>::empty() }),
            action@ == (match text_field(v@, toks@, spec_last_key(v@, toks@, ees.take(i as int), "action"@)) { Some(x) => x, None => Seq::<char>::empty() }),
            opt_int(score, |x: u32| x as int) == number_field(v@, toks@, spec_last_key(v@, toks@, ees.take(i as int), "score"@), u32::MAX as int),
            opt_text(message) == text_field(v@, toks@, spec_last_key(v@, toks@, ees.take(i as int), "message"@)),
        decreases es.len() - i,
    {
        let e = es[i];
        assert(ees[i as int] == e as int);
        proof {
             reveal_strlit("phase"); reveal_strlit("when"); reveal_strlit("action"); reveal_strlit("score"); reveal_strlit("message"); reveal_strlit("true"); reveal_strlit("->"); reveal_strlit("extends");
            assert("phase"@.len() == 5);
            assert("when"@.len() == 4);
            assert("action"@.len() == 6);
            assert("score"@.len() == 5);
            assert("message"@.len() == 7);
            assert("phase"@[0] != "score"@[0]);
            lemma_last_key_step(v@, toks@, ees, i as int, "phase"@);
            lemma_last_key_step(v@, toks@, ees, i as int, "when"@);
            lemma_last_key_step(v@, toks@, ees, i as int, "action"@);
            lemma_last_key_step(v@, toks@, ees, i as int, "score"@);
            lemma_last_key_step(v@, toks@, ees, i as int, "message"@);
        }
        if range_eq(v, toks[e].lo, toks[e].hi, "phase") {
            assert((tok_text(v@, toks@[e as int]) == "phase"@));
            if text_assign(v, toks, e, hi) { phase = text_of(input, v, toks, e + 2); } else { let err = field_error(input, v, toks, e, "rule block"); proof { lemma_first_bad(ees, ok, i as int); lemma_waf_rule_error(err, v@, toks@, nt as int, lo as int, hi as int, ees, ees[i as int]); } return Err(err); }
        } else if range_eq(v, toks[e].lo, toks[e].hi, "when") {
            assert((tok_text(v@, toks@[e as int]) == "when"@));
            if text_assign(v, toks, e, hi) { when_cond = text_of(input, v, toks, e + 2); } else { let err = field_error(input, v, toks, e, "rule block"); proof { lemma_first_bad(ees, ok, i as int); lemma_waf_rule_error(err, v@, toks@, nt as int, lo as int, hi as int, ees, ees[i as int]); } return Err(err); }
        } else if range_eq(v, toks[e].lo, toks[e].hi, "action") {
            assert((tok_text(v@, toks@[e as int]) == "action"@));
            if text_assign(v, toks, e, hi) { action = text_of(input, v, toks, e + 2); } else { let err = field_error(input, v, toks, e, "rule block"); proof { lemma_first_bad(ees, ok, i as int); lemma_waf_rule_error(err, v@, toks@, nt as int, lo as int, hi as int, ees, ees[i as int]); } return Err(err); }
        } else if range_eq(v, toks[e].lo, toks[e].hi, "score") {
            assert((tok_text(v@, toks@[e as int]) == "score"@));
            if text_assign(v, toks, e, hi) { score = match parse_unsigned_range(v, toks[e + 2].lo, toks[e + 2].hi, u32::MAX as u64) { Some(n) => Some(n as u32), None => None }; } else { let err = field_error(input, v, toks, e, "rule block"); proof { lemma_first_bad(ees, ok, i as int); lemma_waf_rule_error(err, v@, toks@, nt as int, lo as int, hi as int, ees, ees[i as int]); } return Err(err); }
        } else if range_eq(v, toks[e].lo, toks[e].hi, "message") {
            assert((tok_text(v@, toks@[e as int]) == "message"@));
            if text_assign(v, toks, e, hi) { message = Some(text_of(input, v, toks, e + 2)); } else { let err = field_error(input, v, toks, e, "rule block"); proof { lemma_first_bad(ees, ok, i as int); lemma_waf_rule_error(err, v@, toks@, nt as int, lo as int, hi as int, ees, ees[i as int]); } return Err(err); }
        } else {
            { let err = field_error(input, v, toks, e, "rule block"); proof { lemma_first_bad(ees, ok, i as int); lemma_waf_rule_error(err, v@, toks@, nt as int, lo as int, hi as int, ees, ees[i as int]); } return Err(err); }
        }
        i = i + 1;
    }
    proof {
        lemma_first_bad(ees, ok, es.len() as int);
        assert(ees.take(es.len() as int) =~= ees);
    }

    Ok(RawWafRule { name: text_of(input, v, toks, nt), phase, action, score, when: when_cond, message })
}

/// Whether the entry at `e` is a `rule "name" { ... }` block that reads.
pub open spec fn waf_rules_entry_ok(s: Seq<char>, t: Seq<Token>, hi: int, e: int) -> bool {
    tok_text(s, t[e]) == "rule"@ && is_block_entry(s, t, e, hi, 1) && t[e + 1].kind == TokenKind::Str
        && waf_rule_ok(s, t, block_range(t, e, 1).0, block_range(t, e, 1).1)
}

pub open spec fn waf_rules_entry(s: Seq<char>, t: Seq<Token>, hi: int) -> spec_fn(int) -> bool {
    |e: int| waf_rules_entry_ok(s, t, hi, e)
}

/// Whether the tokens from `lo` to `hi` read as a `rules` block.
pub open spec fn waf_rules_ok(s: Seq<char>, t: Seq<Token>, lo: int, hi: int) -> bool {
    spec_entries(s, t, lo, hi) matches Some(es) && spec_first_bad(es, waf_rules_entry(s, t, hi)) is None
}

/// The error for an entry at `e` that cannot stand in a `rules` block.
pub open spec fn waf_rules_fault_is(err: ConfigError, s: Seq<char>, t: Seq<Token>, hi: int, e: int) -> bool {
    if !(tok_text(s, t[e]) == "rule"@ && is_block_entry(s, t, e, hi, 1) && t[e + 1].kind == TokenKind::Str) {
        is_syntax_error(err, "unexpected field '"@ + tok_text(s, t[e]) + "' in "@ + "rules block"@, s, t[e].lo as int)
    } else {
        waf_rule_error_is(err, s, t, e + 1, block_range(t, e, 1).0, block_range(t, e, 1).1)
    }
}

pub proof fn lemma_waf_rules_error(err: ConfigError, s: Seq<char>, t: Seq<Token>, lo: int, hi: int, es: Seq<int>, e: int)
    requires
        spec_entries(s, t, lo, hi) == Some(es),
        spec_first_bad(es, waf_rules_entry(s, t, hi)) == Some(e),
        waf_rules_fault_is(err, s, t, hi, e),
    ensures
        waf_rules_error_is(err, s, t, lo, hi),
{
    reveal(waf_rules_error_is);
}

/// The error that reading a `rules` block from `lo` to `hi` ends with, when it does not read.
#[verifier::opaque]
pub open spec fn waf_rules_error_is(err: ConfigError, s: Seq<char>, t: Seq<Token>, lo: int, hi: int) -> bool {
    match spec_entries(s, t, lo, hi) {
        None => is_syntax_error(err, "syntax error in gateway file"@, s, tok_pos(s, t, lo)),
        Some(es) => match spec_first_bad(es, waf_rules_entry(s, t, hi)) {
            Some(e) => waf_rules_fault_is(err, s, t, hi, e),
            None => true,
        },
    }
}

/// Whether `r` holds, in order, what the blocks of a `rules` block say.
pub open spec fn waf_rules_is(r: Seq<RawWafRule<'_>>, s: Seq<char>, t: Seq<Token>, lo: int, hi: int) -> bool {
    let es = match spec_entries(s, t, lo, hi) { Some(es) => es, None => Seq::empty() };
    r.len() == es.len() && forall|m: int| 0 <= m < es.len() ==> #[trigger] waf_rule_is(r[m], s, t, es[m] + 1, block_range(t, es[m], 1).0, block_range(t, es[m], 1).1)
}

/// Reads a `rules` block from the tokens `lo` to `hi`.
#[verifier::spinoff_prover]
#[verifier::rlimit(50)]
pub fn read_waf_rules<'a>(input: &'a str, v: &Vec<char>, toks: &Vec<Token>, lo: usize, hi: usize) -> (r: Result<Vec<RawWafRule<'a>>, ConfigError>)
    requires
        lo <= hi <= toks.len(),
        v@ == input@,
        v.len() < usize::MAX,
        tokens_in(v@, toks@),
        tokens_sorted(toks@),
    ensures
        match r {
            Ok(b) => waf_rules_ok(v@, toks@, lo as int, hi as int) && waf_rules_is(b@, v@, toks@, lo as int, hi as int),
            Err(err) => !waf_rules_ok(v@, toks@, lo as int, hi as int) && waf_rules_error_is(err, v@, toks@, lo as int, hi as int),
        },
{
    let es = match entries(v, toks, lo, hi) { Some(es) => es, None => { proof { reveal(waf_rules_error_is); } return Err(block_syntax_error(v, toks, lo, hi)); } };
    let ghost ees = es@.map_values(|e: usize| e as int);
    let ghost ok = waf_rules_entry(v@, toks@, hi as int);
    proof { lemma_entries_in(v@, toks@, lo as int, hi as int, ees); reveal_strlit("rule"); }
    let mut out: Vec<RawWafRule<'a>> = Vec::new();
    let mut i: usize = 0;
    while i < es.len()
        invariant
            i <= es.len(),
            lo <= hi <= toks.len(),
            v@ == input@,
            v.len() < usize::MAX,
            tokens_in(v@, toks@),
            tokens_sorted(toks@),
            ees == es@.map_values(|e: usize| e as int),
            spec_entries(v@, toks@, lo as int, hi as int) == Some(ees),
            forall|m: int| 0 <= m < es.len() ==> lo <= #[trigger] ees[m] < hi,
            ok == waf_rules_entry(v@, toks@, hi as int),
            forall|m: int| 0 <= m < i ==> ok(#[trigger] ees[m]),
            out@.len() == i,
            forall|m: int| 0 <= m < i ==> #[trigger] waf_rule_is(out@[m], v@, toks@, ees[m] + 1, block_range(toks@, ees[m], 1).0, block_range(toks@, ees[m], 1).1),
        decreases es.len() - i,
    {
        let e = es[i];
        assert(ees[i as int] == e as int);
        if !(range_eq(v, toks[e].lo, toks[e].hi, "rule") && block_entry(v, toks, e, hi, 1) && toks[e + 1].kind == TokenKind::Str) {
            let err = field_error(input, v, toks, e, "rules block");
            proof { lemma_first_bad(ees, ok, i as int); lemma_waf_rules_error(err, v@, toks@, lo as int, hi as int, ees, ees[i as int]); }
            return Err(err);
        }
        let c = match_bracket(toks, e + 2).unwrap();
        proof { lemma_match_after(toks@, e + 2); }
        match read_waf_rule(input, v, toks, e + 1, e + 3, c) {
            Ok(x) => { out.push(x); },
            Err(err) => { proof { lemma_first_bad(ees, ok, i as int); lemma_waf_rules_error(err, v@, toks@, lo as int, hi as int, ees, ees[i as int]); } return Err(err); },
        }
        i = i + 1;
    }
    proof {
        lemma_first_bad(ees, ok, es.len() as int);
    }
    Ok(out)
}

/// Whether the entry at `e` can stand in an authentication `mode` block.
pub open spec fn mode_fields_entry_ok(s: Seq<char>, t: Seq<Token>, hi: int, e: int) -> bool {
    let k = tok_text(s, t[e]);
    ((k == "uri"@) && is_text_assign(s, t, e, hi))
    || ((k == "ttl"@) && is_text_assign(s, t, e, hi))
    || ((k == "algorithms"@) && is_list_assign(s, t, e, hi) && list_texts(s, t, e + 2) is Some)
}

/// The entries that can stand in an authentication `mode` block whose tokens end at `hi`.
pub open spec fn mode_fields_entry(s: Seq<char>, t: Seq<Token>, hi: int) -> spec_fn(int) -> bool {
    |e: int| mode_fields_entry_ok(s, t, hi, e)
}

/// Whether the tokens from `lo` to `hi` read as an authentication `mode` block.
pub open spec fn mode_fields_ok(s: Seq<char>, t: Seq<Token>, lo: int, hi: int) -> bool {
    spec_entries(s, t, lo, hi) matches Some(es) && spec_first_bad(es, mode_fields_entry(s, t, hi)) is None
}

/// The error for an entry at `e` that cannot stand in an authentication `mode` block.
pub open spec fn mode_fields_fault_is(err: ConfigError, s: Seq<char>, t: Seq<Token>, hi: int, e: int) -> bool {
    let k = tok_text(s, t[e]);
    is_syntax_error(err, "unexpected field '"@ + k + "' in "@ + "mode block"@, s, t[e].lo as int)
}

/// The error that reading an authentication `mode` block from `lo` to `hi` ends with, when it does not read.
#[verifier::opaque]
pub open spec fn mode_fields_error_is(err: ConfigError, s: Seq<char>, t: Seq<Token>, lo: int, hi: int) -> bool {
    match spec_entries(s, t, lo, hi) {
        None => is_syntax_error(err, "syntax error in gateway file"@, s, tok_pos(s, t, lo)),
        Some(es) => match spec_first_bad(es, mode_fields_entry(s, t, hi)) {
            Some(e) => mode_fields_fault_is(err, s, t, hi, e),
            None => true,
        },
    }
}

/// Whether `r` holds what an authentication `mode` block from `lo` to `hi` sets: each field the value of
/// the last entry that sets it.
pub open spec fn mode_fields_is(r: ModeFields<'_>, s: Seq<char>, t: Seq<Token>, lo: int, hi: int) -> bool {
    let es = match spec_entries(s, t, lo, hi) { Some(es) => es, None => Seq::empty() };
    opt_text(r.uri) == text_field(s, t, spec_last_key(s, t, es, "uri"@))
    && r.ttl == duration_field(s, t, spec_last_key(s, t, es, "ttl"@))
    && view_strs(r.algorithms@) == list_field(s, t, spec_last_key(s, t, es, "algorithms"@))
}

pub proof fn lemma_mode_fields_error(err: ConfigError, s: Seq<char>, t: Seq<Token>, lo: int, hi: int, es: Seq<int>, e: int)
    requires
        spec_entries(s, t, lo, hi) == Some(es),
        spec_first_bad(es, mode_fields_entry(s, t, hi)) == Some(e),
        mode_fields_fault_is(err, s, t, hi, e),
    ensures
        mode_fields_error_is(err, s, t, lo, hi),
{
    reveal(mode_fields_error_is);
}

/// Reads an authentication `mode` block from the tokens `lo` to `hi`.
#[verifier::spinoff_prover]
#[verifier::rlimit(100)]
pub fn read_mode_fields<'a>(input: &'a str, v: &Vec<char>, toks: &Vec<Token>, lo: usize, hi: usize) -> (r: Result<ModeFields<'a>, ConfigError>)
    requires
        lo <= hi <= toks.len(),
        v@ == input@,
        v.len() < usize::MAX,
        tokens_in(v@, toks@),
        tokens_sorted(toks@),
    ensures
        match r {
            Ok(b) => mode_fields_ok(v@, toks@, lo as int, hi as int) && mode_fields_is(b, v@, toks@, lo as int, hi as int),
            Err(err) => !mode_fields_ok(v@, toks@, lo as int, hi as int) && mode_fields_error_is(err, v@, toks@, lo as int, hi as int),
        },
{
    let es = match entries(v, toks, lo, hi) { Some(es) => es, None => { proof { reveal(mode_fields_error_is); } return Err(block_syntax_error(v, toks, lo, hi)); } };
    let ghost ees = es@.map_values(|e: usize| e as int);
    let ghost ok = mode_fields_entry(v@, toks@, hi as int);
    proof {
        lemma_entries_in(v@, toks@, lo as int, hi as int, ees);
        reveal_strlit(""); reveal_strlit("uri"); reveal_strlit("ttl"); reveal_strlit("algorithms");
    }
    let mut uri: Option<&'a str> = None;
    let mut ttl: Option<Duration> = None;
    let mut algorithms: Vec<&'a str> = Vec::new();
    let mut i: usize = 0;
    while i < es.len()
        invariant
            i <= es.len(),
            lo <= hi <= toks.len(),
            v@ == input@,
            v.len() < usize::MAX,
            tokens_in(v@, toks@),
            tokens_sorted(toks@),
            ees == es@.map_values(|e: usize| e as int),
            spec_entries(v@, toks@, lo as int, hi as int) == Some(ees),
            forall|m: int| 0 <= m < es.len() ==> lo <= #[trigger] ees[m] < hi,
            ok == mode_fields_entry(v@, toks@, hi as int),
            forall|m: int| 0 <= m < i ==> ok(#[trigger] ees[m]),
            opt_text(uri) == text_field(v@, toks@, spec_last_key(v@, toks@, ees.take(i as int), "uri"@)),
            ttl == duration_field(v@, toks@, spec_last_key(v@, toks@, ees.take(i as int), "ttl"@)),
            view_strs(algorithms@) == list_field(v@, toks@, spec_last_key(v@, toks@, ees.take(i as int), "algorithms"@)),
        decreases es.len() - i,
    {
        let e = es[i];
        assert(ees[i as int] == e as int);
        proof {
             reveal_strlit("uri"); reveal_strlit("ttl"); reveal_strlit("algorithms"); reveal_strlit("true"); reveal_strlit("->"); reveal_strlit("extends");
            assert("uri"@.len() == 3);
            assert("ttl"@.len() == 3);
            assert("algorithms"@.len() == 10);
            assert("uri"@[0] != "ttl"@[0]);
            lemma_last_key_step(v@, toks@, ees, i as int, "uri"@);
            lemma_last_key_step(v@, toks@, ees, i as int, "ttl"@);
            lemma_last_key_step(v@, toks@, ees, i as int, "algorithms"@);
        }
        if range_eq(v, toks[e].lo, toks[e].hi, "uri") {
            assert((tok_text(v@, toks@[e as int]) == "uri"@));
            if text_assign(v, toks, e, hi) { uri = Some(text_of(input, v, toks, e + 2)); } else { let err = field_error(input, v, toks, e, "mode block"); proof { lemma_first_bad(ees, ok, i as int); lemma_mode_fields_error(err, v@, toks@, lo as int, hi as int, ees, ees[i as int]); } return Err(err); }
        } else if range_eq(v, toks[e].lo, toks[e].hi, "ttl") {
            assert((tok_text(v@, toks@[e as int]) == "ttl"@));
            if text_assign(v, toks, e, hi) { ttl = match parse_duration_millis(text_of(input, v, toks, e + 2)) { Ok(ms) => Some(duration_from_millis(ms)), Err(_) => None }; } else { let err = field_error(input, v, toks, e, "mode block"); proof { lemma_first_bad(ees, ok, i as int); lemma_mode_fields_error(err, v@, toks@, lo as int, hi as int, ees, ees[i as int]); } return Err(err); }
        } else if range_eq(v, toks[e].lo, toks[e].hi, "algorithms") {
            assert((tok_text(v@, toks@[e as int]) == "algorithms"@));
            if list_assign(v, toks, e, hi) { match list_of_texts(input, v, toks, e + 2) { Some(xs) => { algorithms = xs; }, None => { let err = field_error(input, v, toks, e, "mode block"); proof { lemma_first_bad(ees, ok, i as int); lemma_mode_fields_error(err, v@, toks@, lo as int, hi as int, ees, ees[i as int]); } return Err(err); } } } else { let err = field_error(input, v, toks, e, "mode block"); proof { lemma_first_bad(ees, ok, i as int); lemma_mode_fields_error(err, v@, toks@, lo as int, hi as int, ees, ees[i as int]); } return Err(err); }
        } else {
            { let err = field_error(input, v, toks, e, "mode block"); proof { lemma_first_bad(ees, ok, i as int); lemma_mode_fields_error(err, v@, toks@, lo as int, hi as int, ees, ees[i as int]); } return Err(err); }
        }
        i = i + 1;
    }
    proof {
        lemma_first_bad(ees, ok, es.len() as int);
        assert(ees.take(es.len() as int) =~= ees);
    }

    Ok(ModeFields { uri, ttl, algorithms })
}

/// Whether the entry at `e` can stand in a `header` target block.
pub open spec fn header_target_entry_ok(s: Seq<char>, t: Seq<Token>, hi: int, e: int) -> bool {
    let k = tok_text(s, t[e]);
    ((k == "name"@) && is_text_assign(s, t, e, hi))
}

/// The entries that can stand in a `header` target block whose tokens end at `hi`.
pub open spec fn header_target_entry(s: Seq<char>, t: Seq<Token>, hi: int) -> spec_fn(int) -> bool {
    |e: int| header_target_entry_ok(s, t, hi, e)
}

/// Whether the tokens from `lo` to `hi` read as a `header` target block.
pub open spec fn header_target_ok(s: Seq<char>, t: Seq<Token>, lo: int, hi: int) -> bool {
    spec_entries(s, t, lo, hi) matches Some(es) && spec_first_bad(es, header_target_entry(s, t, hi)) is None
}

/// The error for an entry at `e` that cannot stand in a `header` target block.
pub open spec fn header_target_fault_is(err: ConfigError, s: Seq<char>, t: Seq<Token>, hi: int, e: int) -> bool {
    let k = tok_text(s, t[e]);
    is_syntax_error(err, "unexpected field '"@ + k + "' in "@ + "header block"@, s, t[e].lo as int)
}

/// The error that reading a `header` target block from `lo` to `hi` ends with, when it does not read.
#[verifier::opaque]
pub open spec fn header_target_error_is(err: ConfigError, s: Seq<char>, t: Seq<Token>, lo: int, hi: int) -> bool {
    match spec_entries(s, t, lo, hi) {
        None => is_syntax_error(err, "syntax error in gateway file"@, s, tok_pos(s, t, lo)),
        Some(es) => match spec_first_bad(es, header_target_entry(s, t, hi)) {
            Some(e) => header_target_fault_is(err, s, t, hi, e),
            None => true,
        },
    }
}

/// Whether `r` holds what a `header` target block from `lo` to `hi` sets: each field the value of
/// the last entry that sets it.
pub open spec fn header_target_is(r: HeaderTarget<'_>, s: Seq<char>, t: Seq<Token>, lo: int, hi: int) -> bool {
    let es = match spec_entries(s, t, lo, hi) { Some(es) => es, None => Seq::empty() };
    r.name@ == (match text_field(s, t, spec_last_key(s, t, es, "name"@)) { Some(x) => x, None => Seq::<char>::empty() })
}

pub proof fn lemma_header_target_error(err: ConfigError, s: Seq<char>, t: Seq<Token>, lo: int, hi: int, es: Seq<int>, e: int)
    requires
        spec_entries(s, t, lo, hi) == Some(es),
        spec_first_bad(es, header_target_entry(s, t, hi)) == Some(e),
        header_target_fault_is(err, s, t, hi, e),
    ensures
        header_target_error_is(err, s, t, lo, hi),
{
    reveal(header_target_error_is);
}

/// Reads a `header` target block from the tokens `lo` to `hi`.
#[verifier::spinoff_prover]
#[verifier::rlimit(100)]
pub fn read_header_target<'a>(input: &'a str, v: &Vec<char>, toks: &Vec<Token>, lo: usize, hi: usize) -> (r: Result<HeaderTarget<'a>, ConfigError>)
    requires
        lo <= hi <= toks.len(),
        v@ == input@,
        v.len() < usize::MAX,
        tokens_in(v@, toks@),
        tokens_sorted(toks@),
    ensures
        match r {
            Ok(b) => header_target_ok(v@, toks@, lo as int, hi as int) && header_target_is(b, v@, toks@, lo as int, hi as int),
            Err(err) => !header_target_ok(v@, toks@, lo as int, hi as int) && header_target_error_is(err, v@, toks@, lo as int, hi as int),
        },
{
    let es = match entries(v, toks, lo, hi) { Some(es) => es, None => { proof { reveal(header_target_error_is); } return Err(block_syntax_error(v, toks, lo, hi)); } };
    let ghost ees = es@.map_values(|e: usize| e as int);
    let ghost ok = header_target_entry(v@, toks@, hi as int);
    proof {
        lemma_entries_in(v@, toks@, lo as int, hi as int, ees);
        reveal_strlit(""); reveal_strlit("name");
    }
    let mut name: &'a str = "";
    let mut i: usize = 0;
    while i < es.len()
        invariant
            i <= es.len(),
            lo <= hi <= toks.len(),
            v@ == input@,
            v.len() < usize::MAX,
            tokens_in(v@, toks@),
            tokens_sorted(toks@),
            ees == es@.map_values(|e: usize| e as int),
            spec_entries(v@, toks@, lo as int, hi as int) == Some(ees),
            forall|m: int| 0 <= m < es.len() ==> lo <= #[trigger] ees[m] < hi,
            ok == header_target_entry(v@, toks@, hi as int),
            forall|m: int| 0 <= m < i ==> ok(#[trigger] ees[m]),
            name@ == (match text_field(v@, toks@, spec_last_key(v@, toks@, ees.take(i as int), "name"@)) { Some(x) => x, None => Seq::<char>::empty() }),
        decreases es.len() - i,
    {
        let e = es[i];
        assert(ees[i as int] == e as int);
        proof {
             reveal_strlit("name"); reveal_strlit("true"); reveal_strlit("->"); reveal_strlit("extends");
            assert("name"@.len() == 4);
            lemma_last_key_step(v@, toks@, ees, i as int, "name"@);
        }
        if range_eq(v, toks[e].lo, toks[e].hi, "name") {
            assert((tok_text(v@, toks@[e as int]) == "name"@));
            if text_assign(v, toks, e, hi) { name = text_of(input, v, toks, e + 2); } else { let err = field_error(input, v, toks, e, "header block"); proof { lemma_first_bad(ees, ok, i as int); lemma_header_target_error(err, v@, toks@, lo as int, hi as int, ees, ees[i as int]); } return Err(err); }
        } else {
            { let err = field_error(input, v, toks, e, "header block"); proof { lemma_first_bad(ees, ok, i as int); lemma_header_target_error(err, v@, toks@, lo as int, hi as int, ees, ees[i as int]); } return Err(err); }
        }
        i = i + 1;
    }
    proof {
        lemma_first_bad(ees, ok, es.len() as int);
        assert(ees.take(es.len() as int) =~= ees);
    }

    Ok(HeaderTarget { name })
}

/// Whether the entry at `e` can stand in an `inject` block.
pub open spec fn inject_entry_ok(s: Seq<char>, t: Seq<Token>, hi: int, e: int) -> bool {
    let k = tok_text(s, t[e]);
    ((k == "access_token"@) && is_block_entry(s, t, e, hi, 0) && targets_ok(s, t, block_range(t, e, 0).0, block_range(t, e, 0).1))
    || ((k == "refresh_token"@) && is_block_entry(s, t, e, hi, 0) && targets_ok(s, t, block_range(t, e, 0).0, block_range(t, e, 0).1))
}

/// The entries that can stand in an `inject` block whose tokens end at `hi`.
pub open spec fn inject_entry(s: Seq<char>, t: Seq<Token>, hi: int) -> spec_fn(int) -> bool {
    |e: int| inject_entry_ok(s, t, hi, e)
}

/// Whether the tokens from `lo` to `hi` read as an `inject` block.
pub open spec fn inject_ok(s: Seq<char>, t: Seq<Token>, lo: int, hi: int) -> bool {
    spec_entries(s, t, lo, hi) matches Some(es) && spec_first_bad(es, inject_entry(s, t, hi)) is None
}

/// The error for an entry at `e` that cannot stand in an `inject` block.
pub open spec fn inject_fault_is(err: ConfigError, s: Seq<char>, t: Seq<Token>, hi: int, e: int) -> bool {
    let k = tok_text(s, t[e]);
    if (k == "access_token"@) {
        (if !is_block_entry(s, t, e, hi, 0) { is_syntax_error(err, "unexpected field '"@ + k + "' in "@ + "inject block"@, s, t[e].lo as int) } else { targets_error_is(err, s, t, block_range(t, e, 0).0, block_range(t, e, 0).1) })
    } else if (k == "refresh_token"@) {
        (if !is_block_entry(s, t, e, hi, 0) { is_syntax_error(err, "unexpected field '"@ + k + "' in "@ + "inject block"@, s, t[e].lo as int) } else { targets_error_is(err, s, t, block_range(t, e, 0).0, block_range(t, e, 0).1) })
    } else {
        is_syntax_error(err, "unexpected field '"@ + k + "' in "@ + "inject block"@, s, t[e].lo as int)
    }
}

/// The error that reading an `inject` block from `lo` to `hi` ends with, when it does not read.
#[verifier::opaque]
pub open spec fn inject_error_is(err: ConfigError, s: Seq<char>, t: Seq<Token>, lo: int, hi: int) -> bool {
    match spec_entries(s, t, lo, hi) {
        None => is_syntax_error(err, "syntax error in gateway file"@, s, tok_pos(s, t, lo)),
        Some(es) => match spec_first_bad(es, inject_entry(s, t, hi)) {
            Some(e) => inject_fault_is(err, s, t, hi, e),
            None => true,
        },
    }
}

/// Whether `r` holds what an `inject` block from `lo` to `hi` sets: each field the value of
/// the last entry that sets it.
pub open spec fn inject_is(r: RawInjectConfig<'_>, s: Seq<char>, t: Seq<Token>, lo: int, hi: int) -> bool {
    let es = match spec_entries(s, t, lo, hi) { Some(es) => es, None => Seq::empty() };
    (match spec_last_key(s, t, es, "access_token"@) { Some(e) => targets_is(r.access_token@, s, t, block_range(t, e, 0).0, block_range(t, e, 0).1), None => r.access_token@.len() == 0 })
    && (match spec_last_key(s, t, es, "refresh_token"@) { Some(e) => targets_is(r.refresh_token@, s, t, block_range(t, e, 0).0, block_range(t, e, 0).1), None => r.refresh_token@.len() == 0 })
}

pub proof fn lemma_inject_error(err: ConfigError, s: Seq<char>, t: Seq<Token>, lo: int, hi: int, es: Seq<int>, e: int)
    requires
        spec_entries(s, t, lo, hi) == Some(es),
        spec_first_bad(es, inject_entry(s, t, hi)) == Some(e),
        inject_fault_is(err, s, t, hi, e),
    ensures
        inject_error_is(err, s, t, lo, hi),
{
    reveal(inject_error_is);
}

/// Reads an `inject` block from the tokens `lo` to `hi`.
#[verifier::spinoff_prover]
#[verifier::rlimit(100)]
pub fn read_inject<'a>(input: &'a str, v: &Vec<char>, toks: &Vec<Token>, lo: usize, hi: usize) -> (r: Result<RawInjectConfig<'a>, ConfigError>)
    requires
        lo <= hi <= toks.len(),
        v@ == input@,
        v.len() < usize::MAX,
        tokens_in(v@, toks@),
        tokens_sorted(toks@),
    ensures
        match r {
            Ok(b) => inject_ok(v@, toks@, lo as int, hi as int) && inject_is(b, v@, toks@, lo as int, hi as int),
            Err(err) => !inject_ok(v@, toks@, lo as int, hi as int) && inject_error_is(err, v@, toks@, lo as int, hi as int),
        },
{
    let es = match entries(v, toks, lo, hi) { Some(es) => es, None => { proof { reveal(inject_error_is); } return Err(block_syntax_error(v, toks, lo, hi)); } };
    let ghost ees = es@.map_values(|e: usize| e as int);
    let ghost ok = inject_entry(v@, toks@, hi as int);
    proof {
        lemma_entries_in(v@, toks@, lo as int, hi as int, ees);
        reveal_strlit(""); reveal_strlit("access_token"); reveal_strlit("refresh_token");
    }
    let mut access_token: Vec<RawInjectTarget<'a>> = Vec::new();
    let mut refresh_token: Vec<RawInjectTarget<'a>> = Vec::new();
    let mut i: usize = 0;
    while i < es.len()
        invariant
            i <= es.len(),
            lo <= hi <= toks.len(),
            v@ == input@,
            v.len() < usize::MAX,
            tokens_in(v@, toks@),
            tokens_sorted(toks@),
            ees == es@.map_values(|e: usize| e as int),
            spec_entries(v@, toks@, lo as int, hi as int) == Some(ees),
            forall|m: int| 0 <= m < es.len() ==> lo <= #[trigger] ees[m] < hi,
            ok == inject_entry(v@, toks@, hi as int),
            forall|m: int| 0 <= m < i ==> ok(#[trigger] ees[m]),
            (match spec_last_key(v@, toks@, ees.take(i as int), "access_token"@) { Some(e) => targets_is(access_token@, v@, toks@, block_range(toks@, e, 0).0, block_range(toks@, e, 0).1), None => access_token@.len() == 0 }),
            (match spec_last_key(v@, toks@, ees.take(i as int), "refresh_token"@) { Some(e) => targets_is(refresh_token@, v@, toks@, block_range(toks@, e, 0).0, block_range(toks@, e, 0).1), None => refresh_token@.len() == 0 }),
        decreases es.len() - i,
    {
        let e = es[i];
        assert(ees[i as int] == e as int);
        proof {
             reveal_strlit("access_token"); reveal_strlit("refresh_token"); reveal_strlit("true"); reveal_strlit("->"); reveal_strlit("extends");
            assert("access_token"@.len() == 12);
            assert("refresh_token"@.len() == 13);
            lemma_last_key_step(v@, toks@, ees, i as int, "access_token"@);
            lemma_last_key_step(v@, toks@, ees, i as int, "refresh_token"@);
        }
        if range_eq(v, toks[e].lo, toks[e].hi, "access_token") {
            assert((tok_text(v@, toks@[e as int]) == "access_token"@));
            if block_entry(v, toks, e, hi, 0) { let c = match_bracket(toks, e + 1).unwrap(); proof { lemma_match_after(toks@, e + 1); } match read_targets(input, v, toks, e + 2, c) { Ok(x) => { access_token = x; }, Err(err) => { proof { lemma_first_bad(ees, ok, i as int); lemma_inject_error(err, v@, toks@, lo as int, hi as int, ees, ees[i as int]); } return Err(err); } } } else { let err = field_error(input, v, toks, e, "inject block"); proof { lemma_first_bad(ees, ok, i as int); lemma_inject_error(err, v@, toks@, lo as int, hi as int, ees, ees[i as int]); } return Err(err); }
        } else if range_eq(v, toks[e].lo, toks[e].hi, "refresh_token") {
            assert((tok_text(v@, toks@[e as int]) == "refresh_token"@));
            if block_entry(v, toks, e, hi, 0) { let c = match_bracket(toks, e + 1).unwrap(); proof { lemma_match_after(toks@, e + 1); } match read_targets(input, v, toks, e + 2, c) { Ok(x) => { refresh_token = x; }, Err(err) => { proof { lemma_first_bad(ees, ok, i as int); lemma_inject_error(err, v@, toks@, lo as int, hi as int, ees, ees[i as int]); } return Err(err); } } } else { let err = field_error(input, v, toks, e, "inject block"); proof { lemma_first_bad(ees, ok, i as int); lemma_inject_error(err, v@, toks@, lo as int, hi as int, ees, ees[i as int]); } return Err(err); }
        } else {
            { let err = field_error(input, v, toks, e, "inject block"); proof { lemma_first_bad(ees, ok, i as int); lemma_inject_error(err, v@, toks@, lo as int, hi as int, ees, ees[i as int]); } return Err(err); }
        }
        i = i + 1;
    }
    proof {
        lemma_first_bad(ees, ok, es.len() as int);
        assert(ees.take(es.len() as int) =~= ees);
    }

    Ok(RawInjectConfig { access_token, refresh_token })
}

/// Whether the entry at `e` can stand in a `refresh` block.
pub open spec fn refresh_entry_ok(s: Seq<char>, t: Seq<Token>, hi: int, e: int) -> bool {
    let k = tok_text(s, t[e]);
    ((k == "enabled"@) && is_text_assign(s, t, e, hi))
    || ((k == "endpoint"@) && is_text_assign(s, t, e, hi))
    || ((k == "sources"@) && is_block_entry(s, t, e, hi, 0) && sources_ok(s, t, block_range(t, e, 0).0, block_range(t, e, 0).1))
    || ((k == "inject"@) && is_block_entry(s, t, e, hi, 0) && inject_ok(s, t, block_range(t, e, 0).0, block_range(t, e, 0).1))
}

/// The entries that can stand in a `refresh` block whose tokens end at `hi`.
pub open spec fn refresh_entry(s: Seq<char>, t: Seq<Token>, hi: int) -> spec_fn(int) -> bool {
    |e: int| refresh_entry_ok(s, t, hi, e)
}

/// Whether the tokens from `lo` to `hi` read as a `refresh` block.
pub open spec fn refresh_ok(s: Seq<char>, t: Seq<Token>, lo: int, hi: int) -> bool {
    spec_entries(s, t, lo, hi) matches Some(es) && spec_first_bad(es, refresh_entry(s, t, hi)) is None
}

/// The error for an entry at `e` that cannot stand in a `refresh` block.
pub open spec fn refresh_fault_is(err: ConfigError, s: Seq<char>, t: Seq<Token>, hi: int, e: int) -> bool {
    let k = tok_text(s, t[e]);
    if (k == "sources"@) {
        (if !is_block_entry(s, t, e, hi, 0) { is_syntax_error(err, "unexpected field '"@ + k + "' in "@ + "refresh block"@, s, t[e].lo as int) } else { sources_error_is(err, s, t, block_range(t, e, 0).0, block_range(t, e, 0).1) })
    } else if (k == "inject"@) {
        inject_entry_error_is(err, s, t, hi, e, "refresh block"@)
    } else {
        is_syntax_error(err, "unexpected field '"@ + k + "' in "@ + "refresh block"@, s, t[e].lo as int)
    }
}

/// The error that reading a `refresh` block from `lo` to `hi` ends with, when it does not read.
#[verifier::opaque]
pub open spec fn refresh_error_is(err: ConfigError, s: Seq<char>, t: Seq<Token>, lo: int, hi: int) -> bool {
    match spec_entries(s, t, lo, hi) {
        None => is_syntax_error(err, "syntax error in gateway file"@, s, tok_pos(s, t, lo)),
        Some(es) => match spec_first_bad(es, refresh_entry(s, t, hi)) {
            Some(e) => refresh_fault_is(err, s, t, hi, e),
            None => true,
        },
    }
}

/// Whether `r` holds what a `refresh` block from `lo` to `hi` sets: each field the value of
/// the last entry that sets it.
pub open spec fn refresh_is(r: RawRefreshConfig<'_>, s: Seq<char>, t: Seq<Token>, lo: int, hi: int) -> bool {
    let es = match spec_entries(s, t, lo, hi) { Some(es) => es, None => Seq::empty() };
    r.enabled == bool_field(s, t, spec_last_key(s, t, es, "enabled"@))
    && opt_text(r.endpoint) == text_field(s, t, spec_last_key(s, t, es, "endpoint"@))
    && (match r.sources { Some(x) => spec_last_key(s, t, es, "sources"@) is Some && (match spec_entries(s, t, block_range(t, spec_last_key(s, t, es, "sources"@)->0, 0).0, block_range(t, spec_last_key(s, t, es, "sources"@)->0, 0).1) { Some(es2) => es2.len() > 0 && source_is(x, s, t, es2[0]), None => false }), None => spec_last_key(s, t, es, "sources"@) is None || spec_entries(s, t, block_range(t, spec_last_key(s, t, es, "sources"@)->0, 0).0, block_range(t, spec_last_key(s, t, es, "sources"@)->0, 0).1) == Some(Seq::<int>::empty()) })
    && (match r.inject { Some(x) => spec_last_key(s, t, es, "inject"@) is Some && inject_is(x, s, t, block_range(t, spec_last_key(s, t, es, "inject"@)->0, 0).0, block_range(t, spec_last_key(s, t, es, "inject"@)->0, 0).1), None => spec_last_key(s, t, es, "inject"@) is None })
}

pub proof fn lemma_refresh_error(err: ConfigError, s: Seq<char>, t: Seq<Token>, lo: int, hi: int, es: Seq<int>, e: int)
    requires
        spec_entries(s, t, lo, hi) == Some(es),
        spec_first_bad(es, refresh_entry(s, t, hi)) == Some(e),
        refresh_fault_is(err, s, t, hi, e),
    ensures
        refresh_error_is(err, s, t, lo, hi),
{
    reveal(refresh_error_is);
}

/// Reads a `refresh` block from the tokens `lo` to `hi`.
#[verifier::spinoff_prover]
#[verifier::rlimit(100)]
pub fn read_refresh<'a>(input: &'a str, v: &Vec<char>, toks: &Vec<Token>, lo: usize, hi: usize) -> (r: Result<RawRefreshConfig<'a>, ConfigError>)
    requires
        lo <= hi <= toks.len(),
        v@ == input@,
        v.len() < usize::MAX,
        tokens_in(v@, toks@),
        tokens_sorted(toks@),
    ensures
        match r {
            Ok(b) => refresh_ok(v@, toks@, lo as int, hi as int) && refresh_is(b, v@, toks@, lo as int, hi as int),
            Err(err) => !refresh_ok(v@, toks@, lo as int, hi as int) && refresh_error_is(err, v@, toks@, lo as int, hi as int),
        },
{
    let es = match entries(v, toks, lo, hi) { Some(es) => es, None => { proof { reveal(refresh_error_is); } return Err(block_syntax_error(v, toks, lo, hi)); } };
    let ghost ees = es@.map_values(|e: usize| e as int);
    let ghost ok = refresh_entry(v@, toks@, hi as int);
    proof {
        lemma_entries_in(v@, toks@, lo as int, hi as int, ees);
        reveal_strlit(""); reveal_strlit("enabled"); reveal_strlit("endpoint"); reveal_strlit("sources"); reveal_strlit("inject");
    }
    let mut enabled: Option<bool> = None;
    let mut endpoint: Option<&'a str> = None;
    let mut sources: Option<RawTokenSource<'a>> = None;
    let mut inject: Option<RawInjectConfig<'a>> = None;
    let mut i: usize = 0;
    while i < es.len()
        invariant
            i <= es.len(),
            lo <= hi <= toks.len(),
            v@ == input@,
            v.len() < usize::MAX,
            tokens_in(v@, toks@),
            tokens_sorted(toks@),
            ees == es@.map_values(|e: usize| e as int),
            spec_entries(v@, toks@, lo as int, hi as int) == Some(ees),
            forall|m: int| 0 <= m < es.len() ==> lo <= #[trigger] ees[m] < hi,
            ok == refresh_entry(v@, toks@, hi as int),
            forall|m: int| 0 <= m < i ==> ok(#[trigger] ees[m]),
            enabled == bool_field(v@, toks@, spec_last_key(v@, toks@, ees.take(i as int), "enabled"@)),
            opt_text(endpoint) == text_field(v@, toks@, spec_last_key(v@, toks@, ees.take(i as int), "endpoint"@)),
            (match sources { Some(x) => spec_last_key(v@, toks@, ees.take(i as int), "sources"@) is Some && (match spec_entries(v@, toks@, block_range(toks@, spec_last_key(v@, toks@, ees.take(i as int), "sources"@)->0, 0).0, block_range(toks@, spec_last_key(v@, toks@, ees.take(i as int), "sources"@)->0, 0).1) { Some(es2) => es2.len() > 0 && source_is(x, v@, toks@, es2[0]), None => false }), None => spec_last_key(v@, toks@, ees.take(i as int), "sources"@) is None || spec_entries(v@, toks@, block_range(toks@, spec_last_key(v@, toks@, ees.take(i as int), "sources"@)->0, 0).0, block_range(toks@, spec_last_key(v@, toks@, ees.take(i as int), "sources"@)->0, 0).1) == Some(Seq::<int>::empty()) }),
            (match inject { Some(x) => spec_last_key(v@, toks@, ees.take(i as int), "inject"@) is Some && inject_is(x, v@, toks@, block_range(toks@, spec_last_key(v@, toks@, ees.take(i as int), "inject"@)->0, 0).0, block_range(toks@, spec_last_key(v@, toks@, ees.take(i as int), "inject"@)->0, 0).1), None => spec_last_key(v@, toks@, ees.take(i as int), "inject"@) is None }),
        decreases es.len() - i,
    {
        let e = es[i];
        assert(ees[i as int] == e as int);
        proof {
             reveal_strlit("enabled"); reveal_strlit("endpoint"); reveal_strlit("sources"); reveal_strlit("inject"); reveal_strlit("true"); reveal_strlit("->"); reveal_strlit("extends");
            assert("enabled"@.len() == 7);
            assert("endpoint"@.len() == 8);
            assert("sources"@.len() == 7);
            assert("inject"@.len() == 6);
            assert("enabled"@[0] != "sources"@[0]);
            lemma_last_key_step(v@, toks@, ees, i as int, "enabled"@);
            lemma_last_key_step(v@, toks@, ees, i as int, "endpoint"@);
            lemma_last_key_step(v@, toks@, ees, i as int, "sources"@);
            lemma_last_key_step(v@, toks@, ees, i as int, "inject"@);
        }
        if range_eq(v, toks[e].lo, toks[e].hi, "enabled") {
            assert((tok_text(v@, toks@[e as int]) == "enabled"@));
            if text_assign(v, toks, e, hi) { enabled = Some(range_eq(v, toks[e + 2].lo, toks[e + 2].hi, "true")); } else { let err = field_error(input, v, toks, e, "refresh block"); proof { lemma_first_bad(ees, ok, i as int); lemma_refresh_error(err, v@, toks@, lo as int, hi as int, ees, ees[i as int]); } return Err(err); }
        } else if range_eq(v, toks[e].lo, toks[e].hi, "endpoint") {
            assert((tok_text(v@, toks@[e as int]) == "endpoint"@));
            if text_assign(v, toks, e, hi) { endpoint = Some(text_of(input, v, toks, e + 2)); } else { let err = field_error(input, v, toks, e, "refresh block"); proof { lemma_first_bad(ees, ok, i as int); lemma_refresh_error(err, v@, toks@, lo as int, hi as int, ees, ees[i as int]); } return Err(err); }
        } else if range_eq(v, toks[e].lo, toks[e].hi, "sources") {
            assert((tok_text(v@, toks@[e as int]) == "sources"@));
            if block_entry(v, toks, e, hi, 0) { let c = match_bracket(toks, e + 1).unwrap(); proof { lemma_match_after(toks@, e + 1); } match read_sources(input, v, toks, e + 2, c) { Ok(x) => { proof { let es2 = spec_entries(v@, toks@, e + 2, c as int)->0; assert(sources_all(x@, v@, toks@, es2)); if x@.len() > 0 { assert(source_is(x@[0], v@, toks@, es2[0])); } else { assert(es2 =~= Seq::<int>::empty()); } } if x.len() > 0 { sources = Some(x[0]); } else { sources = None; } }, Err(err) => { proof { lemma_first_bad(ees, ok, i as int); lemma_refresh_error(err, v@, toks@, lo as int, hi as int, ees, ees[i as int]); } return Err(err); } } } else { let err = field_error(input, v, toks, e, "refresh block"); proof { lemma_first_bad(ees, ok, i as int); lemma_refresh_error(err, v@, toks@, lo as int, hi as int, ees, ees[i as int]); } return Err(err); }
        } else if range_eq(v, toks[e].lo, toks[e].hi, "inject") {
            assert((tok_text(v@, toks@[e as int]) == "inject"@));
            match read_inject_entry(input, v, toks, e, hi, "refresh block") { Ok(x) => { inject = Some(x); }, Err(err) => { proof { lemma_first_bad(ees, ok, i as int); lemma_refresh_error(err, v@, toks@, lo as int, hi as int, ees, ees[i as int]); } return Err(err); } }
        } else {
            { let err = field_error(input, v, toks, e, "refresh block"); proof { lemma_first_bad(ees, ok, i as int); lemma_refresh_error(err, v@, toks@, lo as int, hi as int, ees, ees[i as int]); } return Err(err); }
        }
        i = i + 1;
    }
    proof {
        lemma_first_bad(ees, ok, es.len() as int);
        assert(ees.take(es.len() as int) =~= ees);
    }

    Ok(RawRefreshConfig { enabled, endpoint, sources, inject })
}

/// Whether the entry at `e` can stand in an `auth` policy.
pub open spec fn auth_entry_ok(s: Seq<char>, t: Seq<Token>, hi: int, e: int) -> bool {
    let k = tok_text(s, t[e]);
    ((k == "issuer"@) && is_value_assign(s, t, e, hi))
    || ((k == "audience"@) && is_value_assign(s, t, e, hi))
    || ((k == "client_id"@) && is_value_assign(s, t, e, hi))
    || ((k == "dpop_proof"@) && is_value_assign(s, t, e, hi))
    || ((k == "exclude_paths"@) && is_value_assign(s, t, e, hi))
    || ((k == "sources"@) && is_block_entry(s, t, e, hi, 0) && sources_ok(s, t, block_range(t, e, 0).0, block_range(t, e, 0).1))
    || ((k == "refresh"@) && is_block_entry(s, t, e, hi, 0) && refresh_ok(s, t, block_range(t, e, 0).0, block_range(t, e, 0).1))
    || ((k == "mode"@) && is_block_entry(s, t, e, hi, 1) && t[e + 1].kind == TokenKind::Str && mode_fields_ok(s, t, block_range(t, e, 1).0, block_range(t, e, 1).1))
    || !((k == "issuer"@) || (k == "audience"@) || (k == "client_id"@) || (k == "dpop_proof"@) || (k == "exclude_paths"@) || (k == "sources"@) || (k == "refresh"@) || (k == "mode"@))
}

/// The entries that can stand in an `auth` policy whose tokens end at `hi`.
pub open spec fn auth_entry(s: Seq<char>, t: Seq<Token>, hi: int) -> spec_fn(int) -> bool {
    |e: int| auth_entry_ok(s, t, hi, e)
}

/// Whether the tokens from `lo` to `hi` read as an `auth` policy.
pub open spec fn auth_ok(s: Seq<char>, t: Seq<Token>, lo: int, hi: int) -> bool {
    spec_entries(s, t, lo, hi) matches Some(es) && spec_first_bad(es, auth_entry(s, t, hi)) is None
}

/// The error for an entry at `e` that cannot stand in an `auth` policy.
pub open spec fn auth_fault_is(err: ConfigError, s: Seq<char>, t: Seq<Token>, hi: int, e: int) -> bool {
    let k = tok_text(s, t[e]);
    if (k == "sources"@) {
        (if !is_block_entry(s, t, e, hi, 0) { is_syntax_error(err, "unexpected field '"@ + k + "' in "@ + "auth policy"@, s, t[e].lo as int) } else { sources_error_is(err, s, t, block_range(t, e, 0).0, block_range(t, e, 0).1) })
    } else if (k == "refresh"@) {
        refresh_entry_error_is(err, s, t, hi, e, "auth policy"@)
    } else if (k == "mode"@) {
        (if !(is_block_entry(s, t, e, hi, 1) && t[e + 1].kind == TokenKind::Str) { is_syntax_error(err, "unexpected field '"@ + k + "' in "@ + "auth policy"@, s, t[e].lo as int) } else { mode_fields_error_is(err, s, t, block_range(t, e, 1).0, block_range(t, e, 1).1) })
    } else if ((k == "issuer"@) || (k == "audience"@) || (k == "client_id"@) || (k == "dpop_proof"@) || (k == "exclude_paths"@)) {
        is_syntax_error(err, "unexpected field '"@ + k + "' in "@ + "auth policy"@, s, t[e].lo as int)
    } else {
        true
    }
}

/// The error that reading an `auth` policy from `lo` to `hi` ends with, when it does not read.
#[verifier::opaque]
pub open spec fn auth_error_is(err: ConfigError, s: Seq<char>, t: Seq<Token>, lo: int, hi: int) -> bool {
    match spec_entries(s, t, lo, hi) {
        None => is_syntax_error(err, "syntax error in gateway file"@, s, tok_pos(s, t, lo)),
        Some(es) => match spec_first_bad(es, auth_entry(s, t, hi)) {
            Some(e) => auth_fault_is(err, s, t, hi, e),
            None => true,
        },
    }
}

/// Whether `r` holds what an `auth` policy from `lo` to `hi` sets: each field the value of
/// the last entry that sets it.
pub open spec fn auth_is(r: RawAuthConfig<'_>, s: Seq<char>, t: Seq<Token>, lo: int, hi: int) -> bool {
    let es = match spec_entries(s, t, lo, hi) { Some(es) => es, None => Seq::empty() };
    opt_text(r.issuer) == raw_field(s, t, hi, spec_last_key(s, t, es, "issuer"@))
    && opt_text(r.audience) == raw_field(s, t, hi, spec_last_key(s, t, es, "audience"@))
    && opt_text(r.client_id) == raw_field(s, t, hi, spec_last_key(s, t, es, "client_id"@))
    && opt_text(r.dpop_proof) == raw_field(s, t, hi, spec_last_key(s, t, es, "dpop_proof"@))
    && view_strs(r.exclude_paths@) == (match raw_field(s, t, hi, spec_last_key(s, t, es, "exclude_paths"@)) { Some(x) => spec_csv_values(x), None => Seq::<Seq<char>>::empty() })
    && (match r.sources { Some(xs) => spec_last_key(s, t, es, "sources"@) is Some && sources_is(xs@, s, t, block_range(t, spec_last_key(s, t, es, "sources"@)->0, 0).0, block_range(t, spec_last_key(s, t, es, "sources"@)->0, 0).1), None => spec_last_key(s, t, es, "sources"@) is None })
    && (match r.refresh { Some(x) => spec_last_key(s, t, es, "refresh"@) is Some && refresh_is(x, s, t, block_range(t, spec_last_key(s, t, es, "refresh"@)->0, 0).0, block_range(t, spec_last_key(s, t, es, "refresh"@)->0, 0).1), None => spec_last_key(s, t, es, "refresh"@) is None })
    && (match r.mode { Some(x) => spec_last_key(s, t, es, "mode"@) is Some && mode_is(x, s, t, spec_last_key(s, t, es, "mode"@)->0), None => spec_last_key(s, t, es, "mode"@) is None })
}

pub proof fn lemma_auth_error(err: ConfigError, s: Seq<char>, t: Seq<Token>, lo: int, hi: int, es: Seq<int>, e: int)
    requires
        spec_entries(s, t, lo, hi) == Some(es),
        spec_first_bad(es, auth_entry(s, t, hi)) == Some(e),
        auth_fault_is(err, s, t, hi, e),
    ensures
        auth_error_is(err, s, t, lo, hi),
{
    reveal(auth_error_is);
}

/// Reads an `auth` policy from the tokens `lo` to `hi`.
#[verifier::spinoff_prover]
#[verifier::rlimit(100)]
pub fn read_auth<'a>(input: &'a str, v: &Vec<char>, toks: &Vec<Token>, lo: usize, hi: usize) -> (r: Result<RawAuthConfig<'a>, ConfigError>)
    requires
        lo <= hi <= toks.len(),
        v@ == input@,
        v.len() < usize::MAX,
        tokens_in(v@, toks@),
        tokens_sorted(toks@),
    ensures
        match r {
            Ok(b) => auth_ok(v@, toks@, lo as int, hi as int) && auth_is(b, v@, toks@, lo as int, hi as int),
            Err(err) => !auth_ok(v@, toks@, lo as int, hi as int) && auth_error_is(err, v@, toks@, lo as int, hi as int),
        },
{
    let es = match entries(v, toks, lo, hi) { Some(es) => es, None => { proof { reveal(auth_error_is); } return Err(block_syntax_error(v, toks, lo, hi)); } };
    let ghost ees = es@.map_values(|e: usize| e as int);
    let ghost ok = auth_entry(v@, toks@, hi as int);
    proof {
        lemma_entries_in(v@, toks@, lo as int, hi as int, ees);
        reveal_strlit(""); reveal_strlit("issuer"); reveal_strlit("audience"); reveal_strlit("client_id"); reveal_strlit("dpop_proof"); reveal_strlit("exclude_paths"); reveal_strlit("sources"); reveal_strlit("refresh"); reveal_strlit("mode");
    }
    let mut issuer: Option<&'a str> = None;
    let mut audience: Option<&'a str> = None;
    let mut client_id: Option<&'a str> = None;
    let mut dpop_proof: Option<&'a str> = None;
    let mut exclude_paths: Vec<&'a str> = Vec::new();
    let mut sources: Option<Vec<RawTokenSource<'a>>> = None;
    let mut refresh: Option<RawRefreshConfig<'a>> = None;
    let mut mode: Option<RawAuthMode<'a>> = None;
    let mut i: usize = 0;
    while i < es.len()
        invariant
            i <= es.len(),
            lo <= hi <= toks.len(),
            v@ == input@,
            v.len() < usize::MAX,
            tokens_in(v@, toks@),
            tokens_sorted(toks@),
            ees == es@.map_values(|e: usize| e as int),
            spec_entries(v@, toks@, lo as int, hi as int) == Some(ees),
            forall|m: int| 0 <= m < es.len() ==> lo <= #[trigger] ees[m] < hi,
            ok == auth_entry(v@, toks@, hi as int),
            forall|m: int| 0 <= m < i ==> ok(#[trigger] ees[m]),
            opt_text(issuer) == raw_field(v@, toks@, hi as int, spec_last_key(v@, toks@, ees.take(i as int), "issuer"@)),
            opt_text(audience) == raw_field(v@, toks@, hi as int, spec_last_key(v@, toks@, ees.take(i as int), "audience"@)),
            opt_text(client_id) == raw_field(v@, toks@, hi as int, spec_last_key(v@, toks@, ees.take(i as int), "client_id"@)),
            opt_text(dpop_proof) == raw_field(v@, toks@, hi as int, spec_last_key(v@, toks@, ees.take(i as int), "dpop_proof"@)),
            view_strs(exclude_paths@) == (match raw_field(v@, toks@, hi as int, spec_last_key(v@, toks@, ees.take(i as int), "exclude_paths"@)) { Some(x) => spec_csv_values(x), None => Seq::<Seq<char>>::empty() }),
            (match sources { Some(xs) => spec_last_key(v@, toks@, ees.take(i as int), "sources"@) is Some && sources_is(xs@, v@, toks@, block_range(toks@, spec_last_key(v@, toks@, ees.take(i as int), "sources"@)->0, 0).0, block_range(toks@, spec_last_key(v@, toks@, ees.take(i as int), "sources"@)->0, 0).1), None => spec_last_key(v@, toks@, ees.take(i as int), "sources"@) is None }),
            (match refresh { Some(x) => spec_last_key(v@, toks@, ees.take(i as int), "refresh"@) is Some && refresh_is(x, v@, toks@, block_range(toks@, spec_last_key(v@, toks@, ees.take(i as int), "refresh"@)->0, 0).0, block_range(toks@, spec_last_key(v@, toks@, ees.take(i as int), "refresh"@)->0, 0).1), None => spec_last_key(v@, toks@, ees.take(i as int), "refresh"@) is None }),
            (match mode { Some(x) => spec_last_key(v@, toks@, ees.take(i as int), "mode"@) is Some && mode_is(x, v@, toks@, spec_last_key(v@, toks@, ees.take(i as int), "mode"@)->0), None => spec_last_key(v@, toks@, ees.take(i as int), "mode"@) is None }),
        decreases es.len() - i,
    {
        let e = es[i];
        assert(ees[i as int] == e as int);
        proof {
             reveal_strlit("issuer"); reveal_strlit("audience"); reveal_strlit("client_id"); reveal_strlit("dpop_proof"); reveal_strlit("exclude_paths"); reveal_strlit("sources"); reveal_strlit("refresh"); reveal_strlit("mode"); reveal_strlit("true"); reveal_strlit("->"); reveal_strlit("extends");
            assert("issuer"@.len() == 6);
            assert("audience"@.len() == 8);
            assert("client_id"@.len() == 9);
            assert("dpop_proof"@.len() == 10);
            assert("exclude_paths"@.len() == 13);
            assert("sources"@.len() == 7);
            assert("refresh"@.len() == 7);
            assert("mode"@.len() == 4);
            assert("sources"@[0] != "refresh"@[0]);
            lemma_last_key_step(v@, toks@, ees, i as int, "issuer"@);
            lemma_last_key_step(v@, toks@, ees, i as int, "audience"@);
            lemma_last_key_step(v@, toks@, ees, i as int, "client_id"@);
            lemma_last_key_step(v@, toks@, ees, i as int, "dpop_proof"@);
            lemma_last_key_step(v@, toks@, ees, i as int, "exclude_paths"@);
            lemma_last_key_step(v@, toks@, ees, i as int, "sources"@);
            lemma_last_key_step(v@, toks@, ees, i as int, "refresh"@);
            lemma_last_key_step(v@, toks@, ees, i as int, "mode"@);
        }
        if range_eq(v, toks[e].lo, toks[e].hi, "issuer") {
            assert((tok_text(v@, toks@[e as int]) == "issuer"@));
            if value_assign(v, toks, e, hi) { issuer = Some(value_text_of(input, v, toks, e, hi)); } else { let err = field_error(input, v, toks, e, "auth policy"); proof { lemma_first_bad(ees, ok, i as int); lemma_auth_error(err, v@, toks@, lo as int, hi as int, ees, ees[i as int]); } return Err(err); }
        } else if range_eq(v, toks[e].lo, toks[e].hi, "audience") {
            assert((tok_text(v@, toks@[e as int]) == "audience"@));
            if value_assign(v, toks, e, hi) { audience = Some(value_text_of(input, v, toks, e, hi)); } else { let err = field_error(input, v, toks, e, "auth policy"); proof { lemma_first_bad(ees, ok, i as int); lemma_auth_error(err, v@, toks@, lo as int, hi as int, ees, ees[i as int]); } return Err(err); }
        } else if range_eq(v, toks[e].lo, toks[e].hi, "client_id") {
            assert((tok_text(v@, toks@[e as int]) == "client_id"@));
            if value_assign(v, toks, e, hi) { client_id = Some(value_text_of(input, v, toks, e, hi)); } else { let err = field_error(input, v, toks, e, "auth policy"); proof { lemma_first_bad(ees, ok, i as int); lemma_auth_error(err, v@, toks@, lo as int, hi as int, ees, ees[i as int]); } return Err(err); }
        } else if range_eq(v, toks[e].lo, toks[e].hi, "dpop_proof") {
            assert((tok_text(v@, toks@[e as int]) == "dpop_proof"@));
            if value_assign(v, toks, e, hi) { dpop_proof = Some(value_text_of(input, v, toks, e, hi)); } else { let err = field_error(input, v, toks, e, "auth policy"); proof { lemma_first_bad(ees, ok, i as int); lemma_auth_error(err, v@, toks@, lo as int, hi as int, ees, ees[i as int]); } return Err(err); }
        } else if range_eq(v, toks[e].lo, toks[e].hi, "exclude_paths") {
            assert((tok_text(v@, toks@[e as int]) == "exclude_paths"@));
            if value_assign(v, toks, e, hi) { exclude_paths = split_csv_values(value_text_of(input, v, toks, e, hi)); } else { let err = field_error(input, v, toks, e, "auth policy"); proof { lemma_first_bad(ees, ok, i as int); lemma_auth_error(err, v@, toks@, lo as int, hi as int, ees, ees[i as int]); } return Err(err); }
        } else if range_eq(v, toks[e].lo, toks[e].hi, "sources") {
            assert((tok_text(v@, toks@[e as int]) == "sources"@));
            if block_entry(v, toks, e, hi, 0) { let c = match_bracket(toks, e + 1).unwrap(); proof { lemma_match_after(toks@, e + 1); } match read_sources(input, v, toks, e + 2, c) { Ok(x) => { sources = Some(x); }, Err(err) => { proof { lemma_first_bad(ees, ok, i as int); lemma_auth_error(err, v@, toks@, lo as int, hi as int, ees, ees[i as int]); } return Err(err); } } } else { let err = field_error(input, v, toks, e, "auth policy"); proof { lemma_first_bad(ees, ok, i as int); lemma_auth_error(err, v@, toks@, lo as int, hi as int, ees, ees[i as int]); } return Err(err); }
        } else if range_eq(v, toks[e].lo, toks[e].hi, "refresh") {
            assert((tok_text(v@, toks@[e as int]) == "refresh"@));
            match read_refresh_entry(input, v, toks, e, hi, "auth policy") { Ok(x) => { refresh = Some(x); }, Err(err) => { proof { lemma_first_bad(ees, ok, i as int); lemma_auth_error(err, v@, toks@, lo as int, hi as int, ees, ees[i as int]); } return Err(err); } }
        } else if range_eq(v, toks[e].lo, toks[e].hi, "mode") {
            assert((tok_text(v@, toks@[e as int]) == "mode"@));
            if block_entry(v, toks, e, hi, 1) && toks[e + 1].kind == TokenKind::Str { let c = match_bracket(toks, e + 2).unwrap(); proof { lemma_match_after(toks@, e + 2); } match read_mode(input, v, toks, e, c) { Ok(x) => { mode = Some(x); }, Err(err) => { proof { lemma_first_bad(ees, ok, i as int); lemma_auth_error(err, v@, toks@, lo as int, hi as int, ees, ees[i as int]); } return Err(err); } } } else { let err = field_error(input, v, toks, e, "auth policy"); proof { lemma_first_bad(ees, ok, i as int); lemma_auth_error(err, v@, toks@, lo as int, hi as int, ees, ees[i as int]); } return Err(err); }
        } else {
            assert(ok(ees[i as int]));
        }
        i = i + 1;
    }
    proof {
        lemma_first_bad(ees, ok, es.len() as int);
        assert(ees.take(es.len() as int) =~= ees);
    }

    Ok(RawAuthConfig { issuer, audience, client_id, mode, dpop_proof, sources, refresh, exclude_paths })
}

/// Whether the entry at `e` can stand in a `waf` policy.
pub open spec fn waf_entry_ok(s: Seq<char>, t: Seq<Token>, hi: int, e: int) -> bool {
    let k = tok_text(s, t[e]);
    ((k == "mode"@) && is_value_assign(s, t, e, hi))
    || ((k == "ruleset"@) && is_value_assign(s, t, e, hi))
    || ((k == "max_body_size"@) && is_value_assign(s, t, e, hi))
    || ((k == "anomaly_threshold"@) && is_value_assign(s, t, e, hi))
    || ((k == "exclude_paths"@) && is_value_assign(s, t, e, hi))
    || ((k == "rules"@) && is_block_entry(s, t, e, hi, 0) && waf_rules_ok(s, t, block_range(t, e, 0).0, block_range(t, e, 0).1))
    || !((k == "mode"@) || (k == "ruleset"@) || (k == "max_body_size"@) || (k == "anomaly_threshold"@) || (k == "exclude_paths"@) || (k == "rules"@))
}

/// The entries that can stand in a `waf` policy whose tokens end at `hi`.
pub open spec fn waf_entry(s: Seq<char>, t: Seq<Token>, hi: int) -> spec_fn(int) -> bool {
    |e: int| waf_entry_ok(s, t, hi, e)
}

/// Whether the tokens from `lo` to `hi` read as a `waf` policy.
pub open spec fn waf_ok(s: Seq<char>, t: Seq<Token>, lo: int, hi: int) -> bool {
    spec_entries(s, t, lo, hi) matches Some(es) && spec_first_bad(es, waf_entry(s, t, hi)) is None
}

/// The error for an entry at `e` that cannot stand in a `waf` policy.
pub open spec fn waf_fault_is(err: ConfigError, s: Seq<char>, t: Seq<Token>, hi: int, e: int) -> bool {
    let k = tok_text(s, t[e]);
    if (k == "rules"@) {
        (if !is_block_entry(s, t, e, hi, 0) { is_syntax_error(err, "unexpected field '"@ + k + "' in "@ + "waf policy"@, s, t[e].lo as int) } else { waf_rules_error_is(err, s, t, block_range(t, e, 0).0, block_range(t, e, 0).1) })
    } else if ((k == "mode"@) || (k == "ruleset"@) || (k == "max_body_size"@) || (k == "anomaly_threshold"@) || (k == "exclude_paths"@)) {
        is_syntax_error(err, "unexpected field '"@ + k + "' in "@ + "waf policy"@, s, t[e].lo as int)
    } else {
        true
    }
}

/// The error that reading a `waf` policy from `lo` to `hi` ends with, when it does not read.
#[verifier::opaque]
pub open spec fn waf_error_is(err: ConfigError, s: Seq<char>, t: Seq<Token>, lo: int, hi: int) -> bool {
    match spec_entries(s, t, lo, hi) {
        None => is_syntax_error(err, "syntax error in gateway file"@, s, tok_pos(s, t, lo)),
        Some(es) => match spec_first_bad(es, waf_entry(s, t, hi)) {
            Some(e) => waf_fault_is(err, s, t, hi, e),
            None => true,
        },
    }
}

/// Whether `r` holds what a `waf` policy from `lo` to `hi` sets: each field the value of
/// the last entry that sets it.
pub open spec fn waf_is(r: RawWafConfig<'_>, s: Seq<char>, t: Seq<Token>, lo: int, hi: int) -> bool {
    let es = match spec_entries(s, t, lo, hi) { Some(es) => es, None => Seq::empty() };
    opt_text(r.mode) == raw_field(s, t, hi, spec_last_key(s, t, es, "mode"@))
    && opt_text(r.ruleset) == raw_field(s, t, hi, spec_last_key(s, t, es, "ruleset"@))
    && opt_text(r.max_body_size) == raw_field(s, t, hi, spec_last_key(s, t, es, "max_body_size"@))
    && opt_int(r.anomaly_threshold, |x: u32| x as int) == (match raw_field(s, t, hi, spec_last_key(s, t, es, "anomaly_threshold"@)) { Some(x) => parse_unsigned(x, u32::MAX as int), None => None::<int> })
    && view_strs(r.exclude_paths@) == (match raw_field(s, t, hi, spec_last_key(s, t, es, "exclude_paths"@)) { Some(x) => spec_csv_values(x), None => Seq::<Seq<char>>::empty() })
    && (match spec_last_key(s, t, es, "rules"@) { Some(e) => waf_rules_is(r.rules@, s, t, block_range(t, e, 0).0, block_range(t, e, 0).1), None => r.rules@.len() == 0 })
}

pub proof fn lemma_waf_error(err: ConfigError, s: Seq<char>, t: Seq<Token>, lo: int, hi: int, es: Seq<int>, e: int)
    requires
        spec_entries(s, t, lo, hi) == Some(es),
        spec_first_bad(es, waf_entry(s, t, hi)) == Some(e),
        waf_fault_is(err, s, t, hi, e),
    ensures
        waf_error_is(err, s, t, lo, hi),
{
    reveal(waf_error_is);
}

/// Reads a `waf` policy from the tokens `lo` to `hi`.
#[verifier::spinoff_prover]
#[verifier::rlimit(100)]
pub fn read_waf<'a>(input: &'a str, v: &Vec<char>, toks: &Vec<Token>, lo: usize, hi: usize) -> (r: Result<RawWafConfig<'a>, ConfigError>)
    requires
        lo <= hi <= toks.len(),
        v@ == input@,
        v.len() < usize::MAX,
        tokens_in(v@, toks@),
        tokens_sorted(toks@),
    ensures
        match r {
            Ok(b) => waf_ok(v@, toks@, lo as int, hi as int) && waf_is(b, v@, toks@, lo as int, hi as int),
            Err(err) => !waf_ok(v@, toks@, lo as int, hi as int) && waf_error_is(err, v@, toks@, lo as int, hi as int),
        },
{
    let es = match entries(v, toks, lo, hi) { Some(es) => es, None => { proof { reveal(waf_error_is); } return Err(block_syntax_error(v, toks, lo, hi)); } };
    let ghost ees = es@.map_values(|e: usize| e as int);
    let ghost ok = waf_entry(v@, toks@, hi as int);
    proof {
        lemma_entries_in(v@, toks@, lo as int, hi as int, ees);
        reveal_strlit(""); reveal_strlit("mode"); reveal_strlit("ruleset"); reveal_strlit("max_body_size"); reveal_strlit("anomaly_threshold"); reveal_strlit("exclude_paths"); reveal_strlit("rules");
    }
    let mut mode: Option<&'a str> = None;
    let mut ruleset: Option<&'a str> = None;
    let mut max_body_size: Option<&'a str> = None;
    let mut anomaly_threshold: Option<u32> = None;
    let mut exclude_paths: Vec<&'a str> = Vec::new();
    let mut rules: Vec<RawWafRule<'a>> = Vec::new();
    let mut i: usize = 0;
    while i < es.len()
        invariant
            i <= es.len(),
            lo <= hi <= toks.len(),
            v@ == input@,
            v.len() < usize::MAX,
            tokens_in(v@, toks@),
            tokens_sorted(toks@),
            ees == es@.map_values(|e: usize| e as int),
            spec_entries(v@, toks@, lo as int, hi as int) == Some(ees),
            forall|m: int| 0 <= m < es.len() ==> lo <= #[trigger] ees[m] < hi,
            ok == waf_entry(v@, toks@, hi as int),
            forall|m: int| 0 <= m < i ==> ok(#[trigger] ees[m]),
            opt_text(mode) == raw_field(v@, toks@, hi as int, spec_last_key(v@, toks@, ees.take(i as int), "mode"@)),
            opt_text(ruleset) == raw_field(v@, toks@, hi as int, spec_last_key(v@, toks@, ees.take(i as int), "ruleset"@)),
            opt_text(max_body_size) == raw_field(v@, toks@, hi as int, spec_last_key(v@, toks@, ees.take(i as int), "max_body_size"@)),
            opt_int(anomaly_threshold, |x: u32| x as int) == (match raw_field(v@, toks@, hi as int, spec_last_key(v@, toks@, ees.take(i as int), "anomaly_threshold"@)) { Some(x) => parse_unsigned(x, u32::MAX as int), None => None::<int> }),
            view_strs(exclude_paths@) == (match raw_field(v@, toks@, hi as int, spec_last_key(v@, toks@, ees.take(i as int), "exclude_paths"@)) { Some(x) => spec_csv_values(x), None => Seq::<Seq<char>>::empty() }),
            (match spec_last_key(v@, toks@, ees.take(i as int), "rules"@) { Some(e) => waf_rules_is(rules@, v@, toks@, block_range(toks@, e, 0).0, block_range(toks@, e, 0).1), None => rules@.len() == 0 }),
        decreases es.len() - i,
    {
        let e = es[i];
        assert(ees[i as int] == e as int);
        proof {
             reveal_strlit("mode"); reveal_strlit("ruleset"); reveal_strlit("max_body_size"); reveal_strlit("anomaly_threshold"); reveal_strlit("exclude_paths"); reveal_strlit("rules"); reveal_strlit("true"); reveal_strlit("->"); reveal_strlit("extends");
            assert("mode"@.len() == 4);
            assert("ruleset"@.len() == 7);
            assert("max_body_size"@.len() == 13);
            assert("anomaly_threshold"@.len() == 17);
            assert("exclude_paths"@.len() == 13);
            assert("rules"@.len() == 5);
            assert("max_body_size"@[0] != "exclude_paths"@[0]);
            lemma_last_key_step(v@, toks@, ees, i as int, "mode"@);
            lemma_last_key_step(v@, toks@, ees, i as int, "ruleset"@);
            lemma_last_key_step(v@, toks@, ees, i as int, "max_body_size"@);
            lemma_last_key_step(v@, toks@, ees, i as int, "anomaly_threshold"@);
            lemma_last_key_step(v@, toks@, ees, i as int, "exclude_paths"@);
            lemma_last_key_step(v@, toks@, ees, i as int, "rules"@);
        }
        if range_eq(v, toks[e].lo, toks[e].hi, "mode") {
            assert((tok_text(v@, toks@[e as int]) == "mode"@));
            if value_assign(v, toks, e, hi) { mode = Some(value_text_of(input, v, toks, e, hi)); } else { let err = field_error(input, v, toks, e, "waf policy"); proof { lemma_first_bad(ees, ok, i as int); lemma_waf_error(err, v@, toks@, lo as int, hi as int, ees, ees[i as int]); } return Err(err); }
        } else if range_eq(v, toks[e].lo, toks[e].hi, "ruleset") {
            assert((tok_text(v@, toks@[e as int]) == "ruleset"@));
            if value_assign(v, toks, e, hi) { ruleset = Some(value_text_of(input, v, toks, e, hi)); } else { let err = field_error(input, v, toks, e, "waf policy"); proof { lemma_first_bad(ees, ok, i as int); lemma_waf_error(err, v@, toks@, lo as int, hi as int, ees, ees[i as int]); } return Err(err); }
        } else if range_eq(v, toks[e].lo, toks[e].hi, "max_body_size") {
            assert((tok_text(v@, toks@[e as int]) == "max_body_size"@));
            if value_assign(v, toks, e, hi) { max_body_size = Some(value_text_of(input, v, toks, e, hi)); } else { let err = field_error(input, v, toks, e, "waf policy"); proof { lemma_first_bad(ees, ok, i as int); lemma_waf_error(err, v@, toks@, lo as int, hi as int, ees, ees[i as int]); } return Err(err); }
        } else if range_eq(v, toks[e].lo, toks[e].hi, "anomaly_threshold") {
            assert((tok_text(v@, toks@[e as int]) == "anomaly_threshold"@));
            if value_assign(v, toks, e, hi) { let x = value_text_of(input, v, toks, e, hi); anomaly_threshold = match parse_unsigned_str(x, u32::MAX as u64) { Some(n) => Some(n as u32), None => None }; } else { let err = field_error(input, v, toks, e, "waf policy"); proof { lemma_first_bad(ees, ok, i as int); lemma_waf_error(err, v@, toks@, lo as int, hi as int, ees, ees[i as int]); } return Err(err); }
        } else if range_eq(v, toks[e].lo, toks[e].hi, "exclude_paths") {
            assert((tok_text(v@, toks@[e as int]) == "exclude_paths"@));
            if value_assign(v, toks, e, hi) { exclude_paths = split_csv_values(value_text_of(input, v, toks, e, hi)); } else { let err = field_error(input, v, toks, e, "waf policy"); proof { lemma_first_bad(ees, ok, i as int); lemma_waf_error(err, v@, toks@, lo as int, hi as int, ees, ees[i as int]); } return Err(err); }
        } else if range_eq(v, toks[e].lo, toks[e].hi, "rules") {
            assert((tok_text(v@, toks@[e as int]) == "rules"@));
            if block_entry(v, toks, e, hi, 0) { let c = match_bracket(toks, e + 1).unwrap(); proof { lemma_match_after(toks@, e + 1); } match read_waf_rules(input, v, toks, e + 2, c) { Ok(x) => { rules = x; }, Err(err) => { proof { lemma_first_bad(ees, ok, i as int); lemma_waf_error(err, v@, toks@, lo as int, hi as int, ees, ees[i as int]); } return Err(err); } } } else { let err = field_error(input, v, toks, e, "waf policy"); proof { lemma_first_bad(ees, ok, i as int); lemma_waf_error(err, v@, toks@, lo as int, hi as int, ees, ees[i as int]); } return Err(err); }
        } else {
            assert(ok(ees[i as int]));
        }
        i = i + 1;
    }
    proof {
        lemma_first_bad(ees, ok, es.len() as int);
        assert(ees.take(es.len() as int) =~= ees);
    }

    Ok(RawWafConfig { mode, ruleset, max_body_size, anomaly_threshold, rules, exclude_paths })
}

/// Whether the entry at `e` can give a route its `auth` policy: a reference to a
/// named policy, `extends` with overrides, or a policy of the route's own.
pub open spec fn auth_action_ok(s: Seq<char>, t: Seq<Token>, hi: int, e: int) -> bool {
    ||| is_text_assign(s, t, e, hi)
    ||| (is_block_entry(s, t, e, hi, 2) && t[e + 1].kind == TokenKind::Word && tok_text(s, t[e + 1]) == "extends"@
        && t[e + 2].kind == TokenKind::Str && auth_ok(s, t, block_range(t, e, 2).0, block_range(t, e, 2).1))
    ||| (is_block_entry(s, t, e, hi, 0) && auth_ok(s, t, block_range(t, e, 0).0, block_range(t, e, 0).1))
}

/// The error for an entry at `e`, in a block named `block`, that cannot give a
/// route its `auth` policy.
pub open spec fn auth_action_error_is(err: ConfigError, s: Seq<char>, t: Seq<Token>, hi: int, e: int, block: Seq<char>) -> bool {
    if is_text_assign(s, t, e, hi) {
        true
    } else if is_block_entry(s, t, e, hi, 2) && t[e + 1].kind == TokenKind::Word && tok_text(s, t[e + 1]) == "extends"@ && t[e + 2].kind == TokenKind::Str {
        auth_error_is(err, s, t, block_range(t, e, 2).0, block_range(t, e, 2).1)
    } else if is_block_entry(s, t, e, hi, 0) {
        auth_error_is(err, s, t, block_range(t, e, 0).0, block_range(t, e, 0).1)
    } else {
        is_syntax_error(err, "unexpected field '"@ + tok_text(s, t[e]) + "' in "@ + block, s, t[e].lo as int)
    }
}

/// Reads the route's `auth` policy from the entry at `e`.
#[verifier::spinoff_prover]
#[verifier::rlimit(40)]
pub fn read_auth_action<'a>(input: &'a str, v: &Vec<char>, toks: &Vec<Token>, e: usize, hi: usize, block: &str) -> (r: Result<RawRouteAction<'a, RawAuthConfig<'a>>, ConfigError>)
    requires
        e < hi <= toks.len(),
        v@ == input@,
        v.len() < usize::MAX,
        tokens_in(v@, toks@),
        tokens_sorted(toks@),
    ensures
        match r {
            Ok(a) => auth_action_ok(v@, toks@, hi as int, e as int) && auth_action_is(a, v@, toks@, e as int, hi as int),
            Err(err) => !auth_action_ok(v@, toks@, hi as int, e as int) && auth_action_error_is(err, v@, toks@, hi as int, e as int, block@),
        },
{
    proof { reveal_strlit("extends"); }
    if text_assign(v, toks, e, hi) {
        Ok(RawRouteAction::Ref(text_of(input, v, toks, e + 2)))
    } else if block_entry(v, toks, e, hi, 2) && toks[e + 1].kind == TokenKind::Word && range_eq(v, toks[e + 1].lo, toks[e + 1].hi, "extends") && toks[e + 2].kind == TokenKind::Str {
        let c = match_bracket(toks, e + 3).unwrap();
        proof { lemma_match_after(toks@, e + 3); }
        let x = read_auth(input, v, toks, e + 4, c)?;
        Ok(RawRouteAction::Extends { base: text_of(input, v, toks, e + 2), overrides: x })
    } else if block_entry(v, toks, e, hi, 0) {
        let c = match_bracket(toks, e + 1).unwrap();
        proof { lemma_match_after(toks@, e + 1); }
        let x = read_auth(input, v, toks, e + 2, c)?;
        Ok(RawRouteAction::Inline(x))
    } else {
        Err(field_error(input, v, toks, e, block))
    }
}

/// Whether the entry at `e` can give a route its `cors` policy: a reference to a
/// named policy, `extends` with overrides, or a policy of the route's own.
pub open spec fn cors_action_ok(s: Seq<char>, t: Seq<Token>, hi: int, e: int) -> bool {
    ||| is_text_assign(s, t, e, hi)
    ||| (is_block_entry(s, t, e, hi, 2) && t[e + 1].kind == TokenKind::Word && tok_text(s, t[e + 1]) == "extends"@
        && t[e + 2].kind == TokenKind::Str && cors_ok(s, t, block_range(t, e, 2).0, block_range(t, e, 2).1))
    ||| (is_block_entry(s, t, e, hi, 0) && cors_ok(s, t, block_range(t, e, 0).0, block_range(t, e, 0).1))
}

/// The error for an entry at `e`, in a block named `block`, that cannot give a
/// route its `cors` policy.
pub open spec fn cors_action_error_is(err: ConfigError, s: Seq<char>, t: Seq<Token>, hi: int, e: int, block: Seq<char>) -> bool {
    if is_text_assign(s, t, e, hi) {
        true
    } else if is_block_entry(s, t, e, hi, 2) && t[e + 1].kind == TokenKind::Word && tok_text(s, t[e + 1]) == "extends"@ && t[e + 2].kind == TokenKind::Str {
        cors_error_is(err, s, t, block_range(t, e, 2).0, block_range(t, e, 2).1)
    } else if is_block_entry(s, t, e, hi, 0) {
        cors_error_is(err, s, t, block_range(t, e, 0).0, block_range(t, e, 0).1)
    } else {
        is_syntax_error(err, "unexpected field '"@ + tok_text(s, t[e]) + "' in "@ + block, s, t[e].lo as int)
    }
}

/// Reads the route's `cors` policy from the entry at `e`.
#[verifier::spinoff_prover]
#[verifier::rlimit(40)]
pub fn read_cors_action<'a>(input: &'a str, v: &Vec<char>, toks: &Vec<Token>, e: usize, hi: usize, block: &str) -> (r: Result<RawRouteAction<'a, RawCorsConfig<'a>>, ConfigError>)
    requires
        e < hi <= toks.len(),
        v@ == input@,
        v.len() < usize::MAX,
        tokens_in(v@, toks@),
        tokens_sorted(toks@),
    ensures
        match r {
            Ok(a) => cors_action_ok(v@, toks@, hi as int, e as int) && cors_action_is(a, v@, toks@, e as int, hi as int),
            Err(err) => !cors_action_ok(v@, toks@, hi as int, e as int) && cors_action_error_is(err, v@, toks@, hi as int, e as int, block@),
        },
{
    proof { reveal_strlit("extends"); }
    if text_assign(v, toks, e, hi) {
        Ok(RawRouteAction::Ref(text_of(input, v, toks, e + 2)))
    } else if block_entry(v, toks, e, hi, 2) && toks[e + 1].kind == TokenKind::Word && range_eq(v, toks[e + 1].lo, toks[e + 1].hi, "extends") && toks[e + 2].kind == TokenKind::Str {
        let c = match_bracket(toks, e + 3).unwrap();
        proof { lemma_match_after(toks@, e + 3); }
        let x = read_cors(input, v, toks, e + 4, c)?;
        Ok(RawRouteAction::Extends { base: text_of(input, v, toks, e + 2), overrides: x })
    } else if block_entry(v, toks, e, hi, 0) {
        let c = match_bracket(toks, e + 1).unwrap();
        proof { lemma_match_after(toks@, e + 1); }
        let x = read_cors(input, v, toks, e + 2, c)?;
        Ok(RawRouteAction::Inline(x))
    } else {
        Err(field_error(input, v, toks, e, block))
    }
}

/// Whether the entry at `e` can give a route its `waf` policy: a reference to a
/// named policy, `extends` with overrides, or a policy of the route's own.
pub open spec fn waf_action_ok(s: Seq<char>, t: Seq<Token>, hi: int, e: int) -> bool {
    ||| is_text_assign(s, t, e, hi)
    ||| (is_block_entry(s, t, e, hi, 2) && t[e + 1].kind == TokenKind::Word && tok_text(s, t[e + 1]) == "extends"@
        && t[e + 2].kind == TokenKind::Str && waf_ok(s, t, block_range(t, e, 2).0, block_range(t, e, 2).1))
    ||| (is_block_entry(s, t, e, hi, 0) && waf_ok(s, t, block_range(t, e, 0).0, block_range(t, e, 0).1))
}

/// The error for an entry at `e`, in a block named `block`, that cannot give a
/// route its `waf` policy.
pub open spec fn waf_action_error_is(err: ConfigError, s: Seq<char>, t: Seq<Token>, hi: int, e: int, block: Seq<char>) -> bool {
    if is_text_assign(s, t, e, hi) {
        true
    } else if is_block_entry(s, t, e, hi, 2) && t[e + 1].kind == TokenKind::Word && tok_text(s, t[e + 1]) == "extends"@ && t[e + 2].kind == TokenKind::Str {
        waf_error_is(err, s, t, block_range(t, e, 2).0, block_range(t, e, 2).1)
    } else if is_block_entry(s, t, e, hi, 0) {
        waf_error_is(err, s, t, block_range(t, e, 0).0, block_range(t, e, 0).1)
    } else {
        is_syntax_error(err, "unexpected field '"@ + tok_text(s, t[e]) + "' in "@ + block, s, t[e].lo as int)
    }
}

/// Reads the route's `waf` policy from the entry at `e`.
#[verifier::spinoff_prover]
#[verifier::rlimit(40)]
pub fn read_waf_action<'a>(input: &'a str, v: &Vec<char>, toks: &Vec<Token>, e: usize, hi: usize, block: &str) -> (r: Result<RawRouteAction<'a, RawWafConfig<'a>>, ConfigError>)
    requires
        e < hi <= toks.len(),
        v@ == input@,
        v.len() < usize::MAX,
        tokens_in(v@, toks@),
        tokens_sorted(toks@),
    ensures
        match r {
            Ok(a) => waf_action_ok(v@, toks@, hi as int, e as int) && waf_action_is(a, v@, toks@, e as int, hi as int),
            Err(err) => !waf_action_ok(v@, toks@, hi as int, e as int) && waf_action_error_is(err, v@, toks@, hi as int, e as int, block@),
        },
{
    proof { reveal_strlit("extends"); }
    if text_assign(v, toks, e, hi) {
        Ok(RawRouteAction::Ref(text_of(input, v, toks, e + 2)))
    } else if block_entry(v, toks, e, hi, 2) && toks[e + 1].kind == TokenKind::Word && range_eq(v, toks[e + 1].lo, toks[e + 1].hi, "extends") && toks[e + 2].kind == TokenKind::Str {
        let c = match_bracket(toks, e + 3).unwrap();
        proof { lemma_match_after(toks@, e + 3); }
        let x = read_waf(input, v, toks, e + 4, c)?;
        Ok(RawRouteAction::Extends { base: text_of(input, v, toks, e + 2), overrides: x })
    } else if block_entry(v, toks, e, hi, 0) {
        let c = match_bracket(toks, e + 1).unwrap();
        proof { lemma_match_after(toks@, e + 1); }
        let x = read_waf(input, v, toks, e + 2, c)?;
        Ok(RawRouteAction::Inline(x))
    } else {
        Err(field_error(input, v, toks, e, block))
    }
}

/// Whether the entry at `e` can give a route its `limiter` policy: a reference to a
/// named policy, `extends` with overrides, or a policy of the route's own.
pub open spec fn limiter_action_ok(s: Seq<char>, t: Seq<Token>, hi: int, e: int) -> bool {
    ||| is_text_assign(s, t, e, hi)
    ||| (is_block_entry(s, t, e, hi, 2) && t[e + 1].kind == TokenKind::Word && tok_text(s, t[e + 1]) == "extends"@
        && t[e + 2].kind == TokenKind::Str && limiter_ok(s, t, block_range(t, e, 2).0, block_range(t, e, 2).1))
    ||| (is_block_entry(s, t, e, hi, 0) && limiter_ok(s, t, block_range(t, e, 0).0, block_range(t, e, 0).1))
}

/// The error for an entry at `e`, in a block named `block`, that cannot give a
/// route its `limiter` policy.
pub open spec fn limiter_action_error_is(err: ConfigError, s: Seq<char>, t: Seq<Token>, hi: int, e: int, block: Seq<char>) -> bool {
    if is_text_assign(s, t, e, hi) {
        true
    } else if is_block_entry(s, t, e, hi, 2) && t[e + 1].kind == TokenKind::Word && tok_text(s, t[e + 1]) == "extends"@ && t[e + 2].kind == TokenKind::Str {
        limiter_error_is(err, s, t, block_range(t, e, 2).0, block_range(t, e, 2).1)
    } else if is_block_entry(s, t, e, hi, 0) {
        limiter_error_is(err, s, t, block_range(t, e, 0).0, block_range(t, e, 0).1)
    } else {
        is_syntax_error(err, "unexpected field '"@ + tok_text(s, t[e]) + "' in "@ + block, s, t[e].lo as int)
    }
}

/// Reads the route's `limiter` policy from the entry at `e`.
#[verifier::spinoff_prover]
#[verifier::rlimit(40)]
pub fn read_limiter_action<'a>(input: &'a str, v: &Vec<char>, toks: &Vec<Token>, e: usize, hi: usize, block: &str) -> (r: Result<RawRouteAction<'a, RawLimiterConfig<'a>>, ConfigError>)
    requires
        e < hi <= toks.len(),
        v@ == input@,
        v.len() < usize::MAX,
        tokens_in(v@, toks@),
        tokens_sorted(toks@),
    ensures
        match r {
            Ok(a) => limiter_action_ok(v@, toks@, hi as int, e as int) && limiter_action_is(a, v@, toks@, e as int, hi as int),
            Err(err) => !limiter_action_ok(v@, toks@, hi as int, e as int) && limiter_action_error_is(err, v@, toks@, hi as int, e as int, block@),
        },
{
    proof { reveal_strlit("extends"); }
    if text_assign(v, toks, e, hi) {
        Ok(RawRouteAction::Ref(text_of(input, v, toks, e + 2)))
    } else if block_entry(v, toks, e, hi, 2) && toks[e + 1].kind == TokenKind::Word && range_eq(v, toks[e + 1].lo, toks[e + 1].hi, "extends") && toks[e + 2].kind == TokenKind::Str {
        let c = match_bracket(toks, e + 3).unwrap();
        proof { lemma_match_after(toks@, e + 3); }
        let x = read_limiter(input, v, toks, e + 4, c)?;
        Ok(RawRouteAction::Extends { base: text_of(input, v, toks, e + 2), overrides: x })
    } else if block_entry(v, toks, e, hi, 0) {
        let c = match_bracket(toks, e + 1).unwrap();
        proof { lemma_match_after(toks@, e + 1); }
        let x = read_limiter(input, v, toks, e + 2, c)?;
        Ok(RawRouteAction::Inline(x))
    } else {
        Err(field_error(input, v, toks, e, block))
    }
}

/// Whether the entry at `e` can give a route its `helmet` policy: a reference to a
/// named policy, `extends` with overrides, or a policy of the route's own.
pub open spec fn helmet_action_ok(s: Seq<char>, t: Seq<Token>, hi: int, e: int) -> bool {
    ||| is_text_assign(s, t, e, hi)
    ||| (is_block_entry(s, t, e, hi, 2) && t[e + 1].kind == TokenKind::Word && tok_text(s, t[e + 1]) == "extends"@
        && t[e + 2].kind == TokenKind::Str && helmet_ok(s, t, block_range(t, e, 2).0, block_range(t, e, 2).1))
    ||| (is_block_entry(s, t, e, hi, 0) && helmet_ok(s, t, block_range(t, e, 0).0, block_range(t, e, 0).1))
}

/// The error for an entry at `e`, in a block named `block`, that cannot give a
/// route its `helmet` policy.
pub open spec fn helmet_action_error_is(err: ConfigError, s: Seq<char>, t: Seq<Token>, hi: int, e: int, block: Seq<char>) -> bool {
    if is_text_assign(s, t, e, hi) {
        true
    } else if is_block_entry(s, t, e, hi, 2) && t[e + 1].kind == TokenKind::Word && tok_text(s, t[e + 1]) == "extends"@ && t[e + 2].kind == TokenKind::Str {
        helmet_error_is(err, s, t, block_range(t, e, 2).0, block_range(t, e, 2).1)
    } else if is_block_entry(s, t, e, hi, 0) {
        helmet_error_is(err, s, t, block_range(t, e, 0).0, block_range(t, e, 0).1)
    } else {
        is_syntax_error(err, "unexpected field '"@ + tok_text(s, t[e]) + "' in "@ + block, s, t[e].lo as int)
    }
}

/// Reads the route's `helmet` policy from the entry at `e`.
#[verifier::spinoff_prover]
#[verifier::rlimit(40)]
pub fn read_helmet_action<'a>(input: &'a str, v: &Vec<char>, toks: &Vec<Token>, e: usize, hi: usize, block: &str) -> (r: Result<RawRouteAction<'a, RawHelmetConfig<'a>>, ConfigError>)
    requires
        e < hi <= toks.len(),
        v@ == input@,
        v.len() < usize::MAX,
        tokens_in(v@, toks@),
        tokens_sorted(toks@),
    ensures
        match r {
            Ok(a) => helmet_action_ok(v@, toks@, hi as int, e as int) && helmet_action_is(a, v@, toks@, e as int, hi as int),
            Err(err) => !helmet_action_ok(v@, toks@, hi as int, e as int) && helmet_action_error_is(err, v@, toks@, hi as int, e as int, block@),
        },
{
    proof { reveal_strlit("extends"); }
    if text_assign(v, toks, e, hi) {
        Ok(RawRouteAction::Ref(text_of(input, v, toks, e + 2)))
    } else if block_entry(v, toks, e, hi, 2) && toks[e + 1].kind == TokenKind::Word && range_eq(v, toks[e + 1].lo, toks[e + 1].hi, "extends") && toks[e + 2].kind == TokenKind::Str {
        let c = match_bracket(toks, e + 3).unwrap();
        proof { lemma_match_after(toks@, e + 3); }
        let x = read_helmet(input, v, toks, e + 4, c)?;
        Ok(RawRouteAction::Extends { base: text_of(input, v, toks, e + 2), overrides: x })
    } else if block_entry(v, toks, e, hi, 0) {
        let c = match_bracket(toks, e + 1).unwrap();
        proof { lemma_match_after(toks@, e + 1); }
        let x = read_helmet(input, v, toks, e + 2, c)?;
        Ok(RawRouteAction::Inline(x))
    } else {
        Err(field_error(input, v, toks, e, block))
    }
}

/// Whether the entry at `e` can stand in a route `policies` block.
pub open spec fn route_policies_entry_ok(s: Seq<char>, t: Seq<Token>, hi: int, e: int) -> bool {
    let k = tok_text(s, t[e]);
    ((k == "auth"@) && auth_action_ok(s, t, hi, e))
    || ((k == "cors"@) && cors_action_ok(s, t, hi, e))
    || ((k == "waf"@) && waf_action_ok(s, t, hi, e))
    || ((k == "limiter"@) && limiter_action_ok(s, t, hi, e))
    || ((k == "helmet"@) && helmet_action_ok(s, t, hi, e))
}

/// The entries that can stand in a route `policies` block whose tokens end at `hi`.
pub open spec fn route_policies_entry(s: Seq<char>, t: Seq<Token>, hi: int) -> spec_fn(int) -> bool {
    |e: int| route_policies_entry_ok(s, t, hi, e)
}

/// Whether the tokens from `lo` to `hi` read as a route `policies` block.
pub open spec fn route_policies_ok(s: Seq<char>, t: Seq<Token>, lo: int, hi: int) -> bool {
    spec_entries(s, t, lo, hi) matches Some(es) && spec_first_bad(es, route_policies_entry(s, t, hi)) is None
}

/// The error for an entry at `e` that cannot stand in a route `policies` block.
pub open spec fn route_policies_fault_is(err: ConfigError, s: Seq<char>, t: Seq<Token>, hi: int, e: int) -> bool {
    let k = tok_text(s, t[e]);
    if (k == "auth"@) {
        auth_action_error_is(err, s, t, hi, e, "policies block"@)
    } else if (k == "cors"@) {
        cors_action_error_is(err, s, t, hi, e, "policies block"@)
    } else if (k == "waf"@) {
        waf_action_error_is(err, s, t, hi, e, "policies block"@)
    } else if (k == "limiter"@) {
        limiter_action_error_is(err, s, t, hi, e, "policies block"@)
    } else if (k == "helmet"@) {
        helmet_action_error_is(err, s, t, hi, e, "policies block"@)
    } else {
        is_syntax_error(err, "unexpected field '"@ + k + "' in "@ + "policies block"@, s, t[e].lo as int)
    }
}

/// The error that reading a route `policies` block from `lo` to `hi` ends with, when it does not read.
#[verifier::opaque]
pub open spec fn route_policies_error_is(err: ConfigError, s: Seq<char>, t: Seq<Token>, lo: int, hi: int) -> bool {
    match spec_entries(s, t, lo, hi) {
        None => is_syntax_error(err, "syntax error in gateway file"@, s, tok_pos(s, t, lo)),
        Some(es) => match spec_first_bad(es, route_policies_entry(s, t, hi)) {
            Some(e) => route_policies_fault_is(err, s, t, hi, e),
            None => true,
        },
    }
}

/// Whether `r` holds what a route `policies` block from `lo` to `hi` sets: each field the value of
/// the last entry that sets it.
pub open spec fn route_policies_is(r: RawRoutePolicies<'_>, s: Seq<char>, t: Seq<Token>, lo: int, hi: int) -> bool {
    let es = match spec_entries(s, t, lo, hi) { Some(es) => es, None => Seq::empty() };
    (match r.auth { Some(a) => spec_last_key(s, t, es, "auth"@) is Some && auth_action_is(a, s, t, spec_last_key(s, t, es, "auth"@)->0, hi), None => spec_last_key(s, t, es, "auth"@) is None })
    && (match r.cors { Some(a) => spec_last_key(s, t, es, "cors"@) is Some && cors_action_is(a, s, t, spec_last_key(s, t, es, "cors"@)->0, hi), None => spec_last_key(s, t, es, "cors"@) is None })
    && (match r.waf { Some(a) => spec_last_key(s, t, es, "waf"@) is Some && waf_action_is(a, s, t, spec_last_key(s, t, es, "waf"@)->0, hi), None => spec_last_key(s, t, es, "waf"@) is None })
    && (match r.limiter { Some(a) => spec_last_key(s, t, es, "limiter"@) is Some && limiter_action_is(a, s, t, spec_last_key(s, t, es, "limiter"@)->0, hi), None => spec_last_key(s, t, es, "limiter"@) is None })
    && (match r.helmet { Some(a) => spec_last_key(s, t, es, "helmet"@) is Some && helmet_action_is(a, s, t, spec_last_key(s, t, es, "helmet"@)->0, hi), None => spec_last_key(s, t, es, "helmet"@) is None })
}

pub proof fn lemma_route_policies_error(err: ConfigError, s: Seq<char>, t: Seq<Token>, lo: int, hi: int, es: Seq<int>, e: int)
    requires
        spec_entries(s, t, lo, hi) == Some(es),
        spec_first_bad(es, route_policies_entry(s, t, hi)) == Some(e),
        route_policies_fault_is(err, s, t, hi, e),
    ensures
        route_policies_error_is(err, s, t, lo, hi),
{
    reveal(route_policies_error_is);
}

/// Reads a route `policies` block from the tokens `lo` to `hi`.
#[verifier::spinoff_prover]
#[verifier::rlimit(100)]
pub fn read_route_policies<'a>(input: &'a str, v: &Vec<char>, toks: &Vec<Token>, lo: usize, hi: usize) -> (r: Result<RawRoutePolicies<'a>, ConfigError>)
    requires
        lo <= hi <= toks.len(),
        v@ == input@,
        v.len() < usize::MAX,
        tokens_in(v@, toks@),
        tokens_sorted(toks@),
    ensures
        match r {
            Ok(b) => route_policies_ok(v@, toks@, lo as int, hi as int) && route_policies_is(b, v@, toks@, lo as int, hi as int),
            Err(err) => !route_policies_ok(v@, toks@, lo as int, hi as int) && route_policies_error_is(err, v@, toks@, lo as int, hi as int),
        },
{
    let es = match entries(v, toks, lo, hi) { Some(es) => es, None => { proof { reveal(route_policies_error_is); } return Err(block_syntax_error(v, toks, lo, hi)); } };
    let ghost ees = es@.map_values(|e: usize| e as int);
    let ghost ok = route_policies_entry(v@, toks@, hi as int);
    proof {
        lemma_entries_in(v@, toks@, lo as int, hi as int, ees);
        reveal_strlit(""); reveal_strlit("auth"); reveal_strlit("cors"); reveal_strlit("waf"); reveal_strlit("limiter"); reveal_strlit("helmet");
    }
    let mut auth: Option<RawRouteAction<'a, RawAuthConfig<'a>>> = None;
    let mut cors: Option<RawRouteAction<'a, RawCorsConfig<'a>>> = None;
    let mut waf: Option<RawRouteAction<'a, RawWafConfig<'a>>> = None;
    let mut limiter: Option<RawRouteAction<'a, RawLimiterConfig<'a>>> = None;
    let mut helmet: Option<RawRouteAction<'a, RawHelmetConfig<'a>>> = None;
    let mut i: usize = 0;
    while i < es.len()
        invariant
            i <= es.len(),
            lo <= hi <= toks.len(),
            v@ == input@,
            v.len() < usize::MAX,
            tokens_in(v@, toks@),
            tokens_sorted(toks@),
            ees == es@.map_values(|e: usize| e as int),
            spec_entries(v@, toks@, lo as int, hi as int) == Some(ees),
            forall|m: int| 0 <= m < es.len() ==> lo <= #[trigger] ees[m] < hi,
            ok == route_policies_entry(v@, toks@, hi as int),
            forall|m: int| 0 <= m < i ==> ok(#[trigger] ees[m]),
            (match auth { Some(a) => spec_last_key(v@, toks@, ees.take(i as int), "auth"@) is Some && auth_action_is(a, v@, toks@, spec_last_key(v@, toks@, ees.take(i as int), "auth"@)->0, hi as int), None => spec_last_key(v@, toks@, ees.take(i as int), "auth"@) is None }),
            (match cors { Some(a) => spec_last_key(v@, toks@, ees.take(i as int), "cors"@) is Some && cors_action_is(a, v@, toks@, spec_last_key(v@, toks@, ees.take(i as int), "cors"@)->0, hi as int), None => spec_last_key(v@, toks@, ees.take(i as int), "cors"@) is None }),
            (match waf { Some(a) => spec_last_key(v@, toks@, ees.take(i as int), "waf"@) is Some && waf_action_is(a, v@, toks@, spec_last_key(v@, toks@, ees.take(i as int), "waf"@)->0, hi as int), None => spec_last_key(v@, toks@, ees.take(i as int), "waf"@) is None }),
            (match limiter { Some(a) => spec_last_key(v@, toks@, ees.take(i as int), "limiter"@) is Some && limiter_action_is(a, v@, toks@, spec_last_key(v@, toks@, ees.take(i as int), "limiter"@)->0, hi as int), None => spec_last_key(v@, toks@, ees.take(i as int), "limiter"@) is None }),
            (match helmet { Some(a) => spec_last_key(v@, toks@, ees.take(i as int), "helmet"@) is Some && helmet_action_is(a, v@, toks@, spec_last_key(v@, toks@, ees.take(i as int), "helmet"@)->0, hi as int), None => spec_last_key(v@, toks@, ees.take(i as int), "helmet"@) is None }),
        decreases es.len() - i,
    {
        let e = es[i];
        assert(ees[i as int] == e as int);
        proof {
             reveal_strlit("auth"); reveal_strlit("cors"); reveal_strlit("waf"); reveal_strlit("limiter"); reveal_strlit("helmet"); reveal_strlit("true"); reveal_strlit("->"); reveal_strlit("extends");
            assert("auth"@.len() == 4);
            assert("cors"@.len() == 4);
            assert("waf"@.len() == 3);
            assert("limiter"@.len() == 7);
            assert("helmet"@.len() == 6);
            assert("auth"@[0] != "cors"@[0]);
            lemma_last_key_step(v@, toks@, ees, i as int, "auth"@);
            lemma_last_key_step(v@, toks@, ees, i as int, "cors"@);
            lemma_last_key_step(v@, toks@, ees, i as int, "waf"@);
            lemma_last_key_step(v@, toks@, ees, i as int, "limiter"@);
            lemma_last_key_step(v@, toks@, ees, i as int, "helmet"@);
        }
        if range_eq(v, toks[e].lo, toks[e].hi, "auth") {
            assert((tok_text(v@, toks@[e as int]) == "auth"@));
            match read_auth_action(input, v, toks, e, hi, "policies block") { Ok(x) => { auth = Some(x); }, Err(err) => { proof { lemma_first_bad(ees, ok, i as int); lemma_route_policies_error(err, v@, toks@, lo as int, hi as int, ees, ees[i as int]); } return Err(err); } }
        } else if range_eq(v, toks[e].lo, toks[e].hi, "cors") {
            assert((tok_text(v@, toks@[e as int]) == "cors"@));
            match read_cors_action(input, v, toks, e, hi, "policies block") { Ok(x) => { cors = Some(x); }, Err(err) => { proof { lemma_first_bad(ees, ok, i as int); lemma_route_policies_error(err, v@, toks@, lo as int, hi as int, ees, ees[i as int]); } return Err(err); } }
        } else if range_eq(v, toks[e].lo, toks[e].hi, "waf") {
            assert((tok_text(v@, toks@[e as int]) == "waf"@));
            match read_waf_action(input, v, toks, e, hi, "policies block") { Ok(x) => { waf = Some(x); }, Err(err) => { proof { lemma_first_bad(ees, ok, i as int); lemma_route_policies_error(err, v@, toks@, lo as int, hi as int, ees, ees[i as int]); } return Err(err); } }
        } else if range_eq(v, toks[e].lo, toks[e].hi, "limiter") {
            assert((tok_text(v@, toks@[e as int]) == "limiter"@));
            match read_limiter_action(input, v, toks, e, hi, "policies block") { Ok(x) => { limiter = Some(x); }, Err(err) => { proof { lemma_first_bad(ees, ok, i as int); lemma_route_policies_error(err, v@, toks@, lo as int, hi as int, ees, ees[i as int]); } return Err(err); } }
        } else if range_eq(v, toks[e].lo, toks[e].hi, "helmet") {
            assert((tok_text(v@, toks@[e as int]) == "helmet"@));
            match read_helmet_action(input, v, toks, e, hi, "policies block") { Ok(x) => { helmet = Some(x); }, Err(err) => { proof { lemma_first_bad(ees, ok, i as int); lemma_route_policies_error(err, v@, toks@, lo as int, hi as int, ees, ees[i as int]); } return Err(err); } }
        } else {
            { let err = field_error(input, v, toks, e, "policies block"); proof { lemma_first_bad(ees, ok, i as int); lemma_route_policies_error(err, v@, toks@, lo as int, hi as int, ees, ees[i as int]); } return Err(err); }
        }
        i = i + 1;
    }
    proof {
        lemma_first_bad(ees, ok, es.len() as int);
        assert(ees.take(es.len() as int) =~= ees);
    }

    Ok(RawRoutePolicies { auth, cors, waf, limiter, helmet })
}

/// Whether the entry at `e` can stand in a `static_config` block.
pub open spec fn static_config_entry_ok(s: Seq<char>, t: Seq<Token>, hi: int, e: int) -> bool {
    let k = tok_text(s, t[e]);
    ((k == "listing"@) && is_text_assign(s, t, e, hi))
    || ((k == "dotfiles"@) && is_text_assign(s, t, e, hi))
    || ((k == "index"@) && is_text_assign(s, t, e, hi))
    || ((k == "symlinks"@) && is_text_assign(s, t, e, hi))
    || ((k == "exclude_paths"@) && is_list_assign(s, t, e, hi) && list_texts(s, t, e + 2) is Some)
}

/// The entries that can stand in a `static_config` block whose tokens end at `hi`.
pub open spec fn static_config_entry(s: Seq<char>, t: Seq<Token>, hi: int) -> spec_fn(int) -> bool {
    |e: int| static_config_entry_ok(s, t, hi, e)
}

/// Whether the tokens from `lo` to `hi` read as a `static_config` block.
pub open spec fn static_config_ok(s: Seq<char>, t: Seq<Token>, lo: int, hi: int) -> bool {
    spec_entries(s, t, lo, hi) matches Some(es) && spec_first_bad(es, static_config_entry(s, t, hi)) is None
}

/// The error for an entry at `e` that cannot stand in a `static_config` block.
pub open spec fn static_config_fault_is(err: ConfigError, s: Seq<char>, t: Seq<Token>, hi: int, e: int) -> bool {
    let k = tok_text(s, t[e]);
    is_syntax_error(err, "unexpected field '"@ + k + "' in "@ + "static_config block"@, s, t[e].lo as int)
}

/// The error that reading a `static_config` block from `lo` to `hi` ends with, when it does not read.
#[verifier::opaque]
pub open spec fn static_config_error_is(err: ConfigError, s: Seq<char>, t: Seq<Token>, lo: int, hi: int) -> bool {
    match spec_entries(s, t, lo, hi) {
        None => is_syntax_error(err, "syntax error in gateway file"@, s, tok_pos(s, t, lo)),
        Some(es) => match spec_first_bad(es, static_config_entry(s, t, hi)) {
            Some(e) => static_config_fault_is(err, s, t, hi, e),
            None => true,
        },
    }
}

/// Whether `r` holds what a `static_config` block from `lo` to `hi` sets: each field the value of
/// the last entry that sets it.
pub open spec fn static_config_is(r: StaticConfig<'_>, s: Seq<char>, t: Seq<Token>, lo: int, hi: int) -> bool {
    let es = match spec_entries(s, t, lo, hi) { Some(es) => es, None => Seq::empty() };
    r.listing == bool_field(s, t, spec_last_key(s, t, es, "listing"@))
    && r.dotfiles == bool_field(s, t, spec_last_key(s, t, es, "dotfiles"@))
    && r.index == bool_field(s, t, spec_last_key(s, t, es, "index"@))
    && r.symlinks == bool_field(s, t, spec_last_key(s, t, es, "symlinks"@))
    && view_strs(r.exclude_paths@) == list_field(s, t, spec_last_key(s, t, es, "exclude_paths"@))
}

pub proof fn lemma_static_config_error(err: ConfigError, s: Seq<char>, t: Seq<Token>, lo: int, hi: int, es: Seq<int>, e: int)
    requires
        spec_entries(s, t, lo, hi) == Some(es),
        spec_first_bad(es, static_config_entry(s, t, hi)) == Some(e),
        static_config_fault_is(err, s, t, hi, e),
    ensures
        static_config_error_is(err, s, t, lo, hi),
{
    reveal(static_config_error_is);
}

/// Reads a `static_config` block from the tokens `lo` to `hi`.
#[verifier::spinoff_prover]
#[verifier::rlimit(100)]
pub fn read_static_config<'a>(input: &'a str, v: &Vec<char>, toks: &Vec<Token>, lo: usize, hi: usize) -> (r: Result<StaticConfig<'a>, ConfigError>)
    requires
        lo <= hi <= toks.len(),
        v@ == input@,
        v.len() < usize::MAX,
        tokens_in(v@, toks@),
        tokens_sorted(toks@),
    ensures
        match r {
            Ok(b) => static_config_ok(v@, toks@, lo as int, hi as int) && static_config_is(b, v@, toks@, lo as int, hi as int),
            Err(err) => !static_config_ok(v@, toks@, lo as int, hi as int) && static_config_error_is(err, v@, toks@, lo as int, hi as int),
        },
{
    let es = match entries(v, toks, lo, hi) { Some(es) => es, None => { proof { reveal(static_config_error_is); } return Err(block_syntax_error(v, toks, lo, hi)); } };
    let ghost ees = es@.map_values(|e: usize| e as int);
    let ghost ok = static_config_entry(v@, toks@, hi as int);
    proof {
        lemma_entries_in(v@, toks@, lo as int, hi as int, ees);
        reveal_strlit(""); reveal_strlit("listing"); reveal_strlit("dotfiles"); reveal_strlit("index"); reveal_strlit("symlinks"); reveal_strlit("exclude_paths");
    }
    let mut listing: Option<bool> = None;
    let mut dotfiles: Option<bool> = None;
    let mut index: Option<bool> = None;
    let mut symlinks: Option<bool> = None;
    let mut exclude_paths: Vec<&'a str> = Vec::new();
    let mut i: usize = 0;
    while i < es.len()
        invariant
            i <= es.len(),
            lo <= hi <= toks.len(),
            v@ == input@,
            v.len() < usize::MAX,
            tokens_in(v@, toks@),
            tokens_sorted(toks@),
            ees == es@.map_values(|e: usize| e as int),
            spec_entries(v@, toks@, lo as int, hi as int) == Some(ees),
            forall|m: int| 0 <= m < es.len() ==> lo <= #[trigger] ees[m] < hi,
            ok == static_config_entry(v@, toks@, hi as int),
            forall|m: int| 0 <= m < i ==> ok(#[trigger] ees[m]),
            listing == bool_field(v@, toks@, spec_last_key(v@, toks@, ees.take(i as int), "listing"@)),
            dotfiles == bool_field(v@, toks@, spec_last_key(v@, toks@, ees.take(i as int), "dotfiles"@)),
            index == bool_field(v@, toks@, spec_last_key(v@, toks@, ees.take(i as int), "index"@)),
            symlinks == bool_field(v@, toks@, spec_last_key(v@, toks@, ees.take(i as int), "symlinks"@)),
            view_strs(exclude_paths@) == list_field(v@, toks@, spec_last_key(v@, toks@, ees.take(i as int), "exclude_paths"@)),
        decreases es.len() - i,
    {
        let e = es[i];
        assert(ees[i as int] == e as int);
        proof {
             reveal_strlit("listing"); reveal_strlit("dotfiles"); reveal_strlit("index"); reveal_strlit("symlinks"); reveal_strlit("exclude_paths"); reveal_strlit("true"); reveal_strlit("->"); reveal_strlit("extends");
            assert("listing"@.len() == 7);
            assert("dotfiles"@.len() == 8);
            assert("index"@.len() == 5);
            assert("symlinks"@.len() == 8);
            assert("exclude_paths"@.len() == 13);
            assert("dotfiles"@[0] != "symlinks"@[0]);
            lemma_last_key_step(v@, toks@, ees, i as int, "listing"@);
            lemma_last_key_step(v@, toks@, ees, i as int, "dotfiles"@);
            lemma_last_key_step(v@, toks@, ees, i as int, "index"@);
            lemma_last_key_step(v@, toks@, ees, i as int, "symlinks"@);
            lemma_last_key_step(v@, toks@, ees, i as int, "exclude_paths"@);
        }
        if range_eq(v, toks[e].lo, toks[e].hi, "listing") {
            assert((tok_text(v@, toks@[e as int]) == "listing"@));
            if text_assign(v, toks, e, hi) { listing = Some(range_eq(v, toks[e + 2].lo, toks[e + 2].hi, "true")); } else { let err = field_error(input, v, toks, e, "static_config block"); proof { lemma_first_bad(ees, ok, i as int); lemma_static_config_error(err, v@, toks@, lo as int, hi as int, ees, ees[i as int]); } return Err(err); }
        } else if range_eq(v, toks[e].lo, toks[e].hi, "dotfiles") {
            assert((tok_text(v@, toks@[e as int]) == "dotfiles"@));
            if text_assign(v, toks, e, hi) { dotfiles = Some(range_eq(v, toks[e + 2].lo, toks[e + 2].hi, "true")); } else { let err = field_error(input, v, toks, e, "static_config block"); proof { lemma_first_bad(ees, ok, i as int); lemma_static_config_error(err, v@, toks@, lo as int, hi as int, ees, ees[i as int]); } return Err(err); }
        } else if range_eq(v, toks[e].lo, toks[e].hi, "index") {
            assert((tok_text(v@, toks@[e as int]) == "index"@));
            if text_assign(v, toks, e, hi) { index = Some(range_eq(v, toks[e + 2].lo, toks[e + 2].hi, "true")); } else { let err = field_error(input, v, toks, e, "static_config block"); proof { lemma_first_bad(ees, ok, i as int); lemma_static_config_error(err, v@, toks@, lo as int, hi as int, ees, ees[i as int]); } return Err(err); }
        } else if range_eq(v, toks[e].lo, toks[e].hi, "symlinks") {
            assert((tok_text(v@, toks@[e as int]) == "symlinks"@));
            if text_assign(v, toks, e, hi) { symlinks = Some(range_eq(v, toks[e + 2].lo, toks[e + 2].hi, "true")); } else { let err = field_error(input, v, toks, e, "static_config block"); proof { lemma_first_bad(ees, ok, i as int); lemma_static_config_error(err, v@, toks@, lo as int, hi as int, ees, ees[i as int]); } return Err(err); }
        } else if range_eq(v, toks[e].lo, toks[e].hi, "exclude_paths") {
            assert((tok_text(v@, toks@[e as int]) == "exclude_paths"@));
            if list_assign(v, toks, e, hi) { match list_of_texts(input, v, toks, e + 2) { Some(xs) => { exclude_paths = xs; }, None => { let err = field_error(input, v, toks, e, "static_config block"); proof { lemma_first_bad(ees, ok, i as int); lemma_static_config_error(err, v@, toks@, lo as int, hi as int, ees, ees[i as int]); } return Err(err); } } } else { let err = field_error(input, v, toks, e, "static_config block"); proof { lemma_first_bad(ees, ok, i as int); lemma_static_config_error(err, v@, toks@, lo as int, hi as int, ees, ees[i as int]); } return Err(err); }
        } else {
            { let err = field_error(input, v, toks, e, "static_config block"); proof { lemma_first_bad(ees, ok, i as int); lemma_static_config_error(err, v@, toks@, lo as int, hi as int, ees, ees[i as int]); } return Err(err); }
        }
        i = i + 1;
    }
    proof {
        lemma_first_bad(ees, ok, es.len() as int);
        assert(ees.take(es.len() as int) =~= ees);
    }

    Ok(StaticConfig { listing, dotfiles, index, symlinks, exclude_paths })
}

/// Whether the entry at `e` can stand in a `path` route block.
pub open spec fn route_entry_ok(s: Seq<char>, t: Seq<Token>, hi: int, e: int) -> bool {
    let k = tok_text(s, t[e]);
    ((k == "hosts"@) && is_list_assign(s, t, e, hi) && list_texts(s, t, e + 2) is Some)
    || ((k == "methods"@) && is_list_assign(s, t, e, hi) && list_texts(s, t, e + 2) is Some)
    || ((k == "protocols"@) && is_list_assign(s, t, e, hi) && list_texts(s, t, e + 2) is Some)
    || ((k == "backend"@) && is_value_assign(s, t, e, hi) && backend_call_ok(s, t, e + 2, hi))
    || ((k == "timeouts"@) && is_block_entry(s, t, e, hi, 0) && route_timeouts_ok(s, t, block_range(t, e, 0).0, block_range(t, e, 0).1))
    || ((k == "streaming"@) && is_block_entry(s, t, e, hi, 0) && streaming_ok(s, t, block_range(t, e, 0).0, block_range(t, e, 0).1))
    || ((k == "policies"@) && is_block_entry(s, t, e, hi, 0) && route_policies_ok(s, t, block_range(t, e, 0).0, block_range(t, e, 0).1))
    || ((k == "rewrite"@) && is_block_entry(s, t, e, hi, 0) && rewrite_ok(s, t, block_range(t, e, 0).0, block_range(t, e, 0).1))
    || ((k == "inbound_headers"@) && is_block_entry(s, t, e, hi, 0) && inbound_headers_ok(s, t, block_range(t, e, 0).0, block_range(t, e, 0).1))
    || ((k == "outbound_headers"@) && is_block_entry(s, t, e, hi, 0) && outbound_headers_ok(s, t, block_range(t, e, 0).0, block_range(t, e, 0).1))
    || ((k == "static_config"@) && is_block_entry(s, t, e, hi, 0) && static_config_ok(s, t, block_range(t, e, 0).0, block_range(t, e, 0).1))
}

/// The entries that can stand in a `path` route block whose tokens end at `hi`.
pub open spec fn route_entry(s: Seq<char>, t: Seq<Token>, hi: int) -> spec_fn(int) -> bool {
    |e: int| route_entry_ok(s, t, hi, e)
}

/// Whether the tokens from `lo` to `hi` read as a `path` route block.
pub open spec fn route_ok(s: Seq<char>, t: Seq<Token>, lo: int, hi: int) -> bool {
    spec_entries(s, t, lo, hi) matches Some(es) && spec_first_bad(es, route_entry(s, t, hi)) is None && (spec_last_key(s, t, es, "static_config"@) is Some ==> (spec_last_key(s, t, es, "backend"@) matches Some(b) && tok_text(s, t[b + 2]) == "static"@))
}

/// The error for an entry at `e` that cannot stand in a `path` route block.
pub open spec fn route_fault_is(err: ConfigError, s: Seq<char>, t: Seq<Token>, hi: int, e: int) -> bool {
    let k = tok_text(s, t[e]);
    if (k == "timeouts"@) {
        route_timeouts_entry_error_is(err, s, t, hi, e, "route"@)
    } else if (k == "streaming"@) {
        streaming_entry_error_is(err, s, t, hi, e, "route"@)
    } else if (k == "policies"@) {
        route_policies_entry_error_is(err, s, t, hi, e, "route"@)
    } else if (k == "rewrite"@) {
        rewrite_entry_error_is(err, s, t, hi, e, "route"@)
    } else if (k == "inbound_headers"@) {
        inbound_headers_entry_error_is(err, s, t, hi, e, "route"@)
    } else if (k == "outbound_headers"@) {
        outbound_headers_entry_error_is(err, s, t, hi, e, "route"@)
    } else if (k == "static_config"@) {
        static_config_entry_error_is(err, s, t, hi, e, "route"@)
    } else {
        is_syntax_error(err, "unexpected field '"@ + k + "' in "@ + "route"@, s, t[e].lo as int)
    }
}

/// The error that reading a `path` route block from `lo` to `hi` ends with, when it does not read.
#[verifier::opaque]
pub open spec fn route_error_is(err: ConfigError, s: Seq<char>, t: Seq<Token>, nt: int, lo: int, hi: int) -> bool {
    match spec_entries(s, t, lo, hi) {
        None => is_syntax_error(err, "syntax error in gateway file"@, s, tok_pos(s, t, lo)),
        Some(es) => match spec_first_bad(es, route_entry(s, t, hi)) {
            Some(e) => route_fault_is(err, s, t, hi, e),
            None => (if !(spec_last_key(s, t, es, "static_config"@) is Some ==> (spec_last_key(s, t, es, "backend"@) matches Some(b) && tok_text(s, t[b + 2]) == "static"@)) { is_read_error(err, "static_config requires a static backend in route '"@ + tok_text(s, t[nt]) + "'"@) } else { true }),
        },
    }
}

/// Whether `r` holds what a `path` route block from `lo` to `hi` sets: each field the value of
/// the last entry that sets it.
pub open spec fn route_is(r: RawPathRoute<'_>, s: Seq<char>, t: Seq<Token>, nt: int, lo: int, hi: int) -> bool {
    let es = match spec_entries(s, t, lo, hi) { Some(es) => es, None => Seq::empty() };
    r.path@ == tok_text(s, t[nt])
    && view_strs(r.hosts@) == list_field(s, t, spec_last_key(s, t, es, "hosts"@))
    && view_strs(r.methods@) == list_field(s, t, spec_last_key(s, t, es, "methods"@))
    && view_strs(r.protocols@) == list_field(s, t, spec_last_key(s, t, es, "protocols"@))
    && (match r.timeouts { Some(x) => spec_last_key(s, t, es, "timeouts"@) is Some && route_timeouts_is(x, s, t, block_range(t, spec_last_key(s, t, es, "timeouts"@)->0, 0).0, block_range(t, spec_last_key(s, t, es, "timeouts"@)->0, 0).1), None => spec_last_key(s, t, es, "timeouts"@) is None })
    && (match r.streaming { Some(x) => spec_last_key(s, t, es, "streaming"@) is Some && streaming_is(x, s, t, block_range(t, spec_last_key(s, t, es, "streaming"@)->0, 0).0, block_range(t, spec_last_key(s, t, es, "streaming"@)->0, 0).1), None => spec_last_key(s, t, es, "streaming"@) is None })
    && (match r.policies { Some(x) => spec_last_key(s, t, es, "policies"@) is Some && route_policies_is(x, s, t, block_range(t, spec_last_key(s, t, es, "policies"@)->0, 0).0, block_range(t, spec_last_key(s, t, es, "policies"@)->0, 0).1), None => spec_last_key(s, t, es, "policies"@) is None })
    && (match r.rewrite { Some(x) => spec_last_key(s, t, es, "rewrite"@) is Some && rewrite_is(x, s, t, block_range(t, spec_last_key(s, t, es, "rewrite"@)->0, 0).0, block_range(t, spec_last_key(s, t, es, "rewrite"@)->0, 0).1), None => spec_last_key(s, t, es, "rewrite"@) is None })
    && (match r.inbound_headers { Some(x) => spec_last_key(s, t, es, "inbound_headers"@) is Some && inbound_headers_is(x, s, t, block_range(t, spec_last_key(s, t, es, "inbound_headers"@)->0, 0).0, block_range(t, spec_last_key(s, t, es, "inbound_headers"@)->0, 0).1), None => spec_last_key(s, t, es, "inbound_headers"@) is None })
    && (match r.outbound_headers { Some(x) => spec_last_key(s, t, es, "outbound_headers"@) is Some && outbound_headers_is(x, s, t, block_range(t, spec_last_key(s, t, es, "outbound_headers"@)->0, 0).0, block_range(t, spec_last_key(s, t, es, "outbound_headers"@)->0, 0).1), None => spec_last_key(s, t, es, "outbound_headers"@) is None })
    && (match spec_last_key(s, t, es, "static_config"@) {
        None => backend_is(r.backend, s, t, spec_last_key(s, t, es, "backend"@)),
        Some(c) => r.backend matches RawBackend::Static(sb) && spec_last_key(s, t, es, "backend"@) matches Some(b)
            && sb.root@ == tok_text(s, t[b + 4]) && static_config_is(
            StaticConfig { listing: sb.flags.listing, dotfiles: sb.flags.dotfiles, index: sb.flags.index, symlinks: sb.flags.symlinks, exclude_paths: sb.exclude_paths },
            s, t, block_range(t, c, 0).0, block_range(t, c, 0).1),
    })
}

pub proof fn lemma_route_error(err: ConfigError, s: Seq<char>, t: Seq<Token>, nt: int, lo: int, hi: int, es: Seq<int>, e: int)
    requires
        spec_entries(s, t, lo, hi) == Some(es),
        spec_first_bad(es, route_entry(s, t, hi)) == Some(e),
        route_fault_is(err, s, t, hi, e),
    ensures
        route_error_is(err, s, t, nt, lo, hi),
{
    reveal(route_error_is);
}

/// Reads a `path` route block from the tokens `lo` to `hi`.
#[verifier::spinoff_prover]
#[verifier::rlimit(100)]
pub fn read_route<'a>(input: &'a str, v: &Vec<char>, toks: &Vec<Token>, nt: usize, lo: usize, hi: usize) -> (r: Result<RawPathRoute<'a>, ConfigError>)
    requires
        lo <= hi <= toks.len(),
        v@ == input@,
        v.len() < usize::MAX,
        tokens_in(v@, toks@),
        tokens_sorted(toks@),
        nt < toks.len(),
    ensures
        match r {
            Ok(b) => route_ok(v@, toks@, lo as int, hi as int) && route_is(b, v@, toks@, nt as int, lo as int, hi as int),
            Err(err) => !route_ok(v@, toks@, lo as int, hi as int) && route_error_is(err, v@, toks@, nt as int, lo as int, hi as int),
        },
{
    let es = match entries(v, toks, lo, hi) { Some(es) => es, None => { proof { reveal(route_error_is); } return Err(block_syntax_error(v, toks, lo, hi)); } };
    let ghost ees = es@.map_values(|e: usize| e as int);
    let ghost ok = route_entry(v@, toks@, hi as int);
    proof {
        lemma_entries_in(v@, toks@, lo as int, hi as int, ees);
        reveal_strlit(""); reveal_strlit("hosts"); reveal_strlit("methods"); reveal_strlit("protocols"); reveal_strlit("backend"); reveal_strlit("timeouts"); reveal_strlit("streaming"); reveal_strlit("policies"); reveal_strlit("rewrite"); reveal_strlit("inbound_headers"); reveal_strlit("outbound_headers"); reveal_strlit("static_config");
    }
    let mut hosts: Vec<&'a str> = Vec::new();
    let mut methods: Vec<&'a str> = Vec::new();
    let mut protocols: Vec<&'a str> = Vec::new();
    let mut backend: RawBackend<'a> = RawBackend::Upstream("");
    let mut timeouts: Option<RawRouteTimeouts> = None;
    let mut streaming: Option<RawStreaming> = None;
    let mut policies: Option<RawRoutePolicies<'a>> = None;
    let mut rewrite: Option<RawUriRewrite<'a>> = None;
    let mut inbound_headers: Option<RawRouteHeadersOpts<'a, RawHeadersOps<'a>>> = None;
    let mut outbound_headers: Option<RawRouteHeadersOpts<'a, RawHeadersRemove<'a>>> = None;
    let mut static_config: Option<StaticConfig<'a>> = None;
    proof { reveal_strlit(""); assert(""@.len() == 0); assert(""@ =~= Seq::<char>::empty()); assert(backend_is(backend, v@, toks@, None)); assert(ees.take(0) =~= Seq::<int>::empty()); }
    let mut i: usize = 0;
    while i < es.len()
        invariant
            i <= es.len(),
            lo <= hi <= toks.len(),
            v@ == input@,
            v.len() < usize::MAX,
            tokens_in(v@, toks@),
            tokens_sorted(toks@),
            ees == es@.map_values(|e: usize| e as int),
            spec_entries(v@, toks@, lo as int, hi as int) == Some(ees),
            forall|m: int| 0 <= m < es.len() ==> lo <= #[trigger] ees[m] < hi,
            ok == route_entry(v@, toks@, hi as int),
            forall|m: int| 0 <= m < i ==> ok(#[trigger] ees[m]),
            view_strs(hosts@) == list_field(v@, toks@, spec_last_key(v@, toks@, ees.take(i as int), "hosts"@)),
            view_strs(methods@) == list_field(v@, toks@, spec_last_key(v@, toks@, ees.take(i as int), "methods"@)),
            view_strs(protocols@) == list_field(v@, toks@, spec_last_key(v@, toks@, ees.take(i as int), "protocols"@)),
            backend_is(backend, v@, toks@, spec_last_key(v@, toks@, ees.take(i as int), "backend"@)),
            (match timeouts { Some(x) => spec_last_key(v@, toks@, ees.take(i as int), "timeouts"@) is Some && route_timeouts_is(x, v@, toks@, block_range(toks@, spec_last_key(v@, toks@, ees.take(i as int), "timeouts"@)->0, 0).0, block_range(toks@, spec_last_key(v@, toks@, ees.take(i as int), "timeouts"@)->0, 0).1), None => spec_last_key(v@, toks@, ees.take(i as int), "timeouts"@) is None }),
            (match streaming { Some(x) => spec_last_key(v@, toks@, ees.take(i as int), "streaming"@) is Some && streaming_is(x, v@, toks@, block_range(toks@, spec_last_key(v@, toks@, ees.take(i as int), "streaming"@)->0, 0).0, block_range(toks@, spec_last_key(v@, toks@, ees.take(i as int), "streaming"@)->0, 0).1), None => spec_last_key(v@, toks@, ees.take(i as int), "streaming"@) is None }),
            (match policies { Some(x) => spec_last_key(v@, toks@, ees.take(i as int), "policies"@) is Some && route_policies_is(x, v@, toks@, block_range(toks@, spec_last_key(v@, toks@, ees.take(i as int), "policies"@)->0, 0).0, block_range(toks@, spec_last_key(v@, toks@, ees.take(i as int), "policies"@)->0, 0).1), None => spec_last_key(v@, toks@, ees.take(i as int), "policies"@) is None }),
            (match rewrite { Some(x) => spec_last_key(v@, toks@, ees.take(i as int), "rewrite"@) is Some && rewrite_is(x, v@, toks@, block_range(toks@, spec_last_key(v@, toks@, ees.take(i as int), "rewrite"@)->0, 0).0, block_range(toks@, spec_last_key(v@, toks@, ees.take(i as int), "rewrite"@)->0, 0).1), None => spec_last_key(v@, toks@, ees.take(i as int), "rewrite"@) is None }),
            (match inbound_headers { Some(x) => spec_last_key(v@, toks@, ees.take(i as int), "inbound_headers"@) is Some && inbound_headers_is(x, v@, toks@, block_range(toks@, spec_last_key(v@, toks@, ees.take(i as int), "inbound_headers"@)->0, 0).0, block_range(toks@, spec_last_key(v@, toks@, ees.take(i as int), "inbound_headers"@)->0, 0).1), None => spec_last_key(v@, toks@, ees.take(i as int), "inbound_headers"@) is None }),
            (match outbound_headers { Some(x) => spec_last_key(v@, toks@, ees.take(i as int), "outbound_headers"@) is Some && outbound_headers_is(x, v@, toks@, block_range(toks@, spec_last_key(v@, toks@, ees.take(i as int), "outbound_headers"@)->0, 0).0, block_range(toks@, spec_last_key(v@, toks@, ees.take(i as int), "outbound_headers"@)->0, 0).1), None => spec_last_key(v@, toks@, ees.take(i as int), "outbound_headers"@) is None }),
            (match static_config { Some(x) => spec_last_key(v@, toks@, ees.take(i as int), "static_config"@) is Some && static_config_is(x, v@, toks@, block_range(toks@, spec_last_key(v@, toks@, ees.take(i as int), "static_config"@)->0, 0).0, block_range(toks@, spec_last_key(v@, toks@, ees.take(i as int), "static_config"@)->0, 0).1), None => spec_last_key(v@, toks@, ees.take(i as int), "static_config"@) is None }),
        decreases es.len() - i,
    {
        let e = es[i];
        assert(ees[i as int] == e as int);
        proof {
             reveal_strlit("hosts"); reveal_strlit("methods"); reveal_strlit("protocols"); reveal_strlit("backend"); reveal_strlit("timeouts"); reveal_strlit("streaming"); reveal_strlit("policies"); reveal_strlit("rewrite"); reveal_strlit("inbound_headers"); reveal_strlit("outbound_headers"); reveal_strlit("static_config"); reveal_strlit("true"); reveal_strlit("->"); reveal_strlit("extends");
            assert("hosts"@.len() == 5);
            assert("methods"@.len() == 7);
            assert("protocols"@.len() == 9);
            assert("backend"@.len() == 7);
            assert("timeouts"@.len() == 8);
            assert("streaming"@.len() == 9);
            assert("policies"@.len() == 8);
            assert("rewrite"@.len() == 7);
            assert("inbound_headers"@.len() == 15);
            assert("outbound_headers"@.len() == 16);
            assert("static_config"@.len() == 13);
            assert("methods"@[0] != "backend"@[0]);
            assert("methods"@[0] != "rewrite"@[0]);
            assert("protocols"@[0] != "streaming"@[0]);
            assert("backend"@[0] != "rewrite"@[0]);
            assert("timeouts"@[0] != "policies"@[0]);
            lemma_last_key_step(v@, toks@, ees, i as int, "hosts"@);
            lemma_last_key_step(v@, toks@, ees, i as int, "methods"@);
            lemma_last_key_step(v@, toks@, ees, i as int, "protocols"@);
            lemma_last_key_step(v@, toks@, ees, i as int, "backend"@);
            lemma_last_key_step(v@, toks@, ees, i as int, "timeouts"@);
            lemma_last_key_step(v@, toks@, ees, i as int, "streaming"@);
            lemma_last_key_step(v@, toks@, ees, i as int, "policies"@);
            lemma_last_key_step(v@, toks@, ees, i as int, "rewrite"@);
            lemma_last_key_step(v@, toks@, ees, i as int, "inbound_headers"@);
            lemma_last_key_step(v@, toks@, ees, i as int, "outbound_headers"@);
            lemma_last_key_step(v@, toks@, ees, i as int, "static_config"@);
        }
        if range_eq(v, toks[e].lo, toks[e].hi, "hosts") {
            assert((tok_text(v@, toks@[e as int]) == "hosts"@));
            if list_assign(v, toks, e, hi) { match list_of_texts(input, v, toks, e + 2) { Some(xs) => { hosts = xs; }, None => { let err = field_error(input, v, toks, e, "route"); proof { lemma_first_bad(ees, ok, i as int); lemma_route_error(err, v@, toks@, nt as int, lo as int, hi as int, ees, ees[i as int]); } return Err(err); } } } else { let err = field_error(input, v, toks, e, "route"); proof { lemma_first_bad(ees, ok, i as int); lemma_route_error(err, v@, toks@, nt as int, lo as int, hi as int, ees, ees[i as int]); } return Err(err); }
        } else if range_eq(v, toks[e].lo, toks[e].hi, "methods") {
            assert((tok_text(v@, toks@[e as int]) == "methods"@));
            if list_assign(v, toks, e, hi) { match list_of_texts(input, v, toks, e + 2) { Some(xs) => { methods = xs; }, None => { let err = field_error(input, v, toks, e, "route"); proof { lemma_first_bad(ees, ok, i as int); lemma_route_error(err, v@, toks@, nt as int, lo as int, hi as int, ees, ees[i as int]); } return Err(err); } } } else { let err = field_error(input, v, toks, e, "route"); proof { lemma_first_bad(ees, ok, i as int); lemma_route_error(err, v@, toks@, nt as int, lo as int, hi as int, ees, ees[i as int]); } return Err(err); }
        } else if range_eq(v, toks[e].lo, toks[e].hi, "protocols") {
            assert((tok_text(v@, toks@[e as int]) == "protocols"@));
            if list_assign(v, toks, e, hi) { match list_of_texts(input, v, toks, e + 2) { Some(xs) => { protocols = xs; }, None => { let err = field_error(input, v, toks, e, "route"); proof { lemma_first_bad(ees, ok, i as int); lemma_route_error(err, v@, toks@, nt as int, lo as int, hi as int, ees, ees[i as int]); } return Err(err); } } } else { let err = field_error(input, v, toks, e, "route"); proof { lemma_first_bad(ees, ok, i as int); lemma_route_error(err, v@, toks@, nt as int, lo as int, hi as int, ees, ees[i as int]); } return Err(err); }
        } else if range_eq(v, toks[e].lo, toks[e].hi, "backend") {
            assert((tok_text(v@, toks@[e as int]) == "backend"@));
            if value_assign(v, toks, e, hi) { match read_backend(input, v, toks, e + 2, hi) { Some(b) => { backend = b; }, None => { let err = field_error(input, v, toks, e, "route"); proof { lemma_first_bad(ees, ok, i as int); lemma_route_error(err, v@, toks@, nt as int, lo as int, hi as int, ees, ees[i as int]); } return Err(err); } } } else { let err = field_error(input, v, toks, e, "route"); proof { lemma_first_bad(ees, ok, i as int); lemma_route_error(err, v@, toks@, nt as int, lo as int, hi as int, ees, ees[i as int]); } return Err(err); }
        } else if range_eq(v, toks[e].lo, toks[e].hi, "timeouts") {
            assert((tok_text(v@, toks@[e as int]) == "timeouts"@));
            match read_route_timeouts_entry(input, v, toks, e, hi, "route") { Ok(x) => { timeouts = Some(x); }, Err(err) => { proof { lemma_first_bad(ees, ok, i as int); lemma_route_error(err, v@, toks@, nt as int, lo as int, hi as int, ees, ees[i as int]); } return Err(err); } }
        } else if range_eq(v, toks[e].lo, toks[e].hi, "streaming") {
            assert((tok_text(v@, toks@[e as int]) == "streaming"@));
            match read_streaming_entry(input, v, toks, e, hi, "route") { Ok(x) => { streaming = Some(x); }, Err(err) => { proof { lemma_first_bad(ees, ok, i as int); lemma_route_error(err, v@, toks@, nt as int, lo as int, hi as int, ees, ees[i as int]); } return Err(err); } }
        } else if range_eq(v, toks[e].lo, toks[e].hi, "policies") {
            assert((tok_text(v@, toks@[e as int]) == "policies"@));
            match read_route_policies_entry(input, v, toks, e, hi, "route") { Ok(x) => { policies = Some(x); }, Err(err) => { proof { lemma_first_bad(ees, ok, i as int); lemma_route_error(err, v@, toks@, nt as int, lo as int, hi as int, ees, ees[i as int]); } return Err(err); } }
        } else if range_eq(v, toks[e].lo, toks[e].hi, "rewrite") {
            assert((tok_text(v@, toks@[e as int]) == "rewrite"@));
            match read_rewrite_entry(input, v, toks, e, hi, "route") { Ok(x) => { rewrite = Some(x); }, Err(err) => { proof { lemma_first_bad(ees, ok, i as int); lemma_route_error(err, v@, toks@, nt as int, lo as int, hi as int, ees, ees[i as int]); } return Err(err); } }
        } else if range_eq(v, toks[e].lo, toks[e].hi, "inbound_headers") {
            assert((tok_text(v@, toks@[e as int]) == "inbound_headers"@));
            match read_inbound_headers_entry(input, v, toks, e, hi, "route") { Ok(x) => { inbound_headers = Some(x); }, Err(err) => { proof { lemma_first_bad(ees, ok, i as int); lemma_route_error(err, v@, toks@, nt as int, lo as int, hi as int, ees, ees[i as int]); } return Err(err); } }
        } else if range_eq(v, toks[e].lo, toks[e].hi, "outbound_headers") {
            assert((tok_text(v@, toks@[e as int]) == "outbound_headers"@));
            match read_outbound_headers_entry(input, v, toks, e, hi, "route") { Ok(x) => { outbound_headers = Some(x); }, Err(err) => { proof { lemma_first_bad(ees, ok, i as int); lemma_route_error(err, v@, toks@, nt as int, lo as int, hi as int, ees, ees[i as int]); } return Err(err); } }
        } else if range_eq(v, toks[e].lo, toks[e].hi, "static_config") {
            assert((tok_text(v@, toks@[e as int]) == "static_config"@));
            match read_static_config_entry(input, v, toks, e, hi, "route") { Ok(x) => { static_config = Some(x); }, Err(err) => { proof { lemma_first_bad(ees, ok, i as int); lemma_route_error(err, v@, toks@, nt as int, lo as int, hi as int, ees, ees[i as int]); } return Err(err); } }
        } else {
            { let err = field_error(input, v, toks, e, "route"); proof { lemma_first_bad(ees, ok, i as int); lemma_route_error(err, v@, toks@, nt as int, lo as int, hi as int, ees, ees[i as int]); } return Err(err); }
        }
        i = i + 1;
    }
    proof {
        lemma_first_bad(ees, ok, es.len() as int);
        assert(ees.take(es.len() as int) =~= ees);
    }
    proof {
        reveal_strlit("upstream");
        reveal_strlit("static");
        assert("upstream"@.len() == 8);
        assert("static"@.len() == 6);
    }
    let backend = match static_config {
        None => backend,
        Some(sc) => match backend {
            RawBackend::Static(sb) => RawBackend::Static(RawStaticBackend {
                root: sb.root,
                flags: RawStaticFlags { listing: sc.listing, dotfiles: sc.dotfiles, index: sc.index, symlinks: sc.symlinks },
                exclude_paths: sc.exclude_paths,
            }),
            RawBackend::Upstream(_) => {
                proof { reveal(route_error_is); }
                let mut m = "static_config requires a static backend in route '".to_owned();
                m.append(text_of(input, v, toks, nt));
                m.append("'");
                return Err(ConfigError::parse(m));
            },
        },
    };
    Ok(RawPathRoute { path: text_of(input, v, toks, nt), hosts, methods, protocols, backend, timeouts, streaming, policies, rewrite, inbound_headers, outbound_headers })
}

/// Whether the entry at `e` is a `path "name" { ... }` block that reads.
pub open spec fn routes_entry_ok(s: Seq<char>, t: Seq<Token>, hi: int, e: int) -> bool {
    tok_text(s, t[e]) == "path"@ && is_block_entry(s, t, e, hi, 1) && t[e + 1].kind == TokenKind::Str
        && route_ok(s, t, block_range(t, e, 1).0, block_range(t, e, 1).1)
}

pub open spec fn routes_entry(s: Seq<char>, t: Seq<Token>, hi: int) -> spec_fn(int) -> bool {
    |e: int| routes_entry_ok(s, t, hi, e)
}

/// Whether the tokens from `lo` to `hi` read as a `routes` block.
pub open spec fn routes_ok(s: Seq<char>, t: Seq<Token>, lo: int, hi: int) -> bool {
    spec_entries(s, t, lo, hi) matches Some(es) && spec_first_bad(es, routes_entry(s, t, hi)) is None
}

/// The error for an entry at `e` that cannot stand in a `routes` block.
pub open spec fn routes_fault_is(err: ConfigError, s: Seq<char>, t: Seq<Token>, hi: int, e: int) -> bool {
    if !(tok_text(s, t[e]) == "path"@ && is_block_entry(s, t, e, hi, 1) && t[e + 1].kind == TokenKind::Str) {
        is_syntax_error(err, "unexpected field '"@ + tok_text(s, t[e]) + "' in "@ + "routes block"@, s, t[e].lo as int)
    } else {
        route_error_is(err, s, t, e + 1, block_range(t, e, 1).0, block_range(t, e, 1).1)
    }
}

pub proof fn lemma_routes_error(err: ConfigError, s: Seq<char>, t: Seq<Token>, lo: int, hi: int, es: Seq<int>, e: int)
    requires
        spec_entries(s, t, lo, hi) == Some(es),
        spec_first_bad(es, routes_entry(s, t, hi)) == Some(e),
        routes_fault_is(err, s, t, hi, e),
    ensures
        routes_error_is(err, s, t, lo, hi),
{
    reveal(routes_error_is);
}

/// The error that reading a `routes` block from `lo` to `hi` ends with, when it does not read.
#[verifier::opaque]
pub open spec fn routes_error_is(err: ConfigError, s: Seq<char>, t: Seq<Token>, lo: int, hi: int) -> bool {
    match spec_entries(s, t, lo, hi) {
        None => is_syntax_error(err, "syntax error in gateway file"@, s, tok_pos(s, t, lo)),
        Some(es) => match spec_first_bad(es, routes_entry(s, t, hi)) {
            Some(e) => routes_fault_is(err, s, t, hi, e),
            None => true,
        },
    }
}

/// Whether `r` holds, in order, what the blocks of a `routes` block say.
pub open spec fn routes_is(r: Seq<RawRoute<'_>>, s: Seq<char>, t: Seq<Token>, lo: int, hi: int) -> bool {
    let es = match spec_entries(s, t, lo, hi) { Some(es) => es, None => Seq::empty() };
    r.len() == es.len() && forall|m: int| 0 <= m < es.len() ==> (match #[trigger] r[m] { RawRoute::Path(p) => route_is(p, s, t, es[m] + 1, block_range(t, es[m], 1).0, block_range(t, es[m], 1).1), _ => false })
}

/// Reads a `routes` block from the tokens `lo` to `hi`.
#[verifier::spinoff_prover]
#[verifier::rlimit(50)]
pub fn read_routes<'a>(input: &'a str, v: &Vec<char>, toks: &Vec<Token>, lo: usize, hi: usize) -> (r: Result<Vec<RawRoute<'a>>, ConfigError>)
    requires
        lo <= hi <= toks.len(),
        v@ == input@,
        v.len() < usize::MAX,
        tokens_in(v@, toks@),
        tokens_sorted(toks@),
    ensures
        match r {
            Ok(b) => routes_ok(v@, toks@, lo as int, hi as int) && routes_is(b@, v@, toks@, lo as int, hi as int),
            Err(err) => !routes_ok(v@, toks@, lo as int, hi as int) && routes_error_is(err, v@, toks@, lo as int, hi as int),
        },
{
    let es = match entries(v, toks, lo, hi) { Some(es) => es, None => { proof { reveal(routes_error_is); } return Err(block_syntax_error(v, toks, lo, hi)); } };
    let ghost ees = es@.map_values(|e: usize| e as int);
    let ghost ok = routes_entry(v@, toks@, hi as int);
    proof { lemma_entries_in(v@, toks@, lo as int, hi as int, ees); reveal_strlit("path"); }
    let mut out: Vec<RawRoute<'a>> = Vec::new();
    let mut i: usize = 0;
    while i < es.len()
        invariant
            i <= es.len(),
            lo <= hi <= toks.len(),
            v@ == input@,
            v.len() < usize::MAX,
            tokens_in(v@, toks@),
            tokens_sorted(toks@),
            ees == es@.map_values(|e: usize| e as int),
            spec_entries(v@, toks@, lo as int, hi as int) == Some(ees),
            forall|m: int| 0 <= m < es.len() ==> lo <= #[trigger] ees[m] < hi,
            ok == routes_entry(v@, toks@, hi as int),
            forall|m: int| 0 <= m < i ==> ok(#[trigger] ees[m]),
            out@.len() == i,
            forall|m: int| 0 <= m < i ==> (match #[trigger] out@[m] { RawRoute::Path(p) => route_is(p, v@, toks@, ees[m] + 1, block_range(toks@, ees[m], 1).0, block_range(toks@, ees[m], 1).1), _ => false }),
        decreases es.len() - i,
    {
        let e = es[i];
        assert(ees[i as int] == e as int);
        if !(range_eq(v, toks[e].lo, toks[e].hi, "path") && block_entry(v, toks, e, hi, 1) && toks[e + 1].kind == TokenKind::Str) {
            let err = field_error(input, v, toks, e, "routes block");
            proof { lemma_first_bad(ees, ok, i as int); lemma_routes_error(err, v@, toks@, lo as int, hi as int, ees, ees[i as int]); }
            return Err(err);
        }
        let c = match_bracket(toks, e + 2).unwrap();
        proof { lemma_match_after(toks@, e + 2); }
        match read_route(input, v, toks, e + 1, e + 3, c) {
            Ok(x) => { out.push(RawRoute::Path(x)); },
            Err(err) => { proof { lemma_first_bad(ees, ok, i as int); lemma_routes_error(err, v@, toks@, lo as int, hi as int, ees, ees[i as int]); } return Err(err); },
        }
        i = i + 1;
    }
    proof {
        lemma_first_bad(ees, ok, es.len() as int);
    }
    Ok(out)
}

/// The error for an entry at `e`, in a block named `block`, that cannot be
/// read as its `direction` block.
pub open spec fn direction_entry_error_is(err: ConfigError, s: Seq<char>, t: Seq<Token>, hi: int, e: int, block: Seq<char>) -> bool {
    if !is_block_entry(s, t, e, hi, 0) {
        is_syntax_error(err, "unexpected field '"@ + tok_text(s, t[e]) + "' in "@ + block, s, t[e].lo as int)
    } else {
        direction_error_is(err, s, t, block_range(t, e, 0).0, block_range(t, e, 0).1)
    }
}

/// Reads the block `key { ... }` at `e`, in a block named `block`.
pub fn read_direction_entry<'a>(input: &'a str, v: &Vec<char>, toks: &Vec<Token>, e: usize, hi: usize, block: &str) -> (r: Result<RawHeadersOps<'a>, ConfigError>)
    requires
        e < hi <= toks.len(),
        v@ == input@,
        v.len() < usize::MAX,
        tokens_in(v@, toks@),
        tokens_sorted(toks@),
    ensures
        match r {
            Ok(x) => is_block_entry(v@, toks@, e as int, hi as int, 0) && direction_ok(v@, toks@, block_range(toks@, e as int, 0).0, block_range(toks@, e as int, 0).1)
                && direction_is(x, v@, toks@, block_range(toks@, e as int, 0).0, block_range(toks@, e as int, 0).1),
            Err(err) => !(is_block_entry(v@, toks@, e as int, hi as int, 0) && direction_ok(v@, toks@, block_range(toks@, e as int, 0).0, block_range(toks@, e as int, 0).1))
                && direction_entry_error_is(err, v@, toks@, hi as int, e as int, block@),
        },
{
    if block_entry(v, toks, e, hi, 0) {
        let c = match_bracket(toks, e + 1).unwrap();
        proof {
            lemma_match_after(toks@, e + 1);
        }
        read_direction(input, v, toks, e + 2, c)
    } else {
        Err(field_error(input, v, toks, e, block))
    }
}

/// The error for an entry at `e`, in a block named `block`, that cannot be
/// read as its `inbound_headers` block.
pub open spec fn inbound_headers_entry_error_is(err: ConfigError, s: Seq<char>, t: Seq<Token>, hi: int, e: int, block: Seq<char>) -> bool {
    if !is_block_entry(s, t, e, hi, 0) {
        is_syntax_error(err, "unexpected field '"@ + tok_text(s, t[e]) + "' in "@ + block, s, t[e].lo as int)
    } else {
        inbound_headers_error_is(err, s, t, block_range(t, e, 0).0, block_range(t, e, 0).1)
    }
}

/// Reads the block `key { ... }` at `e`, in a block named `block`.
pub fn read_inbound_headers_entry<'a>(input: &'a str, v: &Vec<char>, toks: &Vec<Token>, e: usize, hi: usize, block: &str) -> (r: Result<RawRouteHeadersOpts<'a, RawHeadersOps<'a>>, ConfigError>)
    requires
        e < hi <= toks.len(),
        v@ == input@,
        v.len() < usize::MAX,
        tokens_in(v@, toks@),
        tokens_sorted(toks@),
    ensures
        match r {
            Ok(x) => is_block_entry(v@, toks@, e as int, hi as int, 0) && inbound_headers_ok(v@, toks@, block_range(toks@, e as int, 0).0, block_range(toks@, e as int, 0).1)
                && inbound_headers_is(x, v@, toks@, block_range(toks@, e as int, 0).0, block_range(toks@, e as int, 0).1),
            Err(err) => !(is_block_entry(v@, toks@, e as int, hi as int, 0) && inbound_headers_ok(v@, toks@, block_range(toks@, e as int, 0).0, block_range(toks@, e as int, 0).1))
                && inbound_headers_entry_error_is(err, v@, toks@, hi as int, e as int, block@),
        },
{
    if block_entry(v, toks, e, hi, 0) {
        let c = match_bracket(toks, e + 1).unwrap();
        proof {
            lemma_match_after(toks@, e + 1);
        }
        read_inbound_headers(input, v, toks, e + 2, c)
    } else {
        Err(field_error(input, v, toks, e, block))
    }
}

/// The error for an entry at `e`, in a block named `block`, that cannot be
/// read as its `inject` block.
pub open spec fn inject_entry_error_is(err: ConfigError, s: Seq<char>, t: Seq<Token>, hi: int, e: int, block: Seq<char>) -> bool {
    if !is_block_entry(s, t, e, hi, 0) {
        is_syntax_error(err, "unexpected field '"@ + tok_text(s, t[e]) + "' in "@ + block, s, t[e].lo as int)
    } else {
        inject_error_is(err, s, t, block_range(t, e, 0).0, block_range(t, e, 0).1)
    }
}

/// Reads the block `key { ... }` at `e`, in a block named `block`.
pub fn read_inject_entry<'a>(input: &'a str, v: &Vec<char>, toks: &Vec<Token>, e: usize, hi: usize, block: &str) -> (r: Result<RawInjectConfig<'a>, ConfigError>)
    requires
        e < hi <= toks.len(),
        v@ == input@,
        v.len() < usize::MAX,
        tokens_in(v@, toks@),
        tokens_sorted(toks@),
    ensures
        match r {
            Ok(x) => is_block_entry(v@, toks@, e as int, hi as int, 0) && inject_ok(v@, toks@, block_range(toks@, e as int, 0).0, block_range(toks@, e as int, 0).1)
                && inject_is(x, v@, toks@, block_range(toks@, e as int, 0).0, block_range(toks@, e as int, 0).1),
            Err(err) => !(is_block_entry(v@, toks@, e as int, hi as int, 0) && inject_ok(v@, toks@, block_range(toks@, e as int, 0).0, block_range(toks@, e as int, 0).1))
                && inject_entry_error_is(err, v@, toks@, hi as int, e as int, block@),
        },
{
    if block_entry(v, toks, e, hi, 0) {
        let c = match_bracket(toks, e + 1).unwrap();
        proof {
            lemma_match_after(toks@, e + 1);
        }
        read_inject(input, v, toks, e + 2, c)
    } else {
        Err(field_error(input, v, toks, e, block))
    }
}

/// The error for an entry at `e`, in a block named `block`, that cannot be
/// read as its `limits` block.
pub open spec fn limits_entry_error_is(err: ConfigError, s: Seq<char>, t: Seq<Token>, hi: int, e: int, block: Seq<char>) -> bool {
    if !is_block_entry(s, t, e, hi, 0) {
        is_syntax_error(err, "unexpected field '"@ + tok_text(s, t[e]) + "' in "@ + block, s, t[e].lo as int)
    } else {
        limits_error_is(err, s, t, block_range(t, e, 0).0, block_range(t, e, 0).1)
    }
}

/// Reads the block `key { ... }` at `e`, in a block named `block`.
pub fn read_limits_entry<'a>(input: &'a str, v: &Vec<char>, toks: &Vec<Token>, e: usize, hi: usize, block: &str) -> (r: Result<RawListenerLimits<'a>, ConfigError>)
    requires
        e < hi <= toks.len(),
        v@ == input@,
        v.len() < usize::MAX,
        tokens_in(v@, toks@),
        tokens_sorted(toks@),
    ensures
        match r {
            Ok(x) => is_block_entry(v@, toks@, e as int, hi as int, 0) && limits_ok(v@, toks@, block_range(toks@, e as int, 0).0, block_range(toks@, e as int, 0).1)
                && limits_is(x, v@, toks@, block_range(toks@, e as int, 0).0, block_range(toks@, e as int, 0).1),
            Err(err) => !(is_block_entry(v@, toks@, e as int, hi as int, 0) && limits_ok(v@, toks@, block_range(toks@, e as int, 0).0, block_range(toks@, e as int, 0).1))
                && limits_entry_error_is(err, v@, toks@, hi as int, e as int, block@),
        },
{
    if block_entry(v, toks, e, hi, 0) {
        let c = match_bracket(toks, e + 1).unwrap();
        proof {
            lemma_match_after(toks@, e + 1);
        }
        read_limits(input, v, toks, e + 2, c)
    } else {
        Err(field_error(input, v, toks, e, block))
    }
}

/// The error for an entry at `e`, in a block named `block`, that cannot be
/// read as its `listener_timeouts` block.
pub open spec fn listener_timeouts_entry_error_is(err: ConfigError, s: Seq<char>, t: Seq<Token>, hi: int, e: int, block: Seq<char>) -> bool {
    if !is_block_entry(s, t, e, hi, 0) {
        is_syntax_error(err, "unexpected field '"@ + tok_text(s, t[e]) + "' in "@ + block, s, t[e].lo as int)
    } else {
        listener_timeouts_error_is(err, s, t, block_range(t, e, 0).0, block_range(t, e, 0).1)
    }
}

/// Reads the block `key { ... }` at `e`, in a block named `block`.
pub fn read_listener_timeouts_entry<'a>(input: &'a str, v: &Vec<char>, toks: &Vec<Token>, e: usize, hi: usize, block: &str) -> (r: Result<RawListenerTimeouts, ConfigError>)
    requires
        e < hi <= toks.len(),
        v@ == input@,
        v.len() < usize::MAX,
        tokens_in(v@, toks@),
        tokens_sorted(toks@),
    ensures
        match r {
            Ok(x) => is_block_entry(v@, toks@, e as int, hi as int, 0) && listener_timeouts_ok(v@, toks@, block_range(toks@, e as int, 0).0, block_range(toks@, e as int, 0).1)
                && listener_timeouts_is(x, v@, toks@, block_range(toks@, e as int, 0).0, block_range(toks@, e as int, 0).1),
            Err(err) => !(is_block_entry(v@, toks@, e as int, hi as int, 0) && listener_timeouts_ok(v@, toks@, block_range(toks@, e as int, 0).0, block_range(toks@, e as int, 0).1))
                && listener_timeouts_entry_error_is(err, v@, toks@, hi as int, e as int, block@),
        },
{
    if block_entry(v, toks, e, hi, 0) {
        let c = match_bracket(toks, e + 1).unwrap();
        proof {
            lemma_match_after(toks@, e + 1);
        }
        read_listener_timeouts(input, v, toks, e + 2, c)
    } else {
        Err(field_error(input, v, toks, e, block))
    }
}

/// The error for an entry at `e`, in a block named `block`, that cannot be
/// read as its `network_policy` block.
pub open spec fn network_policy_entry_error_is(err: ConfigError, s: Seq<char>, t: Seq<Token>, hi: int, e: int, block: Seq<char>) -> bool {
    if !is_block_entry(s, t, e, hi, 0) {
        is_syntax_error(err, "unexpected field '"@ + tok_text(s, t[e]) + "' in "@ + block, s, t[e].lo as int)
    } else {
        network_policy_error_is(err, s, t, block_range(t, e, 0).0, block_range(t, e, 0).1)
    }
}

/// Reads the block `key { ... }` at `e`, in a block named `block`.
pub fn read_network_policy_entry<'a>(input: &'a str, v: &Vec<char>, toks: &Vec<Token>, e: usize, hi: usize, block: &str) -> (r: Result<RawNetworkPolicy<'a>, ConfigError>)
    requires
        e < hi <= toks.len(),
        v@ == input@,
        v.len() < usize::MAX,
        tokens_in(v@, toks@),
        tokens_sorted(toks@),
    ensures
        match r {
            Ok(x) => is_block_entry(v@, toks@, e as int, hi as int, 0) && network_policy_ok(v@, toks@, block_range(toks@, e as int, 0).0, block_range(toks@, e as int, 0).1)
                && network_policy_is(x, v@, toks@, block_range(toks@, e as int, 0).0, block_range(toks@, e as int, 0).1),
            Err(err) => !(is_block_entry(v@, toks@, e as int, hi as int, 0) && network_policy_ok(v@, toks@, block_range(toks@, e as int, 0).0, block_range(toks@, e as int, 0).1))
                && network_policy_entry_error_is(err, v@, toks@, hi as int, e as int, block@),
        },
{
    if block_entry(v, toks, e, hi, 0) {
        let c = match_bracket(toks, e + 1).unwrap();
        proof {
            lemma_match_after(toks@, e + 1);
        }
        read_network_policy(input, v, toks, e + 2, c)
    } else {
        Err(field_error(input, v, toks, e, block))
    }
}

/// The error for an entry at `e`, in a block named `block`, that cannot be
/// read as its `outbound_headers` block.
pub open spec fn outbound_headers_entry_error_is(err: ConfigError, s: Seq<char>, t: Seq<Token>, hi: int, e: int, block: Seq<char>) -> bool {
    if !is_block_entry(s, t, e, hi, 0) {
        is_syntax_error(err, "unexpected field '"@ + tok_text(s, t[e]) + "' in "@ + block, s, t[e].lo as int)
    } else {
        outbound_headers_error_is(err, s, t, block_range(t, e, 0).0, block_range(t, e, 0).1)
    }
}

/// Reads the block `key { ... }` at `e`, in a block named `block`.
pub fn read_outbound_headers_entry<'a>(input: &'a str, v: &Vec<char>, toks: &Vec<Token>, e: usize, hi: usize, block: &str) -> (r: Result<RawRouteHeadersOpts<'a, RawHeadersRemove<'a>>, ConfigError>)
    requires
        e < hi <= toks.len(),
        v@ == input@,
        v.len() < usize::MAX,
        tokens_in(v@, toks@),
        tokens_sorted(toks@),
    ensures
        match r {
            Ok(x) => is_block_entry(v@, toks@, e as int, hi as int, 0) && outbound_headers_ok(v@, toks@, block_range(toks@, e as int, 0).0, block_range(toks@, e as int, 0).1)
                && outbound_headers_is(x, v@, toks@, block_range(toks@, e as int, 0).0, block_range(toks@, e as int, 0).1),
            Err(err) => !(is_block_entry(v@, toks@, e as int, hi as int, 0) && outbound_headers_ok(v@, toks@, block_range(toks@, e as int, 0).0, block_range(toks@, e as int, 0).1))
                && outbound_headers_entry_error_is(err, v@, toks@, hi as int, e as int, block@),
        },
{
    if block_entry(v, toks, e, hi, 0) {
        let c = match_bracket(toks, e + 1).unwrap();
        proof {
            lemma_match_after(toks@, e + 1);
        }
        read_outbound_headers(input, v, toks, e + 2, c)
    } else {
        Err(field_error(input, v, toks, e, block))
    }
}

/// The error for an entry at `e`, in a block named `block`, that cannot be
/// read as its `refresh` block.
pub open spec fn refresh_entry_error_is(err: ConfigError, s: Seq<char>, t: Seq<Token>, hi: int, e: int, block: Seq<char>) -> bool {
    if !is_block_entry(s, t, e, hi, 0) {
        is_syntax_error(err, "unexpected field '"@ + tok_text(s, t[e]) + "' in "@ + block, s, t[e].lo as int)
    } else {
        refresh_error_is(err, s, t, block_range(t, e, 0).0, block_range(t, e, 0).1)
    }
}

/// Reads the block `key { ... }` at `e`, in a block named `block`.
pub fn read_refresh_entry<'a>(input: &'a str, v: &Vec<char>, toks: &Vec<Token>, e: usize, hi: usize, block: &str) -> (r: Result<RawRefreshConfig<'a>, ConfigError>)
    requires
        e < hi <= toks.len(),
        v@ == input@,
        v.len() < usize::MAX,
        tokens_in(v@, toks@),
        tokens_sorted(toks@),
    ensures
        match r {
            Ok(x) => is_block_entry(v@, toks@, e as int, hi as int, 0) && refresh_ok(v@, toks@, block_range(toks@, e as int, 0).0, block_range(toks@, e as int, 0).1)
                && refresh_is(x, v@, toks@, block_range(toks@, e as int, 0).0, block_range(toks@, e as int, 0).1),
            Err(err) => !(is_block_entry(v@, toks@, e as int, hi as int, 0) && refresh_ok(v@, toks@, block_range(toks@, e as int, 0).0, block_range(toks@, e as int, 0).1))
                && refresh_entry_error_is(err, v@, toks@, hi as int, e as int, block@),
        },
{
    if block_entry(v, toks, e, hi, 0) {
        let c = match_bracket(toks, e + 1).unwrap();
        proof {
            lemma_match_after(toks@, e + 1);
        }
        read_refresh(input, v, toks, e + 2, c)
    } else {
        Err(field_error(input, v, toks, e, block))
    }
}

/// The error for an entry at `e`, in a block named `block`, that cannot be
/// read as its `rewrite` block.
pub open spec fn rewrite_entry_error_is(err: ConfigError, s: Seq<char>, t: Seq<Token>, hi: int, e: int, block: Seq<char>) -> bool {
    if !is_block_entry(s, t, e, hi, 0) {
        is_syntax_error(err, "unexpected field '"@ + tok_text(s, t[e]) + "' in "@ + block, s, t[e].lo as int)
    } else {
        rewrite_error_is(err, s, t, block_range(t, e, 0).0, block_range(t, e, 0).1)
    }
}

/// Reads the block `key { ... }` at `e`, in a block named `block`.
pub fn read_rewrite_entry<'a>(input: &'a str, v: &Vec<char>, toks: &Vec<Token>, e: usize, hi: usize, block: &str) -> (r: Result<RawUriRewrite<'a>, ConfigError>)
    requires
        e < hi <= toks.len(),
        v@ == input@,
        v.len() < usize::MAX,
        tokens_in(v@, toks@),
        tokens_sorted(toks@),
    ensures
        match r {
            Ok(x) => is_block_entry(v@, toks@, e as int, hi as int, 0) && rewrite_ok(v@, toks@, block_range(toks@, e as int, 0).0, block_range(toks@, e as int, 0).1)
                && rewrite_is(x, v@, toks@, block_range(toks@, e as int, 0).0, block_range(toks@, e as int, 0).1),
            Err(err) => !(is_block_entry(v@, toks@, e as int, hi as int, 0) && rewrite_ok(v@, toks@, block_range(toks@, e as int, 0).0, block_range(toks@, e as int, 0).1))
                && rewrite_entry_error_is(err, v@, toks@, hi as int, e as int, block@),
        },
{
    if block_entry(v, toks, e, hi, 0) {
        let c = match_bracket(toks, e + 1).unwrap();
        proof {
            lemma_match_after(toks@, e + 1);
        }
        read_rewrite(input, v, toks, e + 2, c)
    } else {
        Err(field_error(input, v, toks, e, block))
    }
}

/// The error for an entry at `e`, in a block named `block`, that cannot be
/// read as its `route_policies` block.
pub open spec fn route_policies_entry_error_is(err: ConfigError, s: Seq<char>, t: Seq<Token>, hi: int, e: int, block: Seq<char>) -> bool {
    if !is_block_entry(s, t, e, hi, 0) {
        is_syntax_error(err, "unexpected field '"@ + tok_text(s, t[e]) + "' in "@ + block, s, t[e].lo as int)
    } else {
        route_policies_error_is(err, s, t, block_range(t, e, 0).0, block_range(t, e, 0).1)
    }
}

/// Reads the block `key { ... }` at `e`, in a block named `block`.
pub fn read_route_policies_entry<'a>(input: &'a str, v: &Vec<char>, toks: &Vec<Token>, e: usize, hi: usize, block: &str) -> (r: Result<RawRoutePolicies<'a>, ConfigError>)
    requires
        e < hi <= toks.len(),
        v@ == input@,
        v.len() < usize::MAX,
        tokens_in(v@, toks@),
        tokens_sorted(toks@),
    ensures
        match r {
            Ok(x) => is_block_entry(v@, toks@, e as int, hi as int, 0) && route_policies_ok(v@, toks@, block_range(toks@, e as int, 0).0, block_range(toks@, e as int, 0).1)
                && route_policies_is(x, v@, toks@, block_range(toks@, e as int, 0).0, block_range(toks@, e as int, 0).1),
            Err(err) => !(is_block_entry(v@, toks@, e as int, hi as int, 0) && route_policies_ok(v@, toks@, block_range(toks@, e as int, 0).0, block_range(toks@, e as int, 0).1))
                && route_policies_entry_error_is(err, v@, toks@, hi as int, e as int, block@),
        },
{
    if block_entry(v, toks, e, hi, 0) {
        let c = match_bracket(toks, e + 1).unwrap();
        proof {
            lemma_match_after(toks@, e + 1);
        }
        read_route_policies(input, v, toks, e + 2, c)
    } else {
        Err(field_error(input, v, toks, e, block))
    }
}

/// The error for an entry at `e`, in a block named `block`, that cannot be
/// read as its `route_timeouts` block.
pub open spec fn route_timeouts_entry_error_is(err: ConfigError, s: Seq<char>, t: Seq<Token>, hi: int, e: int, block: Seq<char>) -> bool {
    if !is_block_entry(s, t, e, hi, 0) {
        is_syntax_error(err, "unexpected field '"@ + tok_text(s, t[e]) + "' in "@ + block, s, t[e].lo as int)
    } else {
        route_timeouts_error_is(err, s, t, block_range(t, e, 0).0, block_range(t, e, 0).1)
    }
}

/// Reads the block `key { ... }` at `e`, in a block named `block`.
pub fn read_route_timeouts_entry<'a>(input: &'a str, v: &Vec<char>, toks: &Vec<Token>, e: usize, hi: usize, block: &str) -> (r: Result<RawRouteTimeouts, ConfigError>)
    requires
        e < hi <= toks.len(),
        v@ == input@,
        v.len() < usize::MAX,
        tokens_in(v@, toks@),
        tokens_sorted(toks@),
    ensures
        match r {
            Ok(x) => is_block_entry(v@, toks@, e as int, hi as int, 0) && route_timeouts_ok(v@, toks@, block_range(toks@, e as int, 0).0, block_range(toks@, e as int, 0).1)
                && route_timeouts_is(x, v@, toks@, block_range(toks@, e as int, 0).0, block_range(toks@, e as int, 0).1),
            Err(err) => !(is_block_entry(v@, toks@, e as int, hi as int, 0) && route_timeouts_ok(v@, toks@, block_range(toks@, e as int, 0).0, block_range(toks@, e as int, 0).1))
                && route_timeouts_entry_error_is(err, v@, toks@, hi as int, e as int, block@),
        },
{
    if block_entry(v, toks, e, hi, 0) {
        let c = match_bracket(toks, e + 1).unwrap();
        proof {
            lemma_match_after(toks@, e + 1);
        }
        read_route_timeouts(input, v, toks, e + 2, c)
    } else {
        Err(field_error(input, v, toks, e, block))
    }
}

/// The error for an entry at `e`, in a block named `block`, that cannot be
/// read as its `static_config` block.
pub open spec fn static_config_entry_error_is(err: ConfigError, s: Seq<char>, t: Seq<Token>, hi: int, e: int, block: Seq<char>) -> bool {
    if !is_block_entry(s, t, e, hi, 0) {
        is_syntax_error(err, "unexpected field '"@ + tok_text(s, t[e]) + "' in "@ + block, s, t[e].lo as int)
    } else {
        static_config_error_is(err, s, t, block_range(t, e, 0).0, block_range(t, e, 0).1)
    }
}

/// Reads the block `key { ... }` at `e`, in a block named `block`.
pub fn read_static_config_entry<'a>(input: &'a str, v: &Vec<char>, toks: &Vec<Token>, e: usize, hi: usize, block: &str) -> (r: Result<StaticConfig<'a>, ConfigError>)
    requires
        e < hi <= toks.len(),
        v@ == input@,
        v.len() < usize::MAX,
        tokens_in(v@, toks@),
        tokens_sorted(toks@),
    ensures
        match r {
            Ok(x) => is_block_entry(v@, toks@, e as int, hi as int, 0) && static_config_ok(v@, toks@, block_range(toks@, e as int, 0).0, block_range(toks@, e as int, 0).1)
                && static_config_is(x, v@, toks@, block_range(toks@, e as int, 0).0, block_range(toks@, e as int, 0).1),
            Err(err) => !(is_block_entry(v@, toks@, e as int, hi as int, 0) && static_config_ok(v@, toks@, block_range(toks@, e as int, 0).0, block_range(toks@, e as int, 0).1))
                && static_config_entry_error_is(err, v@, toks@, hi as int, e as int, block@),
        },
{
    if block_entry(v, toks, e, hi, 0) {
        let c = match_bracket(toks, e + 1).unwrap();
        proof {
            lemma_match_after(toks@, e + 1);
        }
        read_static_config(input, v, toks, e + 2, c)
    } else {
        Err(field_error(input, v, toks, e, block))
    }
}

/// The error for an entry at `e`, in a block named `block`, that cannot be
/// read as its `streaming` block.
pub open spec fn streaming_entry_error_is(err: ConfigError, s: Seq<char>, t: Seq<Token>, hi: int, e: int, block: Seq<char>) -> bool {
    if !is_block_entry(s, t, e, hi, 0) {
        is_syntax_error(err, "unexpected field '"@ + tok_text(s, t[e]) + "' in "@ + block, s, t[e].lo as int)
    } else {
        streaming_error_is(err, s, t, block_range(t, e, 0).0, block_range(t, e, 0).1)
    }
}

/// Reads the block `key { ... }` at `e`, in a block named `block`.
pub fn read_streaming_entry<'a>(input: &'a str, v: &Vec<char>, toks: &Vec<Token>, e: usize, hi: usize, block: &str) -> (r: Result<RawStreaming, ConfigError>)
    requires
        e < hi <= toks.len(),
        v@ == input@,
        v.len() < usize::MAX,
        tokens_in(v@, toks@),
        tokens_sorted(toks@),
    ensures
        match r {
            Ok(x) => is_block_entry(v@, toks@, e as int, hi as int, 0) && streaming_ok(v@, toks@, block_range(toks@, e as int, 0).0, block_range(toks@, e as int, 0).1)
                && streaming_is(x, v@, toks@, block_range(toks@, e as int, 0).0, block_range(toks@, e as int, 0).1),
            Err(err) => !(is_block_entry(v@, toks@, e as int, hi as int, 0) && streaming_ok(v@, toks@, block_range(toks@, e as int, 0).0, block_range(toks@, e as int, 0).1))
                && streaming_entry_error_is(err, v@, toks@, hi as int, e as int, block@),
        },
{
    if block_entry(v, toks, e, hi, 0) {
        let c = match_bracket(toks, e + 1).unwrap();
        proof {
            lemma_match_after(toks@, e + 1);
        }
        read_streaming(input, v, toks, e + 2, c)
    } else {
        Err(field_error(input, v, toks, e, block))
    }
}

/// The error for an entry at `e`, in a block named `block`, that cannot be
/// read as its `tls` block.
pub open spec fn tls_entry_error_is(err: ConfigError, s: Seq<char>, t: Seq<Token>, hi: int, e: int, block: Seq<char>) -> bool {
    if !is_block_entry(s, t, e, hi, 0) {
        is_syntax_error(err, "unexpected field '"@ + tok_text(s, t[e]) + "' in "@ + block, s, t[e].lo as int)
    } else {
        tls_error_is(err, s, t, block_range(t, e, 0).0, block_range(t, e, 0).1)
    }
}

/// Reads the block `key { ... }` at `e`, in a block named `block`.
pub fn read_tls_entry<'a>(input: &'a str, v: &Vec<char>, toks: &Vec<Token>, e: usize, hi: usize, block: &str) -> (r: Result<RawTls<'a>, ConfigError>)
    requires
        e < hi <= toks.len(),
        v@ == input@,
        v.len() < usize::MAX,
        tokens_in(v@, toks@),
        tokens_sorted(toks@),
    ensures
        match r {
            Ok(x) => is_block_entry(v@, toks@, e as int, hi as int, 0) && tls_ok(v@, toks@, block_range(toks@, e as int, 0).0, block_range(toks@, e as int, 0).1)
                && tls_is(x, v@, toks@, block_range(toks@, e as int, 0).0, block_range(toks@, e as int, 0).1),
            Err(err) => !(is_block_entry(v@, toks@, e as int, hi as int, 0) && tls_ok(v@, toks@, block_range(toks@, e as int, 0).0, block_range(toks@, e as int, 0).1))
                && tls_entry_error_is(err, v@, toks@, hi as int, e as int, block@),
        },
{
    if block_entry(v, toks, e, hi, 0) {
        let c = match_bracket(toks, e + 1).unwrap();
        proof {
            lemma_match_after(toks@, e + 1);
        }
        read_tls(input, v, toks, e + 2, c)
    } else {
        Err(field_error(input, v, toks, e, block))
    }
}

/// The removals that a `from_upstream` block from `lo` to `hi` lists.
pub open spec fn direction_remove(s: Seq<char>, t: Seq<Token>, lo: int, hi: int) -> Seq<Seq<char>> {
    let es = match spec_entries(s, t, lo, hi) {
        Some(es) => es,
        None => Seq::empty(),
    };
    list_field(s, t, spec_last_key(s, t, es, "remove"@))
}

// ============================================================================
// SERVERS
// ============================================================================

/// Whether the item at `i` of a server list closing at `c` is a server: a
/// string, or a server object.
pub open spec fn server_item_ok(s: Seq<char>, t: Seq<Token>, i: int, c: int) -> bool {
    ||| t[i].kind == TokenKind::Str && spec_value_end(s, t, i, c) == Some(i + 1)
    ||| is_punct_tok(t[i], '{') && (spec_value_end(s, t, i, c) matches Some(x) && server_object_ok(
        s,
        t,
        i + 1,
        x - 1,
    ))
}

/// `r` is the server that the item at `i` (a string or an object) says;
/// a string is a server of weight 1 with no protocol.
pub open spec fn server_item_is(r: RawUpstreamServer, s: Seq<char>, t: Seq<Token>, i: int, c: int) -> bool {
    if t[i].kind == TokenKind::Str {
        r.endpoint@ == tok_text(s, t[i]) && r.weight == 1 && r.protocol is None
    } else {
        (spec_value_end(s, t, i, c) matches Some(x) && server_object_is(r, s, t, i + 1, x - 1))
    }
}

/// Whether every item of a server list is a server.
pub open spec fn server_items_ok(s: Seq<char>, t: Seq<Token>, is: Seq<int>, c: int) -> bool {
    forall|m: int| 0 <= m < is.len() ==> server_item_ok(s, t, #[trigger] is[m], c)
}

/// Whether the value at `j` lists servers: a string, a server object, or a
/// list of those.
pub open spec fn servers_ok(s: Seq<char>, t: Seq<Token>, j: int, hi: int) -> bool {
    match spec_value_end(s, t, j, hi) {
        Some(x) => if x == j + 1 {
            t[j].kind == TokenKind::Str
        } else if is_punct_tok(t[j], '{') {
            server_object_ok(s, t, j + 1, x - 1)
        } else if is_punct_tok(t[j], '[') {
            match spec_items(s, t, j + 1, x - 1) {
                Some(is) => server_items_ok(s, t, is, x - 1),
                None => false,
            }
        } else {
            false
        },
        None => false,
    }
}

/// `r` holds the servers that the value at `j` lists, in order.
pub open spec fn servers_is(r: Seq<RawUpstreamServer>, s: Seq<char>, t: Seq<Token>, j: int, hi: int) -> bool {
    match spec_value_end(s, t, j, hi) {
        Some(x) => if x == j + 1 || is_punct_tok(t[j], '{') {
            r.len() == 1 && server_item_is(r[0], s, t, j, hi)
        } else {
            (spec_items(s, t, j + 1, x - 1) matches Some(is) && r.len() == is.len() && forall|m: int|
                0 <= m < is.len() ==> server_item_is(#[trigger] r[m], s, t, is[m], x - 1))
        },
        None => false,
    }
}

/// The error for an item at `i` of a server list closing at `c` that is no
/// server: that of its object, or an invalid server entry.
pub open spec fn server_item_error_is(err: ConfigError, s: Seq<char>, t: Seq<Token>, i: int, c: int) -> bool {
    if is_punct_tok(t[i], '{') && spec_value_end(s, t, i, c) is Some {
        server_object_error_is(err, s, t, i + 1, spec_value_end(s, t, i, c)->0 - 1)
    } else {
        is_read_error(
            err,
            "invalid server entry '"@ + match spec_value_end(s, t, i, c) {
                Some(x) => s.subrange(t[i].lo as int, t[x - 1].hi as int),
                None => tok_text(s, t[i]),
            } + "', expected a string or object"@,
        )
    }
}

pub open spec fn server_item(s: Seq<char>, t: Seq<Token>, c: int) -> spec_fn(int) -> bool {
    |i: int| server_item_ok(s, t, i, c)
}

/// The error for a value at `j` that does not list servers: a syntax error,
/// or the error of its first item that is no server.
pub open spec fn servers_error_is(err: ConfigError, s: Seq<char>, t: Seq<Token>, j: int, hi: int) -> bool {
    match spec_value_end(s, t, j, hi) {
        None => is_syntax_error(err, "syntax error in gateway file"@, s, tok_pos(s, t, j)),
        Some(x) => if x == j + 1 || is_punct_tok(t[j], '{') {
            server_item_error_is(err, s, t, j, hi)
        } else if !is_punct_tok(t[j], '[') {
            is_syntax_error(err, "syntax error in gateway file"@, s, tok_pos(s, t, j))
        } else {
            match spec_items(s, t, j + 1, x - 1) {
                None => is_syntax_error(err, "syntax error in gateway file"@, s, tok_pos(s, t, j)),
                Some(is) => match spec_first_bad(is, server_item(s, t, x - 1)) {
                    Some(i) => server_item_error_is(err, s, t, i, x - 1),
                    None => true,
                },
            }
        },
    }
}

fn read_server_item<'a>(input: &'a str, v: &Vec<char>, toks: &Vec<Token>, i: usize, c: usize) -> (r: Result<
    RawUpstreamServer<'a>,
    ConfigError,
>)
    requires
        i < c <= toks.len(),
        v@ == input@,
        v.len() < usize::MAX,
        tokens_in(v@, toks@),
        tokens_sorted(toks@),
    ensures
        match r {
            Ok(b) => server_item_ok(v@, toks@, i as int, c as int) && server_item_is(
                b,
                v@,
                toks@,
                i as int,
                c as int,
            ),
            Err(err) => !server_item_ok(v@, toks@, i as int, c as int) && server_item_error_is(
                err,
                v@,
                toks@,
                i as int,
                c as int,
            ),
        },
{
    let end = value_end(v, toks, i, c);
    if toks[i].kind == TokenKind::Str && end == Some(i + 1) {
        return Ok(RawUpstreamServer { endpoint: text_of(input, v, toks, i), weight: 1, protocol: None });
    }
    if toks[i].kind == TokenKind::Punct('{') {
        if let Some(x) = end {
            return read_server_object(input, v, toks, i + 1, x - 1);
        }
    }
    let text = match end {
        Some(x) => {
            assert(toks@[i as int].lo <= toks@[i as int].hi);
            if i < x - 1 {
                assert(toks@[i as int].hi <= toks@[x - 1].lo);
            }
            input.substring_char(toks[i].lo, toks[x - 1].hi)
        },
        None => text_of(input, v, toks, i),
    };
    let mut m = "invalid server entry '".to_owned();
    m.append(text);
    m.append("', expected a string or object");
    Err(ConfigError::parse(m))
}

/// Reads the servers that the value at `j` lists.
pub fn read_servers<'a>(input: &'a str, v: &Vec<char>, toks: &Vec<Token>, j: usize, hi: usize) -> (r:
    Result<Vec<RawUpstreamServer<'a>>, ConfigError>)
    requires
        j < hi <= toks.len(),
        v@ == input@,
        v.len() < usize::MAX,
        tokens_in(v@, toks@),
        tokens_sorted(toks@),
    ensures
        match r {
            Ok(b) => servers_ok(v@, toks@, j as int, hi as int) && servers_is(b@, v@, toks@, j as int, hi as int),
            Err(err) => !servers_ok(v@, toks@, j as int, hi as int) && servers_error_is(
                err,
                v@,
                toks@,
                j as int,
                hi as int,
            ),
        },
{
    let x = match value_end(v, toks, j, hi) {
        Some(x) => x,
        None => {
            return Err(block_syntax_error(v, toks, j, hi));
        },
    };
    if x == j + 1 || toks[j].kind == TokenKind::Punct('{') {
        let one = read_server_item(input, v, toks, j, hi)?;
        let mut out: Vec<RawUpstreamServer<'a>> = Vec::new();
        out.push(one);
        return Ok(out);
    }
    if toks[j].kind != TokenKind::Punct('[') {
        return Err(block_syntax_error(v, toks, j, hi));
    }
    let is = match items(v, toks, j + 1, x - 1) {
        Some(is) => is,
        None => {
            return Err(block_syntax_error(v, toks, j, hi));
        },
    };
    let ghost iseq = is@.map_values(|e: usize| e as int);
    proof {
        lemma_items_in(v@, toks@, j + 1, x - 1, iseq);
        assert forall|m: int| 0 <= m < is.len() implies j + 1 <= #[trigger] is@[m] < x - 1 by {
            assert(iseq[m] == is@[m] as int);
        }
    }
    let mut out: Vec<RawUpstreamServer<'a>> = Vec::new();
    let mut n: usize = 0;
    while n < is.len()
        invariant
            n <= is.len(),
            j < x - 1 < hi <= toks.len(),
            spec_value_end(v@, toks@, j as int, hi as int) == Some(x as int),
            x != j + 1,
            toks@[j as int].kind == TokenKind::Punct('['),
            v@ == input@,
            v.len() < usize::MAX,
            tokens_in(v@, toks@),
            tokens_sorted(toks@),
            iseq == is@.map_values(|e: usize| e as int),
            spec_items(v@, toks@, j + 1, x - 1) == Some(iseq),
            forall|m: int| 0 <= m < is.len() ==> j + 1 <= #[trigger] is@[m] < x - 1,
            out@.len() == n,
            forall|m: int| 0 <= m < n ==> server_item_ok(v@, toks@, #[trigger] iseq[m], x - 1),
            forall|m: int| 0 <= m < n ==> server_item_is(#[trigger] out@[m], v@, toks@, iseq[m], x - 1),
        decreases is.len() - n,
    {
        let i = is[n];
        assert(iseq[n as int] == i as int);
        match read_server_item(input, v, toks, i, x - 1) {
            Ok(b) => {
                out.push(b);
            },
            Err(err) => {
                proof {
                    assert(!server_item_ok(v@, toks@, iseq[n as int], x - 1));
                    assert(!server_items_ok(v@, toks@, iseq, x - 1));
                    let ok = server_item(v@, toks@, x - 1);
                    assert forall|m: int| 0 <= m < n implies ok(#[trigger] iseq[m]) by {
                        assert(server_item_ok(v@, toks@, iseq[m], x - 1));
                    }
                    lemma_first_bad(iseq, ok, n as int);
                }
                return Err(err);
            },
        }
        n = n + 1;
    }
    Ok(out)
}


// ============================================================================
// AUTHENTICATION PIECES
// ============================================================================

/// The fields of a token source block: the name (empty when unset) and the
/// prefix.
pub struct SourceFields<'a> {
    pub name: &'a str,
    pub prefix: Option<&'a str>,
}

/// The fields of an authentication `mode` block.
pub struct ModeFields<'a> {
    pub uri: Option<&'a str>,
    pub ttl: Option<Duration>,
    pub algorithms: Vec<&'a str>,
}

/// The token source that a `header`, `cookie` or `query` block names; a
/// block of any other kind names a header.
pub open spec fn source_of(tag: Seq<char>, f: SourceFields) -> RawTokenSource {
    if tag == "cookie"@ {
        RawTokenSource::Cookie { name: f.name, prefix: f.prefix }
    } else if tag == "query"@ {
        RawTokenSource::QueryParam { name: f.name, prefix: f.prefix }
    } else {
        RawTokenSource::Header { name: f.name, prefix: f.prefix }
    }
}

/// The name and prefix of a token source.
pub open spec fn source_parts(r: RawTokenSource) -> (&str, Option<&str>) {
    match r {
        RawTokenSource::Header { name, prefix } => (name, prefix),
        RawTokenSource::Cookie { name, prefix } => (name, prefix),
        RawTokenSource::QueryParam { name, prefix } => (name, prefix),
    }
}

/// Whether `r` is the source that the block entry at `e` names.
pub open spec fn source_is(r: RawTokenSource, s: Seq<char>, t: Seq<Token>, e: int) -> bool {
    let tag = tok_text(s, t[e]);
    &&& (tag == "cookie"@ ==> r is Cookie)
    &&& (tag == "query"@ ==> r is QueryParam)
    &&& (tag != "cookie"@ && tag != "query"@ ==> r is Header)
    &&& source_fields_is(
        SourceFields { name: source_parts(r).0, prefix: source_parts(r).1 },
        s,
        t,
        block_range(t, e, 0).0,
        block_range(t, e, 0).1,
    )
}

pub open spec fn sources_entry_ok(s: Seq<char>, t: Seq<Token>, hi: int, e: int) -> bool {
    is_block_entry(s, t, e, hi, 0) && source_fields_ok(s, t, block_range(t, e, 0).0, block_range(t, e, 0).1)
}

pub open spec fn sources_entry(s: Seq<char>, t: Seq<Token>, hi: int) -> spec_fn(int) -> bool {
    |e: int| sources_entry_ok(s, t, hi, e)
}

/// Whether the tokens from `lo` to `hi` read as a `sources` block: blocks
/// naming where a token is carried.
pub open spec fn sources_ok(s: Seq<char>, t: Seq<Token>, lo: int, hi: int) -> bool {
    spec_entries(s, t, lo, hi) matches Some(es) && spec_first_bad(es, sources_entry(s, t, hi)) is None
}

/// Whether `r` holds, in order, the sources that the entries `es` name.
pub open spec fn sources_all(r: Seq<RawTokenSource>, s: Seq<char>, t: Seq<Token>, es: Seq<int>) -> bool {
    r.len() == es.len() && forall|m: int| 0 <= m < es.len() ==> #[trigger] source_is(r[m], s, t, es[m])
}

/// Whether `r` holds, in order, the sources of the block from `lo` to `hi`.
pub open spec fn sources_is(r: Seq<RawTokenSource>, s: Seq<char>, t: Seq<Token>, lo: int, hi: int) -> bool {
    sources_all(
        r,
        s,
        t,
        match spec_entries(s, t, lo, hi) {
            Some(es) => es,
            None => Seq::empty(),
        },
    )
}

/// The error for a `sources` block from `lo` to `hi` that does not read: a
/// syntax error, or that of its first entry that does not read.
pub open spec fn sources_error_is(err: ConfigError, s: Seq<char>, t: Seq<Token>, lo: int, hi: int) -> bool {
    match spec_entries(s, t, lo, hi) {
        None => is_syntax_error(err, "syntax error in gateway file"@, s, tok_pos(s, t, lo)),
        Some(es) => match spec_first_bad(es, sources_entry(s, t, hi)) {
            Some(e) => if !is_block_entry(s, t, e, hi, 0) {
                is_syntax_error(err, "unexpected field '"@ + tok_text(s, t[e]) + "' in "@ + "sources block"@, s, t[e].lo as int)
            } else {
                source_fields_error_is(err, s, t, block_range(t, e, 0).0, block_range(t, e, 0).1)
            },
            None => true,
        },
    }
}

/// Reads a `sources` block.
#[verifier::spinoff_prover]
#[verifier::rlimit(50)]
pub fn read_sources<'a>(input: &'a str, v: &Vec<char>, toks: &Vec<Token>, lo: usize, hi: usize) -> (r:
    Result<Vec<RawTokenSource<'a>>, ConfigError>)
    requires
        lo <= hi <= toks.len(),
        v@ == input@,
        v.len() < usize::MAX,
        tokens_in(v@, toks@),
        tokens_sorted(toks@),
    ensures
        match r {
            Ok(b) => sources_ok(v@, toks@, lo as int, hi as int) && sources_is(b@, v@, toks@, lo as int, hi as int),
            Err(err) => !sources_ok(v@, toks@, lo as int, hi as int) && sources_error_is(err, v@, toks@, lo as int, hi as int),
        },
{
    let es = match entries(v, toks, lo, hi) {
        Some(es) => es,
        None => {
            return Err(block_syntax_error(v, toks, lo, hi));
        },
    };
    let ghost ees = es@.map_values(|e: usize| e as int);
    let ghost ok = sources_entry(v@, toks@, hi as int);
    proof {
        lemma_entries_in(v@, toks@, lo as int, hi as int, ees);
    }
    let mut out: Vec<RawTokenSource<'a>> = Vec::new();
    let mut i: usize = 0;
    while i < es.len()
        invariant
            i <= es.len(),
            lo <= hi <= toks.len(),
            v@ == input@,
            v.len() < usize::MAX,
            tokens_in(v@, toks@),
            tokens_sorted(toks@),
            ees == es@.map_values(|e: usize| e as int),
            spec_entries(v@, toks@, lo as int, hi as int) == Some(ees),
            forall|m: int| 0 <= m < es.len() ==> lo <= #[trigger] ees[m] < hi,
            ok == sources_entry(v@, toks@, hi as int),
            forall|m: int| 0 <= m < i ==> ok(#[trigger] ees[m]),
            out@.len() == i,
            forall|m: int| 0 <= m < i ==> #[trigger] source_is(out@[m], v@, toks@, ees[m]),
        decreases es.len() - i,
    {
        let e = es[i];
        assert(ees[i as int] == e as int);
        if !block_entry(v, toks, e, hi, 0) {
            proof {
                lemma_first_bad(ees, ok, i as int);
            }
            return Err(field_error(input, v, toks, e, "sources block"));
        }
        let c = match_bracket(toks, e + 1).unwrap();
        proof {
            lemma_match_after(toks@, e + 1);
            reveal_strlit("cookie");
            reveal_strlit("query");
            assert("cookie"@.len() == 6);
            assert("query"@.len() == 5);
        }
        match read_source_fields(input, v, toks, e + 2, c) {
            Ok(f) => {
                let src = if range_eq(v, toks[e].lo, toks[e].hi, "cookie") {
                    RawTokenSource::Cookie { name: f.name, prefix: f.prefix }
                } else if range_eq(v, toks[e].lo, toks[e].hi, "query") {
                    RawTokenSource::QueryParam { name: f.name, prefix: f.prefix }
                } else {
                    RawTokenSource::Header { name: f.name, prefix: f.prefix }
                };
                assert(SourceFields { name: source_parts(src).0, prefix: source_parts(src).1 } == f);
                assert(source_is(src, v@, toks@, e as int));
                out.push(src);
            },
            Err(err) => {
                proof {
                    lemma_first_bad(ees, ok, i as int);
                }
                return Err(err);
            },
        }
        i = i + 1;
    }
    proof {
        lemma_first_bad(ees, ok, es.len() as int);
    }
    Ok(out)
}

/// The method that a `mode "kind" { ... }` block names: `oidc` reads the
/// URI as the discovery URL; `jwks` and any other kind name JWKS.
pub open spec fn mode_is(r: RawAuthMode, s: Seq<char>, t: Seq<Token>, e: int) -> bool {
    let kind = tok_text(s, t[e + 1]);
    let lo = block_range(t, e, 1).0;
    let hi = block_range(t, e, 1).1;
    match r {
        RawAuthMode::Oidc { discovery_url, ttl } => kind == "oidc"@ && exists|f: ModeFields|
            #![trigger mode_fields_is(f, s, t, lo, hi)]
            mode_fields_is(f, s, t, lo, hi) && f.uri == discovery_url && f.ttl == ttl,
        RawAuthMode::Jwks { uri, ttl, algorithms } => kind != "oidc"@ && exists|f: ModeFields|
            #![trigger mode_fields_is(f, s, t, lo, hi)]
            mode_fields_is(f, s, t, lo, hi) && f.uri == uri && f.ttl == ttl && f.algorithms@
                == algorithms@,
        RawAuthMode::Static { .. } => false,
    }
}

/// Reads `mode "kind" { ... }` at entry `e`, whose braces close at `c`.
pub fn read_mode<'a>(input: &'a str, v: &Vec<char>, toks: &Vec<Token>, e: usize, c: usize) -> (r: Result<
    RawAuthMode<'a>,
    ConfigError,
>)
    requires
        e + 3 <= c <= toks.len(),
        v@ == input@,
        v.len() < usize::MAX,
        tokens_in(v@, toks@),
        tokens_sorted(toks@),
        block_range(toks@, e as int, 1) == (e + 3, c as int),
    ensures
        match r {
            Ok(m) => mode_fields_ok(v@, toks@, e + 3, c as int) && mode_is(m, v@, toks@, e as int),
            Err(err) => !mode_fields_ok(v@, toks@, e + 3, c as int) && mode_fields_error_is(err, v@, toks@, e + 3, c as int),
        },
{
    let f = read_mode_fields(input, v, toks, e + 3, c)?;
    proof {
        reveal_strlit("oidc");
    }
    let ghost g = f;
    assert(mode_fields_is(g, v@, toks@, e + 3, c as int));
    assert(mode_fields_is(g, v@, toks@, block_range(toks@, e as int, 1).0, block_range(toks@, e as int, 1).1));
    if range_eq(v, toks[e + 1].lo, toks[e + 1].hi, "oidc") {
        Ok(RawAuthMode::Oidc { discovery_url: f.uri, ttl: f.ttl })
    } else {
        Ok(RawAuthMode::Jwks { uri: f.uri, ttl: f.ttl, algorithms: f.algorithms })
    }
}

// ============================================================================
// INJECTION TARGETS
// ============================================================================

/// The name that a `header { name = ... }` target block gives.
pub struct HeaderTarget<'a> {
    pub name: &'a str,
}

/// Whether `r` is the target that the block entry at `e` names: a `header`
/// or a `cookie`.
pub open spec fn target_is(r: RawInjectTarget, s: Seq<char>, t: Seq<Token>, e: int) -> bool {
    let lo = block_range(t, e, 0).0;
    let hi = block_range(t, e, 0).1;
    match r {
        RawInjectTarget::Header { name } => tok_text(s, t[e]) == "header"@ && header_target_is(
            HeaderTarget { name },
            s,
            t,
            lo,
            hi,
        ),
        RawInjectTarget::Cookie(c) => tok_text(s, t[e]) == "cookie"@ && cookie_is(c, s, t, lo, hi),
    }
}

pub open spec fn targets_entry_ok(s: Seq<char>, t: Seq<Token>, hi: int, e: int) -> bool {
    &&& is_block_entry(s, t, e, hi, 0)
    &&& ((tok_text(s, t[e]) == "header"@ && header_target_ok(
        s,
        t,
        block_range(t, e, 0).0,
        block_range(t, e, 0).1,
    )) || (tok_text(s, t[e]) == "cookie"@ && cookie_ok(
        s,
        t,
        block_range(t, e, 0).0,
        block_range(t, e, 0).1,
    )))
}

pub open spec fn targets_entry(s: Seq<char>, t: Seq<Token>, hi: int) -> spec_fn(int) -> bool {
    |e: int| targets_entry_ok(s, t, hi, e)
}

/// Whether the tokens from `lo` to `hi` list injection targets.
pub open spec fn targets_ok(s: Seq<char>, t: Seq<Token>, lo: int, hi: int) -> bool {
    spec_entries(s, t, lo, hi) matches Some(es) && spec_first_bad(es, targets_entry(s, t, hi)) is None
}

/// Whether `r` holds, in order, the targets listed from `lo` to `hi`.
pub open spec fn targets_is(r: Seq<RawInjectTarget>, s: Seq<char>, t: Seq<Token>, lo: int, hi: int) -> bool {
    let es = match spec_entries(s, t, lo, hi) {
        Some(es) => es,
        None => Seq::empty(),
    };
    r.len() == es.len() && forall|m: int| 0 <= m < es.len() ==> #[trigger] target_is(r[m], s, t, es[m])
}

/// The error for a list of injection targets from `lo` to `hi` that does not
/// read: a syntax error, or that of its first entry that does not read.
pub open spec fn targets_error_is(err: ConfigError, s: Seq<char>, t: Seq<Token>, lo: int, hi: int) -> bool {
    match spec_entries(s, t, lo, hi) {
        None => is_syntax_error(err, "syntax error in gateway file"@, s, tok_pos(s, t, lo)),
        Some(es) => match spec_first_bad(es, targets_entry(s, t, hi)) {
            Some(e) => if is_block_entry(s, t, e, hi, 0) && tok_text(s, t[e]) == "header"@ {
                header_target_error_is(err, s, t, block_range(t, e, 0).0, block_range(t, e, 0).1)
            } else if is_block_entry(s, t, e, hi, 0) && tok_text(s, t[e]) == "cookie"@ {
                cookie_error_is(err, s, t, block_range(t, e, 0).0, block_range(t, e, 0).1)
            } else {
                is_syntax_error(err, "unexpected field '"@ + tok_text(s, t[e]) + "' in "@ + "inject block"@, s, t[e].lo as int)
            },
            None => true,
        },
    }
}

/// Reads a list of injection targets.
#[verifier::spinoff_prover]
#[verifier::rlimit(50)]
pub fn read_targets<'a>(input: &'a str, v: &Vec<char>, toks: &Vec<Token>, lo: usize, hi: usize) -> (r:
    Result<Vec<RawInjectTarget<'a>>, ConfigError>)
    requires
        lo <= hi <= toks.len(),
        v@ == input@,
        v.len() < usize::MAX,
        tokens_in(v@, toks@),
        tokens_sorted(toks@),
    ensures
        match r {
            Ok(b) => targets_ok(v@, toks@, lo as int, hi as int) && targets_is(b@, v@, toks@, lo as int, hi as int),
            Err(err) => !targets_ok(v@, toks@, lo as int, hi as int) && targets_error_is(err, v@, toks@, lo as int, hi as int),
        },
{
    let es = match entries(v, toks, lo, hi) {
        Some(es) => es,
        None => {
            return Err(block_syntax_error(v, toks, lo, hi));
        },
    };
    let ghost ees = es@.map_values(|e: usize| e as int);
    let ghost ok = targets_entry(v@, toks@, hi as int);
    proof {
        lemma_entries_in(v@, toks@, lo as int, hi as int, ees);
        reveal_strlit("header");
        reveal_strlit("cookie");
        assert("header"@.len() == 6);
        assert("cookie"@.len() == 6);
        assert("header"@[0] != "cookie"@[0]);
    }
    let mut out: Vec<RawInjectTarget<'a>> = Vec::new();
    let mut i: usize = 0;
    while i < es.len()
        invariant
            i <= es.len(),
            lo <= hi <= toks.len(),
            v@ == input@,
            v.len() < usize::MAX,
            tokens_in(v@, toks@),
            tokens_sorted(toks@),
            ees == es@.map_values(|e: usize| e as int),
            spec_entries(v@, toks@, lo as int, hi as int) == Some(ees),
            forall|m: int| 0 <= m < es.len() ==> lo <= #[trigger] ees[m] < hi,
            ok == targets_entry(v@, toks@, hi as int),
            forall|m: int| 0 <= m < i ==> ok(#[trigger] ees[m]),
            out@.len() == i,
            forall|m: int| 0 <= m < i ==> #[trigger] target_is(out@[m], v@, toks@, ees[m]),
            "header"@ != "cookie"@,
        decreases es.len() - i,
    {
        let e = es[i];
        assert(ees[i as int] == e as int);
        if !block_entry(v, toks, e, hi, 0) {
            proof {
                lemma_first_bad(ees, ok, i as int);
            }
            return Err(field_error(input, v, toks, e, "inject block"));
        }
        let c = match_bracket(toks, e + 1).unwrap();
        proof {
            lemma_match_after(toks@, e + 1);
        }
        if range_eq(v, toks[e].lo, toks[e].hi, "header") {
            match read_header_target(input, v, toks, e + 2, c) {
                Ok(h) => {
                    out.push(RawInjectTarget::Header { name: h.name });
                },
                Err(err) => {
                    proof {
                        lemma_first_bad(ees, ok, i as int);
                    }
                    return Err(err);
                },
            }
        } else if range_eq(v, toks[e].lo, toks[e].hi, "cookie") {
            match read_cookie(input, v, toks, e + 2, c) {
                Ok(ck) => {
                    out.push(RawInjectTarget::Cookie(ck));
                },
                Err(err) => {
                    proof {
                        lemma_first_bad(ees, ok, i as int);
                    }
                    return Err(err);
                },
            }
        } else {
            proof {
                lemma_first_bad(ees, ok, i as int);
            }
            return Err(field_error(input, v, toks, e, "inject block"));
        }
        i = i + 1;
    }
    proof {
        lemma_first_bad(ees, ok, es.len() as int);
    }
    Ok(out)
}

// ============================================================================
// ROUTE POLICY ACTIONS
// ============================================================================

/// Whether `a` is what the policy entry at `e` says: `auth = "name"` refers
/// to a named policy, `auth extends "base" { ... }` overrides one, and
/// `auth { ... }` is a policy of the route's own.
pub open spec fn auth_action_is(a: RawRouteAction<RawAuthConfig>, s: Seq<char>, t: Seq<Token>, e: int, hi: int) -> bool {
    match a {
        RawRouteAction::Ref(n) => is_text_assign(s, t, e, hi) && n@ == assign_text(s, t, e),
        RawRouteAction::Extends { base, overrides } => is_block_entry(s, t, e, hi, 2) && base@ == tok_text(
            s,
            t[e + 2],
        ) && auth_is(overrides, s, t, block_range(t, e, 2).0, block_range(t, e, 2).1),
        RawRouteAction::Inline(c) => is_block_entry(s, t, e, hi, 0) && auth_is(
            c,
            s,
            t,
            block_range(t, e, 0).0,
            block_range(t, e, 0).1,
        ),
    }
}

/// Whether `a` is what the policy entry at `e` says: `waf = "name"` refers
/// to a named policy, `waf extends "base" { ... }` overrides one, and
/// `waf { ... }` is a policy of the route's own.
pub open spec fn waf_action_is(a: RawRouteAction<RawWafConfig>, s: Seq<char>, t: Seq<Token>, e: int, hi: int) -> bool {
    match a {
        RawRouteAction::Ref(n) => is_text_assign(s, t, e, hi) && n@ == assign_text(s, t, e),
        RawRouteAction::Extends { base, overrides } => is_block_entry(s, t, e, hi, 2) && base@ == tok_text(
            s,
            t[e + 2],
        ) && waf_is(overrides, s, t, block_range(t, e, 2).0, block_range(t, e, 2).1),
        RawRouteAction::Inline(c) => is_block_entry(s, t, e, hi, 0) && waf_is(
            c,
            s,
            t,
            block_range(t, e, 0).0,
            block_range(t, e, 0).1,
        ),
    }
}

/// Whether `a` is what the policy entry at `e` says: `cors = "name"` refers
/// to a named policy, `cors extends "base" { ... }` overrides one, and
/// `cors { ... }` is a policy of the route's own.
pub open spec fn cors_action_is(a: RawRouteAction<RawCorsConfig>, s: Seq<char>, t: Seq<Token>, e: int, hi: int) -> bool {
    match a {
        RawRouteAction::Ref(n) => is_text_assign(s, t, e, hi) && n@ == assign_text(s, t, e),
        RawRouteAction::Extends { base, overrides } => is_block_entry(s, t, e, hi, 2) && base@ == tok_text(
            s,
            t[e + 2],
        ) && cors_is(overrides, s, t, block_range(t, e, 2).0, block_range(t, e, 2).1),
        RawRouteAction::Inline(c) => is_block_entry(s, t, e, hi, 0) && cors_is(
            c,
            s,
            t,
            block_range(t, e, 0).0,
            block_range(t, e, 0).1,
        ),
    }
}

/// Whether `a` is what the policy entry at `e` says: `limiter = "name"` refers
/// to a named policy, `limiter extends "base" { ... }` overrides one, and
/// `limiter { ... }` is a policy of the route's own.
pub open spec fn limiter_action_is(a: RawRouteAction<RawLimiterConfig>, s: Seq<char>, t: Seq<Token>, e: int, hi: int) -> bool {
    match a {
        RawRouteAction::Ref(n) => is_text_assign(s, t, e, hi) && n@ == assign_text(s, t, e),
        RawRouteAction::Extends { base, overrides } => is_block_entry(s, t, e, hi, 2) && base@ == tok_text(
            s,
            t[e + 2],
        ) && limiter_is(overrides, s, t, block_range(t, e, 2).0, block_range(t, e, 2).1),
        RawRouteAction::Inline(c) => is_block_entry(s, t, e, hi, 0) && limiter_is(
            c,
            s,
            t,
            block_range(t, e, 0).0,
            block_range(t, e, 0).1,
        ),
    }
}

/// Whether `a` is what the policy entry at `e` says: `helmet = "name"` refers
/// to a named policy, `helmet extends "base" { ... }` overrides one, and
/// `helmet { ... }` is a policy of the route's own.
pub open spec fn helmet_action_is(a: RawRouteAction<RawHelmetConfig>, s: Seq<char>, t: Seq<Token>, e: int, hi: int) -> bool {
    match a {
        RawRouteAction::Ref(n) => is_text_assign(s, t, e, hi) && n@ == assign_text(s, t, e),
        RawRouteAction::Extends { base, overrides } => is_block_entry(s, t, e, hi, 2) && base@ == tok_text(
            s,
            t[e + 2],
        ) && helmet_is(overrides, s, t, block_range(t, e, 2).0, block_range(t, e, 2).1),
        RawRouteAction::Inline(c) => is_block_entry(s, t, e, hi, 0) && helmet_is(
            c,
            s,
            t,
            block_range(t, e, 0).0,
            block_range(t, e, 0).1,
        ),
    }
}


// ============================================================================
// BACKENDS
// ============================================================================

/// Whether the value at `j` is `upstream("name")` or `static("root")`.
pub open spec fn backend_call_ok(s: Seq<char>, t: Seq<Token>, j: int, hi: int) -> bool {
    &&& spec_value_end(s, t, j, hi) == Some(j + 4)
    &&& t[j].kind == TokenKind::Word
    &&& (tok_text(s, t[j]) == "upstream"@ || tok_text(s, t[j]) == "static"@)
    &&& is_punct_tok(t[j + 1], '(')
    &&& t[j + 2].kind == TokenKind::Str
    &&& is_punct_tok(t[j + 3], ')')
}

/// Whether `b` is the backend that the entry `last` names, or, with no such
/// entry, the upstream with the empty name.
pub open spec fn backend_is(b: RawBackend, s: Seq<char>, t: Seq<Token>, last: Option<int>) -> bool {
    match last {
        None => b matches RawBackend::Upstream(n) && n@ == Seq::<char>::empty(),
        Some(e) => if tok_text(s, t[e + 2]) == "upstream"@ {
            b matches RawBackend::Upstream(n) && n@ == tok_text(s, t[e + 4])
        } else {
            &&& tok_text(s, t[e + 2]) == "static"@
            &&& b matches RawBackend::Static(sb) && sb.root@ == tok_text(s, t[e + 4]) && sb.flags
                == (RawStaticFlags { listing: None, dotfiles: None, index: None, symlinks: None })
                && sb.exclude_paths@.len() == 0
        },
    }
}

/// Reads `upstream("name")` or `static("root")` at `j`.
pub fn read_backend<'a>(input: &'a str, v: &Vec<char>, toks: &Vec<Token>, j: usize, hi: usize) -> (r:
    Option<RawBackend<'a>>)
    requires
        j < hi <= toks.len(),
        v@ == input@,
        tokens_in(v@, toks@),
    ensures
        match r {
            Some(b) => backend_call_ok(v@, toks@, j as int, hi as int) && backend_is(b, v@, toks@, Some(j - 2)),
            None => !backend_call_ok(v@, toks@, j as int, hi as int),
        },
{
    proof {
        reveal_strlit("upstream");
        reveal_strlit("static");
        assert("upstream"@.len() == 8);
        assert("static"@.len() == 6);
    }
    let shape = match value_end(v, toks, j, hi) {
        Some(e) => e - j == 4,
        None => false,
    };
    if !shape || toks[j].kind != TokenKind::Word || toks[j + 1].kind
        != TokenKind::Punct('(') || toks[j + 2].kind != TokenKind::Str || toks[j + 3].kind
        != TokenKind::Punct(')') {
        return None;
    }
    let arg = text_of(input, v, toks, j + 2);
    if range_eq(v, toks[j].lo, toks[j].hi, "upstream") {
        Some(RawBackend::Upstream(arg))
    } else if range_eq(v, toks[j].lo, toks[j].hi, "static") {
        Some(
            RawBackend::Static(
                RawStaticBackend {
                    root: arg,
                    flags: RawStaticFlags { listing: None, dotfiles: None, index: None, symlinks: None },
                    exclude_paths: Vec::new(),
                },
            ),
        )
    } else {
        None
    }
}

/// The settings of a `static_config` block.
pub struct StaticConfig<'a> {
    pub listing: Option<bool>,
    pub dotfiles: Option<bool>,
    pub index: Option<bool>,
    pub symlinks: Option<bool>,
    pub exclude_paths: Vec<&'a str>,
}

} // verus!
