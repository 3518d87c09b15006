//! Reading configuration text into raw blocks.
use std::time::Duration;
use vstd::prelude::*;
use vstd::string::StringExecFns;
use vstd::string::StrSliceExecFns;

use crate::text::{
    chars_of, ends_with, find_char, find_char_in, parse_unsigned, parse_unsigned_range,
    range_ends_with, range_eq, trim, trim_bounds, trim_char_bounds, trim_matches,
};
use crate::time::{duration_from_secs, spec_duration_from_secs};

use super::blocks::{RawGateway, RawListener, RawMaster, RawPolicy, RawRoute, RawUpstream, RawWorkers};
use super::errors::ConfigError;
use super::lexer::{lex, lex_from, tokenize, Token, TokenKind};
use super::read_blocks::{
    auth_error_is, auth_is, auth_ok, block_syntax_error, cors_error_is, cors_is, cors_ok,
    helmet_error_is, helmet_is, helmet_ok, limiter_error_is, limiter_is, limiter_ok,
    listeners_error_is, listeners_is, listeners_ok, read_auth, read_cors, read_helmet,
    read_limiter, read_listeners, read_routes, read_upstreams, read_waf, routes_error_is,
    routes_is, routes_ok, upstreams_error_is, upstreams_is, upstreams_ok, value_error,
    waf_error_is, waf_is, waf_ok,
};
use super::reader::{
    block_entry, block_range, is_block_entry, is_text_assign, lemma_first_bad, lemma_last_key_step,
    spec_first_bad, spec_last_key, text_assign, text_field, text_of,
};
use super::syntax::{
    entries, lemma_entries_in, lemma_match_after, match_bracket, spec_entries, tokens_in,
    tokens_sorted,
};

verus! {

// ============================================================================
// DURATIONS AND RATES
// ============================================================================

pub open spec fn spec_invalid_duration(t: Seq<char>) -> Seq<char> {
    "invalid duration '"@ + t + "'"@
}

pub open spec fn spec_duration_overflow(t: Seq<char>) -> Seq<char> {
    "duration overflow in '"@ + t + "'"@
}

/// `digits` (a count of units of `unit` milliseconds) in milliseconds; `t`
/// is the whole value, for the messages.
pub open spec fn spec_scaled_millis(t: Seq<char>, digits: Seq<char>, unit: int) -> Result<
    u64,
    Seq<char>,
> {
    match parse_unsigned(digits, u64::MAX as int) {
        Some(n) => if n * unit <= u64::MAX {
            Ok((n * unit) as u64)
        } else {
            Err(spec_duration_overflow(t))
        },
        None => Err(spec_invalid_duration(t)),
    }
}

/// A duration in milliseconds, from `100ms`, `5s`, `2m`, `1h`, or a bare
/// number of seconds; the value is trimmed first.
pub open spec fn spec_duration_millis(s: Seq<char>) -> Result<u64, Seq<char>> {
    let t = trim(s);
    if ends_with(t, "ms"@) {
        spec_scaled_millis(t, t.take(t.len() - 2), 1)
    } else if ends_with(t, "s"@) {
        spec_scaled_millis(t, t.take(t.len() - 1), 1000)
    } else if ends_with(t, "m"@) {
        spec_scaled_millis(t, t.take(t.len() - 1), 60_000)
    } else if ends_with(t, "h"@) {
        spec_scaled_millis(t, t.take(t.len() - 1), 3_600_000)
    } else {
        spec_scaled_millis(t, t, 1000)
    }
}

fn scaled_millis(s: &str, v: &Vec<char>, a: usize, b: usize, e: usize, unit: u64) -> (r: Result<
    u64,
    String,
>)
    requires
        a <= e <= b <= v.len(),
        v@ == s@,
        unit > 0,
    ensures
        match r {
            Ok(n) => spec_scaled_millis(
                v@.subrange(a as int, b as int),
                v@.subrange(a as int, e as int),
                unit as int,
            ) == Ok::<u64, Seq<char>>(n),
            Err(m) => spec_scaled_millis(
                v@.subrange(a as int, b as int),
                v@.subrange(a as int, e as int),
                unit as int,
            ) == Err::<u64, Seq<char>>(m@),
        },
{
    let t = s.substring_char(a, b);
    match parse_unsigned_range(v, a, e, u64::MAX) {
        Some(n) => {
            if n > u64::MAX / unit {
                proof {
                    assert(n * unit > u64::MAX) by (nonlinear_arith)
                        requires
                            n > u64::MAX / unit,
                            unit > 0,
                    ;
                }
                let mut m = "duration overflow in '".to_owned();
                m.append(t);
                m.append("'");
                Err(m)
            } else {
                proof {
                    assert(n * unit <= u64::MAX) by (nonlinear_arith)
                        requires
                            n <= u64::MAX / unit,
                            unit > 0,
                    ;
                }
                Ok(n * unit)
            }
        },
        None => {
            let mut m = "invalid duration '".to_owned();
            m.append(t);
            m.append("'");
            Err(m)
        },
    }
}

/// Reads a duration as a number of milliseconds: `100ms`, `5s`, `2m`, `1h`,
/// or a bare number of seconds.
pub fn parse_duration_millis(s: &str) -> (r: Result<u64, String>)
    ensures
        match r {
            Ok(n) => spec_duration_millis(s@) == Ok::<u64, Seq<char>>(n),
            Err(m) => spec_duration_millis(s@) == Err::<u64, Seq<char>>(m@),
        },
{
    let v = chars_of(s);
    let (a, b) = trim_bounds(&v, 0, v.len());
    let ghost t = v@.subrange(a as int, b as int);
    assert(v@.subrange(0, v.len() as int) =~= s@);
    if range_ends_with(&v, a, b, "ms") {
        proof {
            reveal_strlit("ms");
            assert(t.take(t.len() - 2) =~= v@.subrange(a as int, b - 2));
        }
        scaled_millis(s, &v, a, b, b - 2, 1)
    } else if range_ends_with(&v, a, b, "s") {
        proof {
            reveal_strlit("s");
            assert(t.take(t.len() - 1) =~= v@.subrange(a as int, b - 1));
        }
        scaled_millis(s, &v, a, b, b - 1, 1000)
    } else if range_ends_with(&v, a, b, "m") {
        proof {
            reveal_strlit("m");
            assert(t.take(t.len() - 1) =~= v@.subrange(a as int, b - 1));
        }
        scaled_millis(s, &v, a, b, b - 1, 60_000)
    } else if range_ends_with(&v, a, b, "h") {
        proof {
            reveal_strlit("h");
            assert(t.take(t.len() - 1) =~= v@.subrange(a as int, b - 1));
        }
        scaled_millis(s, &v, a, b, b - 1, 3_600_000)
    } else {
        scaled_millis(s, &v, a, b, b, 1000)
    }
}

/// The number of seconds in a rate period: `s`, `m`, `h` or `d`.
pub open spec fn spec_period_secs(p: Seq<char>) -> Option<u64> {
    if p == "s"@ {
        Some(1)
    } else if p == "m"@ {
        Some(60)
    } else if p == "h"@ {
        Some(3600)
    } else if p == "d"@ {
        Some(86400)
    } else {
        None
    }
}

/// A rate `N/period`, as the number of requests and the period in seconds;
/// the value is trimmed first, the period on its own too.
pub open spec fn spec_rate(s: Seq<char>) -> Result<(u64, u64), Seq<char>> {
    let t = trim(s);
    match find_char(t, '/') {
        None => Err("invalid rate format '"@ + t + "': expected N/s, N/m, N/h, or N/d"@),
        Some(i) => {
            let num = t.take(i);
            let period = t.skip(i + 1);
            match parse_unsigned(num, u64::MAX as int) {
                None => Err("invalid rate number '"@ + num + "' in '"@ + t + "'"@),
                Some(n) => match spec_period_secs(trim(period)) {
                    Some(p) => Ok((n as u64, p)),
                    None => Err("invalid rate period '"@ + period + "' in '"@ + t + "'"@),
                },
            }
        },
    }
}

/// Reads a rate `N/s`, `N/m`, `N/h` or `N/d`: the number of requests and the
/// period they are counted over.
pub fn parse_rate(s: &str) -> (r: Result<(u64, Duration), String>)
    ensures
        match r {
            Ok((n, d)) => exists|p: u64|
                spec_rate(s@) == Ok::<(u64, u64), Seq<char>>((n, p)) && d
                    == spec_duration_from_secs(p),
            Err(m) => spec_rate(s@) == Err::<(u64, u64), Seq<char>>(m@),
        },
{
    let v = chars_of(s);
    let (a, b) = trim_bounds(&v, 0, v.len());
    assert(v@.subrange(0, v.len() as int) =~= s@);
    let ghost t = v@.subrange(a as int, b as int);
    let ts = s.substring_char(a, b);
    match find_char_in(&v, a, b, '/') {
        None => {
            let mut m = "invalid rate format '".to_owned();
            m.append(ts);
            m.append("': expected N/s, N/m, N/h, or N/d");
            Err(m)
        },
        Some(i) => {
            proof {
                crate::text::lemma_find_char_props(t, '/');
                assert(t.take(i as int) =~= v@.subrange(a as int, a + i));
                assert(t.skip(i + 1) =~= v@.subrange(a + i + 1, b as int));
            }
            let slash = a + i;
            match parse_unsigned_range(&v, a, slash, u64::MAX) {
                None => {
                    let mut m = "invalid rate number '".to_owned();
                    m.append(s.substring_char(a, slash));
                    m.append("' in '");
                    m.append(ts);
                    m.append("'");
                    Err(m)
                },
                Some(n) => {
                    let (pa, pb) = trim_bounds(&v, slash + 1, b);
                    let secs: u64 = if range_eq(&v, pa, pb, "s") {
                        1
                    } else if range_eq(&v, pa, pb, "m") {
                        60
                    } else if range_eq(&v, pa, pb, "h") {
                        3600
                    } else if range_eq(&v, pa, pb, "d") {
                        86400
                    } else {
                        let mut m = "invalid rate period '".to_owned();
                        m.append(s.substring_char(slash + 1, b));
                        m.append("' in '");
                        m.append(ts);
                        m.append("'");
                        return Err(m);
                    };
                    let d = duration_from_secs(secs);
                    Ok((n, d))
                },
            }
        },
    }
}

// ============================================================================
// COMMA-SEPARATED VALUES
// ============================================================================

/// One piece of a comma-separated value: trimmed, and inside brackets also
/// without surrounding quotes; empty pieces are dropped.
pub open spec fn spec_csv_piece(p: Seq<char>, bracketed: bool) -> Seq<Seq<char>> {
    let q = if bracketed {
        trim_matches(trim_matches(trim(p), '"'), '\'')
    } else {
        trim(p)
    };
    if q.len() > 0 {
        seq![q]
    } else {
        Seq::empty()
    }
}

/// The pieces of `x` between commas, each as `spec_csv_piece` makes it.
pub open spec fn spec_csv_pieces(x: Seq<char>, bracketed: bool) -> Seq<Seq<char>>
    decreases x.len(),
{
    match find_char(x, ',') {
        Some(i) => if 0 <= i < x.len() {
            spec_csv_piece(x.take(i), bracketed) + spec_csv_pieces(x.skip(i + 1), bracketed)
        } else {
            Seq::empty()
        },
        None => spec_csv_piece(x, bracketed),
    }
}

/// The values of a list written `[a, "b", 'c']` or `a, b, c`: the text is
/// trimmed; inside brackets each value also loses its quotes.
pub open spec fn spec_csv_values(s: Seq<char>) -> Seq<Seq<char>> {
    let t = trim(s);
    if t.len() >= 2 && t[0] == '[' && t.last() == ']' {
        spec_csv_pieces(t.subrange(1, t.len() - 1), true)
    } else {
        spec_csv_pieces(t, false)
    }
}

/// Appends the piece `v[lo..hi]` of `s` to `out` unless it is empty once cleaned.
fn push_csv_piece<'a>(s: &'a str, v: &Vec<char>, lo: usize, hi: usize, bracketed: bool, out: &mut Vec<
    &'a str,
>)
    requires
        lo <= hi <= v.len(),
        v@ == s@,
    ensures
        view_strs(final(out)@) == view_strs(old(out)@) + spec_csv_piece(
            v@.subrange(lo as int, hi as int),
            bracketed,
        ),
{
    let (a, b) = trim_bounds(v, lo, hi);
    let (a, b) = if bracketed {
        let (c, d) = trim_char_bounds(v, a, b, '"');
        trim_char_bounds(v, c, d, '\'')
    } else {
        (a, b)
    };
    if a < b {
        let x = s.substring_char(a, b);
        let ghost before = out@;
        out.push(x);
        assert(view_strs(out@) =~= view_strs(before) + seq![x@]);
    } else {
        assert(view_strs(out@) =~= view_strs(out@) + Seq::<Seq<char>>::empty());
    }
}

/// The values of a list written `[a, "b", 'c']` or `a, b, c`.
pub fn split_csv_values<'a>(s: &'a str) -> (r: Vec<&'a str>)
    ensures
        view_strs(r@) == spec_csv_values(s@),
{
    let v = chars_of(s);
    let (a, b) = trim_bounds(&v, 0, v.len());
    assert(v@.subrange(0, v.len() as int) =~= s@);
    let ghost t = v@.subrange(a as int, b as int);
    let bracketed = b - a >= 2 && v[a] == '[' && v[b - 1] == ']';
    let (lo, hi) = if bracketed {
        assert(t.subrange(1, t.len() - 1) =~= v@.subrange(a + 1, b - 1));
        (a + 1, b - 1)
    } else {
        (a, b)
    };
    let ghost whole = v@.subrange(lo as int, hi as int);
    proof {
        assert(t == trim(s@));
        if t.len() >= 2 {
            assert(t[0] == v@[a as int]);
            assert(t.last() == v@[b - 1]);
        }
        if !bracketed {
            assert(whole =~= t);
        }
        assert(spec_csv_values(s@) == spec_csv_pieces(whole, bracketed));
    }
    let mut out: Vec<&'a str> = Vec::new();
    let mut pos = lo;
    assert(v@.subrange(pos as int, hi as int) =~= whole);
    assert(view_strs(out@) =~= Seq::<Seq<char>>::empty());
    while pos <= hi
        invariant
            v@ == s@,
            lo <= pos <= hi <= v.len(),
            spec_csv_values(s@) == spec_csv_pieces(whole, bracketed),
            spec_csv_pieces(whole, bracketed) == view_strs(out@) + spec_csv_pieces(
                v@.subrange(pos as int, hi as int),
                bracketed,
            ),
        decreases hi - pos,
    {
        let ghost x = v@.subrange(pos as int, hi as int);
        match find_char_in(&v, pos, hi, ',') {
            Some(i) => {
                proof {
                    crate::text::lemma_find_char_props(x, ',');
                    assert(x.take(i as int) =~= v@.subrange(pos as int, pos + i));
                    assert(x.skip(i + 1) =~= v@.subrange(pos + i + 1, hi as int));
                }
                let ghost before = view_strs(out@);
                push_csv_piece(s, &v, pos, pos + i, bracketed, &mut out);
                assert(view_strs(out@) + spec_csv_pieces(v@.subrange(pos + i + 1, hi as int), bracketed)
                    =~= before + spec_csv_pieces(x, bracketed));
                pos = pos + i + 1;
            },
            None => {
                let ghost before = view_strs(out@);
                push_csv_piece(s, &v, pos, hi, bracketed, &mut out);
                assert(view_strs(out@) =~= before + spec_csv_pieces(x, bracketed));
                assert(spec_csv_pieces(whole, bracketed) == view_strs(out@));
                return out;
            },
        }
    }
    out
}

// ============================================================================
// POSITIONS
// ============================================================================

/// The line and column (both from 1) of position `p` in `s`.
pub open spec fn spec_line_col(s: Seq<char>, p: int) -> (int, int)
    decreases p,
{
    if p <= 0 || p > s.len() {
        (1, 1)
    } else {
        let (l, c) = spec_line_col(s, p - 1);
        if s[p - 1] == '\n' {
            (l + 1, 1)
        } else {
            (l, c + 1)
        }
    }
}

/// The line and column (both from 1) of position `p` in `v`.
pub fn line_col(v: &Vec<char>, p: usize) -> (r: (usize, usize))
    requires
        p <= v.len() < usize::MAX,
    ensures
        (r.0 as int, r.1 as int) == spec_line_col(v@, p as int),
{
    let mut l: usize = 1;
    let mut c: usize = 1;
    let mut i: usize = 0;
    while i < p
        invariant
            i <= p <= v.len() < usize::MAX,
            (l as int, c as int) == spec_line_col(v@, i as int),
            1 <= l <= i + 1,
            1 <= c <= i + 1,
        decreases p - i,
    {
        if v[i] == '\n' {
            l = l + 1;
            c = 1;
        } else {
            c = c + 1;
        }
        i = i + 1;
    }
    (l, c)
}

// ============================================================================
// MASTER FILE
// ============================================================================

/// A master block, as text.
pub struct MasterText {
    pub name: Seq<char>,
    pub user: Seq<char>,
    pub workers: RawWorkers,
    pub pid: Seq<char>,
    pub error_log: Seq<char>,
    pub includes: Seq<Seq<char>>,
}

/// Why a master file is refused.
pub enum MasterIssue {
    /// A string opened at `at` is never closed.
    Unclosed { at: int },
    /// The token at `at` (or the end of the text) is not what the language expects there.
    Syntax { at: int },
    /// `key`, at `at`, is not a field of the master block.
    UnknownField { key: Seq<char>, at: int },
    /// `value` is neither `auto` nor a worker count.
    BadWorkers { value: Seq<char> },
}

pub open spec fn tok_text(s: Seq<char>, t: Token) -> Seq<char> {
    s.subrange(t.lo as int, t.hi as int)
}

/// Where token `k` starts, or the end of the text when there is none.
pub open spec fn tok_pos(s: Seq<char>, t: Seq<Token>, k: int) -> int {
    if 0 <= k < t.len() {
        t[k].lo as int
    } else {
        s.len() as int
    }
}

pub open spec fn is_value_tok(t: Token) -> bool {
    t.kind == TokenKind::Str || t.kind == TokenKind::Word
}

/// What `workers = v` sets: `auto`, or a count as `usize::from_str` reads it.
pub open spec fn spec_workers(v: Seq<char>) -> Option<RawWorkers> {
    if v == "auto"@ {
        Some(RawWorkers::Auto)
    } else {
        match parse_unsigned(v, usize::MAX as int) {
            Some(n) => Some(RawWorkers::Count(n as usize)),
            None => None,
        }
    }
}

/// The entries of a master block from token `k` on, over the fields read so
/// far: `key = value` lines up to the closing brace, which ends the text.
/// A field given twice keeps its last value; each `includes` adds one path.
pub open spec fn master_entries(s: Seq<char>, t: Seq<Token>, k: int, m: MasterText) -> Result<
    MasterText,
    MasterIssue,
>
    decreases t.len() - k,
{
    if k < 0 || k >= t.len() {
        Err(MasterIssue::Syntax { at: s.len() as int })
    } else if t[k].kind == TokenKind::Punct('}') {
        if k + 1 == t.len() {
            Ok(m)
        } else {
            Err(MasterIssue::Syntax { at: tok_pos(s, t, k + 1) })
        }
    } else if t[k].kind != TokenKind::Word {
        Err(MasterIssue::Syntax { at: tok_pos(s, t, k) })
    } else if k + 1 >= t.len() || t[k + 1].kind != TokenKind::Punct('=') {
        Err(MasterIssue::Syntax { at: tok_pos(s, t, k + 1) })
    } else if k + 2 >= t.len() || !is_value_tok(t[k + 2]) {
        Err(MasterIssue::Syntax { at: tok_pos(s, t, k + 2) })
    } else {
        let key = tok_text(s, t[k]);
        let val = tok_text(s, t[k + 2]);
        if key == "user"@ {
            master_entries(s, t, k + 3, MasterText { user: val, ..m })
        } else if key == "workers"@ {
            match spec_workers(val) {
                Some(w) => master_entries(s, t, k + 3, MasterText { workers: w, ..m }),
                None => Err(MasterIssue::BadWorkers { value: val }),
            }
        } else if key == "pid"@ {
            master_entries(s, t, k + 3, MasterText { pid: val, ..m })
        } else if key == "error_log"@ {
            master_entries(s, t, k + 3, MasterText { error_log: val, ..m })
        } else if key == "includes"@ {
            master_entries(s, t, k + 3, MasterText { includes: m.includes.push(val), ..m })
        } else {
            Err(MasterIssue::UnknownField { key, at: tok_pos(s, t, k) })
        }
    }
}

/// A master file: `master "name" { ... }` and nothing else. Fields that the
/// block leaves out take their defaults: user `www-data`, one worker, pid
/// file `/run/ophan.pid`, error log `/var/log/ophan/error.log`, no includes.
pub open spec fn spec_master(s: Seq<char>) -> Result<MasterText, MasterIssue> {
    match lex(s) {
        Err(at) => Err(MasterIssue::Unclosed { at }),
        Ok(t) => if t.len() == 0 || t[0].kind != TokenKind::Word || tok_text(s, t[0]) != "master"@ {
            Err(MasterIssue::Syntax { at: tok_pos(s, t, 0) })
        } else if t.len() <= 1 || t[1].kind != TokenKind::Str {
            Err(MasterIssue::Syntax { at: tok_pos(s, t, 1) })
        } else if t.len() <= 2 || t[2].kind != TokenKind::Punct('{') {
            Err(MasterIssue::Syntax { at: tok_pos(s, t, 2) })
        } else {
            master_entries(
                s,
                t,
                3,
                MasterText {
                    name: tok_text(s, t[1]),
                    user: "www-data"@,
                    workers: RawWorkers::Count(1),
                    pid: "/run/ophan.pid"@,
                    error_log: "/var/log/ophan/error.log"@,
                    includes: Seq::empty(),
                },
            )
        },
    }
}

/// The error that a refused master file gives.
pub open spec fn spec_master_error(s: Seq<char>, issue: MasterIssue, e: ConfigError) -> bool {
    match issue {
        MasterIssue::Unclosed { at } => e matches ConfigError::Parse { message, line, col, file_path }
            && message@ == "unterminated string"@ && (line as int, col as int) == spec_line_col(s, at)
            && file_path is None,
        MasterIssue::Syntax { at } => e matches ConfigError::Parse { message, line, col, file_path }
            && message@ == "syntax error in master file"@ && (line as int, col as int)
            == spec_line_col(s, at) && file_path is None,
        MasterIssue::UnknownField { key, at } => e matches ConfigError::Parse {
            message,
            line,
            col,
            file_path,
        } && message@ == "unexpected field '"@ + key + "' in master block"@ && (
        line as int,
        col as int,
        ) == spec_line_col(s, at) && file_path is None,
        MasterIssue::BadWorkers { value } => e matches ConfigError::Validation {
            code,
            message,
            file_path,
        } && code@ == "PARSE"@ && message@ == "workers: invalid value '"@ + value
            + "', expected 'auto' or a positive integer"@ && file_path is None,
    }
}

pub open spec fn view_strs(v: Seq<&str>) -> Seq<Seq<char>> {
    v.map_values(|x: &str| x@)
}

/// Every token of `lex_from(s, i)` covers a range of `s`.
pub proof fn lemma_lex_in_bounds(s: Seq<char>, i: int)
    requires
        0 <= i <= s.len(),
        s.len() <= usize::MAX,
    ensures
        match lex_from(s, i) {
            Ok(t) => forall|j: int|
                0 <= j < t.len() ==> (#[trigger] t[j]).lo <= t[j].hi <= s.len(),
            Err(at) => 0 <= at < s.len(),
        },
    decreases s.len() - i,
{
    let j = super::lexer::skip_blank(s, i, false);
    super::lexer::lemma_skip_blank_bounds(s, i, false);
    if j < s.len() {
        if super::lexer::is_punct(s[j]) {
            lemma_lex_in_bounds(s, j + 1);
        } else if s[j] == '"' {
            super::lexer::lemma_quote_bounds(s, j + 1);
            match super::lexer::quote_at_or_after(s, j + 1) {
                Some(k) => lemma_lex_in_bounds(s, k + 1),
                None => {},
            }
        } else {
            super::lexer::lemma_word_end_bounds(s, j);
            lemma_lex_in_bounds(s, super::lexer::word_end(s, j));
        }
    }
}

/// The tokens of `lex_from(s, i)` start at `i` or later and follow each other.
pub proof fn lemma_lex_sorted(s: Seq<char>, i: int)
    requires
        0 <= i <= s.len(),
        s.len() <= usize::MAX,
    ensures
        match lex_from(s, i) {
            Ok(t) => (forall|m: int| 0 <= m < t.len() ==> i <= (#[trigger] t[m]).lo <= t[m].hi <= s.len())
                && super::syntax::tokens_sorted(t),
            Err(_) => true,
        },
    decreases s.len() - i,
{
    let j = super::lexer::skip_blank(s, i, false);
    super::lexer::lemma_skip_blank_bounds(s, i, false);
    if j < s.len() {
        let next = if super::lexer::is_punct(s[j]) {
            j + 1
        } else if s[j] == '"' {
            super::lexer::lemma_quote_bounds(s, j + 1);
            match super::lexer::quote_at_or_after(s, j + 1) {
                Some(k) => k + 1,
                None => j,
            }
        } else {
            super::lexer::lemma_word_end_bounds(s, j);
            super::lexer::word_end(s, j)
        };
        if next > j {
            lemma_lex_sorted(s, next);
            match lex_from(s, i) {
                Ok(t) => {
                    let r = lex_from(s, next)->Ok_0;
                    assert(t == seq![t[0]] + r);
                    assert forall|a: int, b: int| 0 <= a < b < t.len() implies (#[trigger] t[a]).hi
                        <= (#[trigger] t[b]).lo by {
                        assert(t[b] == r[b - 1]);
                        if a > 0 {
                            assert(t[a] == r[a - 1]);
                        }
                    }
                    assert forall|m: int| 0 <= m < t.len() implies i <= (#[trigger] t[m]).lo <= t[m].hi
                        <= s.len() by {
                        if m > 0 {
                            assert(t[m] == r[m - 1]);
                        }
                    }
                },
                Err(_) => {},
            }
        }
    }
}

fn syntax_error(v: &Vec<char>, toks: &Vec<Token>, k: usize, message: &str) -> (e: ConfigError)
    requires
        v.len() < usize::MAX,
        forall|j: int| 0 <= j < toks.len() ==> (#[trigger] toks@[j]).lo <= toks@[j].hi <= v.len(),
    ensures
        e matches ConfigError::Parse { message: m, line, col, file_path } && m@ == message@ && (
        line as int,
        col as int,
        ) == spec_line_col(v@, tok_pos(v@, toks@, k as int)) && file_path is None,
{
    let at = if k < toks.len() {
        toks[k].lo
    } else {
        v.len()
    };
    let (line, col) = line_col(v, at);
    ConfigError::Parse { message: message.to_owned(), line, col, file_path: None }
}

/// Reads a master file: `master "name" { key = value ... }`, with the fields
/// `user`, `workers` (`auto` or a count), `pid`, `error_log` and `includes`
/// (once per included path).
pub fn parse_raw_master<'a>(input: &'a str) -> (r: Result<RawMaster<'a>, ConfigError>)
    requires
        input@.len() < usize::MAX,
    ensures
        match r {
            Ok(m) => spec_master(input@) == Ok::<MasterText, MasterIssue>(
                MasterText {
                    name: m.name@,
                    user: m.user@,
                    workers: m.workers,
                    pid: m.pid@,
                    error_log: m.error_log@,
                    includes: view_strs(m.includes@),
                },
            ),
            Err(e) => match spec_master(input@) {
                Ok(_) => false,
                Err(issue) => spec_master_error(input@, issue, e),
            },
        },
{
    let v = chars_of(input);
    let ghost s = v@;
    proof {
        lemma_lex_in_bounds(s, 0);
    }
    let toks = match tokenize(&v) {
        Ok(t) => t,
        Err(at) => {
            let (line, col) = line_col(&v, at);
            return Err(
                ConfigError::Parse {
                    message: "unterminated string".to_owned(),
                    line,
                    col,
                    file_path: None,
                },
            );
        },
    };
    let n = toks.len();
    if n == 0 || toks[0].kind != TokenKind::Word || !range_eq(&v, toks[0].lo, toks[0].hi, "master") {
        return Err(syntax_error(&v, &toks, 0, "syntax error in master file"));
    }
    if n <= 1 || toks[1].kind != TokenKind::Str {
        return Err(syntax_error(&v, &toks, 1, "syntax error in master file"));
    }
    if n <= 2 || toks[2].kind != TokenKind::Punct('{') {
        return Err(syntax_error(&v, &toks, 2, "syntax error in master file"));
    }
    let name = input.substring_char(toks[1].lo, toks[1].hi);
    let mut user = "www-data";
    let mut workers = RawWorkers::Count(1);
    let mut pid = "/run/ophan.pid";
    let mut error_log = "/var/log/ophan/error.log";
    let mut includes: Vec<&'a str> = Vec::new();
    let mut k: usize = 3;
    assert(view_strs(includes@) =~= Seq::<Seq<char>>::empty());
    loop
        invariant
            s == v@,
            v@ == input@,
            v.len() < usize::MAX,
            lex(s) == Ok::<Seq<Token>, int>(toks@),
            n == toks.len(),
            3 <= k <= n,
            forall|j: int| 0 <= j < toks.len() ==> (#[trigger] toks@[j]).lo <= toks@[j].hi <= v.len(),
            spec_master(s) == master_entries(
                s,
                toks@,
                k as int,
                MasterText {
                    name: name@,
                    user: user@,
                    workers,
                    pid: pid@,
                    error_log: error_log@,
                    includes: view_strs(includes@),
                },
            ),
        decreases n - k,
    {
        if k >= n {
            return Err(syntax_error(&v, &toks, k, "syntax error in master file"));
        }
        let t = toks[k];
        if t.kind == TokenKind::Punct('}') {
            if k + 1 == n {
                return Ok(RawMaster { name, user, workers, pid, error_log, includes });
            }
            return Err(syntax_error(&v, &toks, k + 1, "syntax error in master file"));
        }
        if t.kind != TokenKind::Word {
            return Err(syntax_error(&v, &toks, k, "syntax error in master file"));
        }
        if k + 1 >= n || toks[k + 1].kind != TokenKind::Punct('=') {
            return Err(syntax_error(&v, &toks, k + 1, "syntax error in master file"));
        }
        if k + 2 >= n || !(toks[k + 2].kind == TokenKind::Str || toks[k + 2].kind
            == TokenKind::Word) {
            return Err(syntax_error(&v, &toks, k + 2, "syntax error in master file"));
        }
        let val_tok = toks[k + 2];
        let val = input.substring_char(val_tok.lo, val_tok.hi);
        if range_eq(&v, t.lo, t.hi, "user") {
            user = val;
        } else if range_eq(&v, t.lo, t.hi, "workers") {
            if range_eq(&v, val_tok.lo, val_tok.hi, "auto") {
                workers = RawWorkers::Auto;
            } else {
                match parse_unsigned_range(&v, val_tok.lo, val_tok.hi, usize::MAX as u64) {
                    Some(c) => {
                        workers = RawWorkers::Count(c as usize);
                    },
                    None => {
                        let mut m = "workers: invalid value '".to_owned();
                        m.append(val);
                        m.append("', expected 'auto' or a positive integer");
                        return Err(ConfigError::parse(m));
                    },
                }
            }
        } else if range_eq(&v, t.lo, t.hi, "pid") {
            pid = val;
        } else if range_eq(&v, t.lo, t.hi, "error_log") {
            error_log = val;
        } else if range_eq(&v, t.lo, t.hi, "includes") {
            let ghost before = includes@;
            includes.push(val);
            assert(view_strs(includes@) =~= view_strs(before).push(val@));
        } else {
            let key = input.substring_char(t.lo, t.hi);
            let mut m = "unexpected field '".to_owned();
            m.append(key);
            m.append("' in master block");
            let (line, col) = line_col(&v, t.lo);
            return Err(ConfigError::Parse { message: m, line, col, file_path: None });
        }
        k = k + 3;
    }
}

// ============================================================================
// GATEWAY FILES
// ============================================================================

/// Whether `policy kind "name" { ... }` at `e` reads: its kind is one of the
/// five policies and its body reads as that policy.
pub open spec fn policy_ok(s: Seq<char>, t: Seq<Token>, e: int) -> bool {
    let kind = tok_text(s, t[e + 1]);
    let lo = block_range(t, e, 2).0;
    let hi = block_range(t, e, 2).1;
    ||| (kind == "auth"@ && auth_ok(s, t, lo, hi))
    ||| (kind == "cors"@ && cors_ok(s, t, lo, hi))
    ||| (kind == "waf"@ && waf_ok(s, t, lo, hi))
    ||| (kind == "limiter"@ && limiter_ok(s, t, lo, hi))
    ||| (kind == "helmet"@ && helmet_ok(s, t, lo, hi))
}

/// Whether `p` is the policy that `policy kind "name" { ... }` at `e` declares.
pub open spec fn policy_is(p: RawPolicy, s: Seq<char>, t: Seq<Token>, e: int) -> bool {
    let kind = tok_text(s, t[e + 1]);
    let n = tok_text(s, t[e + 2]);
    let lo = block_range(t, e, 2).0;
    let hi = block_range(t, e, 2).1;
    match p {
        RawPolicy::Auth { name, config } => kind == "auth"@ && name@ == n && auth_is(config, s, t, lo, hi),
        RawPolicy::Cors { name, config } => kind == "cors"@ && name@ == n && cors_is(config, s, t, lo, hi),
        RawPolicy::Waf { name, config } => kind == "waf"@ && name@ == n && waf_is(config, s, t, lo, hi),
        RawPolicy::Limiter { name, config } => kind == "limiter"@ && name@ == n && limiter_is(
            config,
            s,
            t,
            lo,
            hi,
        ),
        RawPolicy::Helmet { name, config } => kind == "helmet"@ && name@ == n && helmet_is(
            config,
            s,
            t,
            lo,
            hi,
        ),
    }
}

/// Whether `e` is a reading error with the message `message`.
pub open spec fn is_read_error(e: ConfigError, message: Seq<char>) -> bool {
    &&& e matches ConfigError::Validation { code, message: m, file_path }
    &&& code == "PARSE"
    &&& m@ == message
    &&& file_path is None
}

/// The error for `policy kind "name" { ... }` at `e` that does not read: that of
/// its body, or, for a kind that is none of the five, an unknown policy type.
pub open spec fn policy_error_is(err: ConfigError, s: Seq<char>, t: Seq<Token>, e: int) -> bool {
    let kind = tok_text(s, t[e + 1]);
    let lo = block_range(t, e, 2).0;
    let hi = block_range(t, e, 2).1;
    if kind == "auth"@ {
        auth_error_is(err, s, t, lo, hi)
    } else if kind == "cors"@ {
        cors_error_is(err, s, t, lo, hi)
    } else if kind == "waf"@ {
        waf_error_is(err, s, t, lo, hi)
    } else if kind == "limiter"@ {
        limiter_error_is(err, s, t, lo, hi)
    } else if kind == "helmet"@ {
        helmet_error_is(err, s, t, lo, hi)
    } else {
        is_read_error(err, "unknown policy type '"@ + kind + "'"@)
    }
}

/// Whether the top-level entry at `e` of a gateway file whose tokens end at
/// `hi` reads: `name = "..."`, a `listeners`, `upstreams` or `routes` block,
/// or a policy.
pub open spec fn gateway_entry_ok(s: Seq<char>, t: Seq<Token>, hi: int, e: int) -> bool {
    let k = tok_text(s, t[e]);
    let lo0 = block_range(t, e, 0).0;
    let hi0 = block_range(t, e, 0).1;
    ||| (k == "name"@ && is_text_assign(s, t, e, hi))
    ||| (k == "listeners"@ && is_block_entry(s, t, e, hi, 0) && listeners_ok(s, t, lo0, hi0))
    ||| (k == "upstreams"@ && is_block_entry(s, t, e, hi, 0) && upstreams_ok(s, t, lo0, hi0))
    ||| (k == "routes"@ && is_block_entry(s, t, e, hi, 0) && routes_ok(s, t, lo0, hi0))
    ||| (k == "policy"@ && is_block_entry(s, t, e, hi, 2) && t[e + 1].kind == TokenKind::Word
        && t[e + 2].kind == TokenKind::Str && policy_ok(s, t, e))
}

pub open spec fn gateway_entry(s: Seq<char>, t: Seq<Token>, hi: int) -> spec_fn(int) -> bool {
    |e: int| gateway_entry_ok(s, t, hi, e)
}

/// The policy entries among `es`, in order.
pub open spec fn policy_entries(s: Seq<char>, t: Seq<Token>, es: Seq<int>) -> Seq<int>
    decreases es.len(),
{
    if es.len() == 0 {
        Seq::empty()
    } else {
        policy_entries(s, t, es.drop_last()) + if tok_text(s, t[es.last()]) == "policy"@ {
            seq![es.last()]
        } else {
            Seq::empty()
        }
    }
}

pub proof fn lemma_policy_entries_step(s: Seq<char>, t: Seq<Token>, es: Seq<int>, i: int)
    requires
        0 <= i < es.len(),
    ensures
        policy_entries(s, t, es.take(i + 1)) == policy_entries(s, t, es.take(i)) + if tok_text(
            s,
            t[es[i]],
        ) == "policy"@ {
            seq![es[i]]
        } else {
            Seq::empty()
        },
{
    assert(es.take(i + 1).drop_last() =~= es.take(i));
}

/// Whether the text `s` reads as a gateway file: it lexes, its entries are
/// well formed, and each entry reads.
pub open spec fn gateway_ok(s: Seq<char>) -> bool {
    &&& lex(s) matches Ok(t)
    &&& spec_entries(s, t, 0, t.len() as int) matches Some(es)
    &&& spec_first_bad(es, gateway_entry(s, t, t.len() as int)) is None
}

/// Whether `g` holds what the gateway file `s` sets: the name, listeners,
/// upstreams and routes of the last entry that sets each (an empty name and
/// empty lists without one), and every policy, in the order of the file.
pub open spec fn gateway_is(g: RawGateway, s: Seq<char>) -> bool {
    let t = match lex(s) {
        Ok(t) => t,
        Err(_) => Seq::empty(),
    };
    let es = match spec_entries(s, t, 0, t.len() as int) {
        Some(es) => es,
        None => Seq::empty(),
    };
    let pes = policy_entries(s, t, es);
    &&& g.name@ == (match text_field(s, t, spec_last_key(s, t, es, "name"@)) {
        Some(x) => x,
        None => Seq::<char>::empty(),
    })
    &&& (match spec_last_key(s, t, es, "listeners"@) {
        Some(e) => listeners_is(g.listeners@, s, t, block_range(t, e, 0).0, block_range(t, e, 0).1),
        None => g.listeners@.len() == 0,
    })
    &&& (match spec_last_key(s, t, es, "upstreams"@) {
        Some(e) => upstreams_is(g.upstreams@, s, t, block_range(t, e, 0).0, block_range(t, e, 0).1),
        None => g.upstreams@.len() == 0,
    })
    &&& (match spec_last_key(s, t, es, "routes"@) {
        Some(e) => routes_is(g.routes@, s, t, block_range(t, e, 0).0, block_range(t, e, 0).1),
        None => g.routes@.len() == 0,
    })
    &&& g.policies@.len() == pes.len()
    &&& forall|m: int| 0 <= m < pes.len() ==> #[trigger] policy_is(g.policies@[m], s, t, pes[m])
}

/// Reads `policy kind "name" { ... }` at `e`.
fn read_policy<'a>(input: &'a str, v: &Vec<char>, toks: &Vec<Token>, e: usize, hi: usize) -> (r: Result<
    RawPolicy<'a>,
    ConfigError,
>)
    requires
        e < hi <= toks.len(),
        v@ == input@,
        v.len() < usize::MAX,
        tokens_in(v@, toks@),
        tokens_sorted(toks@),
        is_block_entry(v@, toks@, e as int, hi as int, 2),
    ensures
        match r {
            Ok(p) => policy_ok(v@, toks@, e as int) && policy_is(p, v@, toks@, e as int),
            Err(err) => !policy_ok(v@, toks@, e as int) && policy_error_is(err, v@, toks@, e as int),
        },
{
    proof {
        reveal_strlit("auth");
        reveal_strlit("cors");
        reveal_strlit("waf");
        reveal_strlit("limiter");
        reveal_strlit("helmet");
        assert("auth"@[0] != "cors"@[0]);
        assert("auth"@.len() == 4 && "cors"@.len() == 4 && "waf"@.len() == 3);
        assert("limiter"@.len() == 7 && "helmet"@.len() == 6);
    }
    let c = match_bracket(toks, e + 3).unwrap();
    proof {
        lemma_match_after(toks@, e + 3);
    }
    let name = text_of(input, v, toks, e + 2);
    let kind = toks[e + 1];
    if range_eq(v, kind.lo, kind.hi, "auth") {
        let config = read_auth(input, v, toks, e + 4, c)?;
        Ok(RawPolicy::Auth { name, config })
    } else if range_eq(v, kind.lo, kind.hi, "cors") {
        let config = read_cors(input, v, toks, e + 4, c)?;
        Ok(RawPolicy::Cors { name, config })
    } else if range_eq(v, kind.lo, kind.hi, "waf") {
        let config = read_waf(input, v, toks, e + 4, c)?;
        Ok(RawPolicy::Waf { name, config })
    } else if range_eq(v, kind.lo, kind.hi, "limiter") {
        let config = read_limiter(input, v, toks, e + 4, c)?;
        Ok(RawPolicy::Limiter { name, config })
    } else if range_eq(v, kind.lo, kind.hi, "helmet") {
        let config = read_helmet(input, v, toks, e + 4, c)?;
        Ok(RawPolicy::Helmet { name, config })
    } else {
        Err(value_error(input, v, toks, e + 1, "unknown policy type '", "'"))
    }
}

/// Whether `e` is a syntax error with the message `message` at position `p`
/// of the text `s`.
pub open spec fn is_syntax_error(e: ConfigError, message: Seq<char>, s: Seq<char>, p: int) -> bool {
    &&& e matches ConfigError::Parse { message: m, line, col, file_path }
    &&& m@ == message
    &&& (line as int, col as int) == spec_line_col(s, p)
    &&& file_path is None
}

/// The error for a top-level entry at `e` that does not read: that of the
/// block or policy it opens, or, for an entry of another shape, an unexpected
/// block.
pub open spec fn gateway_fault_is(err: ConfigError, s: Seq<char>, t: Seq<Token>, hi: int, e: int) -> bool {
    let k = tok_text(s, t[e]);
    let lo0 = block_range(t, e, 0).0;
    let hi0 = block_range(t, e, 0).1;
    if k == "listeners"@ && is_block_entry(s, t, e, hi, 0) {
        listeners_error_is(err, s, t, lo0, hi0)
    } else if k == "upstreams"@ && is_block_entry(s, t, e, hi, 0) {
        upstreams_error_is(err, s, t, lo0, hi0)
    } else if k == "routes"@ && is_block_entry(s, t, e, hi, 0) {
        routes_error_is(err, s, t, lo0, hi0)
    } else if k == "policy"@ && is_block_entry(s, t, e, hi, 2) && t[e + 1].kind == TokenKind::Word
        && t[e + 2].kind == TokenKind::Str {
        policy_error_is(err, s, t, e)
    } else {
        is_read_error(err, "unexpected block '"@ + k + "' in gateway"@)
    }
}

/// The error for a gateway file `s` that does not read: a string that is
/// never closed, text that is not a sequence of entries, or the error of its
/// first entry that does not read.
pub open spec fn gateway_error_is(s: Seq<char>, err: ConfigError) -> bool {
    match lex(s) {
        Err(at) => is_syntax_error(err, "unterminated string"@, s, at),
        Ok(t) => match spec_entries(s, t, 0, t.len() as int) {
            None => is_syntax_error(err, "syntax error in gateway file"@, s, tok_pos(s, t, 0)),
            Some(es) => match spec_first_bad(es, gateway_entry(s, t, t.len() as int)) {
                Some(e) => gateway_fault_is(err, s, t, t.len() as int, e),
                None => true,
            },
        },
    }
}

/// Reads a gateway file: `name = "..."`, then `listeners`, `upstreams` and
/// `routes` blocks and `policy kind "name" { ... }` declarations, in any
/// order.
#[verifier::spinoff_prover]
#[verifier::rlimit(60)]
pub fn parse_raw_gateway<'a>(input: &'a str) -> (r: Result<RawGateway<'a>, ConfigError>)
    requires
        input@.len() < usize::MAX,
    ensures
        match r {
            Ok(g) => gateway_ok(input@) && gateway_is(g, input@),
            Err(err) => !gateway_ok(input@) && gateway_error_is(input@, err),
        },
{
    let v = chars_of(input);
    proof {
        lemma_lex_in_bounds(v@, 0);
        lemma_lex_sorted(v@, 0);
    }
    let toks = match tokenize(&v) {
        Ok(t) => t,
        Err(at) => {
            let (line, col) = line_col(&v, at);
            return Err(
                ConfigError::Parse {
                    message: "unterminated string".to_owned(),
                    line,
                    col,
                    file_path: None,
                },
            );
        },
    };
    let n = toks.len();
    let es = match entries(&v, &toks, 0, n) {
        Some(es) => es,
        None => {
            return Err(block_syntax_error(&v, &toks, 0, n));
        },
    };
    let ghost ees = es@.map_values(|e: usize| e as int);
    let ghost ok = gateway_entry(v@, toks@, n as int);
    proof {
        lemma_entries_in(v@, toks@, 0, n as int, ees);
        reveal_strlit("");
        assert(""@.len() == 0);
        assert(ees.take(0) =~= Seq::<int>::empty());
    }
    let mut name: &'a str = "";
    let mut listeners: Vec<RawListener<'a>> = Vec::new();
    let mut upstreams: Vec<RawUpstream<'a>> = Vec::new();
    let mut routes: Vec<RawRoute<'a>> = Vec::new();
    let mut policies: Vec<RawPolicy<'a>> = Vec::new();
    let mut i: usize = 0;
    while i < es.len()
        invariant
            i <= es.len(),
            n == toks.len(),
            v@ == input@,
            v.len() < usize::MAX,
            lex(v@) == Ok::<Seq<Token>, int>(toks@),
            tokens_in(v@, toks@),
            tokens_sorted(toks@),
            ees == es@.map_values(|e: usize| e as int),
            spec_entries(v@, toks@, 0, n as int) == Some(ees),
            forall|m: int| 0 <= m < es.len() ==> 0 <= #[trigger] ees[m] < n,
            ok == gateway_entry(v@, toks@, n as int),
            forall|m: int| 0 <= m < i ==> ok(#[trigger] ees[m]),
            name@ == (match text_field(v@, toks@, spec_last_key(v@, toks@, ees.take(i as int), "name"@)) {
                Some(x) => x,
                None => Seq::<char>::empty(),
            }),
            match spec_last_key(v@, toks@, ees.take(i as int), "listeners"@) {
                Some(e) => listeners_is(listeners@, v@, toks@, block_range(toks@, e, 0).0, block_range(toks@, e, 0).1),
                None => listeners@.len() == 0,
            },
            match spec_last_key(v@, toks@, ees.take(i as int), "upstreams"@) {
                Some(e) => upstreams_is(upstreams@, v@, toks@, block_range(toks@, e, 0).0, block_range(toks@, e, 0).1),
                None => upstreams@.len() == 0,
            },
            match spec_last_key(v@, toks@, ees.take(i as int), "routes"@) {
                Some(e) => routes_is(routes@, v@, toks@, block_range(toks@, e, 0).0, block_range(toks@, e, 0).1),
                None => routes@.len() == 0,
            },
            policies@.len() == policy_entries(v@, toks@, ees.take(i as int)).len(),
            forall|m: int|
                0 <= m < policies@.len() ==> #[trigger] policy_is(
                    policies@[m],
                    v@,
                    toks@,
                    policy_entries(v@, toks@, ees.take(i as int))[m],
                ),
        decreases es.len() - i,
    {
        let e = es[i];
        assert(ees[i as int] == e as int);
        proof {
            reveal_strlit("name");
            reveal_strlit("listeners");
            reveal_strlit("upstreams");
            reveal_strlit("routes");
            reveal_strlit("policy");
            assert("name"@.len() == 4 && "routes"@.len() == 6 && "policy"@.len() == 6);
            assert("listeners"@.len() == 9 && "upstreams"@.len() == 9);
            assert("listeners"@[0] != "upstreams"@[0]);
            assert("routes"@[0] != "policy"@[0]);
            lemma_last_key_step(v@, toks@, ees, i as int, "name"@);
            lemma_last_key_step(v@, toks@, ees, i as int, "listeners"@);
            lemma_last_key_step(v@, toks@, ees, i as int, "upstreams"@);
            lemma_last_key_step(v@, toks@, ees, i as int, "routes"@);
            lemma_policy_entries_step(v@, toks@, ees, i as int);
        }
        let ghost pe = policy_entries(v@, toks@, ees.take(i as int));
        if range_eq(&v, toks[e].lo, toks[e].hi, "name") {
            if !text_assign(&v, &toks, e, n) {
                proof {
                    lemma_first_bad(ees, ok, i as int);
                }
                return Err(value_error(input, &v, &toks, e, "unexpected block '", "' in gateway"));
            }
            name = text_of(input, &v, &toks, e + 2);
        } else if range_eq(&v, toks[e].lo, toks[e].hi, "listeners") || range_eq(
            &v,
            toks[e].lo,
            toks[e].hi,
            "upstreams",
        ) || range_eq(&v, toks[e].lo, toks[e].hi, "routes") {
            if !block_entry(&v, &toks, e, n, 0) {
                proof {
                    lemma_first_bad(ees, ok, i as int);
                }
                return Err(value_error(input, &v, &toks, e, "unexpected block '", "' in gateway"));
            }
            let c = match_bracket(&toks, e + 1).unwrap();
            proof {
                lemma_match_after(toks@, e + 1);
            }
            if range_eq(&v, toks[e].lo, toks[e].hi, "listeners") {
                match read_listeners(input, &v, &toks, e + 2, c) {
                    Ok(x) => {
                        listeners = x;
                    },
                    Err(err) => {
                        proof {
                            lemma_first_bad(ees, ok, i as int);
                        }
                        return Err(err);
                    },
                }
            } else if range_eq(&v, toks[e].lo, toks[e].hi, "upstreams") {
                match read_upstreams(input, &v, &toks, e + 2, c) {
                    Ok(x) => {
                        upstreams = x;
                    },
                    Err(err) => {
                        proof {
                            lemma_first_bad(ees, ok, i as int);
                        }
                        return Err(err);
                    },
                }
            } else {
                match read_routes(input, &v, &toks, e + 2, c) {
                    Ok(x) => {
                        routes = x;
                    },
                    Err(err) => {
                        proof {
                            lemma_first_bad(ees, ok, i as int);
                        }
                        return Err(err);
                    },
                }
            }
        } else if range_eq(&v, toks[e].lo, toks[e].hi, "policy") {
            if !(block_entry(&v, &toks, e, n, 2) && toks[e + 1].kind == TokenKind::Word && toks[e
                + 2].kind == TokenKind::Str) {
                proof {
                    lemma_first_bad(ees, ok, i as int);
                }
                return Err(value_error(input, &v, &toks, e, "unexpected block '", "' in gateway"));
            }
            match read_policy(input, &v, &toks, e, n) {
                Ok(p) => {
                    policies.push(p);
                    assert(policy_entries(v@, toks@, ees.take(i + 1)) =~= pe.push(e as int));
                    assert(policy_is(policies@[policies@.len() - 1], v@, toks@, e as int));
                },
                Err(err) => {
                    proof {
                        lemma_first_bad(ees, ok, i as int);
                    }
                    return Err(err);
                },
            }
        } else {
            proof {
                lemma_first_bad(ees, ok, i as int);
            }
            return Err(value_error(input, &v, &toks, e, "unexpected block '", "' in gateway"));
        }
        proof {
            if tok_text(v@, toks@[e as int]) != "policy"@ {
                assert(policy_entries(v@, toks@, ees.take(i + 1)) =~= pe);
            }
        }
        i = i + 1;
    }
    proof {
        lemma_first_bad(ees, ok, es.len() as int);
        assert(ees.take(es.len() as int) =~= ees);
    }
    Ok(RawGateway { name, listeners, upstreams, routes, policies })
}

} // verus!
