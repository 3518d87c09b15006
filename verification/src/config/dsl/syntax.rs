//! The shape of configuration text, over its tokens.
//!
//! A block holds entries. An entry starts with a head: a word or string
//! followed by more words and strings on the same line. The head is then
//! followed by `=` and a value, by a block in braces, or by nothing (the
//! entry ends with its line). A value is a word, a string, a call
//! `name(...)`, a list `[...]` of values separated by commas, or an object
//! `{ key = value, ... }`. Brackets nest and must close in order.
use vstd::prelude::*;

use super::lexer::{Token, TokenKind};

verus! {

pub open spec fn is_opener(c: char) -> bool {
    c == '{' || c == '[' || c == '('
}

pub open spec fn is_closer(c: char) -> bool {
    c == '}' || c == ']' || c == ')'
}

pub open spec fn closer_of(c: char) -> char {
    if c == '{' {
        '}'
    } else if c == '[' {
        ']'
    } else {
        ')'
    }
}

pub open spec fn is_punct_tok(t: Token, c: char) -> bool {
    t.kind == TokenKind::Punct(c)
}

pub open spec fn is_text_tok(t: Token) -> bool {
    t.kind == TokenKind::Word || t.kind == TokenKind::Str
}

/// The position of the token that closes every bracket in `stack` (the
/// closers still expected, innermost last), scanning from token `k`.
pub open spec fn spec_close(t: Seq<Token>, k: int, stack: Seq<char>) -> Option<int>
    decreases t.len() - k,
{
    if k < 0 || k >= t.len() || stack.len() == 0 {
        None
    } else {
        match t[k].kind {
            TokenKind::Punct(c) => if is_opener(c) {
                spec_close(t, k + 1, stack.push(closer_of(c)))
            } else if is_closer(c) {
                if stack.last() != c {
                    None
                } else if stack.len() == 1 {
                    Some(k)
                } else {
                    spec_close(t, k + 1, stack.drop_last())
                }
            } else {
                spec_close(t, k + 1, stack)
            },
            _ => spec_close(t, k + 1, stack),
        }
    }
}

/// The position of the bracket that closes the one opened at `k`.
pub open spec fn spec_match(t: Seq<Token>, k: int) -> Option<int> {
    if 0 <= k < t.len() {
        match t[k].kind {
            TokenKind::Punct(c) => if is_opener(c) {
                spec_close(t, k + 1, seq![closer_of(c)])
            } else {
                None
            },
            _ => None,
        }
    } else {
        None
    }
}

/// Whether a line ends between token `i - 1` and token `i`.
pub open spec fn newline_before(s: Seq<char>, t: Seq<Token>, i: int) -> bool {
    exists|p: int| t[i - 1].hi <= p < t[i].lo && s[p] == '\n'
}

/// Where the head that continues at `j` ends: words and strings on the
/// same line, before `hi`.
pub open spec fn spec_head_end(s: Seq<char>, t: Seq<Token>, j: int, hi: int) -> int
    decreases hi - j,
{
    if 0 < j < hi && j < t.len() && is_text_tok(t[j]) && !newline_before(s, t, j) {
        spec_head_end(s, t, j + 1, hi)
    } else {
        j
    }
}

/// The end of the bracket group opened at `j`, if it closes before `hi`.
pub open spec fn spec_group_end(t: Seq<Token>, j: int, hi: int) -> Option<int> {
    match spec_match(t, j) {
        Some(c) => if j < c < hi {
            Some(c + 1)
        } else {
            None
        },
        None => None,
    }
}

/// Where the value that starts at `j` ends, if it is one and ends by `hi`.
pub open spec fn spec_value_end(s: Seq<char>, t: Seq<Token>, j: int, hi: int) -> Option<int> {
    if j < 0 || j >= hi || hi > t.len() {
        None
    } else if t[j].kind == TokenKind::Word && j + 1 < hi && is_punct_tok(t[j + 1], '(') {
        spec_group_end(t, j + 1, hi)
    } else if is_text_tok(t[j]) {
        Some(j + 1)
    } else if is_punct_tok(t[j], '[') || is_punct_tok(t[j], '{') {
        spec_group_end(t, j, hi)
    } else {
        None
    }
}

/// Whether the token at `v`, before `hi`, is the word `->`.
pub open spec fn is_arrow_at(s: Seq<char>, t: Seq<Token>, v: int, hi: int) -> bool {
    &&& 0 <= v < hi
    &&& v < t.len()
    &&& t[v].kind == TokenKind::Word
    &&& t[v].hi == t[v].lo + 2
    &&& s[t[v].lo as int] == '-'
    &&& s[t[v].lo + 1] == '>'
}

/// Where the entry that starts at `k` ends, if it is one and ends by `hi`:
/// `head = value`, optionally followed by `-> value`, `head { ... }`, or the
/// head alone.
pub open spec fn spec_entry_end(s: Seq<char>, t: Seq<Token>, k: int, hi: int) -> Option<int> {
    if k < 0 || k >= hi || hi > t.len() || !is_text_tok(t[k]) {
        None
    } else {
        let h = spec_head_end(s, t, k + 1, hi);
        if h < hi && is_punct_tok(t[h], '=') {
            match spec_value_end(s, t, h + 1, hi) {
                Some(v) => if is_arrow_at(s, t, v, hi) {
                    spec_value_end(s, t, v + 1, hi)
                } else {
                    Some(v)
                },
                None => None,
            }
        } else if h < hi && is_punct_tok(t[h], '{') {
            spec_group_end(t, h, hi)
        } else if h == hi || is_text_tok(t[h]) {
            Some(h)
        } else {
            None
        }
    }
}

/// The starts of the entries from `k` to `hi`, each followed by an optional
/// comma, if they are entries.
pub open spec fn spec_entries(s: Seq<char>, t: Seq<Token>, k: int, hi: int) -> Option<Seq<int>>
    decreases hi - k,
{
    if k == hi {
        Some(Seq::empty())
    } else {
        match spec_entry_end(s, t, k, hi) {
            Some(e) => if k < e <= hi {
                let next = if e < hi && is_punct_tok(t[e], ',') {
                    e + 1
                } else {
                    e
                };
                match spec_entries(s, t, next, hi) {
                    Some(r) => Some(seq![k] + r),
                    None => None,
                }
            } else {
                None
            },
            None => None,
        }
    }
}

/// The starts of the comma-separated values from `k` to `hi` (a trailing
/// comma is allowed), if they are values.
pub open spec fn spec_items(s: Seq<char>, t: Seq<Token>, k: int, hi: int) -> Option<Seq<int>>
    decreases hi - k,
{
    if k >= hi {
        Some(Seq::empty())
    } else {
        match spec_value_end(s, t, k, hi) {
            Some(e) => if k < e && e == hi {
                Some(seq![k])
            } else if k < e < hi && is_punct_tok(t[e], ',') {
                match spec_items(s, t, e + 1, hi) {
                    Some(r) => Some(seq![k] + r),
                    None => None,
                }
            } else {
                None
            },
            None => None,
        }
    }
}

/// The starts of the `key = value` fields from `k` to `hi`, each followed
/// by an optional comma, if they are fields.
pub open spec fn spec_fields(s: Seq<char>, t: Seq<Token>, k: int, hi: int) -> Option<Seq<int>>
    decreases hi - k,
{
    if k >= hi {
        Some(Seq::empty())
    } else if k + 1 >= hi || !is_text_tok(t[k]) || !is_punct_tok(t[k + 1], '=') {
        None
    } else {
        match spec_value_end(s, t, k + 2, hi) {
            Some(e) => if k < e <= hi {
                let next = if e < hi && is_punct_tok(t[e], ',') {
                    e + 1
                } else {
                    e
                };
                match spec_fields(s, t, next, hi) {
                    Some(r) => Some(seq![k] + r),
                    None => None,
                }
            } else {
                None
            },
            None => None,
        }
    }
}

pub proof fn lemma_close_after(t: Seq<Token>, k: int, stack: Seq<char>)
    ensures
        spec_close(t, k, stack) matches Some(c) ==> k <= c < t.len(),
    decreases t.len() - k,
{
    if 0 <= k < t.len() && stack.len() > 0 {
        match t[k].kind {
            TokenKind::Punct(c) => if is_opener(c) {
                lemma_close_after(t, k + 1, stack.push(closer_of(c)));
            } else if is_closer(c) {
                if stack.last() == c && stack.len() != 1 {
                    lemma_close_after(t, k + 1, stack.drop_last());
                }
            } else {
                lemma_close_after(t, k + 1, stack);
            },
            _ => lemma_close_after(t, k + 1, stack),
        }
    }
}

/// A bracket closes after it opens.
pub proof fn lemma_match_after(t: Seq<Token>, k: int)
    ensures
        spec_match(t, k) matches Some(c) ==> k < c < t.len(),
{
    if 0 <= k < t.len() {
        match t[k].kind {
            TokenKind::Punct(c) => if is_opener(c) {
                lemma_close_after(t, k + 1, seq![closer_of(c)]);
            },
            _ => {},
        }
    }
}

/// The items of a list lie in its range, in order.
pub proof fn lemma_items_range(s: Seq<char>, t: Seq<Token>, k: int, hi: int)
    ensures
        spec_items(s, t, k, hi) matches Some(is) ==> forall|m: int|
            0 <= m < is.len() ==> k <= #[trigger] is[m] < hi,
    decreases hi - k,
{
    if k < hi {
        match spec_value_end(s, t, k, hi) {
            Some(e) => if k < e < hi && is_punct_tok(t[e], ',') {
                lemma_items_range(s, t, e + 1, hi);
                match spec_items(s, t, e + 1, hi) {
                    Some(r) => {
                        assert forall|m: int| 0 <= m < (seq![k] + r).len() implies k <= #[trigger] (
                        seq![k] + r)[m] < hi by {
                            if m > 0 {
                                assert((seq![k] + r)[m] == r[m - 1]);
                            }
                        }
                    },
                    None => {},
                }
            },
            None => {},
        }
    }
}

/// The items of a list lie in its range.
pub proof fn lemma_items_in(s: Seq<char>, t: Seq<Token>, k: int, hi: int, is: Seq<int>)
    requires
        spec_items(s, t, k, hi) == Some(is),
    ensures
        forall|m: int| 0 <= m < is.len() ==> k <= #[trigger] is[m] < hi,
    decreases hi - k,
{
    if k < hi {
        let e = spec_value_end(s, t, k, hi)->0;
        if e < hi {
            let r = spec_items(s, t, e + 1, hi)->0;
            lemma_items_in(s, t, e + 1, hi, r);
            assert(is == seq![k] + r);
            assert forall|m: int| 0 <= m < is.len() implies k <= #[trigger] is[m] < hi by {
                if m > 0 {
                    assert(is[m] == r[m - 1]);
                }
            }
        }
    }
}

/// The fields of an object lie in its range.
pub proof fn lemma_fields_in(s: Seq<char>, t: Seq<Token>, k: int, hi: int, es: Seq<int>)
    requires
        spec_fields(s, t, k, hi) == Some(es),
    ensures
        forall|m: int| 0 <= m < es.len() ==> k <= #[trigger] es[m] && es[m] + 2 <= hi,
    decreases hi - k,
{
    if k < hi {
        let e = spec_value_end(s, t, k + 2, hi)->0;
        let next = if e < hi && is_punct_tok(t[e], ',') {
            e + 1
        } else {
            e
        };
        let r = spec_fields(s, t, next, hi)->0;
        lemma_fields_in(s, t, next, hi, r);
        assert(es == seq![k] + r);
        assert forall|m: int| 0 <= m < es.len() implies k <= #[trigger] es[m] && es[m] + 2 <= hi by {
            if m > 0 {
                assert(es[m] == r[m - 1]);
            }
        }
    }
}

/// The entries of a block lie in its range.
pub proof fn lemma_entries_in(s: Seq<char>, t: Seq<Token>, k: int, hi: int, es: Seq<int>)
    requires
        spec_entries(s, t, k, hi) == Some(es),
    ensures
        forall|m: int| 0 <= m < es.len() ==> k <= #[trigger] es[m] < hi,
    decreases hi - k,
{
    if k != hi {
        let e = spec_entry_end(s, t, k, hi)->0;
        let next = if e < hi && is_punct_tok(t[e], ',') {
            e + 1
        } else {
            e
        };
        let r = spec_entries(s, t, next, hi)->0;
        lemma_entries_in(s, t, next, hi, r);
        assert(es == seq![k] + r);
        assert forall|m: int| 0 <= m < es.len() implies k <= #[trigger] es[m] < hi by {
            if m > 0 {
                assert(es[m] == r[m - 1]);
            }
        }
    }
}

/// Each token ends before the next starts.
pub open spec fn tokens_sorted(t: Seq<Token>) -> bool {
    forall|a: int, b: int| 0 <= a < b < t.len() ==> (#[trigger] t[a]).hi <= (#[trigger] t[b]).lo
}

/// Every token covers a range of the text.
pub open spec fn tokens_in(s: Seq<char>, t: Seq<Token>) -> bool {
    forall|j: int| 0 <= j < t.len() ==> (#[trigger] t[j]).lo <= t[j].hi <= s.len()
}

fn closer_char(c: char) -> (r: char)
    ensures
        r == closer_of(c),
{
    if c == '{' {
        '}'
    } else if c == '[' {
        ']'
    } else {
        ')'
    }
}

/// The position of the bracket that closes the one opened at `k`.
pub fn match_bracket(toks: &Vec<Token>, k: usize) -> (r: Option<usize>)
    ensures
        match r {
            Some(c) => spec_match(toks@, k as int) == Some(c as int),
            None => spec_match(toks@, k as int) is None,
        },
{
    if k >= toks.len() {
        return None;
    }
    let open = match toks[k].kind {
        TokenKind::Punct(c) => c,
        _ => {
            return None;
        },
    };
    if !(open == '{' || open == '[' || open == '(') {
        return None;
    }
    let mut stack: Vec<char> = Vec::new();
    stack.push(closer_char(open));
    let mut i = k + 1;
    while i < toks.len()
        invariant
            k < i <= toks.len(),
            stack@.len() > 0,
            spec_match(toks@, k as int) == spec_close(toks@, i as int, stack@),
        decreases toks.len() - i,
    {
        match toks[i].kind {
            TokenKind::Punct(c) => {
                if c == '{' || c == '[' || c == '(' {
                    stack.push(closer_char(c));
                } else if c == '}' || c == ']' || c == ')' {
                    let top = stack[stack.len() - 1];
                    if top != c {
                        return None;
                    }
                    if stack.len() == 1 {
                        return Some(i);
                    }
                    let ghost before = stack@;
                    stack.pop();
                    assert(stack@ =~= before.drop_last());
                }
            },
            _ => {},
        }
        i = i + 1;
    }
    None
}

/// Whether a line ends between token `i - 1` and token `i`.
pub fn has_newline_before(v: &Vec<char>, toks: &Vec<Token>, i: usize) -> (b: bool)
    requires
        0 < i < toks.len(),
        tokens_in(v@, toks@),
    ensures
        b == newline_before(v@, toks@, i as int),
{
    let lo = toks[i - 1].hi;
    let hi = toks[i].lo;
    let mut p = lo;
    while p < hi
        invariant
            0 < i < toks.len(),
            lo == toks@[i - 1].hi,
            hi == toks@[i as int].lo,
            lo <= p,
            hi <= v.len(),
            forall|q: int| lo <= q < p ==> v@[q] != '\n',
        decreases hi - p,
    {
        if v[p] == '\n' {
            assert(toks@[i - 1].hi <= p < toks@[i as int].lo && v@[p as int] == '\n');
            return true;
        }
        p = p + 1;
    }
    false
}

fn is_text(t: Token) -> (b: bool)
    ensures
        b == is_text_tok(t),
{
    t.kind == TokenKind::Word || t.kind == TokenKind::Str
}

/// Where the head that continues at `j` ends.
pub fn head_end(v: &Vec<char>, toks: &Vec<Token>, j: usize, hi: usize) -> (r: usize)
    requires
        0 < j,
        hi <= toks.len(),
        tokens_in(v@, toks@),
    ensures
        r as int == spec_head_end(v@, toks@, j as int, hi as int),
        j <= r,
        j <= hi ==> r <= hi,
{
    let mut k = j;
    while k < hi && is_text(toks[k]) && !has_newline_before(v, toks, k)
        invariant
            0 < j <= k,
            j <= hi ==> k <= hi,
            hi <= toks.len(),
            tokens_in(v@, toks@),
            spec_head_end(v@, toks@, j as int, hi as int) == spec_head_end(v@, toks@, k as int, hi as int),
        decreases hi - k,
    {
        k = k + 1;
    }
    k
}

/// The end of the bracket group opened at `j`, if it closes before `hi`.
pub fn group_end(toks: &Vec<Token>, j: usize, hi: usize) -> (r: Option<usize>)
    ensures
        match r {
            Some(e) => spec_group_end(toks@, j as int, hi as int) == Some(e as int),
            None => spec_group_end(toks@, j as int, hi as int) is None,
        },
{
    match match_bracket(toks, j) {
        Some(c) => if j < c && c < hi {
            Some(c + 1)
        } else {
            None
        },
        None => None,
    }
}

/// Where the value that starts at `j` ends.
pub fn value_end(v: &Vec<char>, toks: &Vec<Token>, j: usize, hi: usize) -> (r: Option<usize>)
    requires
        tokens_in(v@, toks@),
    ensures
        match r {
            Some(e) => spec_value_end(v@, toks@, j as int, hi as int) == Some(e as int) && j < e <= hi,
            None => spec_value_end(v@, toks@, j as int, hi as int) is None,
        },
{
    if j >= hi || hi > toks.len() {
        return None;
    }
    let t = toks[j];
    if t.kind == TokenKind::Word && j + 1 < hi && toks[j + 1].kind == TokenKind::Punct('(') {
        group_end(toks, j + 1, hi)
    } else if is_text(t) {
        Some(j + 1)
    } else if t.kind == TokenKind::Punct('[') || t.kind == TokenKind::Punct('{') {
        group_end(toks, j, hi)
    } else {
        None
    }
}

/// Whether the token at `x` is the word `->`.
pub fn arrow_at(v: &Vec<char>, toks: &Vec<Token>, x: usize, hi: usize) -> (b: bool)
    requires
        tokens_in(v@, toks@),
    ensures
        b == is_arrow_at(v@, toks@, x as int, hi as int),
{
    if x >= hi || x >= toks.len() {
        return false;
    }
    let t = toks[x];
    t.kind == TokenKind::Word && t.hi - t.lo == 2 && v[t.lo] == '-' && v[t.lo + 1] == '>'
}

/// Where the entry that starts at `k` ends.
pub fn entry_end(v: &Vec<char>, toks: &Vec<Token>, k: usize, hi: usize) -> (r: Option<usize>)
    requires
        tokens_in(v@, toks@),
    ensures
        match r {
            Some(e) => spec_entry_end(v@, toks@, k as int, hi as int) == Some(e as int),
            None => spec_entry_end(v@, toks@, k as int, hi as int) is None,
        },
{
    if k >= hi || hi > toks.len() || !is_text(toks[k]) {
        return None;
    }
    let h = head_end(v, toks, k + 1, hi);
    if h < hi && toks[h].kind == TokenKind::Punct('=') {
        match value_end(v, toks, h + 1, hi) {
            Some(x) => if arrow_at(v, toks, x, hi) {
                value_end(v, toks, x + 1, hi)
            } else {
                Some(x)
            },
            None => None,
        }
    } else if h < hi && toks[h].kind == TokenKind::Punct('{') {
        group_end(toks, h, hi)
    } else if h == hi || is_text(toks[h]) {
        Some(h)
    } else {
        None
    }
}

/// The starts of the entries from `k` to `hi`.
pub fn entries(v: &Vec<char>, toks: &Vec<Token>, k: usize, hi: usize) -> (r: Option<Vec<usize>>)
    requires
        k <= hi <= toks.len(),
        tokens_in(v@, toks@),
    ensures
        match r {
            Some(es) => spec_entries(v@, toks@, k as int, hi as int) == Some(
                es@.map_values(|e: usize| e as int),
            ),
            None => spec_entries(v@, toks@, k as int, hi as int) is None,
        },
{
    let mut out: Vec<usize> = Vec::new();
    let mut i = k;
    while i < hi
        invariant
            k <= i <= hi,
            hi <= toks.len(),
            tokens_in(v@, toks@),
            spec_entries(v@, toks@, k as int, hi as int) == match spec_entries(
                v@,
                toks@,
                i as int,
                hi as int,
            ) {
                Some(r) => Some(out@.map_values(|e: usize| e as int) + r),
                None => None::<Seq<int>>,
            },
        decreases hi - i,
    {
        match entry_end(v, toks, i, hi) {
            Some(e) => {
                if !(i < e && e <= hi) {
                    return None;
                }
                let next = if e < hi && toks[e].kind == TokenKind::Punct(',') {
                    e + 1
                } else {
                    e
                };
                proof {
                    match spec_entries(v@, toks@, next as int, hi as int) {
                        Some(r) => {
                            assert(out@.map_values(|x: usize| x as int) + (seq![i as int] + r)
                                =~= out@.push(i).map_values(|x: usize| x as int) + r);
                        },
                        None => {},
                    }
                }
                out.push(i);
                i = next;
            },
            None => {
                return None;
            },
        }
    }
    assert(out@.map_values(|e: usize| e as int) + Seq::<int>::empty() =~= out@.map_values(
        |e: usize| e as int,
    ));
    Some(out)
}

/// The starts of the comma-separated values from `k` to `hi`.
pub fn items(v: &Vec<char>, toks: &Vec<Token>, k: usize, hi: usize) -> (r: Option<Vec<usize>>)
    requires
        k <= hi <= toks.len(),
        tokens_in(v@, toks@),
    ensures
        match r {
            Some(es) => spec_items(v@, toks@, k as int, hi as int) == Some(
                es@.map_values(|e: usize| e as int),
            ),
            None => spec_items(v@, toks@, k as int, hi as int) is None,
        },
{
    let mut out: Vec<usize> = Vec::new();
    let mut i = k;
    while i < hi
        invariant
            k <= i,
            hi <= toks.len(),
            tokens_in(v@, toks@),
            spec_items(v@, toks@, k as int, hi as int) == match spec_items(
                v@,
                toks@,
                i as int,
                hi as int,
            ) {
                Some(r) => Some(out@.map_values(|e: usize| e as int) + r),
                None => None::<Seq<int>>,
            },
        decreases hi - i,
    {
        match value_end(v, toks, i, hi) {
            Some(e) => {
                if e == hi {
                    proof {
                        assert(out@.map_values(|x: usize| x as int) + seq![i as int]
                            =~= out@.push(i).map_values(|x: usize| x as int));
                    }
                    out.push(i);
                    return Some(out);
                }
                if toks[e].kind != TokenKind::Punct(',') {
                    return None;
                }
                proof {
                    match spec_items(v@, toks@, e + 1, hi as int) {
                        Some(r) => {
                            assert(out@.map_values(|x: usize| x as int) + (seq![i as int] + r)
                                =~= out@.push(i).map_values(|x: usize| x as int) + r);
                        },
                        None => {},
                    }
                }
                out.push(i);
                i = e + 1;
            },
            None => {
                return None;
            },
        }
    }
    assert(out@.map_values(|e: usize| e as int) + Seq::<int>::empty() =~= out@.map_values(
        |e: usize| e as int,
    ));
    Some(out)
}

/// The starts of the `key = value` fields from `k` to `hi`.
pub fn fields(v: &Vec<char>, toks: &Vec<Token>, k: usize, hi: usize) -> (r: Option<Vec<usize>>)
    requires
        k <= hi <= toks.len(),
        tokens_in(v@, toks@),
    ensures
        match r {
            Some(es) => spec_fields(v@, toks@, k as int, hi as int) == Some(
                es@.map_values(|e: usize| e as int),
            ),
            None => spec_fields(v@, toks@, k as int, hi as int) is None,
        },
{
    let mut out: Vec<usize> = Vec::new();
    let mut i = k;
    while i < hi
        invariant
            k <= i,
            hi <= toks.len(),
            tokens_in(v@, toks@),
            spec_fields(v@, toks@, k as int, hi as int) == match spec_fields(
                v@,
                toks@,
                i as int,
                hi as int,
            ) {
                Some(r) => Some(out@.map_values(|e: usize| e as int) + r),
                None => None::<Seq<int>>,
            },
        decreases hi - i,
    {
        if i + 1 >= hi || !is_text(toks[i]) || toks[i + 1].kind != TokenKind::Punct('=') {
            return None;
        }
        match value_end(v, toks, i + 2, hi) {
            Some(e) => {
                let next = if e < hi && toks[e].kind == TokenKind::Punct(',') {
                    e + 1
                } else {
                    e
                };
                proof {
                    match spec_fields(v@, toks@, next as int, hi as int) {
                        Some(r) => {
                            assert(out@.map_values(|x: usize| x as int) + (seq![i as int] + r)
                                =~= out@.push(i).map_values(|x: usize| x as int) + r);
                        },
                        None => {},
                    }
                }
                out.push(i);
                i = next;
            },
            None => {
                return None;
            },
        }
    }
    assert(out@.map_values(|e: usize| e as int) + Seq::<int>::empty() =~= out@.map_values(
        |e: usize| e as int,
    ));
    Some(out)
}

} // verus!
