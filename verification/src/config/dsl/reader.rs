//! Reading the entries of a block: which entry sets a field, and what its
//! value says.
use vstd::prelude::*;
use vstd::string::StrSliceExecFns;

use std::time::Duration;

use crate::text::{parse_unsigned, range_eq};
use crate::time::spec_duration_from_millis;

use super::lexer::{Token, TokenKind};
use super::parser::{spec_duration_millis, tok_text};
use super::syntax::{
    group_end, head_end, is_punct_tok, is_text_tok, items, spec_fields, spec_group_end,
    spec_head_end, spec_items, spec_match, spec_value_end, tokens_in, tokens_sorted, value_end,
};

verus! {

/// The last of the entries `es` whose key (first token) reads `key`.
pub open spec fn spec_last_key(s: Seq<char>, t: Seq<Token>, es: Seq<int>, key: Seq<char>) -> Option<
    int,
>
    decreases es.len(),
{
    if es.len() == 0 {
        None
    } else if tok_text(s, t[es.last()]) == key {
        Some(es.last())
    } else {
        spec_last_key(s, t, es.drop_last(), key)
    }
}

/// The last of the entries `es` whose key reads `k1` or `k2`.
pub open spec fn spec_last_key2(
    s: Seq<char>,
    t: Seq<Token>,
    es: Seq<int>,
    k1: Seq<char>,
    k2: Seq<char>,
) -> Option<int>
    decreases es.len(),
{
    if es.len() == 0 {
        None
    } else if tok_text(s, t[es.last()]) == k1 || tok_text(s, t[es.last()]) == k2 {
        Some(es.last())
    } else {
        spec_last_key2(s, t, es.drop_last(), k1, k2)
    }
}

pub proof fn lemma_last_key2_step(
    s: Seq<char>,
    t: Seq<Token>,
    es: Seq<int>,
    i: int,
    k1: Seq<char>,
    k2: Seq<char>,
)
    requires
        0 <= i < es.len(),
    ensures
        spec_last_key2(s, t, es.take(i + 1), k1, k2) == if tok_text(s, t[es[i]]) == k1 || tok_text(
            s,
            t[es[i]],
        ) == k2 {
            Some(es[i])
        } else {
            spec_last_key2(s, t, es.take(i), k1, k2)
        },
{
    assert(es.take(i + 1).drop_last() =~= es.take(i));
}

/// The first of the entries `es` that `ok` refuses.
pub open spec fn spec_first_bad(es: Seq<int>, ok: spec_fn(int) -> bool) -> Option<int>
    decreases es.len(),
{
    if es.len() == 0 {
        None
    } else if !ok(es[0]) {
        Some(es[0])
    } else {
        spec_first_bad(es.drop_first(), ok)
    }
}

/// The entry at `e` is `key = value` with a one-token value (a word or a
/// string that is not a call).
pub open spec fn is_text_assign(s: Seq<char>, t: Seq<Token>, e: int, hi: int) -> bool {
    &&& e + 3 <= hi
    &&& spec_head_end(s, t, e + 1, hi) == e + 1
    &&& is_punct_tok(t[e + 1], '=')
    &&& spec_value_end(s, t, e + 2, hi) == Some(e + 3)
}

/// The entry at `e` is `key = [ ... ]`.
pub open spec fn is_list_assign(s: Seq<char>, t: Seq<Token>, e: int, hi: int) -> bool {
    &&& e + 2 < hi
    &&& spec_head_end(s, t, e + 1, hi) == e + 1
    &&& is_punct_tok(t[e + 1], '=')
    &&& is_punct_tok(t[e + 2], '[')
    &&& spec_group_end(t, e + 2, hi) is Some
}

/// The entry at `e` is `key = { ... }`.
pub open spec fn is_object_assign(s: Seq<char>, t: Seq<Token>, e: int, hi: int) -> bool {
    &&& e + 2 < hi
    &&& spec_head_end(s, t, e + 1, hi) == e + 1
    &&& is_punct_tok(t[e + 1], '=')
    &&& is_punct_tok(t[e + 2], '{')
    &&& spec_group_end(t, e + 2, hi) is Some
}

/// The entry at `e` is `key { ... }`, or with `args` strings or words
/// between the key and the brace.
pub open spec fn is_block_entry(s: Seq<char>, t: Seq<Token>, e: int, hi: int, args: int) -> bool {
    &&& e + args + 1 < hi
    &&& spec_head_end(s, t, e + 1, hi) == e + args + 1
    &&& is_punct_tok(t[e + args + 1], '{')
    &&& spec_group_end(t, e + args + 1, hi) is Some
}

/// The tokens inside the braces of a block entry: from after `{` to `}`.
pub open spec fn block_range(t: Seq<Token>, e: int, args: int) -> (int, int) {
    let open = e + args + 1;
    match spec_match(t, open) {
        Some(c) => (open + 1, c),
        None => (open + 1, open + 1),
    }
}

/// The tokens inside the braces of `key = { ... }` at `e`.
pub open spec fn object_range(t: Seq<Token>, e: int) -> (int, int) {
    match spec_match(t, e + 2) {
        Some(c) => (e + 3, c),
        None => (e + 3, e + 3),
    }
}

/// The entry at `e` is a head of `n` tokens alone on its line.
pub open spec fn is_head_only(s: Seq<char>, t: Seq<Token>, e: int, hi: int, n: int) -> bool {
    e + n <= hi && spec_head_end(s, t, e + 1, hi) == e + n && (e + n == hi || is_text_tok(t[e + n]))
}

/// The entry at `e` is `key "value"` or `key = value`.
pub open spec fn is_directive(s: Seq<char>, t: Seq<Token>, e: int, hi: int) -> bool {
    is_text_assign(s, t, e, hi) || (is_head_only(s, t, e, hi, 2) && t[e + 1].kind == TokenKind::Str)
}

/// The value of a directive.
pub open spec fn directive_text(s: Seq<char>, t: Seq<Token>, e: int, hi: int) -> Seq<char> {
    if is_text_assign(s, t, e, hi) {
        assign_text(s, t, e)
    } else {
        tok_text(s, t[e + 1])
    }
}

/// The value of a directive set by the entry `last`, if any.
pub open spec fn directive_field(s: Seq<char>, t: Seq<Token>, hi: int, last: Option<int>) -> Option<
    Seq<char>,
> {
    match last {
        Some(e) => Some(directive_text(s, t, e, hi)),
        None => None,
    }
}

/// The entry at `e` is `key = "from" -> "to"`.
pub open spec fn is_arrow_assign(s: Seq<char>, t: Seq<Token>, e: int, hi: int) -> bool {
    &&& e + 5 <= hi
    &&& spec_head_end(s, t, e + 1, hi) == e + 1
    &&& is_punct_tok(t[e + 1], '=')
    &&& t[e + 2].kind == TokenKind::Str
    &&& t[e + 3].kind == TokenKind::Word
    &&& tok_text(s, t[e + 3]) == "->"@
    &&& t[e + 4].kind == TokenKind::Str
}

/// The entry at `e` is `key = "from" -> "to"`, `key "from" -> "to"` or
/// `key "from" "to"`.
pub open spec fn is_replace(s: Seq<char>, t: Seq<Token>, e: int, hi: int) -> bool {
    ||| is_arrow_assign(s, t, e, hi)
    ||| is_head_only(s, t, e, hi, 4) && t[e + 1].kind == TokenKind::Str && t[e + 2].kind
        == TokenKind::Word && tok_text(s, t[e + 2]) == "->"@ && t[e + 3].kind == TokenKind::Str
    ||| is_head_only(s, t, e, hi, 3) && t[e + 1].kind == TokenKind::Str && t[e + 2].kind
        == TokenKind::Str
}

/// The pair that a replacement entry gives.
pub open spec fn replace_pair(s: Seq<char>, t: Seq<Token>, e: int, hi: int) -> (Seq<char>, Seq<char>) {
    if is_punct_tok(t[e + 1], '=') {
        (tok_text(s, t[e + 2]), tok_text(s, t[e + 4]))
    } else if spec_head_end(s, t, e + 1, hi) == e + 4 {
        (tok_text(s, t[e + 1]), tok_text(s, t[e + 3]))
    } else {
        (tok_text(s, t[e + 1]), tok_text(s, t[e + 2]))
    }
}

/// The pairs that the entries `es` with key `k` (replacements) give, in order.
pub open spec fn acc_replaces(s: Seq<char>, t: Seq<Token>, es: Seq<int>, hi: int, k: Seq<char>) -> Seq<
    (Seq<char>, Seq<char>),
>
    decreases es.len(),
{
    if es.len() == 0 {
        Seq::empty()
    } else {
        let e = es.last();
        acc_replaces(s, t, es.drop_last(), hi, k) + if tok_text(s, t[e]) == k {
            seq![replace_pair(s, t, e, hi)]
        } else {
            Seq::empty()
        }
    }
}

pub proof fn lemma_acc_replaces_step(s: Seq<char>, t: Seq<Token>, es: Seq<int>, i: int, hi: int, k: Seq<char>)
    requires
        0 <= i < es.len(),
    ensures
        acc_replaces(s, t, es.take(i + 1), hi, k) == acc_replaces(s, t, es.take(i), hi, k) + if tok_text(
            s,
            t[es[i]],
        ) == k {
            seq![replace_pair(s, t, es[i], hi)]
        } else {
            Seq::empty()
        },
{
    assert(es.take(i + 1).drop_last() =~= es.take(i));
}

/// Whether the entry at `e` is a head of `n` tokens alone on its line.
pub fn head_only(v: &Vec<char>, toks: &Vec<Token>, e: usize, hi: usize, n: usize) -> (b: bool)
    requires
        e < hi <= toks.len(),
        n <= 4,
        tokens_in(v@, toks@),
    ensures
        b == is_head_only(v@, toks@, e as int, hi as int, n as int),
{
    if hi - e < n {
        return false;
    }
    head_end(v, toks, e + 1, hi) == e + n && (e + n == hi || toks[e + n].kind == TokenKind::Word
        || toks[e + n].kind == TokenKind::Str)
}

/// Whether the entry at `e` is `key = "from" -> "to"`.
pub fn arrow_assign(v: &Vec<char>, toks: &Vec<Token>, e: usize, hi: usize) -> (b: bool)
    requires
        e < hi <= toks.len(),
        tokens_in(v@, toks@),
    ensures
        b == is_arrow_assign(v@, toks@, e as int, hi as int),
{
    proof {
        reveal_strlit("->");
    }
    if hi - e < 5 {
        return false;
    }
    head_end(v, toks, e + 1, hi) == e + 1 && toks[e + 1].kind == TokenKind::Punct('=') && toks[e
        + 2].kind == TokenKind::Str && toks[e + 3].kind == TokenKind::Word && range_eq(
        v,
        toks[e + 3].lo,
        toks[e + 3].hi,
        "->",
    ) && toks[e + 4].kind == TokenKind::Str
}

/// Whether the field at `f` of an object is `key = value` with a one-token value.
pub open spec fn is_pair_field(s: Seq<char>, t: Seq<Token>, f: int, hi: int) -> bool {
    spec_value_end(s, t, f + 2, hi) == Some(f + 3)
}

/// Whether the object from `lo` to `hi` holds only `key = value` pairs with
/// one-token values.
pub open spec fn pairs_ok(s: Seq<char>, t: Seq<Token>, lo: int, hi: int) -> bool {
    match spec_fields(s, t, lo, hi) {
        Some(fs) => pair_fields_ok(s, t, fs, hi),
        None => false,
    }
}

pub open spec fn pair_fields_ok(s: Seq<char>, t: Seq<Token>, fs: Seq<int>, hi: int) -> bool {
    forall|m: int| 0 <= m < fs.len() ==> is_pair_field(s, t, #[trigger] fs[m], hi)
}

/// The pairs of such an object, in order.
pub open spec fn pairs_of(s: Seq<char>, t: Seq<Token>, lo: int, hi: int) -> Seq<(Seq<char>, Seq<char>)> {
    match spec_fields(s, t, lo, hi) {
        Some(fs) => fs.map_values(|f: int| (tok_text(s, t[f]), tok_text(s, t[f + 2]))),
        None => Seq::empty(),
    }
}

pub open spec fn view_pairs(v: Seq<(&str, &str)>) -> Seq<(Seq<char>, Seq<char>)> {
    v.map_values(|p: (&str, &str)| (p.0@, p.1@))
}

/// The pairs that the entries `es` with key `k1` or `k2` (each `key = { ... }`)
/// add, in order.
pub open spec fn acc_pairs(
    s: Seq<char>,
    t: Seq<Token>,
    es: Seq<int>,
    k1: Seq<char>,
    k2: Seq<char>,
) -> Seq<(Seq<char>, Seq<char>)>
    decreases es.len(),
{
    if es.len() == 0 {
        Seq::empty()
    } else {
        let e = es.last();
        acc_pairs(s, t, es.drop_last(), k1, k2) + if tok_text(s, t[e]) == k1 || tok_text(s, t[e]) == k2 {
            pairs_of(s, t, object_range(t, e).0, object_range(t, e).1)
        } else {
            Seq::empty()
        }
    }
}

pub proof fn lemma_acc_pairs_step(
    s: Seq<char>,
    t: Seq<Token>,
    es: Seq<int>,
    i: int,
    k1: Seq<char>,
    k2: Seq<char>,
)
    requires
        0 <= i < es.len(),
    ensures
        acc_pairs(s, t, es.take(i + 1), k1, k2) == acc_pairs(s, t, es.take(i), k1, k2) + if tok_text(
            s,
            t[es[i]],
        ) == k1 || tok_text(s, t[es[i]]) == k2 {
            pairs_of(s, t, object_range(t, es[i]).0, object_range(t, es[i]).1)
        } else {
            Seq::empty()
        },
{
    assert(es.take(i + 1).drop_last() =~= es.take(i));
}

/// Reads the pairs of the object from `lo` to `hi`.
pub fn read_pairs<'a>(input: &'a str, v: &Vec<char>, toks: &Vec<Token>, lo: usize, hi: usize) -> (r: Option<
    Vec<(&'a str, &'a str)>,
>)
    requires
        lo <= hi <= toks.len(),
        v@ == input@,
        tokens_in(v@, toks@),
    ensures
        match r {
            Some(ps) => pairs_ok(v@, toks@, lo as int, hi as int) && view_pairs(ps@) == pairs_of(
                v@,
                toks@,
                lo as int,
                hi as int,
            ),
            None => !pairs_ok(v@, toks@, lo as int, hi as int),
        },
{
    let fs = match super::syntax::fields(v, toks, lo, hi) {
        Some(fs) => fs,
        None => {
            return None;
        },
    };
    let ghost fseq = fs@.map_values(|e: usize| e as int);
    proof {
        super::syntax::lemma_fields_in(v@, toks@, lo as int, hi as int, fseq);
    }
    let mut out: Vec<(&'a str, &'a str)> = Vec::new();
    let mut n: usize = 0;
    while n < fs.len()
        invariant
            n <= fs.len(),
            lo <= hi <= toks.len(),
            v@ == input@,
            tokens_in(v@, toks@),
            fseq == fs@.map_values(|e: usize| e as int),
            super::syntax::spec_fields(v@, toks@, lo as int, hi as int) == Some(fseq),
            forall|m: int| 0 <= m < fs.len() ==> lo <= #[trigger] fseq[m] && fseq[m] + 2 <= hi,
            forall|m: int| 0 <= m < n ==> is_pair_field(v@, toks@, #[trigger] fseq[m], hi as int),
            view_pairs(out@) == fseq.take(n as int).map_values(
                |f: int| (tok_text(v@, toks@[f]), tok_text(v@, toks@[f + 2])),
            ),
        decreases fs.len() - n,
    {
        let f = fs[n];
        assert(fseq[n as int] == f as int);
        match value_end(v, toks, f + 2, hi) {
            Some(x) => {
                if x != f + 3 {
                    assert(!is_pair_field(v@, toks@, fseq[n as int], hi as int));
                    assert(!pair_fields_ok(v@, toks@, fseq, hi as int));
                    return None;
                }
            },
            None => {
                assert(!is_pair_field(v@, toks@, fseq[n as int], hi as int));
                assert(!pair_fields_ok(v@, toks@, fseq, hi as int));
                return None;
            },
        }
        let k = text_of(input, v, toks, f);
        let val = text_of(input, v, toks, f + 2);
        let ghost before = out@;
        out.push((k, val));
        assert(fseq.take(n + 1) =~= fseq.take(n as int).push(f as int));
        assert(view_pairs(out@) =~= view_pairs(before).push((k@, val@)));
        n = n + 1;
    }
    assert(fseq.take(fs.len() as int) =~= fseq);
    Some(out)
}

/// The text of the one-token value of `key = value` at `e`.
pub open spec fn assign_text(s: Seq<char>, t: Seq<Token>, e: int) -> Seq<char> {
    tok_text(s, t[e + 2])
}

/// The values of a list `[ ... ]` that opens at `open`, each a word or a
/// string; other items are left out.
pub open spec fn list_texts(s: Seq<char>, t: Seq<Token>, open: int) -> Option<Seq<Seq<char>>> {
    match spec_match(t, open) {
        Some(c) => match spec_items(s, t, open + 1, c) {
            Some(is) => Some(
                is.filter(|i: int| is_text_tok(t[i]) && !(t[i].kind == TokenKind::Word && i + 1 < c
                    && is_punct_tok(t[i + 1], '('))).map_values(|i: int| tok_text(s, t[i])),
            ),
            None => None,
        },
        None => None,
    }
}

pub open spec fn view_strs(v: Seq<&str>) -> Seq<Seq<char>> {
    v.map_values(|x: &str| x@)
}

pub open spec fn opt_text(o: Option<&str>) -> Option<Seq<char>> {
    match o {
        Some(x) => Some(x@),
        None => None,
    }
}

/// The entry at `e` is `key = value`, with any value.
pub open spec fn is_value_assign(s: Seq<char>, t: Seq<Token>, e: int, hi: int) -> bool {
    &&& e + 2 < hi
    &&& spec_head_end(s, t, e + 1, hi) == e + 1
    &&& is_punct_tok(t[e + 1], '=')
    &&& spec_value_end(s, t, e + 2, hi) is Some
}

/// The text of the value of `key = value` at `e`: a word, the inside of a
/// string, or the whole written text of a list, object or call.
pub open spec fn value_text(s: Seq<char>, t: Seq<Token>, e: int, hi: int) -> Seq<char> {
    let j = e + 2;
    match spec_value_end(s, t, j, hi) {
        Some(x) => if x == j + 1 {
            tok_text(s, t[j])
        } else {
            s.subrange(t[j].lo as int, t[x - 1].hi as int)
        },
        None => Seq::empty(),
    }
}

/// The value text of a field set by the entry `last`, if any.
pub open spec fn raw_field(s: Seq<char>, t: Seq<Token>, hi: int, last: Option<int>) -> Option<
    Seq<char>,
> {
    match last {
        Some(e) => Some(value_text(s, t, e, hi)),
        None => None,
    }
}

/// Whether the entry at `e` is `key = value`.
pub fn value_assign(v: &Vec<char>, toks: &Vec<Token>, e: usize, hi: usize) -> (b: bool)
    requires
        e < hi <= toks.len(),
        tokens_in(v@, toks@),
    ensures
        b == is_value_assign(v@, toks@, e as int, hi as int),
{
    if hi - e <= 2 {
        return false;
    }
    head_end(v, toks, e + 1, hi) == e + 1 && toks[e + 1].kind == TokenKind::Punct('=')
        && value_end(v, toks, e + 2, hi).is_some()
}

/// The text of the value of `key = value` at `e`, borrowed from `input`.
pub fn value_text_of<'a>(input: &'a str, v: &Vec<char>, toks: &Vec<Token>, e: usize, hi: usize) -> (r:
    &'a str)
    requires
        e < hi <= toks.len(),
        is_value_assign(v@, toks@, e as int, hi as int),
        v@ == input@,
        tokens_in(v@, toks@),
        tokens_sorted(toks@),
    ensures
        r@ == value_text(v@, toks@, e as int, hi as int),
{
    let j = e + 2;
    let x = value_end(v, toks, j, hi).unwrap();
    if x == j + 1 {
        text_of(input, v, toks, j)
    } else {
        assert(toks@[j as int].lo <= toks@[j as int].hi);
        if j < x - 1 {
            assert(toks@[j as int].hi <= toks@[x - 1].lo);
        }
        input.substring_char(toks[j].lo, toks[x - 1].hi)
    }
}

/// The value of a text field set by the entry `last`, if any.
pub open spec fn text_field(s: Seq<char>, t: Seq<Token>, last: Option<int>) -> Option<Seq<char>> {
    match last {
        Some(e) => Some(assign_text(s, t, e)),
        None => None,
    }
}

/// The values of a list field set by the entry `last`, none if unset.
pub open spec fn list_field(s: Seq<char>, t: Seq<Token>, last: Option<int>) -> Seq<Seq<char>> {
    match last {
        Some(e) => match list_texts(s, t, e + 2) {
            Some(x) => x,
            None => Seq::empty(),
        },
        None => Seq::empty(),
    }
}

/// A flag set by the entry `last`: whether its value reads `true`.
pub open spec fn bool_field(s: Seq<char>, t: Seq<Token>, last: Option<int>) -> Option<bool> {
    match last {
        Some(e) => Some(assign_text(s, t, e) == "true"@),
        None => None,
    }
}

/// A number no larger than `max` set by the entry `last`; a value that is
/// not such a number counts as unset.
pub open spec fn number_field(s: Seq<char>, t: Seq<Token>, last: Option<int>, max: int) -> Option<
    int,
> {
    match last {
        Some(e) => parse_unsigned(assign_text(s, t, e), max),
        None => None,
    }
}

/// A duration set by the entry `last`; a value that is not a duration
/// counts as unset.
pub open spec fn duration_field(s: Seq<char>, t: Seq<Token>, last: Option<int>) -> Option<Duration> {
    match last {
        Some(e) => match spec_duration_millis(assign_text(s, t, e)) {
            Ok(ms) => Some(spec_duration_from_millis(ms)),
            Err(_) => None,
        },
        None => None,
    }
}

pub open spec fn opt_int<T>(o: Option<T>, f: spec_fn(T) -> int) -> Option<int> {
    match o {
        Some(x) => Some(f(x)),
        None => None,
    }
}

/// One more entry: the last entry with a key is the new one if it has that key.
pub proof fn lemma_last_key_step(s: Seq<char>, t: Seq<Token>, es: Seq<int>, i: int, key: Seq<char>)
    requires
        0 <= i < es.len(),
    ensures
        spec_last_key(s, t, es.take(i + 1), key) == if tok_text(s, t[es[i]]) == key {
            Some(es[i])
        } else {
            spec_last_key(s, t, es.take(i), key)
        },
{
    assert(es.take(i + 1).drop_last() =~= es.take(i));
}

/// While every entry before `i` is accepted, the first refused entry is at
/// or after `i`.
pub proof fn lemma_first_bad(es: Seq<int>, ok: spec_fn(int) -> bool, i: int)
    requires
        0 <= i <= es.len(),
        forall|m: int| 0 <= m < i ==> ok(#[trigger] es[m]),
    ensures
        i == es.len() ==> spec_first_bad(es, ok) is None,
        i < es.len() && !ok(es[i]) ==> spec_first_bad(es, ok) == Some(es[i]),
    decreases es.len(),
{
    if es.len() > 0 && i > 0 {
        let r = es.drop_first();
        assert forall|m: int| 0 <= m < i - 1 implies ok(#[trigger] r[m]) by {
            assert(r[m] == es[m + 1]);
        }
        lemma_first_bad(r, ok, i - 1);
        if i < es.len() {
            assert(r[i - 1] == es[i]);
        }
    }
}

/// The text of token `j`, borrowed from `input`.
pub fn text_of<'a>(input: &'a str, v: &Vec<char>, toks: &Vec<Token>, j: usize) -> (r: &'a str)
    requires
        j < toks.len(),
        v@ == input@,
        tokens_in(v@, toks@),
    ensures
        r@ == tok_text(v@, toks@[j as int]),
{
    input.substring_char(toks[j].lo, toks[j].hi)
}

/// Whether the entry at `e` is `key = value` with a one-token value.
pub fn text_assign(v: &Vec<char>, toks: &Vec<Token>, e: usize, hi: usize) -> (b: bool)
    requires
        e < hi <= toks.len(),
        tokens_in(v@, toks@),
    ensures
        b == is_text_assign(v@, toks@, e as int, hi as int),
{
    if hi - e < 3 {
        return false;
    }
    head_end(v, toks, e + 1, hi) == e + 1 && toks[e + 1].kind == TokenKind::Punct('=') && match value_end(
        v,
        toks,
        e + 2,
        hi,
    ) {
        Some(x) => x == e + 3,
        None => false,
    }
}

/// Whether the entry at `e` is `key = [ ... ]`.
pub fn list_assign(v: &Vec<char>, toks: &Vec<Token>, e: usize, hi: usize) -> (b: bool)
    requires
        e < hi <= toks.len(),
        tokens_in(v@, toks@),
    ensures
        b == is_list_assign(v@, toks@, e as int, hi as int),
{
    if hi - e <= 2 {
        return false;
    }
    head_end(v, toks, e + 1, hi) == e + 1 && toks[e + 1].kind == TokenKind::Punct('=')
        && toks[e + 2].kind == TokenKind::Punct('[') && group_end(toks, e + 2, hi).is_some()
}

/// Whether the entry at `e` is `key = { ... }`.
pub fn object_assign(v: &Vec<char>, toks: &Vec<Token>, e: usize, hi: usize) -> (b: bool)
    requires
        e < hi <= toks.len(),
        tokens_in(v@, toks@),
    ensures
        b == is_object_assign(v@, toks@, e as int, hi as int),
{
    if hi - e <= 2 {
        return false;
    }
    head_end(v, toks, e + 1, hi) == e + 1 && toks[e + 1].kind == TokenKind::Punct('=')
        && toks[e + 2].kind == TokenKind::Punct('{') && group_end(toks, e + 2, hi).is_some()
}

/// Whether the entry at `e` is a block with `args` head tokens after its key.
pub fn block_entry(v: &Vec<char>, toks: &Vec<Token>, e: usize, hi: usize, args: usize) -> (b: bool)
    requires
        e < hi <= toks.len(),
        args <= 2,
        tokens_in(v@, toks@),
    ensures
        b == is_block_entry(v@, toks@, e as int, hi as int, args as int),
{
    if hi - e <= args + 1 {
        return false;
    }
    head_end(v, toks, e + 1, hi) == e + args + 1 && toks[e + args + 1].kind == TokenKind::Punct('{')
        && group_end(toks, e + args + 1, hi).is_some()
}

/// The texts of the word and string items of the list that opens at `open`.
pub fn list_of_texts<'a>(input: &'a str, v: &Vec<char>, toks: &Vec<Token>, open: usize) -> (r: Option<
    Vec<&'a str>,
>)
    requires
        open < toks.len(),
        v@ == input@,
        tokens_in(v@, toks@),
    ensures
        match r {
            Some(xs) => list_texts(v@, toks@, open as int) == Some(view_strs(xs@)),
            None => list_texts(v@, toks@, open as int) is None,
        },
{
    let c = match super::syntax::match_bracket(toks, open) {
        Some(c) => c,
        None => {
            return None;
        },
    };
    proof {
        super::syntax::lemma_match_after(toks@, open as int);
    }
    let is = match items(v, toks, open + 1, c) {
        Some(is) => is,
        None => {
            return None;
        },
    };
    proof {
        super::syntax::lemma_items_in(v@, toks@, open + 1, c as int, is@.map_values(|e: usize| e as int));
        let iseq = is@.map_values(|e: usize| e as int);
        assert forall|m: int| 0 <= m < is.len() implies open < #[trigger] is@[m] < c by {
            assert(iseq[m] == is@[m] as int);
        }
    }
    let ghost iseq = is@.map_values(|e: usize| e as int);
    let ghost keep = |i: int| is_text_tok(toks@[i]) && !(toks@[i].kind == TokenKind::Word && i + 1
        < c && is_punct_tok(toks@[i + 1], '('));
    let ghost f = |i: int| tok_text(v@, toks@[i]);
    let mut out: Vec<&'a str> = Vec::new();
    let mut n: usize = 0;
    while n < is.len()
        invariant
            n <= is.len(),
            iseq == is@.map_values(|e: usize| e as int),
            forall|m: int| 0 <= m < is.len() ==> open < #[trigger] is@[m] < c,
            c < toks.len(),
            v@ == input@,
            tokens_in(v@, toks@),
            keep == (|i: int| is_text_tok(toks@[i]) && !(toks@[i].kind == TokenKind::Word && i + 1 < c
                && is_punct_tok(toks@[i + 1], '('))),
            f == (|i: int| tok_text(v@, toks@[i])),
            view_strs(out@) == iseq.take(n as int).filter(keep).map_values(f),
        decreases is.len() - n,
    {
        let i = is[n];
        proof {
            assert(iseq.take(n + 1) =~= iseq.take(n as int).push(i as int));
            iseq.take(n as int).lemma_filter_push(i as int, keep);
        }
        let t = toks[i];
        let is_call = t.kind == TokenKind::Word && i + 1 < c && toks[i + 1].kind == TokenKind::Punct(
            '(',
        );
        if (t.kind == TokenKind::Word || t.kind == TokenKind::Str) && !is_call {
            let x = text_of(input, v, toks, i);
            let ghost before = out@;
            out.push(x);
            assert(view_strs(out@) =~= view_strs(before).push(x@));
        }
        n = n + 1;
    }
    assert(iseq.take(is.len() as int) =~= iseq);
    Some(out)
}

} // verus!
