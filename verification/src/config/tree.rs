//! Configuration text as a tree of entries.
//!
//! This is the shape read by the gateway reader of `dsl_parser`: a block
//! holds entries, each a head of words and strings on one line, followed by
//! `= value`, by a block in braces, or by nothing. A value is a word or
//! string, a call `name(...)`, a named block `name { ... }`, a list `[...]`
//! or an object `{ key = value, ... }`. Commas may follow entries and
//! fields, and separate list items.
use vstd::prelude::*;

use crate::config::dsl::lexer::{lex, tokenize, Token, TokenKind};
use crate::config::dsl::parser::{lemma_lex_in_bounds, lemma_lex_sorted};
use crate::config::dsl::parser::tok_text;
use crate::config::dsl::reader::text_of;
use crate::config::dsl::syntax::{
    group_end, head_end, is_punct_tok, is_text_tok, lemma_match_after, newline_before,
    spec_group_end, spec_head_end, spec_match, tokens_in,
};
use crate::text::chars_of;

verus! {

/// A word or a string of the text (a string without its quotes).
#[derive(Debug, Clone)]
pub struct Atom {
    pub text: String,
    pub quoted: bool,
}

#[derive(Debug)]
pub enum Value {
    Text(Atom),
    List(Vec<Value>),
    Object(Vec<Field>),
    Call(Atom, Vec<Value>),
    Named(Atom, Vec<Entry>),
}

/// `key = value` inside an object.
#[derive(Debug)]
pub struct Field {
    pub key: Atom,
    pub value: Value,
}

#[derive(Debug)]
pub struct Entry {
    pub head: Vec<Atom>,
    pub body: Body,
}

#[derive(Debug)]
pub enum Body {
    Bare,
    Assign(Value),
    Block(Vec<Entry>),
}

// ============================================================================
// SHAPE
// ============================================================================

/// Where the value that starts at token `j` ends, if it is one and ends by `hi`.
pub open spec fn tree_value_end(t: Seq<Token>, j: int, hi: int) -> Option<int> {
    if j < 0 || j >= hi || hi > t.len() {
        None
    } else if t[j].kind == TokenKind::Word && j + 1 < hi && (is_punct_tok(t[j + 1], '(')
        || is_punct_tok(t[j + 1], '{')) {
        spec_group_end(t, j + 1, hi)
    } else if is_text_tok(t[j]) {
        Some(j + 1)
    } else if is_punct_tok(t[j], '[') || is_punct_tok(t[j], '{') {
        spec_group_end(t, j, hi)
    } else {
        None
    }
}

/// Tokens `j..e` form one value.
pub open spec fn value_span(t: Seq<Token>, j: int, e: int) -> bool {
    &&& 0 <= j < e <= t.len()
    &&& if t[j].kind == TokenKind::Word && j + 1 < e && (is_punct_tok(t[j + 1], '(')
        || is_punct_tok(t[j + 1], '{')) {
        spec_match(t, j + 1) == Some(e - 1)
    } else if is_text_tok(t[j]) {
        e == j + 1
    } else if is_punct_tok(t[j], '[') || is_punct_tok(t[j], '{') {
        spec_match(t, j) == Some(e - 1)
    } else {
        false
    }
}

/// Where the entry that starts at `k` ends, if it is one and ends by `hi`.
pub open spec fn tree_entry_end(s: Seq<char>, t: Seq<Token>, k: int, hi: int) -> Option<int> {
    if k < 0 || k >= hi || hi > t.len() || !is_text_tok(t[k]) {
        None
    } else {
        let h = spec_head_end(s, t, k + 1, hi);
        if h < hi && is_punct_tok(t[h], '=') {
            tree_value_end(t, h + 1, hi)
        } else if h < hi && is_punct_tok(t[h], '{') {
            spec_group_end(t, h, hi)
        } else if h == hi || is_text_tok(t[h]) {
            Some(h)
        } else {
            None
        }
    }
}

// ============================================================================
// TREES OF THE TEXT
// ============================================================================

/// `a` is token `j`, a word or a string.
pub open spec fn atom_is(a: Atom, s: Seq<char>, t: Seq<Token>, j: int) -> bool {
    &&& 0 <= j < t.len()
    &&& is_text_tok(t[j])
    &&& a.text@ == tok_text(s, t[j])
    &&& a.quoted == (t[j].kind == TokenKind::Str)
}

/// `hs` are the tokens `k..h`.
pub open spec fn atoms_are(hs: Seq<Atom>, s: Seq<char>, t: Seq<Token>, k: int, h: int) -> bool {
    &&& hs.len() == h - k
    &&& forall|i: int| 0 <= i < hs.len() ==> atom_is(#[trigger] hs[i], s, t, k + i)
}

/// `x` is the value of the tokens `j..e`.
pub open spec fn value_is(x: Value, s: Seq<char>, t: Seq<Token>, j: int, e: int) -> bool
    decreases x,
{
    if t[j].kind == TokenKind::Word && j + 1 < e && is_punct_tok(t[j + 1], '(') {
        match x {
            Value::Call(a, args) => atom_is(a, s, t, j) && items_are(args@, s, t, j + 2, e - 1),
            _ => false,
        }
    } else if t[j].kind == TokenKind::Word && j + 1 < e && is_punct_tok(t[j + 1], '{') {
        match x {
            Value::Named(a, es) => atom_is(a, s, t, j) && entries_are(es@, s, t, j + 2, e - 1),
            _ => false,
        }
    } else if is_text_tok(t[j]) {
        match x {
            Value::Text(a) => atom_is(a, s, t, j),
            _ => false,
        }
    } else if is_punct_tok(t[j], '[') {
        match x {
            Value::List(xs) => items_are(xs@, s, t, j + 1, e - 1),
            _ => false,
        }
    } else {
        match x {
            Value::Object(fs) => fields_are(fs@, s, t, j + 1, e - 1),
            _ => false,
        }
    }
}

/// `xs` are the comma-separated values of the tokens `k..hi`.
pub open spec fn items_are(xs: Seq<Value>, s: Seq<char>, t: Seq<Token>, k: int, hi: int) -> bool
    decreases xs,
{
    if k >= hi {
        xs.len() == 0
    } else {
        match tree_value_end(t, k, hi) {
            Some(e) => if k < e && e == hi {
                xs.len() == 1 && value_is(xs[0], s, t, k, e)
            } else if k < e < hi && is_punct_tok(t[e], ',') {
                xs.len() >= 1 && value_is(xs[0], s, t, k, e) && items_are(
                    xs.drop_first(),
                    s,
                    t,
                    e + 1,
                    hi,
                )
            } else {
                false
            },
            None => false,
        }
    }
}

/// `fs` are the `key = value` fields of the tokens `k..hi`.
pub open spec fn fields_are(fs: Seq<Field>, s: Seq<char>, t: Seq<Token>, k: int, hi: int) -> bool
    decreases fs,
{
    if k >= hi {
        fs.len() == 0
    } else if k + 1 >= hi || !is_text_tok(t[k]) || !is_punct_tok(t[k + 1], '=') {
        false
    } else {
        match tree_value_end(t, k + 2, hi) {
            Some(e) => if k < e <= hi {
                let next = if e < hi && is_punct_tok(t[e], ',') {
                    e + 1
                } else {
                    e
                };
                fs.len() >= 1 && atom_is(fs[0].key, s, t, k) && value_is(fs[0].value, s, t, k + 2, e)
                    && fields_are(fs.drop_first(), s, t, next, hi)
            } else {
                false
            },
            None => false,
        }
    }
}

/// `es` are the entries of the tokens `k..hi`.
pub open spec fn entries_are(es: Seq<Entry>, s: Seq<char>, t: Seq<Token>, k: int, hi: int) -> bool
    decreases es,
{
    if k == hi {
        es.len() == 0
    } else {
        match tree_entry_end(s, t, k, hi) {
            Some(e) => if k < e <= hi {
                let next = if e < hi && is_punct_tok(t[e], ',') {
                    e + 1
                } else {
                    e
                };
                es.len() >= 1 && entry_is(es[0], s, t, k, hi) && entries_are(
                    es.drop_first(),
                    s,
                    t,
                    next,
                    hi,
                )
            } else {
                false
            },
            None => false,
        }
    }
}

/// `en` is the entry that starts at token `k`, inside a block ending at `hi`.
pub open spec fn entry_is(en: Entry, s: Seq<char>, t: Seq<Token>, k: int, hi: int) -> bool
    decreases en,
{
    let h = spec_head_end(s, t, k + 1, hi);
    &&& atoms_are(en.head@, s, t, k, h)
    &&& if h < hi && is_punct_tok(t[h], '=') {
        match en.body {
            Body::Assign(x) => match tree_value_end(t, h + 1, hi) {
                Some(ve) => value_is(x, s, t, h + 1, ve),
                None => false,
            },
            _ => false,
        }
    } else if h < hi && is_punct_tok(t[h], '{') {
        match en.body {
            Body::Block(bs) => match spec_group_end(t, h, hi) {
                Some(ge) => entries_are(bs@, s, t, h + 1, ge - 1),
                None => false,
            },
            _ => false,
        }
    } else {
        en.body is Bare
    }
}

/// `es` is the tree of the text `s`.
pub open spec fn tree_of(es: Seq<Entry>, s: Seq<char>) -> bool {
    match lex(s) {
        Ok(t) => entries_are(es, s, t, 0, t.len() as int),
        Err(_) => false,
    }
}

/// Why a text has no tree.
#[derive(Debug, Clone, Copy, PartialEq, Eq, Structural)]
pub enum TreeError {
    /// A string opened at this position is never closed.
    Unterminated(usize),
    /// The tokens do not form entries.
    Syntax,
}

// ============================================================================
// READING
// ============================================================================

/// The tokens of a head are words and strings.
proof fn lemma_head_texts(s: Seq<char>, t: Seq<Token>, j: int, hi: int)
    requires
        0 < j,
        hi <= t.len(),
    ensures
        forall|i: int| j <= i < spec_head_end(s, t, j, hi) ==> is_text_tok(#[trigger] t[i]),
        j <= spec_head_end(s, t, j, hi),
    decreases hi - j,
{
    if 0 < j < hi && j < t.len() && is_text_tok(t[j]) && !newline_before(s, t, j) {
        lemma_head_texts(s, t, j + 1, hi);
        let e = spec_head_end(s, t, j + 1, hi);
        assert(spec_head_end(s, t, j, hi) == e);
        assert forall|i: int| j <= i < e implies is_text_tok(#[trigger] t[i]) by {
            if i > j {
                assert(j + 1 <= i < e);
                assert(is_text_tok(t[i]));
            } else {
                assert(i == j);
                assert(is_text_tok(t[j]));
            }
        }
    } else {
        assert(spec_head_end(s, t, j, hi) == j);
    }
}

fn text_token(t: Token) -> (b: bool)
    ensures
        b == is_text_tok(t),
{
    t.kind == TokenKind::Word || t.kind == TokenKind::Str
}

fn punct_token(t: Token, c: char) -> (b: bool)
    ensures
        b == is_punct_tok(t, c),
{
    t.kind == TokenKind::Punct(c)
}

fn atom_at(input: &str, v: &Vec<char>, toks: &Vec<Token>, j: usize) -> (a: Atom)
    requires
        j < toks.len(),
        v@ == input@,
        tokens_in(v@, toks@),
        is_text_tok(toks@[j as int]),
    ensures
        atom_is(a, v@, toks@, j as int),
{
    Atom { text: text_of(input, v, toks, j).to_owned(), quoted: toks[j].kind == TokenKind::Str }
}

/// Where the value that starts at `j` ends.
fn value_end_at(toks: &Vec<Token>, j: usize, hi: usize) -> (r: Option<usize>)
    ensures
        match r {
            Some(e) => tree_value_end(toks@, j as int, hi as int) == Some(e as int) && value_span(
                toks@,
                j as int,
                e as int,
            ) && e <= hi,
            None => tree_value_end(toks@, j as int, hi as int) is None,
        },
{
    if j >= hi || hi > toks.len() {
        return None;
    }
    let t = toks[j];
    if t.kind == TokenKind::Word && j + 1 < hi && (punct_token(toks[j + 1], '(') || punct_token(
        toks[j + 1],
        '{',
    )) {
        group_end(toks, j + 1, hi)
    } else if text_token(t) {
        Some(j + 1)
    } else if punct_token(t, '[') || punct_token(t, '{') {
        group_end(toks, j, hi)
    } else {
        None
    }
}

fn read_value(input: &str, v: &Vec<char>, toks: &Vec<Token>, j: usize, e: usize) -> (r: Option<
    Value,
>)
    requires
        v@ == input@,
        tokens_in(v@, toks@),
        value_span(toks@, j as int, e as int),
    ensures
        match r {
            Some(x) => value_is(x, v@, toks@, j as int, e as int),
            None => forall|x: Value| !value_is(x, v@, toks@, j as int, e as int),
        },
    decreases e - j, 0usize,
{
    let t = toks[j];
    if t.kind == TokenKind::Word && j + 1 < e && punct_token(toks[j + 1], '(') {
        proof {
            lemma_match_after(toks@, j + 1);
        }
        let a = atom_at(input, v, toks, j);
        match read_items(input, v, toks, j + 2, e - 1) {
            Some(args) => Some(Value::Call(a, args)),
            None => {
                assert forall|x: Value| !value_is(x, v@, toks@, j as int, e as int) by {
                    if let Value::Call(a2, args2) = x {
                        assert(!items_are(args2@, v@, toks@, j + 2, e - 1));
                    }
                }
                None
            },
        }
    } else if t.kind == TokenKind::Word && j + 1 < e && punct_token(toks[j + 1], '{') {
        proof {
            lemma_match_after(toks@, j + 1);
        }
        let a = atom_at(input, v, toks, j);
        match read_entries(input, v, toks, j + 2, e - 1) {
            Some(es) => Some(Value::Named(a, es)),
            None => {
                assert forall|x: Value| !value_is(x, v@, toks@, j as int, e as int) by {
                    if let Value::Named(a2, es2) = x {
                        assert(!entries_are(es2@, v@, toks@, j + 2, e - 1));
                    }
                }
                None
            },
        }
    } else if text_token(t) {
        Some(Value::Text(atom_at(input, v, toks, j)))
    } else if punct_token(t, '[') {
        proof {
            lemma_match_after(toks@, j as int);
        }
        match read_items(input, v, toks, j + 1, e - 1) {
            Some(xs) => Some(Value::List(xs)),
            None => {
                assert forall|x: Value| !value_is(x, v@, toks@, j as int, e as int) by {
                    if let Value::List(xs2) = x {
                        assert(!items_are(xs2@, v@, toks@, j + 1, e - 1));
                    }
                }
                None
            },
        }
    } else {
        proof {
            lemma_match_after(toks@, j as int);
        }
        match read_fields(input, v, toks, j + 1, e - 1) {
            Some(fs) => Some(Value::Object(fs)),
            None => {
                assert forall|x: Value| !value_is(x, v@, toks@, j as int, e as int) by {
                    if let Value::Object(fs2) = x {
                        assert(!fields_are(fs2@, v@, toks@, j + 1, e - 1));
                    }
                }
                None
            },
        }
    }
}

fn read_items(input: &str, v: &Vec<char>, toks: &Vec<Token>, k: usize, hi: usize) -> (r: Option<
    Vec<Value>,
>)
    requires
        v@ == input@,
        tokens_in(v@, toks@),
        k <= hi <= toks.len(),
    ensures
        match r {
            Some(xs) => items_are(xs@, v@, toks@, k as int, hi as int),
            None => forall|xs: Seq<Value>| !items_are(xs, v@, toks@, k as int, hi as int),
        },
    decreases hi - k, 1usize,
{
    if k >= hi {
        return Some(Vec::new());
    }
    let e = match value_end_at(toks, k, hi) {
        Some(e) => e,
        None => {
            return None;
        },
    };
    let x = match read_value(input, v, toks, k, e) {
        Some(x) => x,
        None => {
            assert forall|xs: Seq<Value>| !items_are(xs, v@, toks@, k as int, hi as int) by {
                if xs.len() >= 1 {
                    assert(!value_is(xs[0], v@, toks@, k as int, e as int));
                }
            }
            return None;
        },
    };
    let ghost gx = x;
    if e == hi {
        let mut out: Vec<Value> = Vec::new();
        out.push(x);
        Some(out)
    } else if punct_token(toks[e], ',') {
        let mut rest = match read_items(input, v, toks, e + 1, hi) {
            Some(r) => r,
            None => {
                assert forall|xs: Seq<Value>| !items_are(xs, v@, toks@, k as int, hi as int) by {
                    if xs.len() >= 1 {
                        assert(!items_are(xs.drop_first(), v@, toks@, e + 1, hi as int));
                    }
                }
                return None;
            },
        };
        let ghost old_rest = rest@;
        rest.insert(0, x);
        proof {
            assert(rest@.drop_first() =~= old_rest);
            assert(rest@[0] == gx);
        }
        Some(rest)
    } else {
        None
    }
}

fn read_fields(input: &str, v: &Vec<char>, toks: &Vec<Token>, k: usize, hi: usize) -> (r: Option<
    Vec<Field>,
>)
    requires
        v@ == input@,
        tokens_in(v@, toks@),
        k <= hi <= toks.len(),
    ensures
        match r {
            Some(fs) => fields_are(fs@, v@, toks@, k as int, hi as int),
            None => forall|fs: Seq<Field>| !fields_are(fs, v@, toks@, k as int, hi as int),
        },
    decreases hi - k, 1usize,
{
    if k >= hi {
        return Some(Vec::new());
    }
    if k + 1 >= hi || !text_token(toks[k]) || !punct_token(toks[k + 1], '=') {
        return None;
    }
    let e = match value_end_at(toks, k + 2, hi) {
        Some(e) => e,
        None => {
            return None;
        },
    };
    let key = atom_at(input, v, toks, k);
    let value = match read_value(input, v, toks, k + 2, e) {
        Some(x) => x,
        None => {
            assert forall|fs: Seq<Field>| !fields_are(fs, v@, toks@, k as int, hi as int) by {
                if fs.len() >= 1 {
                    assert(!value_is(fs[0].value, v@, toks@, k + 2, e as int));
                }
            }
            return None;
        },
    };
    let next = if e < hi && punct_token(toks[e], ',') {
        e + 1
    } else {
        e
    };
    let mut rest = match read_fields(input, v, toks, next, hi) {
        Some(r) => r,
        None => {
            assert forall|fs: Seq<Field>| !fields_are(fs, v@, toks@, k as int, hi as int) by {
                if fs.len() >= 1 {
                    assert(!fields_are(fs.drop_first(), v@, toks@, next as int, hi as int));
                }
            }
            return None;
        },
    };
    let f = Field { key, value };
    let ghost gf = f;
    let ghost old_rest = rest@;
    rest.insert(0, f);
    proof {
        assert(rest@.drop_first() =~= old_rest);
        assert(rest@[0] == gf);
    }
    Some(rest)
}

fn read_entries(input: &str, v: &Vec<char>, toks: &Vec<Token>, k: usize, hi: usize) -> (r: Option<
    Vec<Entry>,
>)
    requires
        v@ == input@,
        tokens_in(v@, toks@),
        k <= hi <= toks.len(),
    ensures
        match r {
            Some(es) => entries_are(es@, v@, toks@, k as int, hi as int),
            None => forall|es: Seq<Entry>| !entries_are(es, v@, toks@, k as int, hi as int),
        },
    decreases hi - k, 1usize,
{
    if k == hi {
        return Some(Vec::new());
    }
    if !text_token(toks[k]) {
        return None;
    }
    let h = head_end(v, toks, k + 1, hi);
    proof {
        lemma_head_texts(v@, toks@, k + 1, hi as int);
    }
    let mut head: Vec<Atom> = Vec::new();
    let mut i = k;
    while i < h
        invariant
            k <= i <= h <= hi <= toks.len(),
            is_text_tok(toks@[k as int]),
            v@ == input@,
            tokens_in(v@, toks@),
            h as int == spec_head_end(v@, toks@, k + 1, hi as int),
            forall|m: int| k + 1 <= m < h ==> is_text_tok(#[trigger] toks@[m]),
            head@.len() == i - k,
            forall|m: int| 0 <= m < head@.len() ==> atom_is(#[trigger] head@[m], v@, toks@, k + m),
        decreases h - i,
    {
        let a = atom_at(input, v, toks, i);
        head.push(a);
        i = i + 1;
    }
    let ghost gh = head@;
    let (body, e) = if h < hi && punct_token(toks[h], '=') {
        let ve = match value_end_at(toks, h + 1, hi) {
            Some(ve) => ve,
            None => {
                return None;
            },
        };
        match read_value(input, v, toks, h + 1, ve) {
            Some(x) => (Body::Assign(x), ve),
            None => {
                assert forall|es: Seq<Entry>| !entries_are(es, v@, toks@, k as int, hi as int) by {
                    if entries_are(es, v@, toks@, k as int, hi as int) {
                        assert(entry_is(es[0], v@, toks@, k as int, hi as int));
                        if let Body::Assign(x2) = es[0].body {
                            assert(!value_is(x2, v@, toks@, h + 1, ve as int));
                        }
                    }
                }
                return None;
            },
        }
    } else if h < hi && punct_token(toks[h], '{') {
        let ge = match group_end(toks, h, hi) {
            Some(ge) => ge,
            None => {
                return None;
            },
        };
        proof {
            lemma_match_after(toks@, h as int);
        }
        match read_entries(input, v, toks, h + 1, ge - 1) {
            Some(bs) => (Body::Block(bs), ge),
            None => {
                assert forall|es: Seq<Entry>| !entries_are(es, v@, toks@, k as int, hi as int) by {
                    if entries_are(es, v@, toks@, k as int, hi as int) {
                        assert(entry_is(es[0], v@, toks@, k as int, hi as int));
                        if let Body::Block(bs2) = es[0].body {
                            assert(!entries_are(bs2@, v@, toks@, h + 1, ge - 1));
                        }
                    }
                }
                return None;
            },
        }
    } else if h == hi || text_token(toks[h]) {
        (Body::Bare, h)
    } else {
        return None;
    };
    let en = Entry { head, body };
    let ghost gen = en;
    assert(tree_entry_end(v@, toks@, k as int, hi as int) == Some(e as int));
    assert(entry_is(gen, v@, toks@, k as int, hi as int));
    let next = if e < hi && punct_token(toks[e], ',') {
        e + 1
    } else {
        e
    };
    let mut rest = match read_entries(input, v, toks, next, hi) {
        Some(r) => r,
        None => {
            assert forall|es: Seq<Entry>| !entries_are(es, v@, toks@, k as int, hi as int) by {
                if es.len() >= 1 {
                    assert(!entries_are(es.drop_first(), v@, toks@, next as int, hi as int));
                }
            }
            return None;
        },
    };
    let ghost old_rest = rest@;
    rest.insert(0, en);
    proof {
        assert(rest@.drop_first() =~= old_rest);
        assert(rest@[0] == gen);
    }
    Some(rest)
}

/// The tree of the text `input`.
pub fn read_tree(input: &str) -> (r: Result<Vec<Entry>, TreeError>)
    requires
        input@.len() < usize::MAX,
    ensures
        match r {
            Ok(es) => tree_of(es@, input@),
            Err(TreeError::Unterminated(p)) => lex(input@) == Err::<Seq<Token>, int>(p as int),
            Err(TreeError::Syntax) => lex(input@) is Ok && forall|es: Seq<Entry>|
                !tree_of(es, input@),
        },
{
    let v = chars_of(input);
    proof {
        lemma_lex_in_bounds(v@, 0);
        lemma_lex_sorted(v@, 0);
    }
    let toks = match tokenize(&v) {
        Ok(t) => t,
        Err(at) => {
            return Err(TreeError::Unterminated(at));
        },
    };
    let n = toks.len();
    match read_entries(input, &v, &toks, 0, n) {
        Some(es) => Ok(es),
        None => Err(TreeError::Syntax),
    }
}

} // verus!
