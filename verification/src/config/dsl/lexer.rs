//! Tokens of the configuration language.
//!
//! Blanks are whitespace and comments (`#` or `//` up to the end of the
//! line). The tokens are punctuation (`{ } = [ ] , ( )`), quoted strings
//! (`"..."`, the token covering the text between the quotes) and words (runs
//! of any other characters).
use vstd::prelude::*;

use crate::text::{is_whitespace, is_whitespace_char};

verus! {

#[derive(Debug, Clone, Copy, PartialEq, Eq, Structural)]
pub enum TokenKind {
    Word,
    Str,
    Punct(char),
}

/// A token and the positions `lo..hi` of its text in the input.
#[derive(Debug, Clone, Copy, PartialEq, Eq, Structural)]
pub struct Token {
    pub kind: TokenKind,
    pub lo: usize,
    pub hi: usize,
}

pub open spec fn is_punct(c: char) -> bool {
    c == '{' || c == '}' || c == '=' || c == '[' || c == ']' || c == ',' || c == '(' || c == ')'
}

/// Whether `c` can stand in a word.
pub open spec fn is_word_char(c: char) -> bool {
    !is_whitespace(c) && !is_punct(c) && c != '"' && c != '#'
}

/// The first position at or after `i` that is neither whitespace nor inside
/// a comment; `in_comment` says whether `i` is inside one.
pub open spec fn skip_blank(s: Seq<char>, i: int, in_comment: bool) -> int
    decreases s.len() - i,
{
    if i < 0 || i >= s.len() {
        i
    } else if in_comment {
        skip_blank(s, i + 1, s[i] != '\n')
    } else if is_whitespace(s[i]) {
        skip_blank(s, i + 1, false)
    } else if s[i] == '#' {
        skip_blank(s, i + 1, true)
    } else if s[i] == '/' && i + 1 < s.len() && s[i + 1] == '/' {
        skip_blank(s, i + 2, true)
    } else {
        i
    }
}

/// The end of the word that starts at `i`.
pub open spec fn word_end(s: Seq<char>, i: int) -> int
    decreases s.len() - i,
{
    if 0 <= i < s.len() && is_word_char(s[i]) {
        word_end(s, i + 1)
    } else {
        i
    }
}

/// The position of the first `"` at or after `i`.
pub open spec fn quote_at_or_after(s: Seq<char>, i: int) -> Option<int>
    decreases s.len() - i,
{
    if i < 0 || i >= s.len() {
        None
    } else if s[i] == '"' {
        Some(i)
    } else {
        quote_at_or_after(s, i + 1)
    }
}

pub proof fn lemma_skip_blank_bounds(s: Seq<char>, i: int, in_comment: bool)
    requires
        0 <= i <= s.len(),
    ensures
        i <= skip_blank(s, i, in_comment) <= s.len(),
        skip_blank(s, i, in_comment) < s.len() ==> !is_whitespace(s[skip_blank(s, i, in_comment)]),
        skip_blank(s, i, in_comment) < s.len() ==> s[skip_blank(s, i, in_comment)] != '#',
    decreases s.len() - i,
{
    if i < s.len() {
        if in_comment {
            lemma_skip_blank_bounds(s, i + 1, s[i] != '\n');
        } else if is_whitespace(s[i]) {
            lemma_skip_blank_bounds(s, i + 1, false);
        } else if s[i] == '#' {
            lemma_skip_blank_bounds(s, i + 1, true);
        } else if s[i] == '/' && i + 1 < s.len() && s[i + 1] == '/' {
            lemma_skip_blank_bounds(s, i + 2, true);
        }
    }
}

pub proof fn lemma_word_end_bounds(s: Seq<char>, i: int)
    requires
        0 <= i <= s.len(),
    ensures
        i <= word_end(s, i) <= s.len(),
        i < s.len() && is_word_char(s[i]) ==> i < word_end(s, i),
    decreases s.len() - i,
{
    if i < s.len() && is_word_char(s[i]) {
        lemma_word_end_bounds(s, i + 1);
    }
}

pub proof fn lemma_quote_bounds(s: Seq<char>, i: int)
    requires
        0 <= i,
    ensures
        match quote_at_or_after(s, i) {
            Some(k) => i <= k < s.len() && s[k] == '"',
            None => true,
        },
    decreases s.len() - i,
{
    if 0 <= i < s.len() && s[i] != '"' {
        lemma_quote_bounds(s, i + 1);
    }
}

/// The tokens of `s` from position `i` on, or the position of a quote that
/// opens a string that is never closed.
pub open spec fn lex_from(s: Seq<char>, i: int) -> Result<Seq<Token>, int>
    decreases s.len() - i,
{
    if i < 0 || i > s.len() {
        Err(i)
    } else {
        let j = skip_blank(s, i, false);
        proof {
            lemma_skip_blank_bounds(s, i, false);
        }
        if j >= s.len() {
            Ok(Seq::empty())
        } else if is_punct(s[j]) {
            match lex_from(s, j + 1) {
                Ok(rest) => Ok(
                    seq![Token { kind: TokenKind::Punct(s[j]), lo: j as usize, hi: (j + 1) as usize }]
                        + rest,
                ),
                Err(e) => Err(e),
            }
        } else if s[j] == '"' {
            proof {
                lemma_quote_bounds(s, j + 1);
            }
            match quote_at_or_after(s, j + 1) {
                None => Err(j),
                Some(k) => match lex_from(s, k + 1) {
                    Ok(rest) => Ok(
                        seq![Token { kind: TokenKind::Str, lo: (j + 1) as usize, hi: k as usize }]
                            + rest,
                    ),
                    Err(e) => Err(e),
                },
            }
        } else {
            let k = word_end(s, j);
            proof {
                lemma_word_end_bounds(s, j);
            }
            match lex_from(s, k) {
                Ok(rest) => Ok(
                    seq![Token { kind: TokenKind::Word, lo: j as usize, hi: k as usize }] + rest,
                ),
                Err(e) => Err(e),
            }
        }
    }
}

/// The tokens of `s`, or the position of a quote that is never closed.
pub open spec fn lex(s: Seq<char>) -> Result<Seq<Token>, int> {
    lex_from(s, 0)
}

/// `r` with `front` put before the tokens, when it holds tokens.
pub open spec fn prepend(front: Seq<Token>, r: Result<Seq<Token>, int>) -> Result<Seq<Token>, int> {
    match r {
        Ok(rest) => Ok(front + rest),
        Err(e) => Err(e),
    }
}

pub fn is_punct_char(c: char) -> (b: bool)
    ensures
        b == is_punct(c),
{
    c == '{' || c == '}' || c == '=' || c == '[' || c == ']' || c == ',' || c == '(' || c == ')'
}

fn skip_blank_exec(v: &Vec<char>, i: usize) -> (r: usize)
    requires
        i <= v.len(),
    ensures
        r == skip_blank(v@, i as int, false),
{
    let mut k = i;
    let mut in_comment = false;
    while k < v.len()
        invariant
            i <= k <= v.len(),
            skip_blank(v@, i as int, false) == skip_blank(v@, k as int, in_comment),
        decreases v.len() - k,
    {
        let c = v[k];
        if in_comment {
            in_comment = c != '\n';
            k = k + 1;
        } else if is_whitespace_char(c) {
            k = k + 1;
        } else if c == '#' {
            in_comment = true;
            k = k + 1;
        } else if c == '/' && k + 1 < v.len() && v[k + 1] == '/' {
            in_comment = true;
            k = k + 2;
        } else {
            return k;
        }
    }
    k
}

fn word_end_exec(v: &Vec<char>, i: usize) -> (r: usize)
    requires
        i <= v.len(),
    ensures
        r == word_end(v@, i as int),
{
    let mut k = i;
    while k < v.len() && !is_whitespace_char(v[k]) && !is_punct_char(v[k]) && v[k] != '"' && v[k]
        != '#'
        invariant
            i <= k <= v.len(),
            word_end(v@, i as int) == word_end(v@, k as int),
        decreases v.len() - k,
    {
        k = k + 1;
    }
    k
}

fn quote_exec(v: &Vec<char>, i: usize) -> (r: Option<usize>)
    requires
        i <= v.len(),
    ensures
        match r {
            Some(k) => quote_at_or_after(v@, i as int) == Some(k as int),
            None => quote_at_or_after(v@, i as int) is None,
        },
{
    let mut k = i;
    while k < v.len()
        invariant
            i <= k <= v.len(),
            quote_at_or_after(v@, i as int) == quote_at_or_after(v@, k as int),
        decreases v.len() - k,
    {
        if v[k] == '"' {
            return Some(k);
        }
        k = k + 1;
    }
    None
}

/// Splits the characters `v` into tokens; `Err` holds the position of a
/// quote that opens a string that is never closed.
pub fn tokenize(v: &Vec<char>) -> (r: Result<Vec<Token>, usize>)
    ensures
        match r {
            Ok(toks) => lex(v@) == Ok::<Seq<Token>, int>(toks@),
            Err(p) => lex(v@) == Err::<Seq<Token>, int>(p as int),
        },
{
    let mut out: Vec<Token> = Vec::new();
    let mut i: usize = 0;
    loop
        invariant
            i <= v.len(),
            lex(v@) == prepend(out@, lex_from(v@, i as int)),
        decreases v.len() - i,
    {
        let j = skip_blank_exec(v, i);
        proof {
            lemma_skip_blank_bounds(v@, i as int, false);
        }
        if j >= v.len() {
            assert(out@ + Seq::<Token>::empty() =~= out@);
            return Ok(out);
        }
        let c = v[j];
        if is_punct_char(c) {
            let t = Token { kind: TokenKind::Punct(c), lo: j, hi: j + 1 };
            proof {
                match lex_from(v@, j + 1) {
                    Ok(rest) => assert(out@ + (seq![t] + rest) =~= out@.push(t) + rest),
                    Err(e) => {},
                }
            }
            out.push(t);
            i = j + 1;
        } else if c == '"' {
            proof {
                lemma_quote_bounds(v@, j + 1);
            }
            match quote_exec(v, j + 1) {
                None => {
                    return Err(j);
                },
                Some(k) => {
                    let t = Token { kind: TokenKind::Str, lo: j + 1, hi: k };
                    proof {
                        match lex_from(v@, k + 1) {
                            Ok(rest) => assert(out@ + (seq![t] + rest) =~= out@.push(t) + rest),
                            Err(e) => {},
                        }
                    }
                    out.push(t);
                    i = k + 1;
                },
            }
        } else {
            let k = word_end_exec(v, j);
            proof {
                lemma_word_end_bounds(v@, j as int);
            }
            let t = Token { kind: TokenKind::Word, lo: j, hi: k };
            proof {
                match lex_from(v@, k as int) {
                    Ok(rest) => assert(out@ + (seq![t] + rest) =~= out@.push(t) + rest),
                    Err(e) => {},
                }
            }
            out.push(t);
            i = k;
        }
    }
}

} // verus!
