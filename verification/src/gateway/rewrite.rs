//! Rewriting request paths: exact, prefix, suffix and regular-expression
//! rules, then an optional trailing-slash policy.
use regex::Regex;
use vstd::prelude::*;
use vstd::string::StrSliceExecFns;
use vstd::string::StringExecFns;

use crate::text::{chars_of, ends_with, range_ends_with, range_eq, starts_with};

verus! {

#[verifier::external_type_specification]
#[verifier::external_body]
pub struct ExRegex(Regex);

/// Whether `regex` compiles `pattern` (under its default size limits).
pub uninterp spec fn spec_regex_compiles(pattern: Seq<char>) -> bool;

/// What `regex` makes of `haystack` when the regex compiled from `pattern`
/// replaces its leftmost-first match with `replacement` (expanding `$name`
/// groups).
pub uninterp spec fn spec_regex_replace(
    pattern: Seq<char>,
    haystack: Seq<char>,
    replacement: Seq<char>,
) -> Seq<char>;

/// A compiled regular expression, with the pattern it was compiled from.
pub struct Pattern {
    re: Regex,
    source: String,
}

impl View for Pattern {
    type V = Seq<char>;

    closed spec fn view(&self) -> Seq<char> {
        self.source@
    }
}

/// Calls `Regex::new`, which compiles a pattern or fails; whether it succeeds
/// is named `spec_regex_compiles`. The pattern's text is kept beside it.
#[verifier::external_body]
fn compile_pattern(source: &str) -> (r: Option<Pattern>)
    ensures
        match r {
            Some(p) => p@ == source@ && spec_regex_compiles(source@),
            None => !spec_regex_compiles(source@),
        },
{
    match Regex::new(source) {
        Ok(re) => Some(Pattern { re, source: source.to_owned() }),
        Err(_) => None,
    }
}

/// Calls `Regex::replace`, which replaces the leftmost-first match; the
/// result is named `spec_regex_replace` of the pattern, the haystack and the
/// replacement.
#[verifier::external_body]
fn regex_replace(p: &Pattern, haystack: &str, replacement: &str) -> (r: String)
    ensures
        r@ == spec_regex_replace(p@, haystack@, replacement@),
{
    p.re.replace(haystack, replacement).into_owned()
}

/// One rewrite rule.
pub enum RewriteRule {
    Exact { from: String, to: String },
    Prefix { from: String, to: String },
    Suffix { from: String, to: String },
    Regex { from: Pattern, to: String },
}

/// The kinds of rules.
#[derive(PartialEq, Eq, Structural, Clone, Copy)]
pub enum RuleKind {
    Exact,
    Prefix,
    Suffix,
    Regex,
}

/// What a rule matches on and what it writes.
pub open spec fn rule_pair(r: RewriteRule) -> (Seq<char>, Seq<char>) {
    match r {
        RewriteRule::Exact { from, to } => (from@, to@),
        RewriteRule::Prefix { from, to } => (from@, to@),
        RewriteRule::Suffix { from, to } => (from@, to@),
        RewriteRule::Regex { from, to } => (from@, to@),
    }
}

pub open spec fn rule_kind_of(r: RewriteRule) -> RuleKind {
    match r {
        RewriteRule::Exact { .. } => RuleKind::Exact,
        RewriteRule::Prefix { .. } => RuleKind::Prefix,
        RewriteRule::Suffix { .. } => RuleKind::Suffix,
        RewriteRule::Regex { .. } => RuleKind::Regex,
    }
}

/// The characters that make a path a regular expression.
pub open spec fn is_regex_char(c: char) -> bool {
    c == '^' || c == '$' || c == '[' || c == ']' || c == '(' || c == ')' || c == '+' || c == '?'
        || c == '|' || c == '\\'
}

/// A path with none of the characters of a regular expression.
pub open spec fn spec_plain_path(s: Seq<char>) -> bool {
    forall|i: int| 0 <= i < s.len() ==> !is_regex_char(#[trigger] s[i])
}

/// What a rule's source `from` makes: `p*` a prefix rule on `p`, `*s` a
/// suffix rule on `s`, a plain path an exact rule, a pattern that compiles a
/// regular-expression rule; anything else is dropped.
pub open spec fn rule_kind(from: Seq<char>) -> Option<RuleKind> {
    if from.len() > 0 && from.last() == '*' {
        Some(RuleKind::Prefix)
    } else if from.len() > 0 && from[0] == '*' {
        Some(RuleKind::Suffix)
    } else if spec_plain_path(from) {
        Some(RuleKind::Exact)
    } else if spec_regex_compiles(from) {
        Some(RuleKind::Regex)
    } else {
        None
    }
}

/// What a rule of kind `k` keeps of its source.
pub open spec fn rule_key(from: Seq<char>, k: RuleKind) -> Seq<char> {
    match k {
        RuleKind::Prefix => from.drop_last(),
        RuleKind::Suffix => from.drop_first(),
        _ => from,
    }
}

/// The rules of kind `k` that the sources `raw` make, in order.
pub open spec fn rules_of_kind(raw: Seq<(Seq<char>, Seq<char>)>, k: RuleKind) -> Seq<
    (Seq<char>, Seq<char>),
>
    decreases raw.len(),
{
    if raw.len() == 0 {
        Seq::empty()
    } else {
        let from = raw.last().0;
        let to = raw.last().1;
        rules_of_kind(raw.drop_last(), k) + if rule_kind(from) == Some(k) {
            seq![(rule_key(from, k), to)]
        } else {
            Seq::empty()
        }
    }
}

/// A rewrite engine as its rules of each kind and its trailing-slash policy.
pub struct RewriteModel {
    pub exact: Seq<(Seq<char>, Seq<char>)>,
    pub prefixes: Seq<(Seq<char>, Seq<char>)>,
    pub suffixes: Seq<(Seq<char>, Seq<char>)>,
    pub regexes: Seq<(Seq<char>, Seq<char>)>,
    pub trailing_slash: Option<bool>,
}

/// The engine that the sources `raw` make.
pub open spec fn spec_engine(raw: Seq<(Seq<char>, Seq<char>)>, trailing_slash: Option<bool>) -> RewriteModel {
    RewriteModel {
        exact: rules_of_kind(raw, RuleKind::Exact),
        prefixes: rules_of_kind(raw, RuleKind::Prefix),
        suffixes: rules_of_kind(raw, RuleKind::Suffix),
        regexes: rules_of_kind(raw, RuleKind::Regex),
        trailing_slash,
    }
}

/// The first exact rule from `i` on whose path is `path`: its target.
pub open spec fn first_exact(rules: Seq<(Seq<char>, Seq<char>)>, path: Seq<char>, i: int) -> Option<
    Seq<char>,
>
    decreases rules.len() - i,
{
    if i < 0 || i >= rules.len() {
        None
    } else if rules[i].0 == path {
        Some(rules[i].1)
    } else {
        first_exact(rules, path, i + 1)
    }
}

/// The first prefix rule from `i` on that `path` starts with: its target
/// followed by the rest of the path.
pub open spec fn first_prefix(rules: Seq<(Seq<char>, Seq<char>)>, path: Seq<char>, i: int) -> Option<
    Seq<char>,
>
    decreases rules.len() - i,
{
    if i < 0 || i >= rules.len() {
        None
    } else if starts_with(path, rules[i].0) {
        Some(rules[i].1 + path.skip(rules[i].0.len() as int))
    } else {
        first_prefix(rules, path, i + 1)
    }
}

/// The first suffix rule from `i` on that `path` ends with: its target.
pub open spec fn first_suffix(rules: Seq<(Seq<char>, Seq<char>)>, path: Seq<char>, i: int) -> Option<
    Seq<char>,
>
    decreases rules.len() - i,
{
    if i < 0 || i >= rules.len() {
        None
    } else if ends_with(path, rules[i].0) {
        Some(rules[i].1)
    } else {
        first_suffix(rules, path, i + 1)
    }
}

/// The first regular-expression rule from `i` on that changes `path`: what
/// it makes of it.
pub open spec fn first_regex(rules: Seq<(Seq<char>, Seq<char>)>, path: Seq<char>, i: int) -> Option<
    Seq<char>,
>
    decreases rules.len() - i,
{
    if i < 0 || i >= rules.len() {
        None
    } else if spec_regex_replace(rules[i].0, path, rules[i].1) != path {
        Some(spec_regex_replace(rules[i].0, path, rules[i].1))
    } else {
        first_regex(rules, path, i + 1)
    }
}

/// What the rules make of `path`: exact rules first, then prefix, suffix and
/// regular-expression rules; the path itself where none applies.
pub open spec fn spec_rewrite(m: RewriteModel, path: Seq<char>) -> Seq<char> {
    match first_exact(m.exact, path, 0) {
        Some(p) => p,
        None => match first_prefix(m.prefixes, path, 0) {
            Some(p) => p,
            None => match first_suffix(m.suffixes, path, 0) {
                Some(p) => p,
                None => match first_regex(m.regexes, path, 0) {
                    Some(p) => p,
                    None => path,
                },
            },
        },
    }
}

pub open spec fn ends_with_slash(p: Seq<char>) -> bool {
    p.len() > 0 && p.last() == '/'
}

/// The trailing-slash policy: `Some(true)` adds a missing slash,
/// `Some(false)` removes one (but leaves `/` alone).
pub open spec fn apply_trailing_slash(policy: Option<bool>, p: Seq<char>) -> Seq<char> {
    match policy {
        None => p,
        Some(true) => if ends_with_slash(p) {
            p
        } else {
            p.push('/')
        },
        Some(false) => if p == seq!['/'] || !ends_with_slash(p) {
            p
        } else {
            p.drop_last()
        },
    }
}

/// What the engine makes of `path`.
pub open spec fn spec_execute(m: RewriteModel, path: Seq<char>) -> Seq<char> {
    apply_trailing_slash(m.trailing_slash, spec_rewrite(m, path))
}

/// Rewrites request paths.
pub struct RewriteEngine {
    exact: Vec<RewriteRule>,
    prefixes: Vec<RewriteRule>,
    suffixes: Vec<RewriteRule>,
    regexes: Vec<RewriteRule>,
    trailing_slash: Option<bool>,
}

/// Whether every rule in `rules` is of kind `k`.
pub open spec fn all_of_kind(rules: Seq<RewriteRule>, k: RuleKind) -> bool {
    forall|i: int| 0 <= i < rules.len() ==> rule_kind_of(#[trigger] rules[i]) == k
}

pub open spec fn pairs_of_rules(rules: Seq<RewriteRule>) -> Seq<(Seq<char>, Seq<char>)> {
    rules.map_values(|r: RewriteRule| rule_pair(r))
}

pub open spec fn view_sources(raw: Seq<(String, String)>) -> Seq<(Seq<char>, Seq<char>)> {
    raw.map_values(|p: (String, String)| (p.0@, p.1@))
}

impl RewriteEngine {
    #[verifier::type_invariant]
    spec fn wf(&self) -> bool {
        &&& all_of_kind(self.exact@, RuleKind::Exact)
        &&& all_of_kind(self.prefixes@, RuleKind::Prefix)
        &&& all_of_kind(self.suffixes@, RuleKind::Suffix)
        &&& all_of_kind(self.regexes@, RuleKind::Regex)
    }

    /// The engine's rules and policy.
    pub closed spec fn model(&self) -> RewriteModel {
        RewriteModel {
            exact: pairs_of_rules(self.exact@),
            prefixes: pairs_of_rules(self.prefixes@),
            suffixes: pairs_of_rules(self.suffixes@),
            regexes: pairs_of_rules(self.regexes@),
            trailing_slash: self.trailing_slash,
        }
    }
}

pub proof fn lemma_rules_step(raw: Seq<(Seq<char>, Seq<char>)>, i: int, k: RuleKind)
    requires
        0 <= i < raw.len(),
    ensures
        rules_of_kind(raw.take(i + 1), k) == rules_of_kind(raw.take(i), k) + if rule_kind(raw[i].0)
            == Some(k) {
            seq![(rule_key(raw[i].0, k), raw[i].1)]
        } else {
            Seq::empty()
        },
{
    assert(raw.take(i + 1).drop_last() =~= raw.take(i));
}

/// Whether `path` holds none of the characters of a regular expression.
pub fn is_plain_path(path: &str) -> (b: bool)
    ensures
        b == spec_plain_path(path@),
{
    let v = chars_of(path);
    let mut i: usize = 0;
    while i < v.len()
        invariant
            i <= v.len(),
            v@ == path@,
            forall|j: int| 0 <= j < i ==> !is_regex_char(#[trigger] v@[j]),
        decreases v.len() - i,
    {
        let c = v[i];
        if c == '^' || c == '$' || c == '[' || c == ']' || c == '(' || c == ')' || c == '+' || c == '?'
            || c == '|' || c == '\\' {
            return false;
        }
        i = i + 1;
    }
    true
}

impl RewriteEngine {
    /// Sorts the rules `from -> to` by kind, in the order given: `p*` makes a
    /// prefix rule, `*s` a suffix rule, a plain path an exact rule, and a
    /// pattern that compiles a regular-expression rule; other sources are
    /// dropped.
    pub fn new(raw_rules: &Vec<(String, String)>, trailing_slash: Option<bool>) -> (e: Self)
        ensures
            e.model() == spec_engine(view_sources(raw_rules@), trailing_slash),
    {
        let ghost raw = view_sources(raw_rules@);
        let mut exact: Vec<RewriteRule> = Vec::new();
        let mut prefixes: Vec<RewriteRule> = Vec::new();
        let mut suffixes: Vec<RewriteRule> = Vec::new();
        let mut regexes: Vec<RewriteRule> = Vec::new();
        let mut i: usize = 0;
        proof {
            assert(raw.take(0) =~= Seq::<(Seq<char>, Seq<char>)>::empty());
            assert(pairs_of_rules(exact@) =~= Seq::<(Seq<char>, Seq<char>)>::empty());
            assert(pairs_of_rules(prefixes@) =~= Seq::<(Seq<char>, Seq<char>)>::empty());
            assert(pairs_of_rules(suffixes@) =~= Seq::<(Seq<char>, Seq<char>)>::empty());
            assert(pairs_of_rules(regexes@) =~= Seq::<(Seq<char>, Seq<char>)>::empty());
        }
        while i < raw_rules.len()
            invariant
                i <= raw_rules.len(),
                raw == view_sources(raw_rules@),
                all_of_kind(exact@, RuleKind::Exact),
                all_of_kind(prefixes@, RuleKind::Prefix),
                all_of_kind(suffixes@, RuleKind::Suffix),
                all_of_kind(regexes@, RuleKind::Regex),
                pairs_of_rules(exact@) == rules_of_kind(raw.take(i as int), RuleKind::Exact),
                pairs_of_rules(prefixes@) == rules_of_kind(raw.take(i as int), RuleKind::Prefix),
                pairs_of_rules(suffixes@) == rules_of_kind(raw.take(i as int), RuleKind::Suffix),
                pairs_of_rules(regexes@) == rules_of_kind(raw.take(i as int), RuleKind::Regex),
            decreases raw_rules.len() - i,
        {
            let from = raw_rules[i].0.as_str();
            let to = raw_rules[i].1.as_str().to_owned();
            let fv = chars_of(from);
            let k = fv.len();
            proof {
                assert(raw[i as int] == (from@, to@));
                lemma_rules_step(raw, i as int, RuleKind::Exact);
                lemma_rules_step(raw, i as int, RuleKind::Prefix);
                lemma_rules_step(raw, i as int, RuleKind::Suffix);
                lemma_rules_step(raw, i as int, RuleKind::Regex);
            }
            let ghost e0 = exact@;
            let ghost p0 = prefixes@;
            let ghost s0 = suffixes@;
            let ghost r0 = regexes@;
            if k > 0 && fv[k - 1] == '*' {
                let key = from.substring_char(0, k - 1).to_owned();
                assert(key@ =~= from@.drop_last());
                prefixes.push(RewriteRule::Prefix { from: key, to });
                assert(pairs_of_rules(prefixes@) =~= pairs_of_rules(p0).push((key@, to@)));
            } else if k > 0 && fv[0] == '*' {
                let key = from.substring_char(1, k).to_owned();
                assert(key@ =~= from@.drop_first());
                suffixes.push(RewriteRule::Suffix { from: key, to });
                assert(pairs_of_rules(suffixes@) =~= pairs_of_rules(s0).push((key@, to@)));
            } else if is_plain_path(from) {
                let key = from.to_owned();
                exact.push(RewriteRule::Exact { from: key, to });
                assert(pairs_of_rules(exact@) =~= pairs_of_rules(e0).push((key@, to@)));
            } else {
                match compile_pattern(from) {
                    Some(p) => {
                        let ghost pv = p@;
                        regexes.push(RewriteRule::Regex { from: p, to });
                        assert(pairs_of_rules(regexes@) =~= pairs_of_rules(r0).push((pv, to@)));
                    },
                    None => {},
                }
            }
            proof {
                assert(pairs_of_rules(exact@) =~= rules_of_kind(raw.take(i + 1), RuleKind::Exact));
                assert(pairs_of_rules(prefixes@) =~= rules_of_kind(raw.take(i + 1), RuleKind::Prefix));
                assert(pairs_of_rules(suffixes@) =~= rules_of_kind(raw.take(i + 1), RuleKind::Suffix));
                assert(pairs_of_rules(regexes@) =~= rules_of_kind(raw.take(i + 1), RuleKind::Regex));
            }
            i = i + 1;
        }
        assert(raw.take(raw_rules.len() as int) =~= raw);
        RewriteEngine { exact, prefixes, suffixes, regexes, trailing_slash }
    }

    fn match_exact(&self, path: &str, pv: &Vec<char>) -> (r: Option<String>)
        requires
            pv@ == path@,
        ensures
            match r {
                Some(x) => first_exact(self.model().exact, path@, 0) == Some(x@),
                None => first_exact(self.model().exact, path@, 0) is None,
            },
    {
        proof {
            use_type_invariant(self);
        }
        let ghost m = self.model().exact;
        let n = pv.len();
        assert(pv@.subrange(0, n as int) =~= path@);
        let mut i: usize = 0;
        while i < self.exact.len()
            invariant
                i <= self.exact.len(),
                pv@ == path@,
                n == pv.len(),
                pv@.subrange(0, n as int) == path@,
                m == pairs_of_rules(self.exact@),
                all_of_kind(self.exact@, RuleKind::Exact),
                first_exact(m, path@, 0) == first_exact(m, path@, i as int),
            decreases self.exact.len() - i,
        {
            assert(rule_kind_of(self.exact@[i as int]) == RuleKind::Exact);
            match &self.exact[i] {
                RewriteRule::Exact { from, to } => {
                    if range_eq(pv, 0, n, from.as_str()) {
                        return Some(to.as_str().to_owned());
                    }
                },
                _ => {},
            }
            i = i + 1;
        }
        None
    }

    fn match_prefix(&self, path: &str, pv: &Vec<char>) -> (r: Option<String>)
        requires
            pv@ == path@,
        ensures
            match r {
                Some(x) => first_prefix(self.model().prefixes, path@, 0) == Some(x@),
                None => first_prefix(self.model().prefixes, path@, 0) is None,
            },
    {
        proof {
            use_type_invariant(self);
        }
        let ghost m = self.model().prefixes;
        let n = pv.len();
        let mut i: usize = 0;
        while i < self.prefixes.len()
            invariant
                i <= self.prefixes.len(),
                pv@ == path@,
                n == pv.len(),
                m == pairs_of_rules(self.prefixes@),
                all_of_kind(self.prefixes@, RuleKind::Prefix),
                first_prefix(m, path@, 0) == first_prefix(m, path@, i as int),
            decreases self.prefixes.len() - i,
        {
            assert(rule_kind_of(self.prefixes@[i as int]) == RuleKind::Prefix);
            match &self.prefixes[i] {
                RewriteRule::Prefix { from, to } => {
                    let fl = from.as_str().unicode_len();
                    if fl <= n && range_eq(pv, 0, fl, from.as_str()) {
                        let mut out = to.as_str().to_owned();
                        out.append(path.substring_char(fl, n));
                        assert(path@.take(fl as int) =~= pv@.subrange(0, fl as int));
                        assert(path@.skip(fl as int) =~= path@.subrange(fl as int, n as int));
                        return Some(out);
                    }
                    assert(!starts_with(path@, from@)) by {
                        if fl <= n {
                            assert(path@.take(fl as int) =~= pv@.subrange(0, fl as int));
                        }
                    }
                },
                _ => {},
            }
            i = i + 1;
        }
        None
    }

    fn match_suffix(&self, path: &str, pv: &Vec<char>) -> (r: Option<String>)
        requires
            pv@ == path@,
        ensures
            match r {
                Some(x) => first_suffix(self.model().suffixes, path@, 0) == Some(x@),
                None => first_suffix(self.model().suffixes, path@, 0) is None,
            },
    {
        proof {
            use_type_invariant(self);
        }
        let ghost m = self.model().suffixes;
        let n = pv.len();
        assert(pv@.subrange(0, n as int) =~= path@);
        let mut i: usize = 0;
        while i < self.suffixes.len()
            invariant
                i <= self.suffixes.len(),
                pv@ == path@,
                n == pv.len(),
                pv@.subrange(0, n as int) == path@,
                m == pairs_of_rules(self.suffixes@),
                all_of_kind(self.suffixes@, RuleKind::Suffix),
                first_suffix(m, path@, 0) == first_suffix(m, path@, i as int),
            decreases self.suffixes.len() - i,
        {
            assert(rule_kind_of(self.suffixes@[i as int]) == RuleKind::Suffix);
            match &self.suffixes[i] {
                RewriteRule::Suffix { from, to } => {
                    if range_ends_with(pv, 0, n, from.as_str()) {
                        return Some(to.as_str().to_owned());
                    }
                },
                _ => {},
            }
            i = i + 1;
        }
        None
    }

    fn match_regex(&self, path: &str, pv: &Vec<char>) -> (r: Option<String>)
        requires
            pv@ == path@,
        ensures
            match r {
                Some(x) => first_regex(self.model().regexes, path@, 0) == Some(x@),
                None => first_regex(self.model().regexes, path@, 0) is None,
            },
    {
        proof {
            use_type_invariant(self);
        }
        let ghost m = self.model().regexes;
        let n = pv.len();
        assert(pv@.subrange(0, n as int) =~= path@);
        let mut i: usize = 0;
        while i < self.regexes.len()
            invariant
                i <= self.regexes.len(),
                pv@ == path@,
                n == pv.len(),
                pv@.subrange(0, n as int) == path@,
                m == pairs_of_rules(self.regexes@),
                all_of_kind(self.regexes@, RuleKind::Regex),
                first_regex(m, path@, 0) == first_regex(m, path@, i as int),
            decreases self.regexes.len() - i,
        {
            assert(rule_kind_of(self.regexes@[i as int]) == RuleKind::Regex);
            match &self.regexes[i] {
                RewriteRule::Regex { from, to } => {
                    let replaced = regex_replace(from, path, to.as_str());
                    if !range_eq(pv, 0, n, replaced.as_str()) {
                        return Some(replaced);
                    }
                },
                _ => {},
            }
            i = i + 1;
        }
        None
    }

    fn finish(&self, p: String) -> (r: String)
        ensures
            r@ == apply_trailing_slash(self.trailing_slash, p@),
    {
        match self.trailing_slash {
            None => p,
            Some(force) => {
                let v = chars_of(p.as_str());
                let m = v.len();
                let ends = m > 0 && v[m - 1] == '/';
                proof {
                    reveal_strlit("/");
                }
                if force {
                    if ends {
                        p
                    } else {
                        let mut q = p;
                        q.append("/");
                        assert(q@ =~= v@.push('/'));
                        q
                    }
                } else if (m == 1 && v[0] == '/') || !ends {
                    proof {
                        if m == 1 && v[0] == '/' {
                            assert(p@ =~= seq!['/']);
                        }
                    }
                    p
                } else {
                    let q = p.as_str().substring_char(0, m - 1).to_owned();
                    assert(q@ =~= p@.drop_last());
                    assert(p@ != seq!['/']);
                    q
                }
            },
        }
    }

    /// What the engine makes of `path`: the first rule that applies (exact,
    /// then prefix, suffix and regular-expression rules) rewrites it, then
    /// the trailing-slash policy applies.
    pub fn execute(&self, path: &str) -> (r: String)
        ensures
            r@ == spec_execute(self.model(), path@),
    {
        let pv = chars_of(path);
        let rewritten = match self.match_exact(path, &pv) {
            Some(x) => x,
            None => match self.match_prefix(path, &pv) {
                Some(x) => x,
                None => match self.match_suffix(path, &pv) {
                    Some(x) => x,
                    None => match self.match_regex(path, &pv) {
                        Some(x) => x,
                        None => path.to_owned(),
                    },
                },
            },
        };
        self.finish(rewritten)
    }
}

proof fn lemma_no_exact(rules: Seq<(Seq<char>, Seq<char>)>, path: Seq<char>, i: int)
    requires
        0 <= i,
        forall|k: int| 0 <= k < rules.len() ==> (#[trigger] rules[k]).0 != path,
    ensures
        first_exact(rules, path, i) is None,
    decreases rules.len() - i,
{
    if i < rules.len() {
        lemma_no_exact(rules, path, i + 1);
    }
}

proof fn lemma_first_exact_at(rules: Seq<(Seq<char>, Seq<char>)>, path: Seq<char>, i: int, j: int)
    requires
        0 <= i <= j < rules.len(),
        rules[j].0 == path,
        forall|k: int| i <= k < j ==> (#[trigger] rules[k]).0 != path,
    ensures
        first_exact(rules, path, i) == Some(rules[j].1),
    decreases j - i,
{
    if i < j {
        lemma_first_exact_at(rules, path, i + 1, j);
    }
}

proof fn lemma_first_prefix_at(rules: Seq<(Seq<char>, Seq<char>)>, path: Seq<char>, i: int, j: int)
    requires
        0 <= i <= j < rules.len(),
        starts_with(path, rules[j].0),
        forall|k: int| i <= k < j ==> !starts_with(path, (#[trigger] rules[k]).0),
    ensures
        first_prefix(rules, path, i) == Some(rules[j].1 + path.skip(rules[j].0.len() as int)),
    decreases j - i,
{
    if i < j {
        lemma_first_prefix_at(rules, path, i + 1, j);
    }
}

/// Exact rules come first: when the `j`-th exact rule is the first whose
/// path is `path`, the path is rewritten to that rule's target, whatever
/// other rules match.
pub proof fn law_exact_rule_wins(m: RewriteModel, path: Seq<char>, j: int)
    requires
        0 <= j < m.exact.len(),
        m.exact[j].0 == path,
        forall|k: int| 0 <= k < j ==> (#[trigger] m.exact[k]).0 != path,
    ensures
        spec_rewrite(m, path) == m.exact[j].1,
{
    lemma_first_exact_at(m.exact, path, 0, j);
}

/// Prefix rules come before suffix and regular-expression rules: when no
/// exact rule is for `path` and the `j`-th prefix rule is the first whose
/// prefix `path` starts with, the path becomes that rule's target followed by
/// the rest of the path, whatever suffix or regular-expression rules also
/// match.
pub proof fn law_prefix_rule_before_suffix(m: RewriteModel, path: Seq<char>, j: int)
    requires
        forall|k: int| 0 <= k < m.exact.len() ==> (#[trigger] m.exact[k]).0 != path,
        0 <= j < m.prefixes.len(),
        starts_with(path, m.prefixes[j].0),
        forall|k: int| 0 <= k < j ==> !starts_with(path, (#[trigger] m.prefixes[k]).0),
    ensures
        spec_rewrite(m, path) == m.prefixes[j].1 + path.skip(m.prefixes[j].0.len() as int),
{
    lemma_no_exact(m.exact, path, 0);
    lemma_first_prefix_at(m.prefixes, path, 0, j);
}

proof fn lemma_no_prefix(rules: Seq<(Seq<char>, Seq<char>)>, path: Seq<char>, i: int)
    requires
        0 <= i,
        forall|k: int| 0 <= k < rules.len() ==> !starts_with(path, (#[trigger] rules[k]).0),
    ensures
        first_prefix(rules, path, i) is None,
    decreases rules.len() - i,
{
    if i < rules.len() {
        lemma_no_prefix(rules, path, i + 1);
    }
}

proof fn lemma_first_suffix_at(rules: Seq<(Seq<char>, Seq<char>)>, path: Seq<char>, i: int, j: int)
    requires
        0 <= i <= j < rules.len(),
        ends_with(path, rules[j].0),
        forall|k: int| i <= k < j ==> !ends_with(path, (#[trigger] rules[k]).0),
    ensures
        first_suffix(rules, path, i) == Some(rules[j].1),
    decreases j - i,
{
    if i < j {
        lemma_first_suffix_at(rules, path, i + 1, j);
    }
}

/// Suffix rules come before regular-expression rules: when no exact rule
/// is for `path`, no prefix rule's prefix starts it, and the `j`-th suffix
/// rule is the first whose suffix ends it, the path becomes that rule's
/// target.
pub proof fn law_suffix_rule_before_regex(m: RewriteModel, path: Seq<char>, j: int)
    requires
        forall|k: int| 0 <= k < m.exact.len() ==> (#[trigger] m.exact[k]).0 != path,
        forall|k: int| 0 <= k < m.prefixes.len() ==> !starts_with(path, (#[trigger] m.prefixes[k]).0),
        0 <= j < m.suffixes.len(),
        ends_with(path, m.suffixes[j].0),
        forall|k: int| 0 <= k < j ==> !ends_with(path, (#[trigger] m.suffixes[k]).0),
    ensures
        spec_rewrite(m, path) == m.suffixes[j].1,
{
    lemma_no_exact(m.exact, path, 0);
    lemma_no_prefix(m.prefixes, path, 0);
    lemma_first_suffix_at(m.suffixes, path, 0, j);
}

/// With the policy that adds a trailing slash, every path the engine gives
/// back ends with `/`.
pub proof fn law_slash_added(m: RewriteModel, path: Seq<char>)
    requires
        m.trailing_slash == Some(true),
    ensures
        ends_with_slash(spec_execute(m, path)),
{
}

/// Applying a trailing-slash policy twice gives what applying it once gives,
/// except removal on a path that ends with two slashes.
pub proof fn law_trailing_slash_idempotent(policy: Option<bool>, p: Seq<char>)
    requires
        policy == Some(false) ==> !(p.len() >= 2 && p[p.len() - 1] == '/' && p[p.len() - 2] == '/'),
    ensures
        apply_trailing_slash(policy, apply_trailing_slash(policy, p)) == apply_trailing_slash(policy, p),
{
    if policy == Some(false) && p != seq!['/'] && ends_with_slash(p) {
        let q = p.drop_last();
        if q == seq!['/'] {
            assert(q.len() == 1 && q[0] == '/');
            assert(p[0] == q[0]);
        }
        if q.len() > 0 {
            assert(q.last() == p[p.len() - 2]);
        }
    }
}

} // verus!
