//! File rules: a glob pattern with the code points allowed and denied in the
//! files it matches, and a priority by which rules are tried.

use globset::{Glob, GlobSetBuilder};
use vstd::prelude::*;
use crate::error::Error;
use crate::text::{contains_seq, str_chars};
use crate::scanner::unicode_detector::{in_some_range, ranges_contain};
use crate::unicode::ranges::UnicodeRange;

verus! {

/// The error text of `globset::Glob::new` on a pattern, or `None` where the
/// pattern parses.
pub uninterp spec fn spec_glob_error(pattern: Seq<char>) -> Option<Seq<char>>;

/// Whether `globset::GlobSetBuilder::build` succeeds on the set holding the
/// (parsed) pattern: it fails where the pattern's regex cannot be built, such
/// as alternates nested too deeply.
pub uninterp spec fn spec_glob_builds(pattern: Seq<char>) -> bool;

/// Whether the set built from a (valid) pattern matches a path.
pub uninterp spec fn spec_glob_match(pattern: Seq<char>, path: Seq<char>) -> bool;

/// Parse a glob pattern.
///
/// Trusted: `globset::Glob::new`; `None` when it succeeds, else the text of
/// its error. The outcome depends on the pattern alone and is named
/// `spec_glob_error`.
#[verifier::external_body]
fn glob_error(pattern: &str) -> (r: Option<String>)
    ensures
        r is None <==> spec_glob_error(pattern@) is None,
        r matches Some(e) ==> spec_glob_error(pattern@) == Some(e@),
{
    match Glob::new(pattern) {
        Ok(_) => None,
        Err(e) => Some(e.to_string()),
    }
}

/// Match a path against a glob pattern.
///
/// Trusted: `globset::Glob::new`, then a `GlobSetBuilder` holding the glob,
/// `build`, and `GlobSet::is_match` on the path. `None` when the pattern does
/// not parse or the set cannot be built (the builder reports that as an
/// error, where `Glob::compile_matcher` would panic). Whether it builds
/// depends on the pattern alone and is named `spec_glob_builds`; the answer
/// depends on the pattern and the path alone and is named `spec_glob_match`.
#[verifier::external_body]
fn glob_matches(pattern: &str, path: &str) -> (r: Option<bool>)
    ensures
        r is None <==> (spec_glob_error(pattern@) is Some || !spec_glob_builds(pattern@)),
        r matches Some(b) ==> b == spec_glob_match(pattern@, path@),
{
    match Glob::new(pattern) {
        Ok(g) => match GlobSetBuilder::new().add(g).build() {
            Ok(set) => Some(set.is_match(path)),
            Err(_) => None,
        },
        Err(_) => None,
    }
}

/// A rule for the files that match a glob pattern.
#[derive(Debug, Clone)]
pub struct FileRule {
    pub pattern: String,
    pub allowed_ranges: Vec<UnicodeRange>,
    pub denied_code_points: Vec<u32>,
    pub priority: usize,
}

/// The number of times `c` occurs in `s`.
pub open spec fn count_char(s: Seq<char>, c: char) -> nat
    decreases s.len(),
{
    if s.len() == 0 {
        0
    } else {
        count_char(s.drop_last(), c) + if s.last() == c {
            1nat
        } else {
            0nat
        }
    }
}

/// The priority of a pattern: 1000 without `*` and `?`, ten per `/`, 50
/// without `**`, and 25 more with a `*` but no `**`.
pub open spec fn priority_of(p: Seq<char>) -> int {
    let star = p.contains('*');
    let double = contains_seq(p, seq!['*', '*']);
    (if !star && !p.contains('?') { 1000int } else { 0int }) + 10 * count_char(p, '/') + (if !double {
        50int
    } else {
        0int
    }) + (if star && !double { 25int } else { 0int })
}

/// The priority of a pattern fits in a `usize`.
pub open spec fn priority_fits(p: Seq<char>) -> bool {
    10 * count_char(p, '/') + 1075 <= usize::MAX
}

/// A rule's pattern parses, its matcher builds, and it matches the path.
pub open spec fn rule_matches(r: FileRule, path: Seq<char>) -> bool {
    spec_glob_error(r.pattern@) is None && spec_glob_builds(r.pattern@) && spec_glob_match(r.pattern@, path)
}

/// Whether the list holds `cp`.
pub fn list_holds(v: &[u32], cp: u32) -> (b: bool)
    ensures
        b == v@.contains(cp),
{
    let mut i: usize = 0;
    while i < v.len()
        invariant
            i <= v.len(),
            forall|j: int| 0 <= j < i ==> v@[j] != cp,
        decreases v.len() - i,
    {
        if v[i] == cp {
            return true;
        }
        i = i + 1;
    }
    false
}

/// The priority of a pattern: exact paths first, then deeper patterns, then
/// single-star ones before recursive ones.
pub fn calculate_priority(pattern: &str) -> (n: usize)
    requires
        priority_fits(pattern@),
    ensures
        n == priority_of(pattern@),
{
    let cs = str_chars(pattern);
    let mut star = false;
    let mut question = false;
    let mut double = false;
    let mut slashes: usize = 0;
    let mut i: usize = 0;
    while i < cs.len()
        invariant
            i <= cs.len(),
            cs@ == pattern@,
            priority_fits(pattern@),
            star == cs@.take(i as int).contains('*'),
            question == cs@.take(i as int).contains('?'),
            double == contains_seq(cs@.take(i as int), seq!['*', '*']),
            slashes == count_char(cs@.take(i as int), '/'),
            count_char(cs@.take(i as int), '/') <= count_char(cs@, '/'),
        decreases cs.len() - i,
    {
        let ghost pre = cs@.take(i as int);
        let ghost next = cs@.take(i + 1);
        assert(next.drop_last() =~= pre);
        assert(next =~= pre.push(cs@[i as int]));
        assert(next.last() == cs@[i as int]);
        assert(i > 0 ==> pre.last() == cs@[i - 1]);
        proof {
            lemma_count_char_prefix(cs@, i + 1);
            lemma_contains_push(pre, cs@[i as int], '*');
            lemma_contains_push(pre, cs@[i as int], '?');
            lemma_double_push(pre, cs@[i as int]);
        }
        let c = cs[i];
        if c == '*' {
            if i > 0 && cs[i - 1] == '*' {
                double = true;
            }
            star = true;
        }
        if c == '?' {
            question = true;
        }
        if c == '/' {
            slashes = slashes + 1;
        }
        i = i + 1;
    }
    assert(cs@.take(cs.len() as int) =~= cs@);
    let mut n: usize = 10 * slashes;
    if !star && !question {
        n = n + 1000;
    }
    if !double {
        n = n + 50;
    }
    if star && !double {
        n = n + 25;
    }
    n
}

proof fn lemma_count_char_prefix(s: Seq<char>, k: int)
    requires
        0 <= k <= s.len(),
    ensures
        count_char(s.take(k), '/') <= count_char(s, '/'),
    decreases s.len() - k,
{
    if k < s.len() {
        lemma_count_char_prefix(s, k + 1);
        assert(s.take(k + 1).drop_last() =~= s.take(k));
    } else {
        assert(s.take(k) =~= s);
    }
}

proof fn lemma_contains_push(s: Seq<char>, c: char, x: char)
    ensures
        s.push(c).contains(x) == (s.contains(x) || c == x),
{
    if s.contains(x) {
        let j = choose|j: int| 0 <= j < s.len() && s[j] == x;
        assert(s.push(c)[j] == x);
    }
    if c == x {
        assert(s.push(c)[s.len() as int] == x);
    }
    if s.push(c).contains(x) {
        let j = choose|j: int| 0 <= j < s.push(c).len() && s.push(c)[j] == x;
        if j < s.len() {
            assert(s[j] == x);
        }
    }
}

proof fn lemma_double_push(s: Seq<char>, c: char)
    ensures
        contains_seq(s.push(c), seq!['*', '*']) == (contains_seq(s, seq!['*', '*']) || (c == '*'
            && s.len() > 0 && s.last() == '*')),
{
    let t = s.push(c);
    let d = seq!['*', '*'];
    if contains_seq(s, d) {
        let j = choose|j: int| crate::text::occurs_at(s, d, j);
        assert(t.subrange(j, j + 2) =~= s.subrange(j, j + 2));
        assert(crate::text::occurs_at(t, d, j));
    }
    if c == '*' && s.len() > 0 && s.last() == '*' {
        let j = s.len() - 1;
        assert(t.subrange(j, j + 2) =~= d);
        assert(crate::text::occurs_at(t, d, j));
    }
    if contains_seq(t, d) {
        let j = choose|j: int| crate::text::occurs_at(t, d, j);
        if j + 2 <= s.len() {
            assert(t.subrange(j, j + 2) =~= s.subrange(j, j + 2));
            assert(crate::text::occurs_at(s, d, j));
        } else {
            assert(t.subrange(j, j + 2)[1] == t[j + 1]);
            assert(t.subrange(j, j + 2)[0] == t[j]);
        }
    }
}

impl FileRule {
    /// A rule for a glob pattern, with no ranges and no denied code points;
    /// fails on a pattern that does not parse.
    pub fn new(pattern: &str) -> (r: Result<Self, Error>)
        requires
            priority_fits(pattern@),
        ensures
            match spec_glob_error(pattern@) {
                None => r matches Ok(rule) && rule.pattern@ == pattern@ && rule.allowed_ranges@.len() == 0
                    && rule.denied_code_points@.len() == 0 && rule.priority == priority_of(pattern@),
                Some(e) => r matches Err(Error::Config(m)) && m@ == "Invalid glob pattern '"@ + pattern@
                    + "': "@ + e,
            },
    {
        match glob_error(pattern) {
            Some(e) => {
                let mut m = String::from_str("Invalid glob pattern '");
                m.append(pattern);
                m.append("': ");
                m.append(e.as_str());
                Err(Error::Config(m))
            },
            None => Ok(FileRule {
                pattern: String::from_str(pattern),
                allowed_ranges: Vec::new(),
                denied_code_points: Vec::new(),
                priority: calculate_priority(pattern),
            }),
        }
    }

    /// The rule with one more allowed range, taken as given.
    pub fn with_allowed_range(self, start: u32, end: u32, description: Option<String>) -> (r: Self)
        ensures
            r == (FileRule {
                allowed_ranges: r.allowed_ranges,
                ..self
            }),
            r.allowed_ranges@ == self.allowed_ranges@.push(UnicodeRange { start, end, description }),
    {
        let mut r = self;
        r.allowed_ranges.push(UnicodeRange { start, end, description });
        r
    }

    /// The rule with one more denied code point.
    pub fn with_denied_code_point(self, code_point: u32) -> (r: Self)
        ensures
            r == (FileRule {
                denied_code_points: r.denied_code_points,
                ..self
            }),
            r.denied_code_points@ == self.denied_code_points@.push(code_point),
    {
        let mut r = self;
        r.denied_code_points.push(code_point);
        r
    }

    /// Whether the rule's pattern matches the path (never, for a pattern that
    /// does not parse, which `new` does not build, nor for one whose matcher
    /// cannot be built).
    pub fn matches(&self, path: &str) -> (b: bool)
        ensures
            b == rule_matches(*self, path@),
    {
        match glob_matches(self.pattern.as_str(), path) {
            Some(b) => b,
            None => false,
        }
    }

    /// A code point is allowed when it is not denied and some allowed range
    /// holds it.
    pub fn is_code_point_allowed(&self, code_point: u32) -> (b: bool)
        ensures
            b == (!self.denied_code_points@.contains(code_point) && in_some_range(
                self.allowed_ranges@,
                code_point,
            )),
    {
        if list_holds(self.denied_code_points.as_slice(), code_point) {
            return false;
        }
        ranges_contain(self.allowed_ranges.as_slice(), code_point)
    }
}

/// The first position in the list (ordered by falling priority) whose
/// priority is below `prio`.
pub open spec fn priority_pos(s: Seq<FileRule>, prio: usize) -> int
    decreases s.len(),
{
    if s.len() == 0 {
        0
    } else if s[0].priority < prio {
        0
    } else {
        1 + priority_pos(s.drop_first(), prio)
    }
}

/// The rules sorted by falling priority, rules of equal priority in their
/// order: each rule goes after the ones before it of the same or a higher
/// priority.
pub open spec fn sorted_by_priority(s: Seq<FileRule>) -> Seq<FileRule>
    decreases s.len(),
{
    if s.len() == 0 {
        s
    } else {
        let t = sorted_by_priority(s.drop_last());
        t.insert(priority_pos(t, s.last().priority), s.last())
    }
}

/// The priorities do not rise along the list.
pub open spec fn priorities_fall(s: Seq<FileRule>) -> bool {
    forall|i: int, j: int| 0 <= i < j < s.len() ==> s[i].priority >= s[j].priority
}

proof fn lemma_priority_pos(s: Seq<FileRule>, prio: usize)
    requires
        priorities_fall(s),
    ensures
        0 <= priority_pos(s, prio) <= s.len(),
        forall|j: int| 0 <= j < priority_pos(s, prio) ==> s[j].priority >= prio,
        forall|j: int| priority_pos(s, prio) <= j < s.len() ==> s[j].priority < prio,
    decreases s.len(),
{
    if s.len() > 0 && s[0].priority >= prio {
        let t = s.drop_first();
        lemma_priority_pos(t, prio);
        assert forall|j: int| 0 <= j < priority_pos(s, prio) implies s[j].priority >= prio by {
            if j > 0 {
                assert(s[j] == t[j - 1]);
            }
        }
        assert forall|j: int| priority_pos(s, prio) <= j < s.len() implies s[j].priority < prio by {
            assert(s[j] == t[j - 1]);
        }
    }
}

/// Sorting rules by priority orders them by falling priority and keeps
/// every rule.
pub proof fn sorting_orders_and_keeps(s: Seq<FileRule>)
    ensures
        priorities_fall(sorted_by_priority(s)),
        sorted_by_priority(s).len() == s.len(),
        sorted_by_priority(s).to_multiset() == s.to_multiset(),
    decreases s.len(),
{
    if s.len() > 0 {
        let t = sorted_by_priority(s.drop_last());
        sorting_orders_and_keeps(s.drop_last());
        let x = s.last();
        lemma_priority_pos(t, x.priority);
        let p = priority_pos(t, x.priority);
        let u = t.insert(p, x);
        assert forall|i: int, j: int| 0 <= i < j < u.len() implies u[i].priority >= u[j].priority by {
            if i < p && j < p {
            } else if i < p && j == p {
            } else if i < p {
                assert(u[j] == t[j - 1]);
            } else if i == p {
                assert(u[j] == t[j - 1]);
            } else {
                assert(u[i] == t[i - 1]);
                assert(u[j] == t[j - 1]);
            }
        }
        vstd::seq_lib::to_multiset_insert(t, p, x);
        assert(s =~= s.drop_last().push(x));
        s.drop_last().to_multiset_ensures();
    }
}

/// Sort rules by falling priority, keeping rules of equal priority in their
/// order.
pub fn sort_rules_by_priority(rules: &mut Vec<FileRule>)
    ensures
        final(rules)@ == sorted_by_priority(old(rules)@),
        priorities_fall(final(rules)@),
        final(rules)@.to_multiset() == old(rules)@.to_multiset(),
{
    proof {
        sorting_orders_and_keeps(old(rules)@);
    }
    let mut src: Vec<FileRule> = Vec::new();
    std::mem::swap(&mut src, rules);
    let ghost all = src@;
    let mut out: Vec<FileRule> = Vec::new();
    for r in it: src.into_iter()
        invariant
            it.seq() == all,
            out@ == sorted_by_priority(all.take(it.index() as int)),
    {
        let ghost t = out@;
        proof {
            assert(all.take(it.index() + 1).drop_last() =~= all.take(it.index() as int));
            assert(t.skip(0) =~= t);
        }
        let mut p: usize = 0;
        while p < out.len() && !(out[p].priority < r.priority)
            invariant
                p <= out.len(),
                t == out@,
                priority_pos(t, r.priority) == p + priority_pos(t.skip(p as int), r.priority),
            decreases out.len() - p,
        {
            assert(t.skip(p as int).drop_first() =~= t.skip(p + 1));
            assert(t.skip(p as int)[0] == t[p as int]);
            p = p + 1;
        }
        proof {
            if p < out.len() {
                assert(t.skip(p as int)[0] == t[p as int]);
            }
        }
        out.insert(p, r);
    }
    assert(all.take(all.len() as int) =~= all);
    *rules = out;
}

/// The index of the first rule from `k` on that matches the path.
pub open spec fn first_match_from(rules: Seq<FileRule>, path: Seq<char>, k: int) -> Option<int>
    decreases rules.len() - k,
{
    if k < 0 || k >= rules.len() {
        None
    } else if rule_matches(rules[k], path) {
        Some(k)
    } else {
        first_match_from(rules, path, k + 1)
    }
}

/// The index of the first rule that matches the path.
pub open spec fn first_match(rules: Seq<FileRule>, path: Seq<char>) -> Option<int> {
    first_match_from(rules, path, 0)
}

pub proof fn lemma_first_match_from(rules: Seq<FileRule>, path: Seq<char>, k: int)
    ensures
        first_match_from(rules, path, k) matches Some(i) ==> k <= i < rules.len() && rule_matches(
            rules[i],
            path,
        ),
    decreases rules.len() - k,
{
    if 0 <= k < rules.len() {
        lemma_first_match_from(rules, path, k + 1);
    }
}

/// The position of the first rule that matches the path.
pub fn matching_rule_index(rules: &[FileRule], path: &str) -> (r: Option<usize>)
    ensures
        match first_match(rules@, path@) {
            Some(i) => r == Some(i as usize) && i < rules@.len(),
            None => r is None,
        },
        r matches Some(i) ==> i < rules@.len(),
{
    proof {
        lemma_first_match_from(rules@, path@, 0);
    }
    let mut k: usize = 0;
    while k < rules.len()
        invariant
            k <= rules.len(),
            first_match(rules@, path@) == first_match_from(rules@, path@, k as int),
        decreases rules.len() - k,
    {
        if rules[k].matches(path) {
            return Some(k);
        }
        k = k + 1;
    }
    None
}

/// The first rule that matches the path.
pub fn find_matching_rule<'a>(rules: &'a [FileRule], path: &str) -> (r: Option<&'a FileRule>)
    ensures
        match first_match(rules@, path@) {
            Some(i) => r == Some(&rules@[i]),
            None => r is None,
        },
{
    proof {
        lemma_first_match_from(rules@, path@, 0);
    }
    match matching_rule_index(rules, path) {
        Some(i) => Some(&rules[i]),
        None => None,
    }
}

} // verus!
