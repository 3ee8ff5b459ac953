//! Configuration: deny-by-default, language presets per file extension and
//! file rules, and what they allow in a given file.

pub mod presets;
pub mod rules;
pub mod validation;

use vstd::prelude::*;
use crate::config::presets::{builtin_preset, get_preset, ranges_view};
use crate::config::rules::{
    find_matching_rule, first_match, list_holds, sort_rules_by_priority, sorted_by_priority, FileRule,
};
use crate::paths::{path_extension, spec_path_extension};
use crate::scanner::unicode_detector::{in_some_range, ranges_contain, safe_ascii};
use crate::text::str_eq;
use crate::unicode::ranges::{in_range, UnicodeRange};

verus! {

/// The first index from `k` on whose key is `key`.
pub open spec fn key_from(e: Seq<(Seq<char>, Seq<char>)>, key: Seq<char>, k: int) -> Option<int>
    decreases e.len() - k,
{
    if k < 0 || k >= e.len() {
        None
    } else if e[k].0 == key {
        Some(k)
    } else {
        key_from(e, key, k + 1)
    }
}

/// The value stored under `key`.
pub open spec fn lookup(e: Seq<(Seq<char>, Seq<char>)>, key: Seq<char>) -> Option<Seq<char>> {
    match key_from(e, key, 0) {
        Some(i) => Some(e[i].1),
        None => None,
    }
}

/// The entries after storing `value` under `key`: in place of the old value,
/// else at the end.
pub open spec fn store(e: Seq<(Seq<char>, Seq<char>)>, key: Seq<char>, value: Seq<char>) -> Seq<(Seq<char>, Seq<char>)> {
    match key_from(e, key, 0) {
        Some(i) => e.update(i, (key, value)),
        None => e.push((key, value)),
    }
}

/// No key occurs twice.
pub open spec fn keys_distinct(e: Seq<(Seq<char>, Seq<char>)>) -> bool {
    forall|i: int, j: int| 0 <= i < j < e.len() ==> e[i].0 != e[j].0
}

/// Stores every entry of `more` in turn.
pub open spec fn store_all(e: Seq<(Seq<char>, Seq<char>)>, more: Seq<(Seq<char>, Seq<char>)>) -> Seq<(Seq<char>, Seq<char>)>
    decreases more.len(),
{
    if more.len() == 0 {
        e
    } else {
        store(store_all(e, more.drop_last()), more.last().0, more.last().1)
    }
}

pub proof fn lemma_key_from(e: Seq<(Seq<char>, Seq<char>)>, key: Seq<char>, k: int)
    requires
        0 <= k,
    ensures
        key_from(e, key, k) matches Some(i) ==> k <= i < e.len() && e[i].0 == key && forall|j: int|
            k <= j < i ==> e[j].0 != key,
        key_from(e, key, k) is None ==> forall|j: int| k <= j < e.len() ==> e[j].0 != key,
    decreases e.len() - k,
{
    if 0 <= k < e.len() {
        lemma_key_from(e, key, k + 1);
    }
}

proof fn lemma_key_from_first(e: Seq<(Seq<char>, Seq<char>)>, key: Seq<char>, m: int, i: int)
    requires
        0 <= m <= i <= e.len(),
        forall|j: int| m <= j < i ==> e[j].0 != key,
    ensures
        i < e.len() && e[i].0 == key ==> key_from(e, key, m) == Some(i),
        i == e.len() ==> key_from(e, key, m) is None,
    decreases i - m,
{
    if m < i {
        lemma_key_from_first(e, key, m + 1, i);
    }
}

/// Reading a key just stored gives the stored value.
pub proof fn lookup_after_store(e: Seq<(Seq<char>, Seq<char>)>, key: Seq<char>, value: Seq<char>)
    ensures
        lookup(store(e, key, value), key) == Some(value),
{
    lemma_key_from(e, key, 0);
    let s = store(e, key, value);
    match key_from(e, key, 0) {
        Some(i) => {
            assert forall|j: int| 0 <= j < i implies s[j].0 != key by {
                assert(s[j] == e[j]);
            }
            lemma_key_from_first(s, key, 0, i);
        },
        None => {
            lemma_key_from_first(s, key, 0, e.len() as int);
        },
    }
}

/// Storing under one key leaves the values of other keys as they were.
pub proof fn lookup_other_after_store(e: Seq<(Seq<char>, Seq<char>)>, key: Seq<char>, value: Seq<char>, other: Seq<char>)
    requires
        other != key,
    ensures
        lookup(store(e, key, value), other) == lookup(e, other),
{
    lemma_key_from(e, key, 0);
    lemma_key_from(e, other, 0);
    let s = store(e, key, value);
    lemma_key_from(s, other, 0);
    match key_from(e, other, 0) {
        Some(i) => {
            assert forall|j: int| 0 <= j < i implies s[j].0 != other by {
                if key_from(e, key, 0) != Some(j) {
                    assert(s[j] == e[j]);
                }
            }
            lemma_key_from_first(s, other, 0, i);
        },
        None => {
            assert forall|j: int| 0 <= j < s.len() implies s[j].0 != other by {}
            lemma_key_from_first(s, other, 0, s.len() as int);
        },
    }
}

/// Storing keeps the keys distinct, and adds an entry exactly when the key
/// was absent.
pub proof fn store_keeps_keys_distinct(e: Seq<(Seq<char>, Seq<char>)>, key: Seq<char>, value: Seq<char>)
    requires
        keys_distinct(e),
    ensures
        keys_distinct(store(e, key, value)),
        store(e, key, value).len() == e.len() + if lookup(e, key) is Some { 0int } else { 1int },
{
    lemma_key_from(e, key, 0);
}

/// The language presets of a configuration: file extension to preset name.
#[derive(Debug, Clone)]
pub struct PresetMap {
    pub entries: Vec<(String, String)>,
}

impl View for PresetMap {
    type V = Seq<(Seq<char>, Seq<char>)>;

    open spec fn view(&self) -> Seq<(Seq<char>, Seq<char>)> {
        self.entries@.map_values(|p: (String, String)| (p.0@, p.1@))
    }
}

impl PresetMap {
    pub fn new() -> (m: Self)
        ensures
            m@.len() == 0,
    {
        PresetMap { entries: Vec::new() }
    }

    pub fn len(&self) -> (n: usize)
        ensures
            n == self@.len(),
    {
        self.entries.len()
    }

    pub fn is_empty(&self) -> (b: bool)
        ensures
            b == (self@.len() == 0),
    {
        self.entries.len() == 0
    }

    fn index_of(&self, key: &str) -> (r: Option<usize>)
        ensures
            r matches Some(i) ==> key_from(self@, key@, 0) == Some(i as int) && i < self@.len(),
            r is None ==> key_from(self@, key@, 0) is None,
    {
        proof {
            lemma_key_from(self@, key@, 0);
        }
        let mut k: usize = 0;
        while k < self.entries.len()
            invariant
                k <= self.entries.len(),
                key_from(self@, key@, 0) == key_from(self@, key@, k as int),
            decreases self.entries.len() - k,
        {
            assert(self@[k as int].0 == self.entries@[k as int].0@);
            if str_eq(self.entries[k].0.as_str(), key) {
                return Some(k);
            }
            k = k + 1;
        }
        None
    }

    /// The value stored under `key`.
    pub fn get(&self, key: &str) -> (r: Option<&String>)
        ensures
            match lookup(self@, key@) {
                Some(v) => r matches Some(x) && x@ == v,
                None => r is None,
            },
    {
        proof {
            lemma_key_from(self@, key@, 0);
        }
        match self.index_of(key) {
            Some(i) => {
                assert(self@[i as int].1 == self.entries@[i as int].1@);
                Some(&self.entries[i].1)
            },
            None => None,
        }
    }

    /// Whether some value is stored under `key`.
    pub fn contains_key(&self, key: &str) -> (b: bool)
        ensures
            b == (lookup(self@, key@) is Some),
    {
        self.index_of(key).is_some()
    }

    /// Store `value` under `key`, giving back the value it replaces.
    pub fn insert(&mut self, key: String, value: String) -> (r: Option<String>)
        ensures
            final(self)@ == store(old(self)@, key@, value@),
            match lookup(old(self)@, key@) {
                Some(v) => r matches Some(x) && x@ == v,
                None => r is None,
            },
    {
        proof {
            lemma_key_from(old(self)@, key@, 0);
        }
        match self.index_of(key.as_str()) {
            Some(i) => {
                let ghost before = self@;
                assert(before[i as int].1 == self.entries@[i as int].1@);
                let old_value = self.entries[i].1.clone();
                let ghost kv = (key@, value@);
                self.entries.set(i, (key, value));
                assert(self@ =~= before.update(i as int, kv));
                Some(old_value)
            },
            None => {
                let ghost before = self@;
                self.entries.push((key, value));
                assert(self@ =~= before.push((key@, value@)));
                None
            },
        }
    }
}

/// The configuration of a scan.
#[derive(Debug, Clone)]
pub struct Configuration {
    /// Code points outside the allowlists are violations.
    pub deny_by_default: bool,
    /// File extension to language preset name.
    pub language_presets: PresetMap,
    /// File rules, tried in order.
    pub file_rules: Vec<FileRule>,
    /// Where the configuration came from.
    pub config_path: String,
}

impl Default for Configuration {
    /// Deny by default, no presets, no rules, `unicleaner.toml`.
    fn default() -> (c: Self)
        ensures
            c.deny_by_default,
            c.language_presets@.len() == 0,
            c.file_rules@.len() == 0,
            c.config_path@ == "unicleaner.toml"@,
    {
        Configuration {
            deny_by_default: true,
            language_presets: PresetMap::new(),
            file_rules: Vec::new(),
            config_path: String::from_str("unicleaner.toml"),
        }
    }
}

/// The ranges of the first matching rule, when it has any.
pub open spec fn rule_ranges(c: Configuration, path: Seq<char>) -> Option<Seq<(u32, u32, Option<Seq<char>>)>> {
    match first_match(c.file_rules@, path) {
        Some(i) => if c.file_rules@[i].allowed_ranges@.len() > 0 {
            Some(ranges_view(c.file_rules@[i].allowed_ranges@))
        } else {
            None
        },
        None => None,
    }
}

/// The ranges of the preset configured for the path's extension, when it
/// names a built-in preset.
pub open spec fn preset_ranges(c: Configuration, path: Seq<char>) -> Option<Seq<(u32, u32, Option<Seq<char>>)>> {
    match spec_path_extension(path) {
        Some(ext) => match lookup(c.language_presets@, ext) {
            Some(name) => match builtin_preset(name) {
                Some(p) => Some(p.2),
                None => None,
            },
            None => None,
        },
        None => None,
    }
}

/// The allowlist for a file: the first matching rule's ranges, else its
/// extension's preset's ranges.
pub open spec fn config_ranges(c: Configuration, path: Seq<char>) -> Option<Seq<(u32, u32, Option<Seq<char>>)>> {
    match rule_ranges(c, path) {
        Some(r) => Some(r),
        None => preset_ranges(c, path),
    }
}

/// Some range of the list holds `cp`.
pub open spec fn tuples_hold(rs: Seq<(u32, u32, Option<Seq<char>>)>, cp: u32) -> bool {
    exists|i: int| 0 <= i < rs.len() && in_range(#[trigger] rs[i].0, rs[i].1, cp)
}

/// Whether a code point is allowed in a file. Allow-by-default allows all but
/// the first matching rule's denied code points. Deny-by-default denies
/// those, then follows that rule's ranges where it has some, else the
/// file's allowlist, else safe ASCII.
pub open spec fn config_allows(c: Configuration, path: Seq<char>, cp: u32) -> bool {
    let m = first_match(c.file_rules@, path);
    let fallback = match config_ranges(c, path) {
        Some(rs) => tuples_hold(rs, cp),
        None => safe_ascii(cp),
    };
    if !c.deny_by_default {
        match m {
            Some(i) => !c.file_rules@[i].denied_code_points@.contains(cp),
            None => true,
        }
    } else {
        match m {
            Some(i) => if c.file_rules@[i].denied_code_points@.contains(cp) {
                false
            } else if c.file_rules@[i].allowed_ranges@.len() > 0 {
                in_some_range(c.file_rules@[i].allowed_ranges@, cp)
            } else {
                fallback
            },
            None => fallback,
        }
    }
}

/// The configuration after merging in `other`: deny-by-default only when
/// both are, the presets of `other` stored over these, and all rules sorted by
/// priority.
pub open spec fn merged(c: Configuration, other: Configuration) -> (bool, Seq<(Seq<char>, Seq<char>)>, Seq<FileRule>) {
    (
        c.deny_by_default && other.deny_by_default,
        store_all(c.language_presets@, other.language_presets@),
        sorted_by_priority(c.file_rules@ + other.file_rules@),
    )
}

proof fn lemma_ranges_view_hold(rs: Seq<UnicodeRange>, cp: u32)
    ensures
        tuples_hold(ranges_view(rs), cp) == in_some_range(rs, cp),
{
    if in_some_range(rs, cp) {
        let j = choose|j: int| 0 <= j < rs.len() && in_range(rs[j].start, rs[j].end, cp);
        assert(ranges_view(rs)[j].0 == rs[j].start);
    }
    if tuples_hold(ranges_view(rs), cp) {
        let j = choose|j: int| 0 <= j < ranges_view(rs).len() && in_range(#[trigger] ranges_view(rs)[j].0, ranges_view(rs)[j].1, cp);
        assert(ranges_view(rs)[j].0 == rs[j].start);
    }
}

/// A copy of a list of ranges.
pub fn copy_ranges(v: &Vec<UnicodeRange>) -> (r: Vec<UnicodeRange>)
    ensures
        r@ == v@,
{
    let mut r: Vec<UnicodeRange> = Vec::new();
    let mut i: usize = 0;
    while i < v.len()
        invariant
            i <= v.len(),
            r@ == v@.take(i as int),
        decreases v.len() - i,
    {
        let d = match &v[i].description {
            Some(s) => Some(s.clone()),
            None => None,
        };
        r.push(UnicodeRange { start: v[i].start, end: v[i].end, description: d });
        assert(r@ =~= v@.take(i + 1));
        i = i + 1;
    }
    assert(v@.take(v.len() as int) =~= v@);
    r
}

impl Configuration {
    /// The default configuration.
    pub fn new() -> (c: Self)
        ensures
            c.deny_by_default,
            c.language_presets@.len() == 0,
            c.file_rules@.len() == 0,
            c.config_path@ == "unicleaner.toml"@,
    {
        Self::default()
    }

    /// Merge `other` into this configuration: `other` can turn deny-by-default
    /// off, its presets override these, and its rules join these, all sorted
    /// by priority.
    pub fn merge(&mut self, other: Configuration)
        ensures
            (final(self).deny_by_default, final(self).language_presets@, final(self).file_rules@) == merged(*old(self), other),
            final(self).config_path == old(self).config_path,
    {
        let ghost before = *self;
        let ghost other_view = other;
        if !other.deny_by_default {
            self.deny_by_default = false;
        }
        let ghost deny = self.deny_by_default;
        let Configuration { deny_by_default: _, language_presets, file_rules, config_path: _ } = other;
        let ghost more = language_presets@;
        let PresetMap { entries } = language_presets;
        let ghost es = entries@;
        for e in it: entries.into_iter()
            invariant
                it.seq() == es,
                more == es.map_values(|p: (String, String)| (p.0@, p.1@)),
                self.language_presets@ == store_all(before.language_presets@, more.take(it.index() as int)),
                self.deny_by_default == deny,
                self.file_rules == before.file_rules,
                self.config_path == before.config_path,
        {
            proof {
                assert(more.take(it.index() + 1).drop_last() =~= more.take(it.index() as int));
            }
            let (k, v) = e;
            self.language_presets.insert(k, v);
        }
        assert(more.take(more.len() as int) =~= more);
        let mut rules = file_rules;
        let ghost joined = self.file_rules@ + rules@;
        self.file_rules.append(&mut rules);
        assert(self.file_rules@ =~= joined);
        sort_rules_by_priority(&mut self.file_rules);
    }

    /// The allowlist for a file, if any: the first matching rule's ranges
    /// when it has some, else the ranges of the preset configured for the
    /// file's extension.
    pub fn get_allowed_ranges(&self, file_path: &str) -> (r: Option<Vec<UnicodeRange>>)
        ensures
            match config_ranges(*self, file_path@) {
                Some(rs) => r matches Some(v) && ranges_view(v@) == rs,
                None => r is None,
            },
            rule_ranges(*self, file_path@) is Some ==> (r matches Some(v) && v@ == self.file_rules@[first_match(self.file_rules@, file_path@)->Some_0].allowed_ranges@),
    {
        proof {
            crate::config::rules::lemma_first_match_from(self.file_rules@, file_path@, 0);
        }
        if let Some(rule) = find_matching_rule(self.file_rules.as_slice(), file_path) {
            if rule.allowed_ranges.len() > 0 {
                return Some(copy_ranges(&rule.allowed_ranges));
            }
        }
        if let Some(ext) = path_extension(file_path) {
            if let Some(name) = self.language_presets.get(ext.as_str()) {
                if let Some(preset) = get_preset(name.as_str()) {
                    return Some(preset.allowed_ranges);
                }
            }
        }
        None
    }

    /// Whether a code point is allowed in a file.
    pub fn is_code_point_allowed(&self, file_path: &str, code_point: u32) -> (b: bool)
        ensures
            b == config_allows(*self, file_path@, code_point),
    {
        proof {
            crate::config::rules::lemma_first_match_from(self.file_rules@, file_path@, 0);
        }
        if !self.deny_by_default {
            if let Some(rule) = find_matching_rule(self.file_rules.as_slice(), file_path) {
                if list_holds(rule.denied_code_points.as_slice(), code_point) {
                    return false;
                }
            }
            return true;
        }
        if let Some(rule) = find_matching_rule(self.file_rules.as_slice(), file_path) {
            if list_holds(rule.denied_code_points.as_slice(), code_point) {
                return false;
            }
            if rule.allowed_ranges.len() > 0 {
                return ranges_contain(rule.allowed_ranges.as_slice(), code_point);
            }
        }
        match self.get_allowed_ranges(file_path) {
            Some(ranges) => {
                proof {
                    lemma_ranges_view_hold(ranges@, code_point);
                }
                ranges_contain(ranges.as_slice(), code_point)
            },
            None => (0x0009 <= code_point && code_point <= 0x000D) || (0x0020 <= code_point
                && code_point <= 0x007E),
        }
    }
}

} // verus!

verus! {

/// With deny-by-default and neither rules nor presets, exactly safe ASCII is
/// allowed: tab to carriage return, and space to tilde.
pub proof fn default_allows_exactly_safe_ascii(c: Configuration, path: Seq<char>, cp: u32)
    requires
        c.deny_by_default,
        c.file_rules@.len() == 0,
        c.language_presets@.len() == 0,
    ensures
        config_allows(c, path, cp) == safe_ascii(cp),
{
    assert(first_match(c.file_rules@, path) is None);
    lemma_key_from(c.language_presets@, path, 0);
    assert forall|e: Seq<char>| lookup(c.language_presets@, e) is None by {
        lemma_key_from(c.language_presets@, e, 0);
    }
}

/// Without deny-by-default, a file no rule matches allows every code point.
pub proof fn allow_by_default_allows_unmatched(c: Configuration, path: Seq<char>, cp: u32)
    requires
        !c.deny_by_default,
        first_match(c.file_rules@, path) is None,
    ensures
        config_allows(c, path, cp),
{
}

/// A code point that the first matching rule denies is never allowed, in
/// either mode, whatever the allowlists say.
pub proof fn explicit_deny_wins(c: Configuration, path: Seq<char>, cp: u32, i: int)
    requires
        first_match(c.file_rules@, path) == Some(i),
        c.file_rules@[i].denied_code_points@.contains(cp),
    ensures
        !config_allows(c, path, cp),
{
}

/// Merging keeps every rule of both configurations, ordered by falling
/// priority, and keeps deny-by-default only when both have it.
pub proof fn merge_keeps_all_rules(c: Configuration, other: Configuration)
    ensures
        merged(c, other).2.to_multiset() == (c.file_rules@ + other.file_rules@).to_multiset(),
        crate::config::rules::priorities_fall(merged(c, other).2),
        merged(c, other).0 == (c.deny_by_default && other.deny_by_default),
{
    crate::config::rules::sorting_orders_and_keeps(c.file_rules@ + other.file_rules@);
}

} // verus!
