//! Checks of a configuration before it is used.

use vstd::prelude::*;
use crate::config::presets::{builtin_preset, get_preset};
use crate::config::{Configuration, PresetMap};
use crate::config::rules::FileRule;
use crate::error::Error;
use crate::scanner::unicode_detector::{in_some_range, ranges_contain};
use crate::text::{hex_upper, push_hex};
use crate::unicode::ranges::UnicodeRange;

verus! {

/// A code point as `{:#X}` prints it.
pub open spec fn hex_text(n: u32) -> Seq<char> {
    "0x"@ + hex_upper(n as nat)
}

/// The first language from `k` on whose preset is not built in, as an error.
pub open spec fn preset_error(e: Seq<(Seq<char>, Seq<char>)>, k: int) -> Option<Seq<char>>
    decreases e.len() - k,
{
    if k < 0 || k >= e.len() {
        None
    } else if builtin_preset(e[k].1) is None {
        Some("Unknown preset '"@ + e[k].1 + "' for language '"@ + e[k].0 + "'"@)
    } else {
        preset_error(e, k + 1)
    }
}

/// What is wrong with a range: its bounds out of order, or its end past the
/// last code point.
pub open spec fn range_error(r: UnicodeRange) -> Option<Seq<char>> {
    if r.start > r.end {
        Some("Invalid Unicode range: start ("@ + hex_text(r.start) + ") > end ("@ + hex_text(r.end) + ")"@)
    } else if r.end > 0x10FFFF {
        Some("Invalid Unicode range: end ("@ + hex_text(r.end) + ") exceeds maximum Unicode code point (U+10FFFF)"@)
    } else {
        None
    }
}

/// The error of the first bad range from `k` on.
pub open spec fn ranges_error(rs: Seq<UnicodeRange>, k: int) -> Option<Seq<char>>
    decreases rs.len() - k,
{
    if k < 0 || k >= rs.len() {
        None
    } else {
        match range_error(rs[k]) {
            Some(m) => Some(m),
            None => ranges_error(rs, k + 1),
        }
    }
}

/// The ranges hold tab, space, `A`, `a` and `~`.
pub open spec fn covers_safe_ascii(rs: Seq<UnicodeRange>) -> bool {
    in_some_range(rs, 0x09) && in_some_range(rs, 0x20) && in_some_range(rs, 0x41) && in_some_range(rs, 0x61)
        && in_some_range(rs, 0x7E)
}

/// What is wrong with a rule: a bad range, or, with deny-by-default, an
/// allowlist without safe ASCII.
pub open spec fn rule_error(r: FileRule, deny_by_default: bool) -> Option<Seq<char>> {
    match ranges_error(r.allowed_ranges@, 0) {
        Some(m) => Some(m),
        None => if deny_by_default && r.allowed_ranges@.len() > 0 && !covers_safe_ascii(r.allowed_ranges@) {
            Some("Rule '"@ + r.pattern@ + "' defines an allowlist but does not include safe ASCII. In deny-by-default mode this will flag most source code. Include [0x0009, 0x000D] and [0x0020, 0x007E] (or allowed_blocks = ['ascii'])."@)
        } else {
            None
        },
    }
}

/// The error of the first bad rule from `k` on.
pub open spec fn rules_error(rs: Seq<FileRule>, deny_by_default: bool, k: int) -> Option<Seq<char>>
    decreases rs.len() - k,
{
    if k < 0 || k >= rs.len() {
        None
    } else {
        match rule_error(rs[k], deny_by_default) {
            Some(m) => Some(m),
            None => rules_error(rs, deny_by_default, k + 1),
        }
    }
}

/// What is wrong with a configuration: an unknown preset first, then the
/// rules in order.
pub open spec fn config_error(c: Configuration) -> Option<Seq<char>> {
    match preset_error(c.language_presets@, 0) {
        Some(m) => Some(m),
        None => rules_error(c.file_rules@, c.deny_by_default, 0),
    }
}

/// Whether the ranges hold tab, space, `A`, `a` and `~`.
pub fn has_safe_ascii_allowlist(ranges: &[UnicodeRange]) -> (b: bool)
    ensures
        b == covers_safe_ascii(ranges@),
{
    ranges_contain(ranges, 0x09) && ranges_contain(ranges, 0x20) && ranges_contain(ranges, 0x41)
        && ranges_contain(ranges, 0x61) && ranges_contain(ranges, 0x7E)
}

fn push_code(s: &mut String, n: u32)
    ensures
        final(s)@ == old(s)@ + hex_text(n),
{
    s.append("0x");
    push_hex(s, n as u64);
    assert(s@ =~= old(s)@ + hex_text(n));
}

fn check_presets(m: &PresetMap) -> (r: Option<String>)
    ensures
        match preset_error(m@, 0) {
            Some(e) => r matches Some(x) && x@ == e,
            None => r is None,
        },
{
    let mut k: usize = 0;
    while k < m.entries.len()
        invariant
            k <= m.entries.len(),
            preset_error(m@, 0) == preset_error(m@, k as int),
        decreases m.entries.len() - k,
    {
        let (lang, name) = (&m.entries[k].0, &m.entries[k].1);
        assert(m@[k as int] == (lang@, name@));
        if get_preset(name.as_str()).is_none() {
            let mut s = String::from_str("Unknown preset '");
            s.append(name.as_str());
            s.append("' for language '");
            s.append(lang.as_str());
            s.append("'");
            return Some(s);
        }
        k = k + 1;
    }
    None
}

fn check_rule(r: &FileRule, deny_by_default: bool) -> (e: Option<String>)
    ensures
        match rule_error(*r, deny_by_default) {
            Some(m) => e matches Some(x) && x@ == m,
            None => e is None,
        },
{
    let rs = r.allowed_ranges.as_slice();
    let mut k: usize = 0;
    while k < rs.len()
        invariant
            k <= rs.len(),
            rs@ == r.allowed_ranges@,
            ranges_error(rs@, 0) == ranges_error(rs@, k as int),
        decreases rs.len() - k,
    {
        if rs[k].start > rs[k].end {
            let mut s = String::from_str("Invalid Unicode range: start (");
            push_code(&mut s, rs[k].start);
            s.append(") > end (");
            push_code(&mut s, rs[k].end);
            s.append(")");
            return Some(s);
        }
        if rs[k].end > 0x10FFFF {
            let mut s = String::from_str("Invalid Unicode range: end (");
            push_code(&mut s, rs[k].end);
            s.append(") exceeds maximum Unicode code point (U+10FFFF)");
            return Some(s);
        }
        k = k + 1;
    }
    if deny_by_default && rs.len() > 0 && !has_safe_ascii_allowlist(rs) {
        let mut s = String::from_str("Rule '");
        s.append(r.pattern.as_str());
        s.append("' defines an allowlist but does not include safe ASCII. In deny-by-default mode this will flag most source code. Include [0x0009, 0x000D] and [0x0020, 0x007E] (or allowed_blocks = ['ascii']).");
        return Some(s);
    }
    None
}

/// Check a configuration: every language names a built-in preset, every
/// range is ordered and within the code space, and with deny-by-default every
/// allowlist holds safe ASCII. The first problem found is the error.
pub fn validate_config(config: &Configuration) -> (r: Result<(), Error>)
    ensures
        match config_error(*config) {
            Some(m) => r matches Err(Error::Config(x)) && x@ == m,
            None => r is Ok,
        },
{
    if let Some(m) = check_presets(&config.language_presets) {
        return Err(Error::Config(m));
    }
    let mut k: usize = 0;
    while k < config.file_rules.len()
        invariant
            k <= config.file_rules.len(),
            preset_error(config.language_presets@, 0) is None,
            rules_error(config.file_rules@, config.deny_by_default, 0) == rules_error(
                config.file_rules@,
                config.deny_by_default,
                k as int,
            ),
        decreases config.file_rules.len() - k,
    {
        if let Some(m) = check_rule(&config.file_rules[k], config.deny_by_default) {
            assert(rules_error(config.file_rules@, config.deny_by_default, k as int) == Some(m@));
            return Err(Error::Config(m));
        }
        k = k + 1;
    }
    Ok(())
}

} // verus!

verus! {

proof fn lemma_rules_error_none(rs: Seq<FileRule>, d: bool, k: int, i: int)
    requires
        0 <= k <= i < rs.len(),
        rules_error(rs, d, k) is None,
    ensures
        rule_error(rs[i], d) is None,
    decreases i - k,
{
    if k < i {
        lemma_rules_error_none(rs, d, k + 1, i);
    }
}

/// With deny-by-default, a configuration holding a rule whose allowlist is
/// not empty but leaves out any one of tab, space, `A`, `a` or `~` is
/// refused by validation.
pub proof fn allowlist_without_safe_ascii_is_refused(c: Configuration, i: int, cp: u32)
    requires
        c.deny_by_default,
        0 <= i < c.file_rules@.len(),
        c.file_rules@[i].allowed_ranges@.len() > 0,
        cp == 0x09 || cp == 0x20 || cp == 0x41 || cp == 0x61 || cp == 0x7E,
        forall|j: int| 0 <= j < c.file_rules@[i].allowed_ranges@.len() ==> !(
            #[trigger] c.file_rules@[i].allowed_ranges@[j].start <= cp
            && cp <= c.file_rules@[i].allowed_ranges@[j].end),
    ensures
        config_error(c) is Some,
{
    if preset_error(c.language_presets@, 0) is None {
        if rules_error(c.file_rules@, true, 0) is None {
            lemma_rules_error_none(c.file_rules@, true, 0, i);
            let rs = c.file_rules@[i].allowed_ranges@;
            assert(!in_some_range(rs, cp));
        }
    }
}

/// `cp` lies in one of the ranges.
pub open spec fn held_by(rs: Seq<UnicodeRange>, cp: u32) -> bool {
    exists|j: int| 0 <= j < rs.len() && rs[j].start <= cp && cp <= rs[j].end
}

proof fn lemma_preset_error_none(e: Seq<(Seq<char>, Seq<char>)>, k: int)
    requires
        0 <= k,
        forall|j: int| 0 <= j < e.len() ==> builtin_preset(#[trigger] e[j].1) is Some,
    ensures
        preset_error(e, k) is None,
    decreases e.len() - k,
{
    if k < e.len() {
        lemma_preset_error_none(e, k + 1);
    }
}

proof fn lemma_ranges_error_none(rs: Seq<UnicodeRange>, k: int)
    requires
        0 <= k,
        forall|j: int| 0 <= j < rs.len() ==> (#[trigger] rs[j]).start <= rs[j].end && rs[j].end <= 0x10FFFF,
    ensures
        ranges_error(rs, k) is None,
    decreases rs.len() - k,
{
    if k < rs.len() {
        lemma_ranges_error_none(rs, k + 1);
    }
}

proof fn lemma_rules_error_all_none(rs: Seq<FileRule>, d: bool, k: int)
    requires
        0 <= k,
        forall|i: int| 0 <= i < rs.len() ==> rule_error(#[trigger] rs[i], d) is None,
    ensures
        rules_error(rs, d, k) is None,
    decreases rs.len() - k,
{
    if k < rs.len() {
        lemma_rules_error_all_none(rs, d, k + 1);
    }
}

/// A configuration passes validation when every language names a built-in
/// preset, every range is ordered and ends by U+10FFFF, and, with
/// deny-by-default, every non-empty allowlist holds tab, space, `A`, `a` and
/// `~`.
pub proof fn sound_configuration_is_accepted(c: Configuration)
    requires
        forall|j: int| 0 <= j < c.language_presets@.len() ==> builtin_preset(#[trigger] c.language_presets@[j].1) is Some,
        forall|i: int, j: int|
            0 <= i < c.file_rules@.len() && 0 <= j < c.file_rules@[i].allowed_ranges@.len() ==> (
            #[trigger] c.file_rules@[i].allowed_ranges@[j]).start <= c.file_rules@[i].allowed_ranges@[j].end
                && c.file_rules@[i].allowed_ranges@[j].end <= 0x10FFFF,
        c.deny_by_default ==> forall|i: int|
            0 <= i < c.file_rules@.len() && (#[trigger] c.file_rules@[i]).allowed_ranges@.len() > 0 ==> {
                let rs = c.file_rules@[i].allowed_ranges@;
                held_by(rs, 0x09) && held_by(rs, 0x20) && held_by(rs, 0x41) && held_by(rs, 0x61) && held_by(rs, 0x7E)
            },
    ensures
        config_error(c) is None,
{
    lemma_preset_error_none(c.language_presets@, 0);
    let rs = c.file_rules@;
    assert forall|i: int| 0 <= i < rs.len() implies rule_error(#[trigger] rs[i], c.deny_by_default) is None by {
        let a = rs[i].allowed_ranges@;
        assert forall|j: int| 0 <= j < a.len() implies (#[trigger] a[j]).start <= a[j].end && a[j].end <= 0x10FFFF by {
            assert(a[j] == c.file_rules@[i].allowed_ranges@[j]);
        }
        lemma_ranges_error_none(a, 0);
        if c.deny_by_default && a.len() > 0 {
            assert(c.file_rules@[i] == rs[i]);
            assert forall|cp: u32| held_by(a, cp) implies in_some_range(a, cp) by {
                let j = choose|j: int| 0 <= j < a.len() && a[j].start <= cp && cp <= a[j].end;
                assert(crate::unicode::ranges::in_range(a[j].start, a[j].end, cp));
            }
        }
    }
    lemma_rules_error_all_none(rs, c.deny_by_default, 0);
}

} // verus!

