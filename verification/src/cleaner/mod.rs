//! Sanitizing strings against malicious Unicode.
//!
//! `clean` applies a `CleanPolicy` to a string and returns the (possibly
//! changed) text, the violations the policy reacted to, and whether the text
//! changed.

pub mod policy;

pub use policy::{CleanAction, CleanPolicy};

use vstd::prelude::*;
use unicode_normalization::UnicodeNormalization;
use crate::report::violation::{is_display_char, Violation};
use crate::scanner::encoding::DetectedEncoding;
use crate::scanner::unicode_detector::{
    judge, kind_category, kind_category_of, kind_description, kind_description_str, kind_name,
    kind_name_str, kind_severity, kind_severity_of, verdict, KIND_DENIED, KIND_DISALLOWED,
};
use crate::text::{
    char_width, lemma_utf8_len_at_least_len, lemma_utf8_len_take_next, lemma_utf8_prefix_le,
    push_char, str_chars, utf8_len, utf8_width, column_before, newlines_before,
};
use crate::unicode::malicious::{builtin_pattern, is_builtin_pattern, pattern_code_points, MaliciousPattern, PATTERN_COUNT};
use crate::unicode::ranges::UnicodeRange;

verus! {

/// Whether a string is in Unicode Normalization Form C.
pub uninterp spec fn spec_is_nfc(s: Seq<char>) -> bool;

/// The NFC normalization of a string.
pub uninterp spec fn spec_nfc(s: Seq<char>) -> Seq<char>;

/// Whether `s` is in NFC.
///
/// Trusted: calls `unicode_normalization::is_nfc`, a function of the characters
/// alone, named by `spec_is_nfc`.
#[verifier::external_body]
fn is_nfc(s: &str) -> (b: bool)
    ensures
        b == spec_is_nfc(s@),
{
    unicode_normalization::is_nfc(s)
}

/// The NFC normalization of `s`.
///
/// Trusted: collects `UnicodeNormalization::nfc`, a function of the characters
/// alone, named by `spec_nfc`.
#[verifier::external_body]
fn to_nfc(s: &str) -> (r: String)
    ensures
        r@ == spec_nfc(s@),
{
    s.nfc().collect::<String>()
}

/// The cleaned text: borrowed from the input when nothing changed.
#[derive(Debug, Clone, PartialEq, Eq)]
pub enum CleanOutput<'a> {
    Borrowed(&'a str),
    Owned(String),
}

impl<'a> View for CleanOutput<'a> {
    type V = Seq<char>;

    open spec fn view(&self) -> Seq<char> {
        match self {
            CleanOutput::Borrowed(s) => s@,
            CleanOutput::Owned(s) => s@,
        }
    }
}

impl<'a> CleanOutput<'a> {
    /// The text as a string slice.
    pub fn as_ref(&self) -> (s: &str)
        ensures
            s@ == self@,
    {
        match self {
            CleanOutput::Borrowed(s) => s,
            CleanOutput::Owned(s) => s.as_str(),
        }
    }
}

/// What `clean` returns.
#[derive(Debug, Clone)]
pub struct CleanResult<'a> {
    /// The cleaned text.
    pub output: CleanOutput<'a>,
    /// The code points the policy acted on, in input order.
    pub violations: Vec<Violation>,
    /// Whether the text changed.
    pub modified: bool,
}

/// The allowlist of a policy, as a sequence.
pub open spec fn policy_ranges(p: CleanPolicy) -> Option<Seq<UnicodeRange>> {
    match p.allowed_ranges {
        Some(v) => Some(v@),
        None => None,
    }
}

/// The verdict of a policy on a code point: built-in table first, then the
/// deny list, then deny-by-default.
pub open spec fn policy_verdict(cp: u32, p: CleanPolicy) -> Option<int> {
    verdict(cp, p.deny_by_default, policy_ranges(p), p.denied_code_points@)
}

/// What replaces character `c`, judged `kind`, in the output.
pub open spec fn action_output(c: char, kind: int, p: CleanPolicy) -> Seq<char> {
    match p.spec_effective_action(kind_category(kind)) {
        CleanAction::Strip => seq![],
        CleanAction::Replace(r) => seq![r],
        CleanAction::KeepWithMark => seq![c],
    }
}

/// Cleaning the first `i` characters of `s`: the output so far, the hits so
/// far (line, column, byte offset, code point, verdict), the current line
/// index, and the characters and bytes read on the current line.
pub open spec fn clean_fold(s: Seq<char>, i: nat, p: CleanPolicy) -> (
    Seq<char>,
    Seq<(nat, nat, nat, u32, int)>,
    nat,
    nat,
    nat,
)
    decreases i,
{
    if i == 0 || i > s.len() {
        (seq![], seq![], 0, 0, 0)
    } else {
        let (o, h, ln, col, b) = clean_fold(s, (i - 1) as nat, p);
        let c = s[i - 1];
        if c == '\n' {
            (o.push('\n'), h, ln + 1, 0, 0)
        } else {
            match policy_verdict(c as u32, p) {
                Some(k) => (
                    o + action_output(c, k, p),
                    h.push(((ln + 1) as nat, (col + 1) as nat, b, c as u32, k)),
                    ln,
                    col + 1,
                    b + utf8_width(c),
                ),
                None => (o.push(c), h, ln, col + 1, b + utf8_width(c)),
            }
        }
    }
}

/// The text after the character pass.
pub open spec fn cleaned_chars(s: Seq<char>, p: CleanPolicy) -> Seq<char> {
    clean_fold(s, s.len(), p).0
}

/// The code points acted on, with positions.
pub open spec fn clean_hits(s: Seq<char>, p: CleanPolicy) -> Seq<(nat, nat, nat, u32, int)> {
    clean_fold(s, s.len(), p).1
}

/// The NFC pass changes the text.
pub open spec fn nfc_changes(s: Seq<char>, p: CleanPolicy) -> bool {
    p.normalize_nfc && !spec_is_nfc(cleaned_chars(s, p))
}

/// Whether cleaning changes the text.
pub open spec fn clean_modifies(s: Seq<char>, p: CleanPolicy) -> bool {
    cleaned_chars(s, p) != s || nfc_changes(s, p)
}

/// The text that cleaning returns.
pub open spec fn clean_text(s: Seq<char>, p: CleanPolicy) -> Seq<char> {
    if !clean_modifies(s, p) {
        s
    } else if nfc_changes(s, p) {
        spec_nfc(cleaned_chars(s, p))
    } else {
        cleaned_chars(s, p)
    }
}

/// `v` records hit `h` of an in-memory string.
pub open spec fn reports_clean_hit(v: Violation, h: (nat, nat, nat, u32, int)) -> bool {
    &&& v.file_path@ == "<inline>"@
    &&& v.line == h.0
    &&& v.column == h.1
    &&& v.byte_offset == h.2
    &&& v.code_point == h.3
    &&& is_display_char(v.character, h.3)
    &&& v.pattern_name@ == kind_name(h.4)
    &&& v.category == kind_category(h.4)
    &&& v.severity == kind_severity(h.4)
    &&& v.message@ == kind_description(h.4)
    &&& v.context@.len() == 0
    &&& v.encoding == DetectedEncoding::Utf8
}

/// Some character of `s` draws a verdict from the policy.
pub open spec fn spec_needs_mutation(s: Seq<char>, p: CleanPolicy) -> bool {
    exists|i: int| 0 <= i < s.len() && policy_verdict(s[i] as u32, p) is Some
}

/// The verdict the policy gives a code point, with the action it calls for.
pub struct MatchedAction {
    /// The outcome: a built-in pattern index, or the deny-list or the
    /// deny-by-default outcome.
    pub kind: usize,
    pub action: CleanAction,
}

/// The pattern reported for an outcome: the built-in pattern, or the one
/// that stands for the deny list or for deny-by-default, which hold no code
/// points of their own.
pub open spec fn verdict_pattern(p: MaliciousPattern, kind: int) -> bool {
    &&& p.name@ == kind_name(kind)
    &&& p.category == kind_category(kind)
    &&& p.severity == kind_severity(kind)
    &&& p.description@ == kind_description(kind)
    &&& kind < 20 ==> p.code_points@ == pattern_code_points(kind)
    &&& kind >= 20 ==> p.code_points@.len() == 0
}

fn synthetic_pattern(kind: usize) -> (p: MaliciousPattern)
    requires
        KIND_DENIED <= kind <= KIND_DISALLOWED,
    ensures
        verdict_pattern(p, kind as int),
{
    MaliciousPattern {
        name: String::from_str(kind_name_str(kind)),
        category: kind_category_of(kind),
        code_points: Vec::new(),
        severity: kind_severity_of(kind),
        description: String::from_str(kind_description_str(kind)),
    }
}

/// The pattern reported for code points the deny list holds.
pub fn explicitly_denied_pattern() -> (p: MaliciousPattern)
    ensures
        verdict_pattern(p, KIND_DENIED as int),
{
    synthetic_pattern(KIND_DENIED)
}

/// The pattern reported for code points outside the allowlist under
/// deny-by-default.
pub fn disallowed_pattern() -> (p: MaliciousPattern)
    ensures
        verdict_pattern(p, KIND_DISALLOWED as int),
{
    synthetic_pattern(KIND_DISALLOWED)
}

impl MatchedAction {
    /// The pattern of the verdict.
    pub fn pattern(&self) -> (p: MaliciousPattern)
        requires
            self.kind <= KIND_DISALLOWED,
        ensures
            verdict_pattern(p, self.kind as int),
    {
        if self.kind < PATTERN_COUNT {
            let p = builtin_pattern(self.kind);
            assert(is_builtin_pattern(p, self.kind as int));
            p
        } else {
            synthetic_pattern(self.kind)
        }
    }
}

fn policy_ranges_slice(policy: &CleanPolicy) -> (r: Option<&[UnicodeRange]>)
    ensures
        crate::scanner::unicode_detector::ranges_view(r) == policy_ranges(*policy),
{
    match &policy.allowed_ranges {
        Some(v) => Some(v.as_slice()),
        None => None,
    }
}

/// The verdict and action of the policy for `cp`.
pub fn decide_action(cp: u32, policy: &CleanPolicy) -> (r: Option<MatchedAction>)
    ensures
        r is None <==> policy_verdict(cp, *policy) is None,
        r matches Some(m) ==> {
            &&& policy_verdict(cp, *policy) == Some(m.kind as int)
            &&& m.kind <= KIND_DISALLOWED
            &&& m.action == policy.spec_effective_action(kind_category(m.kind as int))
        },
{
    match judge(
        cp,
        policy.deny_by_default,
        policy_ranges_slice(policy),
        policy.denied_code_points.as_slice(),
    ) {
        Some(kind) => Some(
            MatchedAction { kind, action: policy.effective_action(kind_category_of(kind)) },
        ),
        None => None,
    }
}

/// Whether some character of `input` draws a verdict from the policy.
pub fn needs_mutation(input: &str, policy: &CleanPolicy) -> (b: bool)
    ensures
        b == spec_needs_mutation(input@, *policy),
{
    let chars = str_chars(input);
    let mut i: usize = 0;
    while i < chars.len()
        invariant
            i <= chars.len(),
            chars@ == input@,
            forall|j: int| 0 <= j < i ==> policy_verdict(#[trigger] chars@[j] as u32, *policy) is None,
        decreases chars.len() - i,
    {
        if decide_action(chars[i] as u32, policy).is_some() {
            return true;
        }
        i = i + 1;
    }
    false
}

/// Whether `cp` is allowed by the ranges, or by safe ASCII when none are given.
pub fn is_allowed(cp: u32, allowed_ranges: Option<&[UnicodeRange]>) -> (b: bool)
    ensures
        b == crate::scanner::unicode_detector::allowed_by_policy(
            cp,
            crate::scanner::unicode_detector::ranges_view(allowed_ranges),
        ),
{
    crate::scanner::unicode_detector::is_allowed_by_policy(cp, allowed_ranges)
}

proof fn lemma_clean_fold_untouched(s: Seq<char>, i: nat, p: CleanPolicy)
    requires
        i <= s.len(),
        forall|j: int| 0 <= j < i ==> policy_verdict(#[trigger] s[j] as u32, p) is None,
    ensures
        clean_fold(s, i, p).0 == s.take(i as int),
        clean_fold(s, i, p).1.len() == 0,
    decreases i,
{
    if i > 0 {
        lemma_clean_fold_untouched(s, (i - 1) as nat, p);
        assert(s.take(i as int) =~= s.take(i - 1).push(s[i - 1]));
    } else {
        assert(s.take(0) =~= Seq::<char>::empty());
    }
}

proof fn lemma_clean_fold_bounds(s: Seq<char>, i: nat, p: CleanPolicy)
    requires
        i <= s.len(),
    ensures
        clean_fold(s, i, p).2 <= i,
        clean_fold(s, i, p).3 <= i,
        clean_fold(s, i, p).4 <= utf8_len(s.take(i as int)),
    decreases i,
{
    if i > 0 {
        lemma_clean_fold_bounds(s, (i - 1) as nat, p);
        lemma_utf8_len_take_next(s, i - 1);
    }
}

/// Clean `input` under `policy`.
///
/// Every character other than `\n` is judged (built-in table, then the deny
/// list, then deny-by-default); each judged character is recorded as a
/// violation at its line, column and byte offset, and stripped, replaced or
/// kept as the policy's action for its category says. With NFC on, the result
/// is then normalized if it is not already in NFC. The output borrows the
/// input exactly when nothing changed.
pub fn clean<'a>(input: &'a str, policy: &CleanPolicy) -> (r: CleanResult<'a>)
    requires
        utf8_len(input@) <= usize::MAX,
    ensures
        r.modified == clean_modifies(input@, *policy),
        r.output@ == clean_text(input@, *policy),
        r.output is Borrowed <==> !r.modified,
        r.violations@.len() == clean_hits(input@, *policy).len(),
        forall|i: int|
            0 <= i < r.violations@.len() ==> reports_clean_hit(
                #[trigger] r.violations@[i],
                clean_hits(input@, *policy)[i],
            ),
{
    let ghost s = input@;
    let ghost p = *policy;
    let dirty = needs_mutation(input, policy);
    if !dirty && (!policy.normalize_nfc || is_nfc(input)) {
        proof {
            lemma_clean_fold_untouched(s, s.len(), p);
            assert(s.take(s.len() as int) =~= s);
        }
        return CleanResult {
            output: CleanOutput::Borrowed(input),
            violations: Vec::new(),
            modified: false,
        };
    }
    let chars = str_chars(input);
    let mut output = String::new();
    let mut violations: Vec<Violation> = Vec::new();
    let mut line_idx: usize = 0;
    let mut column: usize = 0;
    let mut byte_offset: usize = 0;
    let mut i: usize = 0;
    proof {
        lemma_utf8_len_at_least_len(s);
    }
    while i < chars.len()
        invariant
            i <= chars.len(),
            chars@ == s,
            s == input@,
            p == *policy,
            s.len() <= utf8_len(s),
            utf8_len(s) <= usize::MAX,
            (output@, line_idx as nat, column as nat, byte_offset as nat) == (
                clean_fold(s, i as nat, p).0,
                clean_fold(s, i as nat, p).2,
                clean_fold(s, i as nat, p).3,
                clean_fold(s, i as nat, p).4,
            ),
            violations@.len() == clean_fold(s, i as nat, p).1.len(),
            forall|j: int|
                0 <= j < violations@.len() ==> reports_clean_hit(
                    #[trigger] violations@[j],
                    clean_fold(s, i as nat, p).1[j],
                ),
        decreases chars.len() - i,
    {
        let ch = chars[i];
        proof {
            lemma_clean_fold_bounds(s, i as nat, p);
            lemma_utf8_len_take_next(s, i as int);
            lemma_utf8_prefix_le(s, i + 1);
        }
        let ghost prev = clean_fold(s, i as nat, p).1;
        if ch == '\n' {
            push_char(&mut output, '\n');
            line_idx = line_idx + 1;
            column = 0;
            byte_offset = 0;
        } else {
            let cp = ch as u32;
            match decide_action(cp, policy) {
                Some(m) => {
                    let v = Violation::new(
                        String::from_str("<inline>"),
                        line_idx + 1,
                        column + 1,
                        byte_offset,
                        cp,
                        String::from_str(kind_name_str(m.kind)),
                        kind_category_of(m.kind),
                        kind_severity_of(m.kind),
                        String::from_str(kind_description_str(m.kind)),
                    );
                    violations.push(v);
                    let ghost o = output@;
                    match m.action {
                        CleanAction::Strip => {},
                        CleanAction::Replace(rep) => push_char(&mut output, rep),
                        CleanAction::KeepWithMark => push_char(&mut output, ch),
                    }
                    assert(output@ =~= o + action_output(ch, m.kind as int, p));
                    assert forall|j: int| 0 <= j < violations@.len() implies reports_clean_hit(
                        #[trigger] violations@[j],
                        clean_fold(s, (i + 1) as nat, p).1[j],
                    ) by {
                        if j < prev.len() {
                            assert(clean_fold(s, (i + 1) as nat, p).1[j] == prev[j]);
                        }
                    }
                },
                None => {
                    push_char(&mut output, ch);
                },
            }
            column = column + 1;
            byte_offset = byte_offset + char_width(ch);
        }
        i = i + 1;
    }
    let mutated_chars = !string_eq_str(&output, input);
    let ghost raw = output@;
    let (final_output, nfc_changed) = if policy.normalize_nfc {
        if is_nfc(output.as_str()) {
            (output, false)
        } else {
            let n = to_nfc(output.as_str());
            (n, true)
        }
    } else {
        (output, false)
    };
    let modified = mutated_chars || nfc_changed;
    proof {
        if !dirty {
            lemma_clean_fold_untouched(s, s.len(), p);
            assert(s.take(s.len() as int) =~= s);
        }
    }
    let output = if modified {
        CleanOutput::Owned(final_output)
    } else {
        CleanOutput::Borrowed(input)
    };
    CleanResult { output, violations, modified }
}

/// Every category resolves to `action` under the policy.
pub open spec fn acts_uniformly(p: CleanPolicy, action: CleanAction) -> bool {
    forall|c: crate::unicode::malicious::MaliciousCategory| #[trigger] p.spec_effective_action(c)
        == action
}

/// When nothing changes, the output is the input itself.
pub proof fn unmodified_output_is_input(s: Seq<char>, p: CleanPolicy)
    requires
        !clean_modifies(s, p),
    ensures
        clean_text(s, p) == s,
{
}

proof fn lemma_keep_fold(s: Seq<char>, i: nat, p: CleanPolicy)
    requires
        i <= s.len(),
        acts_uniformly(p, CleanAction::KeepWithMark),
    ensures
        clean_fold(s, i, p).0 == s.take(i as int),
    decreases i,
{
    if i > 0 {
        lemma_keep_fold(s, (i - 1) as nat, p);
        assert(s.take(i as int) =~= s.take(i - 1).push(s[i - 1]));
        let c = s[i - 1];
        if c != '\n' {
            if let Some(k) = policy_verdict(c as u32, p) {
                assert(p.spec_effective_action(kind_category(k)) == CleanAction::KeepWithMark);
            }
        }
    } else {
        assert(s.take(0) =~= Seq::<char>::empty());
    }
}

/// A policy that keeps every code point (report-only) without NFC never
/// changes the text: the output is the input and `modified` is false.
pub proof fn report_only_never_modifies(s: Seq<char>, p: CleanPolicy)
    requires
        acts_uniformly(p, CleanAction::KeepWithMark),
        !p.normalize_nfc,
    ensures
        !clean_modifies(s, p),
        clean_text(s, p) == s,
{
    lemma_keep_fold(s, s.len(), p);
    assert(s.take(s.len() as int) =~= s);
}

proof fn lemma_strip_fold(s: Seq<char>, i: nat, p: CleanPolicy)
    requires
        i <= s.len(),
        acts_uniformly(p, CleanAction::Strip),
    ensures
        forall|j: int|
            0 <= j < clean_fold(s, i, p).0.len() ==> #[trigger] clean_fold(s, i, p).0[j] == '\n'
                || policy_verdict(clean_fold(s, i, p).0[j] as u32, p) is None,
    decreases i,
{
    if i > 0 {
        lemma_strip_fold(s, (i - 1) as nat, p);
        let c = s[i - 1];
        let o = clean_fold(s, (i - 1) as nat, p).0;
        if c != '\n' {
            if let Some(k) = policy_verdict(c as u32, p) {
                assert(p.spec_effective_action(kind_category(k)) == CleanAction::Strip);
                assert(clean_fold(s, i, p).0 =~= o);
            } else {
                assert(clean_fold(s, i, p).0 == o.push(c));
            }
        }
    }
}

/// A stripping policy without NFC leaves no code point in the output that it
/// would react to (line feeds, which are never judged, excepted).
pub proof fn strict_output_is_clean(s: Seq<char>, p: CleanPolicy)
    requires
        acts_uniformly(p, CleanAction::Strip),
        !p.normalize_nfc,
    ensures
        forall|j: int|
            0 <= j < clean_text(s, p).len() ==> #[trigger] clean_text(s, p)[j] == '\n'
                || policy_verdict(clean_text(s, p)[j] as u32, p) is None,
{
    lemma_strip_fold(s, s.len(), p);
}

proof fn lemma_no_hits_when_clean(s: Seq<char>, i: nat, p: CleanPolicy)
    requires
        i <= s.len(),
        forall|j: int|
            0 <= j < s.len() ==> #[trigger] s[j] == '\n' || policy_verdict(s[j] as u32, p) is None,
    ensures
        clean_fold(s, i, p).0 == s.take(i as int),
        clean_fold(s, i, p).1.len() == 0,
    decreases i,
{
    if i > 0 {
        lemma_no_hits_when_clean(s, (i - 1) as nat, p);
        assert(s.take(i as int) =~= s.take(i - 1).push(s[i - 1]));
        assert(s[i - 1] == '\n' || policy_verdict(s[i - 1] as u32, p) is None);
    } else {
        assert(s.take(0) =~= Seq::<char>::empty());
    }
}

/// Cleaning twice with a stripping policy (NFC off) gives the same text as
/// cleaning once, and the second pass finds nothing.
pub proof fn strict_clean_is_idempotent(s: Seq<char>, p: CleanPolicy)
    requires
        acts_uniformly(p, CleanAction::Strip),
        !p.normalize_nfc,
    ensures
        clean_text(clean_text(s, p), p) == clean_text(s, p),
        clean_hits(clean_text(s, p), p).len() == 0,
{
    let t = clean_text(s, p);
    strict_output_is_clean(s, p);
    lemma_no_hits_when_clean(t, t.len(), p);
    assert(t.take(t.len() as int) =~= t);
}

proof fn lemma_replace_fold_len(s: Seq<char>, i: nat, p: CleanPolicy)
    requires
        i <= s.len(),
        forall|c: crate::unicode::malicious::MaliciousCategory| #[trigger] p.spec_effective_action(c) is Replace,
    ensures
        clean_fold(s, i, p).0.len() == i,
    decreases i,
{
    if i > 0 {
        lemma_replace_fold_len(s, (i - 1) as nat, p);
        let c = s[i - 1];
        if c != '\n' {
            if let Some(k) = policy_verdict(c as u32, p) {
                assert(p.spec_effective_action(kind_category(k)) is Replace);
            }
        }
    }
}

/// A replacing policy without NFC keeps the number of characters: each
/// flagged code point is replaced by exactly one character.
pub proof fn replacing_keeps_length(s: Seq<char>, p: CleanPolicy)
    requires
        forall|c: crate::unicode::malicious::MaliciousCategory| #[trigger] p.spec_effective_action(c) is Replace,
        !p.normalize_nfc,
    ensures
        clean_text(s, p).len() == s.len(),
{
    lemma_replace_fold_len(s, s.len(), p);
}

/// Whether a string holds exactly the characters of a string slice.
pub fn string_eq_str(a: &String, b: &str) -> (r: bool)
    ensures
        r == (a@ == b@),
{
    crate::text::str_eq(a.as_str(), b)
}

} // verus!

verus! {

/// Hit `h` records character `j` of `s`: a character other than a line
/// feed that the policy flags, on line 1 + the line feeds before it, in
/// column 1 + the characters since the last of them, at the byte offset that
/// those characters take in UTF-8.
pub open spec fn hit_at(s: Seq<char>, p: CleanPolicy, h: (nat, nat, nat, u32, int), j: int) -> bool {
    &&& 0 <= j < s.len()
    &&& s[j] != '\n'
    &&& h.3 == s[j] as u32
    &&& policy_verdict(h.3, p) == Some(h.4)
    &&& h.0 == 1 + newlines_before(s, j)
    &&& h.1 == 1 + column_before(s, j)
    &&& h.2 == utf8_len(s.subrange(j - column_before(s, j), j))
}

/// Hit `h` records some character of `s`.
pub open spec fn records_a_char(s: Seq<char>, p: CleanPolicy, h: (nat, nat, nat, u32, int)) -> bool {
    exists|j: int| hit_at(s, p, h, j)
}

/// Some hit of `hs` records character `j` of `s`.
pub open spec fn char_recorded(s: Seq<char>, p: CleanPolicy, hs: Seq<(nat, nat, nat, u32, int)>, j: int) -> bool {
    exists|k: int| 0 <= k < hs.len() && hit_at(s, p, hs[k], j)
}

proof fn lemma_clean_fold_positions(s: Seq<char>, p: CleanPolicy, i: nat)
    requires
        i <= s.len(),
    ensures
        clean_fold(s, i, p).2 == newlines_before(s, i as int),
        clean_fold(s, i, p).3 == column_before(s, i as int),
        column_before(s, i as int) <= i,
        clean_fold(s, i, p).4 == utf8_len(s.subrange(i - column_before(s, i as int), i as int)),
        forall|k: int| 0 <= k < clean_fold(s, i, p).1.len() ==> records_a_char(s, p, #[trigger] clean_fold(s, i, p).1[k]),
        forall|j: int| 0 <= j < i && s[j] != '\n' && policy_verdict(s[j] as u32, p) is Some ==> #[trigger] char_recorded(s, p, clean_fold(s, i, p).1, j),
    decreases i,
{
    if i == 0 {
        assert(s.take(0) =~= Seq::<char>::empty());
        assert(s.subrange(0, 0) =~= Seq::<char>::empty());
    } else {
        let n = (i - 1) as nat;
        lemma_clean_fold_positions(s, p, n);
        let (o, h, ln, col, b) = clean_fold(s, n, p);
        let c = s[n as int];
        if c == '\n' {
            assert(s.subrange(i as int, i as int) =~= Seq::<char>::empty());
        } else {
            let line = s.subrange(i - column_before(s, i as int), i as int);
            assert(line.drop_last() =~= s.subrange(n - column_before(s, n as int), n as int));
            assert(line.last() == c);
        }
        assert(s.take(i as int).drop_last() =~= s.take(n as int));
        assert(s.take(i as int).last() == c);
        let h2 = clean_fold(s, i, p).1;
        assert forall|k: int| 0 <= k < h2.len() implies records_a_char(s, p, #[trigger] h2[k]) by {
            if k < h.len() {
                assert(h2[k] == h[k]);
                assert(records_a_char(s, p, h[k]));
            } else {
                assert(hit_at(s, p, h2[k], n as int));
            }
        }
        assert forall|j: int| 0 <= j < i && s[j] != '\n' && policy_verdict(s[j] as u32, p) is Some implies #[trigger] char_recorded(s, p, h2, j) by {
            if j < n {
                assert(char_recorded(s, p, h, j));
                let k = choose|k: int| 0 <= k < h.len() && hit_at(s, p, h[k], j);
                assert(h2[k] == h[k]);
                assert(hit_at(s, p, h2[k], j));
            } else {
                assert(hit_at(s, p, h2[h.len() as int], j));
            }
        }
    }
}

/// Cleaning records each flagged character where it stands: every recorded
/// violation is a character other than a line feed that the policy flags,
/// on line 1 + the line feeds before it and in column 1 + the characters
/// since the last of them; and every such character is recorded.
pub proof fn clean_records_positions(s: Seq<char>, p: CleanPolicy)
    ensures
        forall|k: int| 0 <= k < clean_hits(s, p).len() ==> records_a_char(s, p, #[trigger] clean_hits(s, p)[k]),
        forall|j: int| 0 <= j < s.len() && s[j] != '\n' && policy_verdict(s[j] as u32, p) is Some ==> #[trigger] char_recorded(s, p, clean_hits(s, p), j),
{
    lemma_clean_fold_positions(s, p, s.len());
}

} // verus!

