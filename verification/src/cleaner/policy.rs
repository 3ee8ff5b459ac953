//! Cleaning policies: what to do with each malicious code point.

use vstd::prelude::*;
use crate::unicode::malicious::MaliciousCategory;
use crate::unicode::ranges::UnicodeRange;

verus! {

/// What to do with a code point that the policy reacts to.
#[derive(Debug, Clone, Copy, PartialEq, Eq, Structural)]
pub enum CleanAction {
    /// Remove the code point.
    Strip,
    /// Put the given character in its place.
    Replace(char),
    /// Keep the code point and record a violation.
    KeepWithMark,
}

/// Per-category overrides of the default action, at most one per category.
#[derive(Debug, Clone, Copy, PartialEq, Eq, Structural)]
pub struct CategoryActions {
    pub zero_width: Option<CleanAction>,
    pub bidi_override: Option<CleanAction>,
    pub homoglyph: Option<CleanAction>,
    pub control_char: Option<CleanAction>,
    pub non_standard: Option<CleanAction>,
}

impl CategoryActions {
    /// The override stored for a category.
    pub open spec fn spec_get(&self, category: MaliciousCategory) -> Option<CleanAction> {
        match category {
            MaliciousCategory::ZeroWidth => self.zero_width,
            MaliciousCategory::BidiOverride => self.bidi_override,
            MaliciousCategory::Homoglyph => self.homoglyph,
            MaliciousCategory::ControlChar => self.control_char,
            MaliciousCategory::NonStandard => self.non_standard,
        }
    }

    /// No category has an override.
    pub open spec fn spec_is_empty(&self) -> bool {
        forall|c: MaliciousCategory| #[trigger] self.spec_get(c) is None
    }

    /// No overrides.
    pub fn new() -> (m: Self)
        ensures
            m.spec_is_empty(),
    {
        CategoryActions {
            zero_width: None,
            bidi_override: None,
            homoglyph: None,
            control_char: None,
            non_standard: None,
        }
    }

    /// Whether no category has an override.
    pub fn is_empty(&self) -> (b: bool)
        ensures
            b == self.spec_is_empty(),
    {
        let b = self.zero_width.is_none() && self.bidi_override.is_none()
            && self.homoglyph.is_none() && self.control_char.is_none()
            && self.non_standard.is_none();
        proof {
            if !b {
                if self.zero_width is Some {
                    assert(self.spec_get(MaliciousCategory::ZeroWidth) is Some);
                } else if self.bidi_override is Some {
                    assert(self.spec_get(MaliciousCategory::BidiOverride) is Some);
                } else if self.homoglyph is Some {
                    assert(self.spec_get(MaliciousCategory::Homoglyph) is Some);
                } else if self.control_char is Some {
                    assert(self.spec_get(MaliciousCategory::ControlChar) is Some);
                } else {
                    assert(self.spec_get(MaliciousCategory::NonStandard) is Some);
                }
            }
        }
        b
    }

    /// The override for a category.
    pub fn get(&self, category: MaliciousCategory) -> (r: Option<CleanAction>)
        ensures
            r == self.spec_get(category),
    {
        match category {
            MaliciousCategory::ZeroWidth => self.zero_width,
            MaliciousCategory::BidiOverride => self.bidi_override,
            MaliciousCategory::Homoglyph => self.homoglyph,
            MaliciousCategory::ControlChar => self.control_char,
            MaliciousCategory::NonStandard => self.non_standard,
        }
    }

    /// Set the override for a category, replacing any earlier one.
    pub fn insert(&mut self, category: MaliciousCategory, action: CleanAction)
        ensures
            final(self).spec_get(category) == Some(action),
            forall|c: MaliciousCategory|
                c != category ==> #[trigger] final(self).spec_get(c) == old(self).spec_get(c),
    {
        match category {
            MaliciousCategory::ZeroWidth => self.zero_width = Some(action),
            MaliciousCategory::BidiOverride => self.bidi_override = Some(action),
            MaliciousCategory::Homoglyph => self.homoglyph = Some(action),
            MaliciousCategory::ControlChar => self.control_char = Some(action),
            MaliciousCategory::NonStandard => self.non_standard = Some(action),
        }
    }

    /// Whether every override present equals `action`.
    pub fn all_overrides_are(&self, action: CleanAction) -> (b: bool)
        ensures
            b == forall|c: MaliciousCategory|
                #[trigger] self.spec_get(c) is None || self.spec_get(c) == Some(action),
    {
        let ok = |o: Option<CleanAction>| -> (r: bool)
            ensures
                r == (o is None || o == Some(action)),
            {
                match o {
                    Some(x) => x == action,
                    None => true,
                }
            };
        let b = ok(self.zero_width) && ok(self.bidi_override) && ok(self.homoglyph) && ok(
            self.control_char,
        ) && ok(self.non_standard);
        proof {
            if !b {
                if !(self.zero_width is None || self.zero_width == Some(action)) {
                    assert(!(self.spec_get(MaliciousCategory::ZeroWidth) is None
                        || self.spec_get(MaliciousCategory::ZeroWidth) == Some(action)));
                } else if !(self.bidi_override is None || self.bidi_override == Some(action)) {
                    assert(!(self.spec_get(MaliciousCategory::BidiOverride) is None
                        || self.spec_get(MaliciousCategory::BidiOverride) == Some(action)));
                } else if !(self.homoglyph is None || self.homoglyph == Some(action)) {
                    assert(!(self.spec_get(MaliciousCategory::Homoglyph) is None
                        || self.spec_get(MaliciousCategory::Homoglyph) == Some(action)));
                } else if !(self.control_char is None || self.control_char == Some(action)) {
                    assert(!(self.spec_get(MaliciousCategory::ControlChar) is None
                        || self.spec_get(MaliciousCategory::ControlChar) == Some(action)));
                } else {
                    assert(!(self.spec_get(MaliciousCategory::NonStandard) is None
                        || self.spec_get(MaliciousCategory::NonStandard) == Some(action)));
                }
            }
        }
        b
    }
}

/// Operator configuration for the cleaner.
#[derive(Debug, Clone, PartialEq, Eq)]
pub struct CleanPolicy {
    /// The action for a category without an override.
    pub default_action: CleanAction,
    /// Per-category overrides.
    pub per_category: CategoryActions,
    /// Code points treated as malicious besides the built-in table.
    pub denied_code_points: Vec<u32>,
    /// Under deny-by-default, code points outside these ranges are flagged.
    pub allowed_ranges: Option<Vec<UnicodeRange>>,
    pub deny_by_default: bool,
    /// Normalize the output to NFC after cleaning.
    pub normalize_nfc: bool,
}

/// The default action of a deserialized policy that names none.
pub fn default_strip() -> (a: CleanAction)
    ensures
        a == CleanAction::Strip,
{
    CleanAction::Strip
}

impl CleanPolicy {
    /// The policy has the given default action and otherwise no overrides,
    /// no lists, deny-by-default and NFC off.
    pub open spec fn is_preset(&self, action: CleanAction) -> bool {
        &&& self.default_action == action
        &&& self.per_category.spec_is_empty()
        &&& self.denied_code_points@.len() == 0
        &&& self.allowed_ranges is None
        &&& !self.deny_by_default
        &&& !self.normalize_nfc
    }

    /// The action for a category: its override, else the default.
    pub open spec fn spec_effective_action(&self, category: MaliciousCategory) -> CleanAction {
        match self.per_category.spec_get(category) {
            Some(a) => a,
            None => self.default_action,
        }
    }

    fn preset(action: CleanAction) -> (p: Self)
        ensures
            p.is_preset(action),
    {
        CleanPolicy {
            default_action: action,
            per_category: CategoryActions::new(),
            denied_code_points: Vec::new(),
            allowed_ranges: None,
            deny_by_default: false,
            normalize_nfc: false,
        }
    }

    /// Strip every malicious code point.
    pub fn strict() -> (p: Self)
        ensures
            p.is_preset(CleanAction::Strip),
    {
        Self::preset(CleanAction::Strip)
    }

    /// Replace every malicious code point with U+FFFD.
    pub fn lossy() -> (p: Self)
        ensures
            p.is_preset(CleanAction::Replace('\u{FFFD}')),
    {
        Self::preset(CleanAction::Replace('\u{FFFD}'))
    }

    /// Record violations without changing the text.
    pub fn report_only() -> (p: Self)
        ensures
            p.is_preset(CleanAction::KeepWithMark),
    {
        Self::preset(CleanAction::KeepWithMark)
    }

    /// Override the action for one category.
    pub fn with_action(self, category: MaliciousCategory, action: CleanAction) -> (p: Self)
        ensures
            p.per_category.spec_get(category) == Some(action),
            forall|c: MaliciousCategory|
                c != category ==> #[trigger] p.per_category.spec_get(c)
                    == self.per_category.spec_get(c),
            p.default_action == self.default_action,
            p.denied_code_points == self.denied_code_points,
            p.allowed_ranges == self.allowed_ranges,
            p.deny_by_default == self.deny_by_default,
            p.normalize_nfc == self.normalize_nfc,
    {
        let mut p = self;
        p.per_category.insert(category, action);
        p
    }

    /// Replace the default action.
    pub fn with_default_action(self, action: CleanAction) -> (p: Self)
        ensures
            p == (CleanPolicy { default_action: action, ..self }),
    {
        CleanPolicy { default_action: action, ..self }
    }

    /// Turn NFC normalization on or off.
    pub fn with_nfc(self, enable: bool) -> (p: Self)
        ensures
            p == (CleanPolicy { normalize_nfc: enable, ..self }),
    {
        CleanPolicy { normalize_nfc: enable, ..self }
    }

    /// Add code points to the deny list.
    pub fn with_denied(self, code_points: &[u32]) -> (p: Self)
        ensures
            p.denied_code_points@ == self.denied_code_points@ + code_points@,
            p.default_action == self.default_action,
            p.per_category == self.per_category,
            p.allowed_ranges == self.allowed_ranges,
            p.deny_by_default == self.deny_by_default,
            p.normalize_nfc == self.normalize_nfc,
    {
        let mut p = self;
        let mut i: usize = 0;
        while i < code_points.len()
            invariant
                i <= code_points.len(),
                p.denied_code_points@ == self.denied_code_points@ + code_points@.take(i as int),
                p.default_action == self.default_action,
                p.per_category == self.per_category,
                p.allowed_ranges == self.allowed_ranges,
                p.deny_by_default == self.deny_by_default,
                p.normalize_nfc == self.normalize_nfc,
            decreases code_points.len() - i,
        {
            p.denied_code_points.push(code_points[i]);
            assert(code_points@.take(i + 1) =~= code_points@.take(i as int).push(code_points@[i as int]));
            i = i + 1;
        }
        assert(code_points@.take(code_points.len() as int) =~= code_points@);
        p
    }

    /// Set the allowlist and the deny-by-default switch.
    pub fn with_allowed_ranges(self, ranges: Vec<UnicodeRange>, deny_by_default: bool) -> (p: Self)
        ensures
            p == (CleanPolicy { allowed_ranges: Some(ranges), deny_by_default, ..self }),
    {
        CleanPolicy { allowed_ranges: Some(ranges), deny_by_default, ..self }
    }

    /// The action for a category: its override, else the default.
    pub fn effective_action(&self, category: MaliciousCategory) -> (a: CleanAction)
        ensures
            a == self.spec_effective_action(category),
    {
        match self.per_category.get(category) {
            Some(a) => a,
            None => self.default_action,
        }
    }
}

impl Default for CleanPolicy {
    fn default() -> (p: Self)
        ensures
            p.is_preset(CleanAction::Strip),
    {
        Self::strict()
    }
}

} // verus!
