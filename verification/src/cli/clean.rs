//! Decisions of the `clean` command: which policy applies, where input comes
//! from, and the exit code.

use vstd::prelude::*;
use crate::cleaner::policy::{CleanAction, CleanPolicy};
use crate::cleaner::CleanResult;
use crate::cli::args::CleanPolicyPreset;
use crate::cli::exit_codes::{SUCCESS, VIOLATIONS_FOUND};
use crate::text::str_eq;
use crate::unicode::malicious::MaliciousCategory;

verus! {

/// The policy only reports: it keeps every code point, by default and in
/// every override.
pub open spec fn reports_only(p: CleanPolicy) -> bool {
    p.default_action == CleanAction::KeepWithMark && forall|c: MaliciousCategory|
        #[trigger] p.per_category.spec_get(c) is None || p.per_category.spec_get(c) == Some(
            CleanAction::KeepWithMark,
        )
}

/// Whether the policy only reports.
pub fn is_report_only_policy(policy: &CleanPolicy) -> (b: bool)
    ensures
        b == reports_only(*policy),
{
    policy.default_action == CleanAction::KeepWithMark && policy.per_category.all_overrides_are(
        CleanAction::KeepWithMark,
    )
}

/// The default action of a preset: strip, replace with U+FFFD, or keep.
pub open spec fn preset_action(preset: CleanPolicyPreset) -> CleanAction {
    match preset {
        CleanPolicyPreset::Strict => CleanAction::Strip,
        CleanPolicyPreset::Lossy => CleanAction::Replace('\u{FFFD}'),
        CleanPolicyPreset::ReportOnly => CleanAction::KeepWithMark,
    }
}

/// The policy for a run: the configuration's cleaner policy when there is
/// one (normalizing when either it or the flag asks), else the preset with
/// the flag.
pub fn resolve_policy(preset: CleanPolicyPreset, nfc: bool, configured: Option<CleanPolicy>) -> (p: CleanPolicy)
    ensures
        match configured {
            Some(c) => p == (CleanPolicy { normalize_nfc: nfc || c.normalize_nfc, ..c }),
            None => (CleanPolicy { normalize_nfc: false, ..p }).is_preset(preset_action(preset))
                && p.normalize_nfc == nfc,
        },
{
    if let Some(policy) = configured {
        let want = nfc || policy.normalize_nfc;
        return policy.with_nfc(want);
    }
    let p = match preset {
        CleanPolicyPreset::Strict => CleanPolicy::strict(),
        CleanPolicyPreset::Lossy => CleanPolicy::lossy(),
        CleanPolicyPreset::ReportOnly => CleanPolicy::report_only(),
    };
    p.with_nfc(nfc)
}

/// Input comes from standard input: no path, or `-`.
pub fn reads_stdin(path: Option<&str>) -> (b: bool)
    ensures
        b == match path {
            None => true,
            Some(p) => p@ == "-"@,
        },
{
    match path {
        None => true,
        Some(p) => str_eq(p, "-"),
    }
}

/// The exit code of a clean that succeeded: violations found under a
/// report-only policy, else success.
pub fn clean_exit_code(policy: &CleanPolicy, result: &CleanResult) -> (c: i32)
    ensures
        c == if reports_only(*policy) && result.violations@.len() > 0 {
            VIOLATIONS_FOUND
        } else {
            SUCCESS
        },
{
    if is_report_only_policy(policy) && result.violations.len() > 0 {
        VIOLATIONS_FOUND
    } else {
        SUCCESS
    }
}

} // verus!
