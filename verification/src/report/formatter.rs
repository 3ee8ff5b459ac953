//! The plain-text report, optionally coloured with ANSI escape codes.

use owo_colors::OwoColorize;
use vstd::prelude::*;
use crate::report::violation::{code_point_text, Violation};
use crate::report::{exit_code_of, seconds_text, spec_seconds_text, ScanResult};
use crate::scanner::encoding::encoding_name_spec;
use crate::text::{contains_seq, decimal, occurs_at, push_decimal, trim, trim_str};
use crate::unicode::malicious::{MaliciousCategory, Severity};

verus! {

/// `s` between the escape that selects foreground colour `code` and the one
/// that restores the default foreground.
pub open spec fn ansi_fg(code: Seq<char>, s: Seq<char>) -> Seq<char> {
    seq!['\x1b', '['] + code + seq!['m'] + s + seq!['\x1b', '[', '3', '9', 'm']
}

/// `s` between the escape that turns on bold and the one that resets.
pub open spec fn ansi_bold(s: Seq<char>) -> Seq<char> {
    seq!['\x1b', '[', '1', 'm'] + s + seq!['\x1b', '[', '0', 'm']
}

/// Trusted: `owo_colors::OwoColorize::red`, displayed.
#[verifier::external_body]
fn red(s: &str) -> (r: String)
    ensures
        r@ == ansi_fg(seq!['3', '1'], s@),
{
    format!("{}", s.red())
}

/// Trusted: `owo_colors::OwoColorize::green`, displayed.
#[verifier::external_body]
fn green(s: &str) -> (r: String)
    ensures
        r@ == ansi_fg(seq!['3', '2'], s@),
{
    format!("{}", s.green())
}

/// Trusted: `owo_colors::OwoColorize::yellow`, displayed.
#[verifier::external_body]
fn yellow(s: &str) -> (r: String)
    ensures
        r@ == ansi_fg(seq!['3', '3'], s@),
{
    format!("{}", s.yellow())
}

/// Trusted: `owo_colors::OwoColorize::blue`, displayed.
#[verifier::external_body]
fn blue(s: &str) -> (r: String)
    ensures
        r@ == ansi_fg(seq!['3', '4'], s@),
{
    format!("{}", s.blue())
}

/// Trusted: `owo_colors::OwoColorize::cyan`, displayed.
#[verifier::external_body]
fn cyan(s: &str) -> (r: String)
    ensures
        r@ == ansi_fg(seq!['3', '6'], s@),
{
    format!("{}", s.cyan())
}

/// Trusted: `owo_colors::OwoColorize::bold`, displayed.
#[verifier::external_body]
fn bold(s: &str) -> (r: String)
    ensures
        r@ == ansi_bold(s@),
{
    format!("{}", s.bold())
}

/// The name of a category as `{:?}` prints it.
pub open spec fn category_name(c: MaliciousCategory) -> Seq<char> {
    match c {
        MaliciousCategory::ZeroWidth => "ZeroWidth"@,
        MaliciousCategory::BidiOverride => "BidiOverride"@,
        MaliciousCategory::Homoglyph => "Homoglyph"@,
        MaliciousCategory::ControlChar => "ControlChar"@,
        MaliciousCategory::NonStandard => "NonStandard"@,
    }
}

/// The name of a category as `{:?}` prints it.
pub fn category_name_str(c: MaliciousCategory) -> (s: &'static str)
    ensures
        s@ == category_name(c),
{
    match c {
        MaliciousCategory::ZeroWidth => "ZeroWidth",
        MaliciousCategory::BidiOverride => "BidiOverride",
        MaliciousCategory::Homoglyph => "Homoglyph",
        MaliciousCategory::ControlChar => "ControlChar",
        MaliciousCategory::NonStandard => "NonStandard",
    }
}

/// The upper-case name of a severity.
pub open spec fn severity_label(s: Severity) -> Seq<char> {
    match s {
        Severity::Error => "ERROR"@,
        Severity::Warning => "WARNING"@,
        Severity::Info => "INFO"@,
    }
}

/// A severity as the report shows it: errors bold red, warnings yellow,
/// notes blue when colour is on.
pub open spec fn severity_text(s: Severity, use_color: bool) -> Seq<char> {
    if !use_color {
        severity_label(s)
    } else {
        match s {
            Severity::Error => ansi_bold(ansi_fg(seq!['3', '1'], severity_label(s))),
            Severity::Warning => ansi_fg(seq!['3', '3'], severity_label(s)),
            Severity::Info => ansi_fg(seq!['3', '4'], severity_label(s)),
        }
    }
}

/// `file:line:column`, the path cyan and the numbers yellow with colour.
pub open spec fn location_text(v: Violation, use_color: bool) -> Seq<char> {
    if use_color {
        ansi_fg(seq!['3', '6'], v.file_path@) + ":"@ + ansi_fg(seq!['3', '3'], decimal(v.line as nat))
            + ":"@ + ansi_fg(seq!['3', '3'], decimal(v.column as nat))
    } else {
        v.file_path@ + ":"@ + decimal(v.line as nat) + ":"@ + decimal(v.column as nat)
    }
}

/// The detail lines of a violation in verbose mode, ending in a blank line.
pub open spec fn details_text(v: Violation) -> Seq<char> {
    "  Character: "@ + code_point_text(v.code_point) + " ("@ + v.pattern_name@ + ")\n"@
        + "  Category: "@ + category_name(v.category) + "\n"@
        + "  Encoding: "@ + encoding_name_spec(v.encoding) + "\n"@
        + (if v.context@.len() > 0 {
        "  Context: "@ + trim(v.context@) + "\n"@
    } else {
        Seq::<char>::empty()
    }) + "\n"@
}

/// One violation of the report.
pub open spec fn violation_text(v: Violation, use_color: bool, verbose: bool) -> Seq<char> {
    severity_text(v.severity, use_color) + " "@ + location_text(v, use_color) + " "@ + v.message@
        + "\n"@ + if verbose {
        details_text(v)
    } else {
        Seq::<char>::empty()
    }
}

/// The violations of the report, one after the other.
pub open spec fn violations_text(vs: Seq<Violation>, use_color: bool, verbose: bool) -> Seq<char>
    decreases vs.len(),
{
    if vs.len() == 0 {
        Seq::<char>::empty()
    } else {
        violations_text(vs.drop_last(), use_color, verbose) + violation_text(vs.last(), use_color, verbose)
    }
}

/// `PASSED` (bold green) or `FAILED` (bold red).
pub open spec fn status_text(passed: bool, use_color: bool) -> Seq<char> {
    let word = if passed { "PASSED"@ } else { "FAILED"@ };
    if !use_color {
        word
    } else if passed {
        ansi_bold(ansi_fg(seq!['3', '2'], word))
    } else {
        ansi_bold(ansi_fg(seq!['3', '1'], word))
    }
}

/// The summary that closes the report.
pub open spec fn summary_text(r: ScanResult, use_color: bool) -> Seq<char> {
    let passed = r.violations@.len() == 0 && r.errors@.len() == 0;
    "\nScan Result: "@ + status_text(passed, use_color) + "\n"@
        + "Files scanned: "@ + decimal(r.files_scanned as nat) + "\n"@
        + "Files clean: "@ + decimal(r.files_clean as nat) + "\n"@
        + "Files with violations: "@ + decimal(r.files_with_violations as nat) + "\n"@
        + "Total violations: "@ + decimal(r.violations@.len()) + "\n"@
        + (if r.errors@.len() > 0 {
        "Errors: "@ + decimal(r.errors@.len()) + "\n"@
    } else {
        Seq::<char>::empty()
    })
        + "Duration: "@ + spec_seconds_text(r.duration.secs, r.duration.nanos) + "s\n"@
        + "Exit code: "@ + decimal(exit_code_of(r.violations@.len(), r.errors@.len()) as nat) + "\n"@
}

/// The whole plain-text report: the violations, a blank line, the summary.
pub open spec fn human_text(r: ScanResult, use_color: bool, verbose: bool) -> Seq<char> {
    (if r.violations@.len() > 0 {
        violations_text(r.violations@, use_color, verbose) + "\n"@
    } else {
        Seq::<char>::empty()
    }) + summary_text(r, use_color)
}

/// A severity as the report shows it.
pub fn format_severity(severity: Severity, use_color: bool) -> (s: String)
    ensures
        s@ == severity_text(severity, use_color),
{
    let label = match severity {
        Severity::Error => "ERROR",
        Severity::Warning => "WARNING",
        Severity::Info => "INFO",
    };
    proof {
        reveal_strlit("ERROR");
        reveal_strlit("WARNING");
        reveal_strlit("INFO");
    }
    if !use_color {
        return String::from_str(label);
    }
    match severity {
        Severity::Error => {
            let r = red(label);
            bold(r.as_str())
        },
        Severity::Warning => yellow(label),
        Severity::Info => blue(label),
    }
}

/// Append `file:line:column`.
fn push_location(out: &mut String, v: &Violation, use_color: bool)
    ensures
        final(out)@ == old(out)@ + location_text(*v, use_color),
{
    let mut line = String::new();
    push_decimal(&mut line, v.line as u64);
    let mut col = String::new();
    push_decimal(&mut col, v.column as u64);
    if use_color {
        let p = cyan(v.file_path.as_str());
        let l = yellow(line.as_str());
        let c = yellow(col.as_str());
        out.append(p.as_str());
        out.append(":");
        out.append(l.as_str());
        out.append(":");
        out.append(c.as_str());
    } else {
        out.append(v.file_path.as_str());
        out.append(":");
        out.append(line.as_str());
        out.append(":");
        out.append(col.as_str());
    }
    assert(out@ =~= old(out)@ + location_text(*v, use_color));
}

/// Append the verbose detail lines of a violation.
fn push_details(out: &mut String, v: &Violation)
    ensures
        final(out)@ == old(out)@ + details_text(*v),
{
    out.append("  Character: ");
    let cp = v.code_point_string();
    out.append(cp.as_str());
    out.append(" (");
    out.append(v.pattern_name.as_str());
    out.append(")\n");
    out.append("  Category: ");
    out.append(category_name_str(v.category));
    out.append("\n");
    out.append("  Encoding: ");
    out.append(v.encoding_name());
    out.append("\n");
    let ghost mid = out@;
    if !v.context.as_str().is_empty() {
        out.append("  Context: ");
        let t = trim_str(v.context.as_str());
        out.append(t.as_str());
        out.append("\n");
    }
    out.append("\n");
    assert(out@ =~= old(out)@ + details_text(*v));
}

/// Append the report lines of one violation.
fn push_violation(out: &mut String, v: &Violation, use_color: bool, verbose: bool)
    ensures
        final(out)@ == old(out)@ + violation_text(*v, use_color, verbose),
{
    let sev = format_severity(v.severity, use_color);
    out.append(sev.as_str());
    out.append(" ");
    push_location(out, v, use_color);
    out.append(" ");
    out.append(v.message.as_str());
    out.append("\n");
    if verbose {
        push_details(out, v);
    }
    assert(out@ =~= old(out)@ + violation_text(*v, use_color, verbose));
}

/// The violations of the report, one after the other.
pub fn format_violations(violations: &[Violation], use_color: bool, verbose: bool) -> (s: String)
    ensures
        s@ == violations_text(violations@, use_color, verbose),
{
    let mut out = String::new();
    let mut i: usize = 0;
    while i < violations.len()
        invariant
            i <= violations.len(),
            out@ == violations_text(violations@.take(i as int), use_color, verbose),
        decreases violations.len() - i,
    {
        proof {
            assert(violations@.take(i + 1).drop_last() =~= violations@.take(i as int));
        }
        push_violation(&mut out, &violations[i], use_color, verbose);
        i = i + 1;
    }
    assert(violations@.take(violations.len() as int) =~= violations@);
    out
}

/// The summary that closes the report.
pub fn format_summary(result: &ScanResult, use_color: bool) -> (s: String)
    requires
        result.duration.wf(),
    ensures
        s@ == summary_text(*result, use_color),
        crate::report::two_decimals(spec_seconds_text(result.duration.secs, result.duration.nanos)),
{
    let passed = result.passed();
    let mut out = String::new();
    out.append("\nScan Result: ");
    let word = if passed { "PASSED" } else { "FAILED" };
    proof {
        reveal_strlit("PASSED");
        reveal_strlit("FAILED");
    }
    if !use_color {
        out.append(word);
    } else if passed {
        let g = green(word);
        let b = bold(g.as_str());
        out.append(b.as_str());
    } else {
        let r = red(word);
        let b = bold(r.as_str());
        out.append(b.as_str());
    }
    out.append("\n");
    out.append("Files scanned: ");
    push_decimal(&mut out, result.files_scanned as u64);
    out.append("\n");
    out.append("Files clean: ");
    push_decimal(&mut out, result.files_clean as u64);
    out.append("\n");
    out.append("Files with violations: ");
    push_decimal(&mut out, result.files_with_violations as u64);
    out.append("\n");
    out.append("Total violations: ");
    push_decimal(&mut out, result.violations.len() as u64);
    out.append("\n");
    if result.errors.len() > 0 {
        out.append("Errors: ");
        push_decimal(&mut out, result.errors.len() as u64);
        out.append("\n");
    }
    out.append("Duration: ");
    let d = seconds_text(result.duration.secs, result.duration.nanos);
    out.append(d.as_str());
    out.append("s\n");
    out.append("Exit code: ");
    let code = result.exit_code();
    push_decimal(&mut out, code as u64);
    out.append("\n");
    assert(out@ =~= summary_text(*result, use_color));
    out
}

/// The whole plain-text report: the violations, a blank line, the summary.
pub fn format_human(result: &ScanResult, use_color: bool, verbose: bool) -> (s: String)
    requires
        result.duration.wf(),
    ensures
        s@ == human_text(*result, use_color, verbose),
        crate::report::two_decimals(spec_seconds_text(result.duration.secs, result.duration.nanos)),
{
    let mut out = String::new();
    if result.violations.len() > 0 {
        let v = format_violations(result.violations.as_slice(), use_color, verbose);
        out.append(v.as_str());
        out.append("\n");
    }
    let summary = format_summary(result, use_color);
    out.append(summary.as_str());
    assert(out@ =~= human_text(*result, use_color, verbose));
    out
}

} // verus!

verus! {

proof fn lemma_occurs_chain3(p: Seq<char>, a: Seq<char>, b: Seq<char>, c: Seq<char>)
    ensures
        occurs_at(p + a + b + c, a + b + c, p.len() as int),
{
    let t = p + a + b + c;
    assert(t.subrange(p.len() as int, (p.len() + (a + b + c).len()) as int) =~= a + b + c);
}

proof fn lemma_occurs_extend(x: Seq<char>, y: Seq<char>, m: Seq<char>, i: int)
    requires
        occurs_at(x, m, i),
    ensures
        occurs_at(x + y, m, i),
{
    assert((x + y).subrange(i, i + m.len() as int) =~= x.subrange(i, i + m.len() as int));
}

/// The summary holds the line `Files scanned: ` with the decimal count.
proof fn lemma_summary_line_scanned(r: ScanResult, use_color: bool)
    ensures
        contains_seq(summary_text(r, use_color), "Files scanned: "@ + decimal(r.files_scanned as nat) + "\n"@),
{
    let passed = r.violations@.len() == 0 && r.errors@.len() == 0;
    let p0 = "\nScan Result: "@;
    let p1 = p0 + status_text(passed, use_color);
    let p2 = p1 + "\n"@;
    let p3 = p2 + "Files scanned: "@;
    let p4 = p3 + decimal(r.files_scanned as nat);
    let p5 = p4 + "\n"@;
    let p6 = p5 + "Files clean: "@;
    let p7 = p6 + decimal(r.files_clean as nat);
    let p8 = p7 + "\n"@;
    let p9 = p8 + "Files with violations: "@;
    let p10 = p9 + decimal(r.files_with_violations as nat);
    let p11 = p10 + "\n"@;
    let p12 = p11 + "Total violations: "@;
    let p13 = p12 + decimal(r.violations@.len());
    let p14 = p13 + "\n"@;
    let p15 = p14 + (if r.errors@.len() > 0 { "Errors: "@ + decimal(r.errors@.len()) + "\n"@ } else { Seq::<char>::empty() });
    let p16 = p15 + "Duration: "@;
    let p17 = p16 + spec_seconds_text(r.duration.secs, r.duration.nanos);
    let p18 = p17 + "s\n"@;
    let p19 = p18 + "Exit code: "@;
    let p20 = p19 + decimal(exit_code_of(r.violations@.len(), r.errors@.len()) as nat);
    let p21 = p20 + "\n"@;
    let m = "Files scanned: "@ + decimal(r.files_scanned as nat) + "\n"@;
    assert(summary_text(r, use_color) == p21);
    lemma_occurs_chain3(p2, "Files scanned: "@, decimal(r.files_scanned as nat), "\n"@);
    lemma_occurs_extend(p5, "Files clean: "@, m, p2.len() as int);
    lemma_occurs_extend(p6, decimal(r.files_clean as nat), m, p2.len() as int);
    lemma_occurs_extend(p7, "\n"@, m, p2.len() as int);
    lemma_occurs_extend(p8, "Files with violations: "@, m, p2.len() as int);
    lemma_occurs_extend(p9, decimal(r.files_with_violations as nat), m, p2.len() as int);
    lemma_occurs_extend(p10, "\n"@, m, p2.len() as int);
    lemma_occurs_extend(p11, "Total violations: "@, m, p2.len() as int);
    lemma_occurs_extend(p12, decimal(r.violations@.len()), m, p2.len() as int);
    lemma_occurs_extend(p13, "\n"@, m, p2.len() as int);
    lemma_occurs_extend(p14, (if r.errors@.len() > 0 { "Errors: "@ + decimal(r.errors@.len()) + "\n"@ } else { Seq::<char>::empty() }), m, p2.len() as int);
    lemma_occurs_extend(p15, "Duration: "@, m, p2.len() as int);
    lemma_occurs_extend(p16, spec_seconds_text(r.duration.secs, r.duration.nanos), m, p2.len() as int);
    lemma_occurs_extend(p17, "s\n"@, m, p2.len() as int);
    lemma_occurs_extend(p18, "Exit code: "@, m, p2.len() as int);
    lemma_occurs_extend(p19, decimal(exit_code_of(r.violations@.len(), r.errors@.len()) as nat), m, p2.len() as int);
    lemma_occurs_extend(p20, "\n"@, m, p2.len() as int);
    assert(occurs_at(summary_text(r, use_color), m, p2.len() as int));
}

/// The summary holds the line `Files clean: ` with the decimal count.
proof fn lemma_summary_line_clean(r: ScanResult, use_color: bool)
    ensures
        contains_seq(summary_text(r, use_color), "Files clean: "@ + decimal(r.files_clean as nat) + "\n"@),
{
    let passed = r.violations@.len() == 0 && r.errors@.len() == 0;
    let p0 = "\nScan Result: "@;
    let p1 = p0 + status_text(passed, use_color);
    let p2 = p1 + "\n"@;
    let p3 = p2 + "Files scanned: "@;
    let p4 = p3 + decimal(r.files_scanned as nat);
    let p5 = p4 + "\n"@;
    let p6 = p5 + "Files clean: "@;
    let p7 = p6 + decimal(r.files_clean as nat);
    let p8 = p7 + "\n"@;
    let p9 = p8 + "Files with violations: "@;
    let p10 = p9 + decimal(r.files_with_violations as nat);
    let p11 = p10 + "\n"@;
    let p12 = p11 + "Total violations: "@;
    let p13 = p12 + decimal(r.violations@.len());
    let p14 = p13 + "\n"@;
    let p15 = p14 + (if r.errors@.len() > 0 { "Errors: "@ + decimal(r.errors@.len()) + "\n"@ } else { Seq::<char>::empty() });
    let p16 = p15 + "Duration: "@;
    let p17 = p16 + spec_seconds_text(r.duration.secs, r.duration.nanos);
    let p18 = p17 + "s\n"@;
    let p19 = p18 + "Exit code: "@;
    let p20 = p19 + decimal(exit_code_of(r.violations@.len(), r.errors@.len()) as nat);
    let p21 = p20 + "\n"@;
    let m = "Files clean: "@ + decimal(r.files_clean as nat) + "\n"@;
    assert(summary_text(r, use_color) == p21);
    lemma_occurs_chain3(p5, "Files clean: "@, decimal(r.files_clean as nat), "\n"@);
    lemma_occurs_extend(p8, "Files with violations: "@, m, p5.len() as int);
    lemma_occurs_extend(p9, decimal(r.files_with_violations as nat), m, p5.len() as int);
    lemma_occurs_extend(p10, "\n"@, m, p5.len() as int);
    lemma_occurs_extend(p11, "Total violations: "@, m, p5.len() as int);
    lemma_occurs_extend(p12, decimal(r.violations@.len()), m, p5.len() as int);
    lemma_occurs_extend(p13, "\n"@, m, p5.len() as int);
    lemma_occurs_extend(p14, (if r.errors@.len() > 0 { "Errors: "@ + decimal(r.errors@.len()) + "\n"@ } else { Seq::<char>::empty() }), m, p5.len() as int);
    lemma_occurs_extend(p15, "Duration: "@, m, p5.len() as int);
    lemma_occurs_extend(p16, spec_seconds_text(r.duration.secs, r.duration.nanos), m, p5.len() as int);
    lemma_occurs_extend(p17, "s\n"@, m, p5.len() as int);
    lemma_occurs_extend(p18, "Exit code: "@, m, p5.len() as int);
    lemma_occurs_extend(p19, decimal(exit_code_of(r.violations@.len(), r.errors@.len()) as nat), m, p5.len() as int);
    lemma_occurs_extend(p20, "\n"@, m, p5.len() as int);
    assert(occurs_at(summary_text(r, use_color), m, p5.len() as int));
}

/// The summary holds the line `Files with violations: ` with the decimal count.
proof fn lemma_summary_line_with_violations(r: ScanResult, use_color: bool)
    ensures
        contains_seq(summary_text(r, use_color), "Files with violations: "@ + decimal(r.files_with_violations as nat) + "\n"@),
{
    let passed = r.violations@.len() == 0 && r.errors@.len() == 0;
    let p0 = "\nScan Result: "@;
    let p1 = p0 + status_text(passed, use_color);
    let p2 = p1 + "\n"@;
    let p3 = p2 + "Files scanned: "@;
    let p4 = p3 + decimal(r.files_scanned as nat);
    let p5 = p4 + "\n"@;
    let p6 = p5 + "Files clean: "@;
    let p7 = p6 + decimal(r.files_clean as nat);
    let p8 = p7 + "\n"@;
    let p9 = p8 + "Files with violations: "@;
    let p10 = p9 + decimal(r.files_with_violations as nat);
    let p11 = p10 + "\n"@;
    let p12 = p11 + "Total violations: "@;
    let p13 = p12 + decimal(r.violations@.len());
    let p14 = p13 + "\n"@;
    let p15 = p14 + (if r.errors@.len() > 0 { "Errors: "@ + decimal(r.errors@.len()) + "\n"@ } else { Seq::<char>::empty() });
    let p16 = p15 + "Duration: "@;
    let p17 = p16 + spec_seconds_text(r.duration.secs, r.duration.nanos);
    let p18 = p17 + "s\n"@;
    let p19 = p18 + "Exit code: "@;
    let p20 = p19 + decimal(exit_code_of(r.violations@.len(), r.errors@.len()) as nat);
    let p21 = p20 + "\n"@;
    let m = "Files with violations: "@ + decimal(r.files_with_violations as nat) + "\n"@;
    assert(summary_text(r, use_color) == p21);
    lemma_occurs_chain3(p8, "Files with violations: "@, decimal(r.files_with_violations as nat), "\n"@);
    lemma_occurs_extend(p11, "Total violations: "@, m, p8.len() as int);
    lemma_occurs_extend(p12, decimal(r.violations@.len()), m, p8.len() as int);
    lemma_occurs_extend(p13, "\n"@, m, p8.len() as int);
    lemma_occurs_extend(p14, (if r.errors@.len() > 0 { "Errors: "@ + decimal(r.errors@.len()) + "\n"@ } else { Seq::<char>::empty() }), m, p8.len() as int);
    lemma_occurs_extend(p15, "Duration: "@, m, p8.len() as int);
    lemma_occurs_extend(p16, spec_seconds_text(r.duration.secs, r.duration.nanos), m, p8.len() as int);
    lemma_occurs_extend(p17, "s\n"@, m, p8.len() as int);
    lemma_occurs_extend(p18, "Exit code: "@, m, p8.len() as int);
    lemma_occurs_extend(p19, decimal(exit_code_of(r.violations@.len(), r.errors@.len()) as nat), m, p8.len() as int);
    lemma_occurs_extend(p20, "\n"@, m, p8.len() as int);
    assert(occurs_at(summary_text(r, use_color), m, p8.len() as int));
}

/// The summary holds the line `Total violations: ` with the decimal count.
proof fn lemma_summary_line_total(r: ScanResult, use_color: bool)
    ensures
        contains_seq(summary_text(r, use_color), "Total violations: "@ + decimal(r.violations@.len()) + "\n"@),
{
    let passed = r.violations@.len() == 0 && r.errors@.len() == 0;
    let p0 = "\nScan Result: "@;
    let p1 = p0 + status_text(passed, use_color);
    let p2 = p1 + "\n"@;
    let p3 = p2 + "Files scanned: "@;
    let p4 = p3 + decimal(r.files_scanned as nat);
    let p5 = p4 + "\n"@;
    let p6 = p5 + "Files clean: "@;
    let p7 = p6 + decimal(r.files_clean as nat);
    let p8 = p7 + "\n"@;
    let p9 = p8 + "Files with violations: "@;
    let p10 = p9 + decimal(r.files_with_violations as nat);
    let p11 = p10 + "\n"@;
    let p12 = p11 + "Total violations: "@;
    let p13 = p12 + decimal(r.violations@.len());
    let p14 = p13 + "\n"@;
    let p15 = p14 + (if r.errors@.len() > 0 { "Errors: "@ + decimal(r.errors@.len()) + "\n"@ } else { Seq::<char>::empty() });
    let p16 = p15 + "Duration: "@;
    let p17 = p16 + spec_seconds_text(r.duration.secs, r.duration.nanos);
    let p18 = p17 + "s\n"@;
    let p19 = p18 + "Exit code: "@;
    let p20 = p19 + decimal(exit_code_of(r.violations@.len(), r.errors@.len()) as nat);
    let p21 = p20 + "\n"@;
    let m = "Total violations: "@ + decimal(r.violations@.len()) + "\n"@;
    assert(summary_text(r, use_color) == p21);
    lemma_occurs_chain3(p11, "Total violations: "@, decimal(r.violations@.len()), "\n"@);
    lemma_occurs_extend(p14, (if r.errors@.len() > 0 { "Errors: "@ + decimal(r.errors@.len()) + "\n"@ } else { Seq::<char>::empty() }), m, p11.len() as int);
    lemma_occurs_extend(p15, "Duration: "@, m, p11.len() as int);
    lemma_occurs_extend(p16, spec_seconds_text(r.duration.secs, r.duration.nanos), m, p11.len() as int);
    lemma_occurs_extend(p17, "s\n"@, m, p11.len() as int);
    lemma_occurs_extend(p18, "Exit code: "@, m, p11.len() as int);
    lemma_occurs_extend(p19, decimal(exit_code_of(r.violations@.len(), r.errors@.len()) as nat), m, p11.len() as int);
    lemma_occurs_extend(p20, "\n"@, m, p11.len() as int);
    assert(occurs_at(summary_text(r, use_color), m, p11.len() as int));
}

/// The summary holds the line `Exit code: ` with the decimal exit code.
proof fn lemma_summary_line_exit(r: ScanResult, use_color: bool)
    ensures
        contains_seq(summary_text(r, use_color), "Exit code: "@ + decimal(exit_code_of(r.violations@.len(), r.errors@.len()) as nat) + "\n"@),
{
    let passed = r.violations@.len() == 0 && r.errors@.len() == 0;
    let p0 = "\nScan Result: "@;
    let p1 = p0 + status_text(passed, use_color);
    let p2 = p1 + "\n"@;
    let p3 = p2 + "Files scanned: "@;
    let p4 = p3 + decimal(r.files_scanned as nat);
    let p5 = p4 + "\n"@;
    let p6 = p5 + "Files clean: "@;
    let p7 = p6 + decimal(r.files_clean as nat);
    let p8 = p7 + "\n"@;
    let p9 = p8 + "Files with violations: "@;
    let p10 = p9 + decimal(r.files_with_violations as nat);
    let p11 = p10 + "\n"@;
    let p12 = p11 + "Total violations: "@;
    let p13 = p12 + decimal(r.violations@.len());
    let p14 = p13 + "\n"@;
    let p15 = p14 + (if r.errors@.len() > 0 { "Errors: "@ + decimal(r.errors@.len()) + "\n"@ } else { Seq::<char>::empty() });
    let p16 = p15 + "Duration: "@;
    let p17 = p16 + spec_seconds_text(r.duration.secs, r.duration.nanos);
    let p18 = p17 + "s\n"@;
    let p19 = p18 + "Exit code: "@;
    let p20 = p19 + decimal(exit_code_of(r.violations@.len(), r.errors@.len()) as nat);
    let p21 = p20 + "\n"@;
    let m = "Exit code: "@ + decimal(exit_code_of(r.violations@.len(), r.errors@.len()) as nat) + "\n"@;
    assert(summary_text(r, use_color) == p21);
    lemma_occurs_chain3(p18, "Exit code: "@, decimal(exit_code_of(r.violations@.len(), r.errors@.len()) as nat), "\n"@);
    assert(occurs_at(summary_text(r, use_color), m, p18.len() as int));
}

/// With errors, the summary holds the line `Errors: ` with their number.
proof fn lemma_summary_line_errors(r: ScanResult, use_color: bool)
    requires
        r.errors@.len() > 0,
    ensures
        contains_seq(summary_text(r, use_color), "Errors: "@ + decimal(r.errors@.len()) + "\n"@),
{
    let passed = r.violations@.len() == 0 && r.errors@.len() == 0;
    let p0 = "\nScan Result: "@;
    let p1 = p0 + status_text(passed, use_color);
    let p2 = p1 + "\n"@;
    let p3 = p2 + "Files scanned: "@;
    let p4 = p3 + decimal(r.files_scanned as nat);
    let p5 = p4 + "\n"@;
    let p6 = p5 + "Files clean: "@;
    let p7 = p6 + decimal(r.files_clean as nat);
    let p8 = p7 + "\n"@;
    let p9 = p8 + "Files with violations: "@;
    let p10 = p9 + decimal(r.files_with_violations as nat);
    let p11 = p10 + "\n"@;
    let p12 = p11 + "Total violations: "@;
    let p13 = p12 + decimal(r.violations@.len());
    let p14 = p13 + "\n"@;
    let p15 = p14 + (if r.errors@.len() > 0 { "Errors: "@ + decimal(r.errors@.len()) + "\n"@ } else { Seq::<char>::empty() });
    let p16 = p15 + "Duration: "@;
    let p17 = p16 + spec_seconds_text(r.duration.secs, r.duration.nanos);
    let p18 = p17 + "s\n"@;
    let p19 = p18 + "Exit code: "@;
    let p20 = p19 + decimal(exit_code_of(r.violations@.len(), r.errors@.len()) as nat);
    let p21 = p20 + "\n"@;
    let m = "Errors: "@ + decimal(r.errors@.len()) + "\n"@;
    assert(summary_text(r, use_color) == p21);
    assert((if r.errors@.len() > 0 { "Errors: "@ + decimal(r.errors@.len()) + "\n"@ } else { Seq::<char>::empty() }) == m);
    lemma_occurs_chain3(p14, "Errors: "@, decimal(r.errors@.len()), "\n"@);
    assert(p15 == p14 + "Errors: "@ + decimal(r.errors@.len()) + "\n"@);
    lemma_occurs_extend(p15, "Duration: "@, m, p14.len() as int);
    lemma_occurs_extend(p16, spec_seconds_text(r.duration.secs, r.duration.nanos), m, p14.len() as int);
    lemma_occurs_extend(p17, "s\n"@, m, p14.len() as int);
    lemma_occurs_extend(p18, "Exit code: "@, m, p14.len() as int);
    lemma_occurs_extend(p19, decimal(exit_code_of(r.violations@.len(), r.errors@.len()) as nat), m, p14.len() as int);
    lemma_occurs_extend(p20, "\n"@, m, p14.len() as int);
    assert(occurs_at(summary_text(r, use_color), m, p14.len() as int));
}

/// The plain-text report states the counts it was given: it holds the lines
/// `Files scanned: `, `Files clean: `, `Files with violations: ` and
/// `Total violations: `, each with the decimal of the matching count, the
/// line `Exit code: ` with the exit code, and, where there are errors, the
/// line `Errors: ` with their number.
pub proof fn human_report_states_the_counts(r: ScanResult, use_color: bool, verbose: bool)
    ensures
        contains_seq(human_text(r, use_color, verbose), "Files scanned: "@ + decimal(r.files_scanned as nat) + "\n"@),
        contains_seq(human_text(r, use_color, verbose), "Files clean: "@ + decimal(r.files_clean as nat) + "\n"@),
        contains_seq(
            human_text(r, use_color, verbose),
            "Files with violations: "@ + decimal(r.files_with_violations as nat) + "\n"@,
        ),
        contains_seq(human_text(r, use_color, verbose), "Total violations: "@ + decimal(r.violations@.len()) + "\n"@),
        contains_seq(
            human_text(r, use_color, verbose),
            "Exit code: "@ + decimal(exit_code_of(r.violations@.len(), r.errors@.len()) as nat) + "\n"@,
        ),
        r.errors@.len() > 0 ==> contains_seq(human_text(r, use_color, verbose), "Errors: "@ + decimal(r.errors@.len()) + "\n"@),
{
    let pre = if r.violations@.len() > 0 {
        violations_text(r.violations@, use_color, verbose) + "\n"@
    } else {
        Seq::<char>::empty()
    };
    let s = summary_text(r, use_color);
    assert(human_text(r, use_color, verbose) == pre + s);
    lemma_summary_line_scanned(r, use_color);
    lemma_summary_line_clean(r, use_color);
    lemma_summary_line_with_violations(r, use_color);
    lemma_summary_line_total(r, use_color);
    lemma_summary_line_exit(r, use_color);
    if r.errors@.len() > 0 {
        lemma_summary_line_errors(r, use_color);
    }
    assert forall|m: Seq<char>| contains_seq(s, m) implies contains_seq(pre + s, m) by {
        let i = choose|i: int| occurs_at(s, m, i);
        assert((pre + s).subrange(pre.len() + i, pre.len() + i + m.len() as int) =~= s.subrange(i, i + m.len() as int));
        assert(occurs_at(pre + s, m, pre.len() + i));
    }
}

} // verus!

