//! Violations, scan results and their renderings.

pub mod formatter;
pub mod markdown;
pub mod violation;

pub use violation::{ErrorType, ScanError, Violation};

use vstd::prelude::*;
use crate::cli::args::OutputFormat;
use crate::paths::{path_key, path_parts, same_parts, PathPart, part_view};
use crate::report::formatter::{format_human, human_text, summary_text};
use crate::report::markdown::{format_markdown, markdown_text};
use crate::text::{contains_seq, occurs_at, decimal, find_chars, find_seq, push_chars_range, push_decimal, split_lines, str_chars, str_lines, chars_view, string_from_chars};
use crate::unicode::malicious::{severity_at_least, severity_rank, Severity};

verus! {

/// Elapsed time as whole seconds and the nanoseconds past them.
#[derive(Debug, Clone, Copy, PartialEq, Eq, Structural)]
pub struct ScanDuration {
    pub secs: u64,
    pub nanos: u32,
}

impl ScanDuration {
    /// The nanoseconds are less than a second.
    pub open spec fn wf(self) -> bool {
        self.nanos < 1_000_000_000
    }

    pub fn from_secs(secs: u64) -> (d: Self)
        ensures
            d.wf(),
            d.secs == secs,
            d.nanos == 0,
    {
        ScanDuration { secs, nanos: 0 }
    }

    pub fn from_millis(millis: u64) -> (d: Self)
        ensures
            d.wf(),
            d.secs == millis / 1000,
            d.nanos == (millis % 1000) * 1_000_000,
    {
        let nanos: u32 = ((millis % 1000) as u32) * 1_000_000;
        ScanDuration { secs: millis / 1000, nanos }
    }

    /// Seconds and nanoseconds; whole seconds in `nanos` carry over.
    pub fn new(secs: u64, nanos: u32) -> (d: Self)
        requires
            secs + nanos / 1_000_000_000 <= u64::MAX,
        ensures
            d.wf(),
            d.secs == secs + nanos / 1_000_000_000,
            d.nanos == nanos % 1_000_000_000,
    {
        ScanDuration { secs: secs + (nanos / 1_000_000_000) as u64, nanos: nanos % 1_000_000_000 }
    }
}

/// What `{:.2}` prints for the seconds of a duration as a float.
pub uninterp spec fn spec_seconds_text(secs: u64, nanos: u32) -> Seq<char>;

/// `t` is a number with two decimals: one or more digits, a point, two
/// digits.
pub open spec fn two_decimals(t: Seq<char>) -> bool {
    &&& t.len() >= 4
    &&& t[t.len() - 3] == '.'
    &&& forall|i: int| 0 <= i < t.len() && i != t.len() - 3 ==> '0' <= #[trigger] t[i] <= '9'
}

/// The seconds of a duration with two decimals.
///
/// Trusted: `format!("{:.2}", Duration::new(secs, nanos).as_secs_f64())`. The
/// text depends on the two numbers alone and is named `spec_seconds_text`; the
/// float rounding is not spelled out. `{:.2}` prints a finite non-negative
/// float in fixed notation: its integer digits, a point and two decimals.
/// `nanos` below a second keeps `Duration::new` from carrying into the
/// seconds.
#[verifier::external_body]
pub(crate) fn seconds_text(secs: u64, nanos: u32) -> (r: String)
    requires
        nanos < 1_000_000_000,
    ensures
        r@ == spec_seconds_text(secs, nanos),
        two_decimals(r@),
{
    format!("{:.2}", std::time::Duration::new(secs, nanos).as_secs_f64())
}

/// The aggregate result of scanning files.
#[derive(Debug, Clone)]
pub struct ScanResult {
    pub violations: Vec<Violation>,
    pub files_scanned: usize,
    pub files_clean: usize,
    pub files_with_violations: usize,
    pub errors: Vec<ScanError>,
    pub duration: ScanDuration,
    pub config_used: String,
}

/// The process exit code for a scan: 1 when anything was found, else 3 when
/// some file could not be scanned, else 0.
pub open spec fn exit_code_of(n_violations: nat, n_errors: nat) -> i32 {
    if n_violations > 0 {
        1
    } else if n_errors > 0 {
        3
    } else {
        0
    }
}

/// No earlier violation of `vs` is in the same file as `vs[i]`.
pub open spec fn first_in_file(vs: Seq<Violation>, i: int) -> bool {
    forall|j: int| 0 <= j < i ==> path_key(#[trigger] vs[j].file_path@) != path_key(vs[i].file_path@)
}

/// The number of different files among the violations, paths being equal as
/// `std::path::Path` compares them.
pub open spec fn distinct_files(vs: Seq<Violation>) -> nat
    decreases vs.len(),
{
    if vs.len() == 0 {
        0
    } else {
        distinct_files(vs.drop_last()) + if first_in_file(vs, vs.len() - 1) {
            1nat
        } else {
            0nat
        }
    }
}

/// The violations of at least the given severity, in their order.
pub open spec fn at_least(vs: Seq<Violation>, min: Severity) -> Seq<Violation>
    decreases vs.len(),
{
    if vs.len() == 0 {
        vs
    } else if severity_rank(vs.last().severity) >= severity_rank(min) {
        at_least(vs.drop_last(), min).push(vs.last())
    } else {
        at_least(vs.drop_last(), min)
    }
}

/// The result restricted to violations of at least `min`, with the counts of
/// files recomputed.
pub open spec fn filtered(r: ScanResult, min: Severity) -> ScanResult {
    let kept = at_least(r.violations@, min);
    let fwv = distinct_files(kept);
    ScanResult {
        violations: r.violations,
        files_with_violations: fwv as usize,
        files_clean: (r.files_scanned - fwv - r.errors@.len()) as usize,
        ..r
    }
}

/// Whether the recomputed counts fit: the files with violations and the
/// errors are no more than the files scanned.
pub open spec fn filter_fits(r: ScanResult, min: Severity) -> bool {
    distinct_files(at_least(r.violations@, min)) + r.errors@.len() <= r.files_scanned
}

proof fn lemma_first_in_file_take(vs: Seq<Violation>, i: int)
    requires
        0 <= i < vs.len(),
    ensures
        first_in_file(vs.take(i + 1), i) == first_in_file(vs, i),
        vs.take(i + 1).drop_last() == vs.take(i),
{
    assert(vs.take(i + 1).drop_last() =~= vs.take(i));
    if first_in_file(vs, i) {
        assert forall|j: int| 0 <= j < i implies path_key(#[trigger] vs.take(i + 1)[j].file_path@)
            != path_key(vs.take(i + 1)[i].file_path@) by {
            assert(vs.take(i + 1)[j] == vs[j]);
        }
    } else {
        let j = choose|j: int| 0 <= j < i && path_key(#[trigger] vs[j].file_path@) == path_key(vs[i].file_path@);
        assert(vs.take(i + 1)[j] == vs[j]);
    }
}

/// The number of different files among the violations.
pub fn count_distinct_files(vs: &[Violation]) -> (n: usize)
    ensures
        n == distinct_files(vs@),
{
    let mut keys: Vec<Vec<PathPart>> = Vec::new();
    let mut n: usize = 0;
    let mut i: usize = 0;
    while i < vs.len()
        invariant
            i <= vs.len(),
            keys.len() == i,
            forall|j: int| 0 <= j < i ==> (#[trigger] keys@[j])@.map_values(|q: PathPart| part_view(q)) == path_key(vs@[j].file_path@),
            n == distinct_files(vs@.take(i as int)),
            n <= i,
        decreases vs.len() - i,
    {
        let k = path_parts(vs[i].file_path.as_str());
        let mut seen = false;
        let mut j: usize = 0;
        while j < i
            invariant
                j <= i,
                i < vs.len(),
                keys.len() == i,
                forall|m: int| 0 <= m < i ==> (#[trigger] keys@[m])@.map_values(|q: PathPart| part_view(q)) == path_key(vs@[m].file_path@),
                k@.map_values(|q: PathPart| part_view(q)) == path_key(vs@[i as int].file_path@),
                seen == exists|m: int| 0 <= m < j && path_key(#[trigger] vs@[m].file_path@) == path_key(vs@[i as int].file_path@),
            decreases i - j,
        {
            if same_parts(&keys[j], &k) {
                seen = true;
            }
            j = j + 1;
        }
        proof {
            lemma_first_in_file_take(vs@, i as int);
            assert(first_in_file(vs@, i as int) == !seen);
        }
        if !seen {
            n = n + 1;
        }
        keys.push(k);
        i = i + 1;
    }
    assert(vs@.take(vs.len() as int) =~= vs@);
    n
}

/// The violations of at least the given severity, in their order.
pub fn keep_at_least(vs: Vec<Violation>, min: Severity) -> (r: Vec<Violation>)
    ensures
        r@ == at_least(vs@, min),
{
    let ghost all = vs@;
    let mut out: Vec<Violation> = Vec::new();
    for v in it: vs.into_iter()
        invariant
            it.seq() == all,
            out@ == at_least(all.take(it.index() as int), min),
    {
        proof {
            assert(all.take(it.index() + 1).drop_last() =~= all.take(it.index() as int));
        }
        if severity_at_least(v.severity, min) {
            out.push(v);
        }
    }
    assert(all.take(all.len() as int) =~= all);
    out
}

/// `full` from the first occurrence of `marker` on, or whole without one.
pub open spec fn from_marker(full: Seq<char>, marker: Seq<char>) -> Option<Seq<char>> {
    match find_seq(full, marker) {
        Some(p) => Some(full.skip(p)),
        None => None,
    }
}

/// The plain-text report, cut in quiet mode to start at the summary.
pub open spec fn human_output(r: ScanResult, verbose: bool, quiet: bool) -> Seq<char> {
    let full = human_text(r, false, verbose);
    if !quiet {
        full
    } else {
        match from_marker(full, "\nScan Result:"@) {
            Some(t) => t,
            None => match from_marker(full, "Scan Result:"@) {
                Some(t) => t,
                None => full,
            },
        }
    }
}

/// The Markdown report, cut in quiet mode to start at the summary.
pub open spec fn markdown_output(r: ScanResult, verbose: bool, quiet: bool) -> Seq<char> {
    let full = markdown_text(r, verbose);
    if !quiet {
        full
    } else {
        match from_marker(full, "## Summary"@) {
            Some(t) => t,
            None => full,
        }
    }
}

/// One GitHub Actions error annotation per violation.
pub open spec fn github_text(vs: Seq<Violation>) -> Seq<char>
    decreases vs.len(),
{
    if vs.len() == 0 {
        Seq::<char>::empty()
    } else {
        let v = vs.last();
        github_text(vs.drop_last()) + "::error file="@ + v.file_path@ + ",line="@ + decimal(v.line as nat)
            + ",col="@ + decimal(v.column as nat) + "::"@ + v.message@ + "\n"@
    }
}

/// What `ScanResult::format` returns, given what JSON serialisation of the
/// result gave where the format needs it.
pub open spec fn format_output(
    r: ScanResult,
    format: OutputFormat,
    verbose: bool,
    quiet: bool,
    json: Result<Seq<char>, Seq<char>>,
) -> Result<Seq<char>, Seq<char>> {
    match format {
        OutputFormat::Human => Ok(human_output(r, verbose, quiet)),
        OutputFormat::Json => match json {
            Ok(t) => Ok(t),
            Err(e) => Err("Error formatting JSON: "@ + e),
        },
        OutputFormat::Markdown => Ok(markdown_output(r, verbose, quiet)),
        OutputFormat::Github => Ok(github_text(r.violations@)),
        OutputFormat::Gitlab => match json {
            Ok(t) => Ok(t),
            Err(e) => Err("Error formatting GitLab output: "@ + e),
        },
    }
}

/// The JSON rendering a format needs: `Some(true)` for pretty-printed,
/// `Some(false)` for compact (JSON in quiet mode), `None` for none.
pub open spec fn json_style_of(format: OutputFormat, quiet: bool) -> Option<bool> {
    match format {
        OutputFormat::Json => Some(!quiet),
        OutputFormat::Gitlab => Some(true),
        _ => None,
    }
}

/// The JSON rendering that `ScanResult::format` needs for a format: pretty
/// (`Some(true)`), compact (`Some(false)`) or none.
pub fn json_style(format: OutputFormat, quiet: bool) -> (r: Option<bool>)
    ensures
        r == json_style_of(format, quiet),
{
    match format {
        OutputFormat::Json => Some(!quiet),
        OutputFormat::Gitlab => Some(true),
        _ => None,
    }
}

/// The JSON text or serialisation error as plain values.
pub open spec fn json_view(j: Result<String, String>) -> Result<Seq<char>, Seq<char>> {
    match j {
        Ok(t) => Ok(t@),
        Err(e) => Err(e@),
    }
}

/// `full` from the first occurrence of `marker` on, if there is one.
fn cut_at(full: &String, marker: &str) -> (r: Option<String>)
    ensures
        match from_marker(full@, marker@) {
            Some(t) => r matches Some(x) && x@ == t,
            None => r is None,
        },
{
    let chars = str_chars(full.as_str());
    let m = str_chars(marker);
    match find_chars(chars.as_slice(), m.as_slice()) {
        Some(p) => {
            let mut tail = String::new();
            push_chars_range(&mut tail, chars.as_slice(), p, chars.len());
            assert(tail@ =~= full@.skip(p as int));
            Some(tail)
        },
        None => None,
    }
}

/// The GitHub Actions annotations of the violations.
fn format_github(vs: &[Violation]) -> (s: String)
    ensures
        s@ == github_text(vs@),
{
    let mut out = String::new();
    let mut i: usize = 0;
    while i < vs.len()
        invariant
            i <= vs.len(),
            out@ == github_text(vs@.take(i as int)),
        decreases vs.len() - i,
    {
        assert(vs@.take(i + 1).drop_last() =~= vs@.take(i as int));
        let v = &vs[i];
        out.append("::error file=");
        out.append(v.file_path.as_str());
        out.append(",line=");
        push_decimal(&mut out, v.line as u64);
        out.append(",col=");
        push_decimal(&mut out, v.column as u64);
        out.append("::");
        out.append(v.message.as_str());
        out.append("\n");
        i = i + 1;
    }
    assert(vs@.take(vs.len() as int) =~= vs@);
    out
}

/// The first line from `k` on that starts with `marker`.
pub open spec fn first_line_from(ls: Seq<Seq<char>>, marker: Seq<char>, k: int) -> Option<int>
    decreases ls.len() - k,
{
    if k < 0 || k >= ls.len() {
        None
    } else if marker.len() <= ls[k].len() && ls[k].take(marker.len() as int) == marker {
        Some(k)
    } else {
        first_line_from(ls, marker, k + 1)
    }
}

/// The lines of `text` from the first one that starts with `marker`; none
/// when no line does.
pub open spec fn lines_from(text: Seq<char>, marker: Seq<char>) -> Seq<Seq<char>> {
    let ls = str_lines(text);
    match first_line_from(ls, marker, 0) {
        Some(k) => ls.skip(k),
        None => Seq::empty(),
    }
}

proof fn lemma_first_line_from(ls: Seq<Seq<char>>, marker: Seq<char>, k: int)
    requires
        0 <= k,
    ensures
        first_line_from(ls, marker, k) matches Some(i) ==> k <= i < ls.len(),
    decreases ls.len() - k,
{
    if k < ls.len() {
        lemma_first_line_from(ls, marker, k + 1);
    }
}

/// The lines of a report from the first one that starts with `marker`,
/// as the quiet modes print them.
pub fn summary_lines(text: &str, marker: &str) -> (r: Vec<String>)
    ensures
        r@.map_values(|s: String| s@) == lines_from(text@, marker@),
{
    let lines = split_lines(text);
    let m = str_chars(marker);
    let ghost ls = chars_view(lines@);
    proof {
        lemma_first_line_from(ls, marker@, 0);
    }
    let mut k: usize = 0;
    let mut found = false;
    while k < lines.len() && !found
        invariant
            k <= lines.len(),
            ls == chars_view(lines@),
            m@ == marker@,
            !found ==> first_line_from(ls, marker@, 0) == first_line_from(ls, marker@, k as int),
            found ==> k < lines.len() && first_line_from(ls, marker@, 0) == Some(k as int),
        decreases lines.len() - k, if found { 0int } else { 1int },
    {
        let line = &lines[k];
        assert(ls[k as int] == line@);
        let mut hit = false;
        if m.len() <= line.len() {
            let mut j: usize = 0;
            while j < m.len() && line[j] == m[j]
                invariant
                    j <= m.len(),
                    m.len() <= line.len(),
                    forall|q: int| 0 <= q < j ==> line@[q] == m@[q],
                decreases m.len() - j,
            {
                j = j + 1;
            }
            if j == m.len() {
                assert(line@.take(m.len() as int) =~= m@);
                hit = true;
            } else {
                assert(line@.take(m.len() as int)[j as int] != m@[j as int]);
            }
        }
        if hit {
            found = true;
        } else {
            k = k + 1;
        }
    }
    let mut out: Vec<String> = Vec::new();
    if !found {
        return out;
    }
    let ghost start = k;
    while k < lines.len()
        invariant
            start <= k <= lines.len(),
            ls == chars_view(lines@),
            out@.map_values(|s: String| s@) == ls.subrange(start as int, k as int),
        decreases lines.len() - k,
    {
        let ghost before = out@.map_values(|s: String| s@);
        out.push(string_from_chars(lines[k].as_slice()));
        assert(out@.map_values(|s: String| s@) =~= before.push(ls[k as int]));
        assert(ls.subrange(start as int, k + 1) =~= ls.subrange(start as int, k as int).push(ls[k as int]));
        k = k + 1;
    }
    assert(ls.subrange(start as int, lines.len() as int) =~= ls.skip(start as int));
    out
}

impl ScanResult {
    /// Nothing was found and every file could be scanned.
    pub fn passed(&self) -> (b: bool)
        ensures
            b == (self.violations@.len() == 0 && self.errors@.len() == 0),
    {
        self.violations.len() == 0 && self.errors.len() == 0
    }

    /// The process exit code: 1 with violations, else 3 with errors, else 0.
    pub fn exit_code(&self) -> (c: i32)
        ensures
            c == exit_code_of(self.violations@.len(), self.errors@.len()),
    {
        if self.violations.len() > 0 {
            1
        } else if self.errors.len() > 0 {
            3
        } else {
            0
        }
    }

    /// The number of violations.
    pub fn total_violations(&self) -> (n: usize)
        ensures
            n == self.violations@.len(),
    {
        self.violations.len()
    }

    /// Render the result in an output format. `json` is the JSON
    /// serialisation of the result in the style `json_style` asks for (or the
    /// serialiser's error message); formats that need none ignore it. Quiet
    /// mode cuts the plain-text and Markdown reports to their summaries.
    pub fn format(&self, format: OutputFormat, verbose: bool, quiet: bool, json: Result<String, String>) -> (r: Result<String, String>)
        requires
            self.duration.wf(),
        ensures
            json_view(r) == format_output(*self, format, verbose, quiet, json_view(json)),
    {
        match format {
            OutputFormat::Human => {
                let full = format_human(self, false, verbose);
                if !quiet {
                    return Ok(full);
                }
                match cut_at(&full, "\nScan Result:") {
                    Some(t) => Ok(t),
                    None => match cut_at(&full, "Scan Result:") {
                        Some(t) => Ok(t),
                        None => Ok(full),
                    },
                }
            },
            OutputFormat::Json => match json {
                Ok(t) => Ok(t),
                Err(e) => {
                    let mut m = String::from_str("Error formatting JSON: ");
                    m.append(e.as_str());
                    Err(m)
                },
            },
            OutputFormat::Markdown => {
                let full = format_markdown(self, verbose);
                if !quiet {
                    return Ok(full);
                }
                match cut_at(&full, "## Summary") {
                    Some(t) => Ok(t),
                    None => Ok(full),
                }
            },
            OutputFormat::Github => Ok(format_github(self.violations.as_slice())),
            OutputFormat::Gitlab => match json {
                Ok(t) => Ok(t),
                Err(e) => {
                    let mut m = String::from_str("Error formatting GitLab output: ");
                    m.append(e.as_str());
                    Err(m)
                },
            },
        }
    }

    /// The result of a scan from its counts: the files with violations are
    /// the distinct paths among the violations, the clean files the rest
    /// of the files scanned that had no error; `None` when those counts do
    /// not fit in the files scanned.
    pub fn from_counts(
        files_scanned: usize,
        violations: Vec<Violation>,
        errors: Vec<ScanError>,
        duration: ScanDuration,
        config_used: String,
    ) -> (r: Option<Self>)
        ensures
            (distinct_files(violations@) + errors@.len() <= files_scanned) <==> r is Some,
            r matches Some(x) ==> x == (ScanResult {
                violations,
                files_scanned,
                files_clean: (files_scanned - distinct_files(violations@) - errors@.len()) as usize,
                files_with_violations: distinct_files(violations@) as usize,
                errors,
                duration,
                config_used,
            }),
    {
        let fwv = count_distinct_files(violations.as_slice());
        if fwv > files_scanned || errors.len() > files_scanned - fwv {
            return None;
        }
        let clean = files_scanned - fwv - errors.len();
        Some(ScanResult {
            violations,
            files_scanned,
            files_clean: clean,
            files_with_violations: fwv,
            errors,
            duration,
            config_used,
        })
    }

    /// Keep the violations of at least `min_severity` and recount the files
    /// with violations (by distinct path) and the clean files.
    pub fn filter_by_severity(self, min_severity: Severity) -> (r: Self)
        requires
            filter_fits(self, min_severity),
        ensures
            r == (ScanResult { violations: r.violations, ..filtered(self, min_severity) }),
            r.violations@ == at_least(self.violations@, min_severity),
    {
        let ghost old_self = self;
        let ScanResult { violations, files_scanned, files_clean, files_with_violations, errors, duration, config_used } = self;
        let kept = keep_at_least(violations, min_severity);
        let fwv = count_distinct_files(kept.as_slice());
        let clean = files_scanned - fwv - errors.len();
        ScanResult {
            violations: kept,
            files_scanned,
            files_clean: clean,
            files_with_violations: fwv,
            errors,
            duration,
            config_used,
        }
    }

    /// `filter_by_severity` where the recounted files fit, else `None`.
    pub fn checked_filter_by_severity(self, min_severity: Severity) -> (r: Option<Self>)
        ensures
            r is Some <==> filter_fits(self, min_severity),
            r matches Some(x) ==> x == (ScanResult { violations: x.violations, ..filtered(self, min_severity) })
                && x.violations@ == at_least(self.violations@, min_severity),
    {
        let ScanResult { violations, files_scanned, files_clean, files_with_violations, errors, duration, config_used } = self;
        let kept = keep_at_least(violations, min_severity);
        let fwv = count_distinct_files(kept.as_slice());
        if fwv > files_scanned || errors.len() > files_scanned - fwv {
            return None;
        }
        let clean = files_scanned - fwv - errors.len();
        Some(ScanResult {
            violations: kept,
            files_scanned,
            files_clean: clean,
            files_with_violations: fwv,
            errors,
            duration,
            config_used,
        })
    }
}

} // verus!

verus! {

/// A scan passes exactly when its exit code is 0; violations give 1 and
/// errors alone give 3.
pub proof fn exit_code_zero_iff_passed(r: ScanResult)
    ensures
        (exit_code_of(r.violations@.len(), r.errors@.len()) == 0) <==> (r.violations@.len() == 0
            && r.errors@.len() == 0),
        r.violations@.len() > 0 ==> exit_code_of(r.violations@.len(), r.errors@.len()) == 1,
        r.violations@.len() == 0 && r.errors@.len() > 0 ==> exit_code_of(r.violations@.len(), r.errors@.len()) == 3,
{
}

/// Filtering by the lowest severity keeps every violation.
pub proof fn lowest_severity_keeps_all(vs: Seq<Violation>)
    ensures
        at_least(vs, Severity::Info) == vs,
    decreases vs.len(),
{
    if vs.len() > 0 {
        lowest_severity_keeps_all(vs.drop_last());
        assert(vs.drop_last().push(vs.last()) =~= vs);
    }
}

/// Filtering twice by the same severity is filtering once, and every
/// violation kept is of at least that severity.
pub proof fn severity_filter_idempotent(vs: Seq<Violation>, min: Severity)
    ensures
        at_least(at_least(vs, min), min) == at_least(vs, min),
        forall|i: int| 0 <= i < at_least(vs, min).len() ==> severity_rank(#[trigger] at_least(vs, min)[i].severity)
            >= severity_rank(min),
        at_least(vs, min).len() <= vs.len(),
    decreases vs.len(),
{
    if vs.len() > 0 {
        severity_filter_idempotent(vs.drop_last(), min);
        let k = at_least(vs.drop_last(), min);
        if severity_rank(vs.last().severity) >= severity_rank(min) {
            let t = k.push(vs.last());
            assert(t.drop_last() =~= k);
            assert(t.last() == vs.last());
            assert forall|i: int| 0 <= i < t.len() implies severity_rank(#[trigger] t[i].severity) >= severity_rank(min) by {
                if i < k.len() {
                    assert(t[i] == k[i]);
                }
            }
        }
    }
}

/// There are no more files with violations than violations.
pub proof fn distinct_files_at_most_violations(vs: Seq<Violation>)
    ensures
        distinct_files(vs) <= vs.len(),
    decreases vs.len(),
{
    if vs.len() > 0 {
        distinct_files_at_most_violations(vs.drop_last());
    }
}

proof fn lemma_occurs_after(pre: Seq<char>, s: Seq<char>, m: Seq<char>)
    requires
        m.len() <= s.len(),
        s.subrange(0, m.len() as int) == m,
    ensures
        occurs_at(pre + s, m, pre.len() as int),
{
    assert((pre + s).subrange(pre.len() as int, (pre.len() + m.len()) as int) =~= s.subrange(0, m.len() as int));
}

proof fn lemma_summary_head(r: ScanResult)
    ensures
        summary_text(r, false).len() >= 13,
        summary_text(r, false).subrange(0, 13) == "\nScan Result:"@,
{
    reveal_strlit("\nScan Result:");
    reveal_strlit("\nScan Result: ");
    let s = summary_text(r, false);
    let head = "\nScan Result: "@;
    assert forall|k: int| 0 <= k < 13 implies #[trigger] s[k] == head[k] by {
    }
    assert(s.subrange(0, 13) =~= "\nScan Result:"@);
}

/// The plain-text report always holds the summary marker, so quiet mode
/// always gives the report from its first "\nScan Result:" on.
pub proof fn quiet_report_starts_at_summary(r: ScanResult, verbose: bool)
    ensures
        contains_seq(human_text(r, false, verbose), "\nScan Result:"@),
        human_output(r, verbose, true) == human_text(r, false, verbose).skip(
            find_seq(human_text(r, false, verbose), "\nScan Result:"@)->0,
        ),
{
    let pre = if r.violations@.len() > 0 {
        crate::report::formatter::violations_text(r.violations@, false, verbose) + "\n"@
    } else {
        Seq::<char>::empty()
    };
    lemma_summary_head(r);
    reveal_strlit("\nScan Result:");
    lemma_occurs_after(pre, summary_text(r, false), "\nScan Result:"@);
    assert(human_text(r, false, verbose) == pre + summary_text(r, false));
}

} // verus!

