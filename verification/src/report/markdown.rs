//! The Markdown report: one section per file, ordered by path, and a summary
//! table.

use vstd::prelude::*;
use crate::paths::{
    key_lt, lemma_key_lt_total, lemma_key_lt_transitive, part_view, parts_less, path_key,
    path_parts, same_parts, PathPart,
};
use crate::report::formatter::category_name_str;
use crate::report::formatter::category_name;
use crate::report::violation::{code_point_text, Violation};
use crate::report::{first_in_file, seconds_text, spec_seconds_text, ScanResult};
use crate::scanner::encoding::encoding_name_spec;
use crate::text::{decimal, push_decimal, trim, trim_str};
use crate::unicode::malicious::Severity;

verus! {

/// The badge that marks a severity.
pub open spec fn badge(s: Severity) -> Seq<char> {
    match s {
        Severity::Error => "🔴 ERROR"@,
        Severity::Warning => "🟡 WARNING"@,
        Severity::Info => "🔵 INFO"@,
    }
}

/// The badge that marks a severity.
pub fn severity_badge(severity: Severity) -> (s: &'static str)
    ensures
        s@ == badge(severity),
{
    match severity {
        Severity::Error => "🔴 ERROR",
        Severity::Warning => "🟡 WARNING",
        Severity::Info => "🔵 INFO",
    }
}

/// The key of the file of `vs[i]`.
pub open spec fn vkey(vs: Seq<Violation>, i: int) -> Seq<(u8, Seq<char>)> {
    path_key(vs[i].file_path@)
}

/// The first position in `heads` whose file comes after key `k`.
pub open spec fn insert_pos(vs: Seq<Violation>, heads: Seq<int>, k: Seq<(u8, Seq<char>)>) -> int
    decreases heads.len(),
{
    if heads.len() == 0 {
        0
    } else if key_lt(k, vkey(vs, heads[0])) {
        0
    } else {
        1 + insert_pos(vs, heads.drop_first(), k)
    }
}

/// The first violation of each file among `vs[..n]`, ordered by path: each
/// new file goes before the first file listed so far that comes after it.
pub open spec fn file_heads(vs: Seq<Violation>, n: nat) -> Seq<int>
    decreases n,
{
    if n == 0 {
        Seq::<int>::empty()
    } else {
        let h = file_heads(vs, (n - 1) as nat);
        let i = n - 1;
        if first_in_file(vs, i) {
            h.insert(insert_pos(vs, h, vkey(vs, i)), i)
        } else {
            h
        }
    }
}

proof fn lemma_insert_pos(vs: Seq<Violation>, heads: Seq<int>, k: Seq<(u8, Seq<char>)>)
    ensures
        0 <= insert_pos(vs, heads, k) <= heads.len(),
        forall|a: int| 0 <= a < insert_pos(vs, heads, k) ==> !key_lt(k, vkey(vs, #[trigger] heads[a])),
        insert_pos(vs, heads, k) < heads.len() ==> key_lt(k, vkey(vs, heads[insert_pos(vs, heads, k)])),
    decreases heads.len(),
{
    if heads.len() > 0 && !key_lt(k, vkey(vs, heads[0])) {
        let u = heads.drop_first();
        lemma_insert_pos(vs, u, k);
        assert forall|a: int| 0 <= a < insert_pos(vs, heads, k) implies !key_lt(k, vkey(vs, #[trigger] heads[a])) by {
            if a > 0 {
                assert(heads[a] == u[a - 1]);
            }
        }
    }
}

/// Each of `heads` is the first violation of its file among `vs[..n]`.
pub open spec fn heads_are_firsts(vs: Seq<Violation>, heads: Seq<int>, n: nat) -> bool {
    forall|a: int| 0 <= a < heads.len() ==> 0 <= #[trigger] heads[a] < n && first_in_file(vs, heads[a])
}

/// The paths of `heads` strictly ascend.
pub open spec fn heads_ascend(vs: Seq<Violation>, heads: Seq<int>) -> bool {
    forall|a: int, b: int| 0 <= a < b < heads.len() ==> key_lt(vkey(vs, #[trigger] heads[a]), vkey(vs, #[trigger] heads[b]))
}

/// `vs[x]` and `vs[y]` are in the same file.
pub open spec fn same_file(vs: Seq<Violation>, x: int, y: int) -> bool {
    vkey(vs, x) == vkey(vs, y)
}

/// One of `heads` is in the file of `vs[i]`.
pub open spec fn has_head(vs: Seq<Violation>, heads: Seq<int>, i: int) -> bool {
    exists|a: int| 0 <= a < heads.len() && same_file(vs, #[trigger] heads[a], i)
}

/// The file of every violation among `vs[..n]` has a head.
pub open spec fn heads_cover(vs: Seq<Violation>, heads: Seq<int>, n: nat) -> bool {
    forall|i: int| 0 <= i < n ==> #[trigger] has_head(vs, heads, i)
}

proof fn lemma_heads_insert_ascend(vs: Seq<Violation>, h: Seq<int>, i: int)
    requires
        0 <= i < vs.len(),
        heads_ascend(vs, h),
        forall|a: int| 0 <= a < h.len() ==> vkey(vs, #[trigger] h[a]) != vkey(vs, i),
    ensures
        heads_ascend(vs, h.insert(insert_pos(vs, h, vkey(vs, i)), i)),
{
    let ki = vkey(vs, i);
    let p = insert_pos(vs, h, ki);
    lemma_insert_pos(vs, h, ki);
    let r = h.insert(p, i);
    assert forall|a: int| 0 <= a < p implies key_lt(vkey(vs, #[trigger] h[a]), ki) by {
        lemma_key_lt_total(vkey(vs, h[a]), ki);
    }
    assert forall|a: int, b: int| 0 <= a < b < r.len() implies key_lt(vkey(vs, #[trigger] r[a]), vkey(vs, #[trigger] r[b])) by {
        if b < p {
            assert(r[a] == h[a] && r[b] == h[b]);
        } else if a < p && b == p {
            assert(r[a] == h[a]);
        } else if a < p {
            assert(r[a] == h[a] && r[b] == h[b - 1]);
            lemma_key_lt_transitive(vkey(vs, h[a]), ki, vkey(vs, h[p]));
            if b - 1 > p {
                lemma_key_lt_transitive(vkey(vs, h[a]), vkey(vs, h[p]), vkey(vs, h[b - 1]));
            }
        } else if a == p {
            assert(r[b] == h[b - 1]);
            if b - 1 > p {
                lemma_key_lt_transitive(ki, vkey(vs, h[p]), vkey(vs, h[b - 1]));
            }
        } else {
            assert(r[a] == h[a - 1] && r[b] == h[b - 1]);
        }
    }
}

proof fn lemma_heads_insert_cover(vs: Seq<Violation>, h: Seq<int>, i: int, p: int)
    requires
        0 <= i < vs.len(),
        0 <= p <= h.len(),
        heads_cover(vs, h, i as nat),
    ensures
        heads_cover(vs, h.insert(p, i), (i + 1) as nat),
{
    let r = h.insert(p, i);
    assert forall|j: int| 0 <= j < (i + 1) as nat implies #[trigger] has_head(vs, r, j) by {
        if j == i {
            assert(r[p] == i);
        } else {
            assert(has_head(vs, h, j));
            let a = choose|a: int| 0 <= a < h.len() && same_file(vs, #[trigger] h[a], j);
            if a < p {
                assert(r[a] == h[a]);
            } else {
                assert(r[a + 1] == h[a]);
            }
        }
    }
}

proof fn lemma_heads_step(vs: Seq<Violation>, n: nat)
    requires
        0 < n <= vs.len(),
        heads_are_firsts(vs, file_heads(vs, (n - 1) as nat), (n - 1) as nat),
        heads_ascend(vs, file_heads(vs, (n - 1) as nat)),
        heads_cover(vs, file_heads(vs, (n - 1) as nat), (n - 1) as nat),
    ensures
        heads_are_firsts(vs, file_heads(vs, n), n),
        heads_ascend(vs, file_heads(vs, n)),
        heads_cover(vs, file_heads(vs, n), n),
{
    let i = n - 1;
    let h = file_heads(vs, (n - 1) as nat);
    let ki = vkey(vs, i);
    if first_in_file(vs, i) {
        let p = insert_pos(vs, h, ki);
        lemma_insert_pos(vs, h, ki);
        let r = h.insert(p, i);
        assert(file_heads(vs, n) == r);
        assert forall|a: int| 0 <= a < h.len() implies vkey(vs, #[trigger] h[a]) != ki by {
            assert(path_key(vs[h[a]].file_path@) != path_key(vs[i].file_path@));
        }
        lemma_heads_insert_ascend(vs, h, i);
        lemma_heads_insert_cover(vs, h, i, p);
        assert forall|a: int| 0 <= a < r.len() implies 0 <= #[trigger] r[a] < n && first_in_file(vs, r[a]) by {
            if a < p {
                assert(r[a] == h[a]);
            } else if a > p {
                assert(r[a] == h[a - 1]);
            }
        }
    } else {
        assert(file_heads(vs, n) == h);
        let j0 = choose|j: int| 0 <= j < i && path_key(#[trigger] vs[j].file_path@) == path_key(vs[i].file_path@);
        assert(vkey(vs, j0) == ki);
        assert forall|j: int| 0 <= j < n implies #[trigger] has_head(vs, h, j) by {
            if j == i {
                assert(has_head(vs, h, j0));
                let a = choose|a: int| 0 <= a < h.len() && same_file(vs, #[trigger] h[a], j0);
                assert(same_file(vs, h[a], j));
            }
        }
    }
}

/// The Markdown report has one section per file, in path order: among
/// `vs[..n]`, each listed head is the first violation of its file, the heads'
/// paths strictly ascend, and every violation's file has a head.
pub proof fn file_sections_follow_path_order(vs: Seq<Violation>, n: nat)
    requires
        n <= vs.len(),
    ensures
        heads_are_firsts(vs, file_heads(vs, n), n),
        heads_ascend(vs, file_heads(vs, n)),
        heads_cover(vs, file_heads(vs, n), n),
    decreases n,
{
    if n > 0 {
        file_sections_follow_path_order(vs, (n - 1) as nat);
        lemma_heads_step(vs, n);
    }
}

/// One violation as a list item, with details in verbose mode.
pub open spec fn item_text(v: Violation, verbose: bool) -> Seq<char> {
    "- "@ + badge(v.severity) + " **Line "@ + decimal(v.line as nat) + ":"@ + decimal(v.column as nat)
        + "** — "@ + v.message@ + "\n"@ + if verbose {
        item_details(v)
    } else {
        Seq::<char>::empty()
    }
}

/// The items of the violations in the file with key `k`, in their order.
pub open spec fn file_items(vs: Seq<Violation>, k: Seq<(u8, Seq<char>)>, verbose: bool) -> Seq<char>
    decreases vs.len(),
{
    if vs.len() == 0 {
        Seq::<char>::empty()
    } else {
        file_items(vs.drop_last(), k, verbose) + if path_key(vs.last().file_path@) == k {
            item_text(vs.last(), verbose)
        } else {
            Seq::<char>::empty()
        }
    }
}

/// The section of the file whose first violation is `vs[h]`, headed by
/// that violation's path.
pub open spec fn section_text(vs: Seq<Violation>, h: int, verbose: bool) -> Seq<char> {
    "## `"@ + vs[h].file_path@ + "`\n\n"@ + file_items(vs, vkey(vs, h), verbose) + "\n"@
}

/// The sections of the given files, in order.
pub open spec fn sections_text(vs: Seq<Violation>, heads: Seq<int>, verbose: bool) -> Seq<char>
    decreases heads.len(),
{
    if heads.len() == 0 {
        Seq::<char>::empty()
    } else {
        sections_text(vs, heads.drop_last(), verbose) + section_text(vs, heads.last(), verbose)
    }
}

/// The summary table.
pub open spec fn summary_markdown(r: ScanResult) -> Seq<char> {
    "## Summary\n\n"@ + "| Metric | Value |\n"@ + "|--------|-------|\n"@
        + "| Files scanned | "@ + decimal(r.files_scanned as nat) + " |\n"@
        + "| Files clean | "@ + decimal(r.files_clean as nat) + " |\n"@
        + "| Files with violations | "@ + decimal(r.files_with_violations as nat) + " |\n"@
        + "| Total violations | "@ + decimal(r.violations@.len()) + " |\n"@
        + (if r.errors@.len() > 0 {
        "| Errors | "@ + decimal(r.errors@.len()) + " |\n"@
    } else {
        Seq::<char>::empty()
    })
        + "| Duration | "@ + spec_seconds_text(r.duration.secs, r.duration.nanos) + "s |\n"@
}

/// The whole Markdown report.
pub open spec fn markdown_text(r: ScanResult, verbose: bool) -> Seq<char> {
    let vs = r.violations@;
    (if vs.len() == 0 {
        "# Unicleaner Scan: PASSED\n\n"@ + "No violations found.\n\n"@
    } else {
        "# Unicleaner Scan: FAILED\n\n"@ + sections_text(vs, file_heads(vs, vs.len()), verbose)
    }) + summary_markdown(r)
}

/// The components of every violation's path, in order.
fn violation_keys(vs: &[Violation]) -> (keys: Vec<Vec<PathPart>>)
    ensures
        keys.len() == vs.len(),
        forall|j: int| 0 <= j < vs.len() ==> (#[trigger] keys@[j])@.map_values(|q: PathPart| part_view(q)) == vkey(vs@, j),
{
    let mut keys: Vec<Vec<PathPart>> = Vec::new();
    let mut i: usize = 0;
    while i < vs.len()
        invariant
            i <= vs.len(),
            keys.len() == i,
            forall|j: int| 0 <= j < i ==> (#[trigger] keys@[j])@.map_values(|q: PathPart| part_view(q)) == vkey(vs@, j),
        decreases vs.len() - i,
    {
        let k = path_parts(vs[i].file_path.as_str());
        keys.push(k);
        i = i + 1;
    }
    keys
}

/// The files of the violations as the indices of their first violations,
/// ordered by path.
fn file_order(vs: &[Violation], keys: &Vec<Vec<PathPart>>) -> (heads: Vec<usize>)
    requires
        keys.len() == vs.len(),
        forall|j: int| 0 <= j < vs.len() ==> (#[trigger] keys@[j])@.map_values(|q: PathPart| part_view(q)) == vkey(vs@, j),
    ensures
        heads@.map_values(|x: usize| x as int) == file_heads(vs@, vs@.len()),
        forall|q: int| 0 <= q < heads.len() ==> (#[trigger] heads@[q]) < vs.len(),
{
    let mut heads: Vec<usize> = Vec::new();
    let mut i: usize = 0;
    while i < vs.len()
        invariant
            i <= vs.len(),
            keys.len() == vs.len(),
            forall|j: int| 0 <= j < vs.len() ==> (#[trigger] keys@[j])@.map_values(|q: PathPart| part_view(q)) == vkey(vs@, j),
            heads@.map_values(|x: usize| x as int) == file_heads(vs@, i as nat),
            forall|q: int| 0 <= q < heads.len() ==> (#[trigger] heads@[q]) < i,
        decreases vs.len() - i,
    {
        let mut seen = false;
        let mut j: usize = 0;
        while j < i
            invariant
                j <= i,
                i < vs.len(),
                keys.len() == vs.len(),
                forall|m: int| 0 <= m < vs.len() ==> (#[trigger] keys@[m])@.map_values(|q: PathPart| part_view(q)) == vkey(vs@, m),
                seen == exists|m: int| 0 <= m < j && vkey(vs@, m) == vkey(vs@, i as int),
            decreases i - j,
        {
            if same_parts(&keys[j], &keys[i]) {
                seen = true;
            }
            j = j + 1;
        }
        let ghost h = file_heads(vs@, i as nat);
        let ghost k = vkey(vs@, i as int);
        proof {
            if seen {
                let m = choose|m: int| 0 <= m < j && vkey(vs@, m) == vkey(vs@, i as int);
                assert(path_key(vs@[m].file_path@) == path_key(vs@[i as int].file_path@));
            } else {
                assert forall|m: int| 0 <= m < i implies path_key(#[trigger] vs@[m].file_path@)
                    != path_key(vs@[i as int].file_path@) by {
                    assert(!(vkey(vs@, m) == vkey(vs@, i as int)));
                }
            }
            assert(first_in_file(vs@, i as int) == !seen);
        }
        if !seen {
            let mut p: usize = 0;
            assert(h.skip(0) =~= h);
            while p < heads.len() && !parts_less(&keys[i], &keys[heads[p]])
                invariant
                    p <= heads.len(),
                    i < vs.len(),
                    keys.len() == vs.len(),
                    forall|m: int| 0 <= m < vs.len() ==> (#[trigger] keys@[m])@.map_values(|q: PathPart| part_view(q)) == vkey(vs@, m),
                    forall|q: int| 0 <= q < heads.len() ==> (#[trigger] heads@[q]) < i,
                    h == heads@.map_values(|x: usize| x as int),
                    k == vkey(vs@, i as int),
                    insert_pos(vs@, h, k) == p + insert_pos(vs@, h.skip(p as int), k),
                decreases heads.len() - p,
            {
                assert(h.skip(p as int).drop_first() =~= h.skip(p + 1));
                assert(h.skip(p as int)[0] == heads@[p as int] as int);
                assert(keys@[i as int]@.map_values(|q: PathPart| part_view(q)) == k);
                assert(keys@[heads@[p as int] as int]@.map_values(|q: PathPart| part_view(q))
                    == vkey(vs@, heads@[p as int] as int));
                assert(!key_lt(k, vkey(vs@, heads@[p as int] as int)));
                p = p + 1;
            }
            proof {
                if p < heads.len() {
                    assert(h.skip(p as int)[0] == h[p as int]);
                }
            }
            heads.insert(p, i);
            assert(heads@.map_values(|x: usize| x as int) =~= h.insert(p as int, i as int));
        }
        i = i + 1;
    }
    heads
}

/// The verbose detail lines of a list item.
pub open spec fn item_details(v: Violation) -> Seq<char> {
    "  - Character: `"@ + code_point_text(v.code_point) + "` (`"@ + v.pattern_name@ + "`)\n"@
        + "  - Category: `"@ + category_name(v.category) + "`\n"@
        + "  - Encoding: "@ + encoding_name_spec(v.encoding) + "\n"@
        + if v.context@.len() > 0 {
        "  - Context: `"@ + trim(v.context@) + "`\n"@
    } else {
        Seq::<char>::empty()
    }
}

/// Append the verbose detail lines of a list item.
fn push_item_details(out: &mut String, v: &Violation)
    ensures
        final(out)@ == old(out)@ + item_details(*v),
{
    out.append("  - Character: `");
    let cp = v.code_point_string();
    out.append(cp.as_str());
    out.append("` (`");
    out.append(v.pattern_name.as_str());
    out.append("`)\n");
    out.append("  - Category: `");
    out.append(category_name_str(v.category));
    out.append("`\n");
    out.append("  - Encoding: ");
    out.append(v.encoding_name());
    out.append("\n");
    let ghost mid = out@;
    if !v.context.as_str().is_empty() {
        out.append("  - Context: `");
        let t = trim_str(v.context.as_str());
        out.append(t.as_str());
        out.append("`\n");
    }
    assert(out@ =~= old(out)@ + item_details(*v));
}

/// Append one violation's list item.
fn push_item(out: &mut String, v: &Violation, verbose: bool)
    ensures
        final(out)@ == old(out)@ + item_text(*v, verbose),
{
    out.append("- ");
    out.append(severity_badge(v.severity));
    out.append(" **Line ");
    push_decimal(out, v.line as u64);
    out.append(":");
    push_decimal(out, v.column as u64);
    out.append("** — ");
    out.append(v.message.as_str());
    out.append("\n");
    if verbose {
        push_item_details(out, v);
    }
    assert(out@ =~= old(out)@ + item_text(*v, verbose));
}

/// Append the section of the file whose first violation is `vs[h]`.
fn push_section(out: &mut String, vs: &[Violation], keys: &Vec<Vec<PathPart>>, h: usize, verbose: bool)
    requires
        h < vs.len(),
        keys.len() == vs.len(),
        forall|j: int| 0 <= j < vs.len() ==> (#[trigger] keys@[j])@.map_values(|q: PathPart| part_view(q)) == vkey(vs@, j),
    ensures
        final(out)@ == old(out)@ + section_text(vs@, h as int, verbose),
{
    out.append("## `");
    out.append(vs[h].file_path.as_str());
    out.append("`\n\n");
    let ghost start = out@;
    let ghost k = vkey(vs@, h as int);
    let mut j: usize = 0;
    while j < vs.len()
        invariant
            j <= vs.len(),
            h < vs.len(),
            keys.len() == vs.len(),
            forall|m: int| 0 <= m < vs.len() ==> (#[trigger] keys@[m])@.map_values(|q: PathPart| part_view(q)) == vkey(vs@, m),
            k == vkey(vs@, h as int),
            out@ == start + file_items(vs@.take(j as int), k, verbose),
        decreases vs.len() - j,
    {
        assert(vs@.take(j + 1).drop_last() =~= vs@.take(j as int));
        if same_parts(&keys[j], &keys[h]) {
            push_item(out, &vs[j], verbose);
        }
        j = j + 1;
    }
    assert(vs@.take(vs.len() as int) =~= vs@);
    out.append("\n");
    assert(out@ =~= old(out)@ + section_text(vs@, h as int, verbose));
}

/// Append a row of the summary table: the label, the number, the cell end.
fn push_row(out: &mut String, label: &str, n: u64)
    ensures
        final(out)@ == old(out)@ + label@ + decimal(n as nat) + " |\n"@,
{
    out.append(label);
    push_decimal(out, n);
    out.append(" |\n");
}

/// The summary table.
#[verifier::rlimit(40)]
fn push_summary(out: &mut String, result: &ScanResult)
    requires
        result.duration.wf(),
    ensures
        final(out)@ == old(out)@ + summary_markdown(*result),
        crate::report::two_decimals(spec_seconds_text(result.duration.secs, result.duration.nanos)),
{
    out.append("## Summary\n\n");
    out.append("| Metric | Value |\n");
    out.append("|--------|-------|\n");
    push_row(out, "| Files scanned | ", result.files_scanned as u64);
    push_row(out, "| Files clean | ", result.files_clean as u64);
    push_row(out, "| Files with violations | ", result.files_with_violations as u64);
    push_row(out, "| Total violations | ", result.violations.len() as u64);
    let ghost mid = out@;
    if result.errors.len() > 0 {
        push_row(out, "| Errors | ", result.errors.len() as u64);
    }
    out.append("| Duration | ");
    let d = seconds_text(result.duration.secs, result.duration.nanos);
    out.append(d.as_str());
    out.append("s |\n");
    assert(out@ =~= old(out)@ + summary_markdown(*result));
}

/// The whole Markdown report: a title that says whether the scan passed, a
/// section per file with violations (files ordered by path, violations in
/// their order), and the summary table.
pub fn format_markdown(result: &ScanResult, verbose: bool) -> (s: String)
    requires
        result.duration.wf(),
    ensures
        s@ == markdown_text(*result, verbose),
        crate::report::two_decimals(spec_seconds_text(result.duration.secs, result.duration.nanos)),
{
    let vs = result.violations.as_slice();
    let mut out = String::new();
    if vs.len() == 0 {
        out.append("# Unicleaner Scan: PASSED\n\n");
        out.append("No violations found.\n\n");
    } else {
        out.append("# Unicleaner Scan: FAILED\n\n");
        let keys = violation_keys(vs);
        let heads = file_order(vs, &keys);
        let ghost hs = file_heads(vs@, vs@.len());
        let ghost start = out@;
        let mut q: usize = 0;
        while q < heads.len()
            invariant
                q <= heads.len(),
                keys.len() == vs.len(),
                forall|j: int| 0 <= j < vs.len() ==> (#[trigger] keys@[j])@.map_values(|q: PathPart| part_view(q)) == vkey(vs@, j),
                forall|m: int| 0 <= m < heads.len() ==> (#[trigger] heads@[m]) < vs.len(),
                hs == heads@.map_values(|x: usize| x as int),
                out@ == start + sections_text(vs@, hs.take(q as int), verbose),
            decreases heads.len() - q,
        {
            assert(hs.take(q + 1).drop_last() =~= hs.take(q as int));
            push_section(&mut out, vs, &keys, heads[q], verbose);
            q = q + 1;
        }
        assert(hs.take(heads.len() as int) =~= hs);
    }
    push_summary(&mut out, result);
    assert(out@ =~= markdown_text(*result, verbose));
    out
}

} // verus!
