//! Finding malicious and disallowed code points in decoded text.

use vstd::prelude::*;
use crate::report::violation::{is_display_char, Violation};
use crate::text::{
    column_before, in_some_line, lemma_line_at_inside, lemma_str_lines_placed, lemma_text_chars_on_lines, line_at,
    line_placed, newlines_before, text_char,
    char_width, chars_view, lemma_lines_bounded, lemma_utf8_len_take_next, lemma_utf8_prefix_le,
    lemma_utf8_prefix_strict, push_chars_range, split_lines, str_lines, utf8_len,
};
use crate::unicode::malicious::{
    pattern_category, pattern_category_of, pattern_description, pattern_description_str,
    pattern_index, pattern_index_for, pattern_name, pattern_name_str, pattern_severity,
    pattern_severity_of, MaliciousCategory, Severity, PATTERN_COUNT,
};
use crate::unicode::ranges::{in_range, UnicodeRange};

verus! {

/// The verdict for a code point listed in the caller's deny list.
pub const KIND_DENIED: usize = 20;

/// The verdict for a code point outside the allowlist under deny-by-default.
pub const KIND_DISALLOWED: usize = 21;

/// Tab, line feed, vertical tab, form feed, carriage return and printable
/// ASCII: the allowlist used when no ranges are configured.
pub open spec fn safe_ascii(cp: u32) -> bool {
    (0x09 <= cp && cp <= 0x0D) || (0x20 <= cp && cp <= 0x7E)
}

/// Some range of `ranges` holds `cp`.
pub open spec fn in_some_range(ranges: Seq<UnicodeRange>, cp: u32) -> bool {
    exists|j: int| 0 <= j < ranges.len() && in_range(ranges[j].start, ranges[j].end, cp)
}

/// `cp` is allowed by the configured ranges, or by safe ASCII when there are
/// none.
pub open spec fn allowed_by_policy(cp: u32, ranges: Option<Seq<UnicodeRange>>) -> bool {
    match ranges {
        Some(rs) => in_some_range(rs, cp),
        None => safe_ascii(cp),
    }
}

/// The view of an optional slice of ranges.
pub open spec fn ranges_view(ranges: Option<&[UnicodeRange]>) -> Option<Seq<UnicodeRange>> {
    match ranges {
        Some(r) => Some(r@),
        None => None,
    }
}

/// How a code point is judged: the index of its built-in pattern, else
/// `KIND_DENIED` when the deny list holds it, else `KIND_DISALLOWED` when
/// deny-by-default is on and the allowlist misses it, else nothing.
pub open spec fn verdict(
    cp: u32,
    deny_by_default: bool,
    ranges: Option<Seq<UnicodeRange>>,
    denied: Seq<u32>,
) -> Option<int> {
    match pattern_index(cp) {
        Some(i) => Some(i),
        None => if denied.contains(cp) {
            Some(KIND_DENIED as int)
        } else if deny_by_default && !allowed_by_policy(cp, ranges) {
            Some(KIND_DISALLOWED as int)
        } else {
            None
        },
    }
}

/// The pattern name reported for a verdict.
pub open spec fn kind_name(k: int) -> Seq<char> {
    if k < 20 {
        pattern_name(k)
    } else if k == 20 {
        "explicitly-denied"@
    } else {
        "disallowed-code-point"@
    }
}

/// The category reported for a verdict.
pub open spec fn kind_category(k: int) -> MaliciousCategory {
    if k < 20 {
        pattern_category(k)
    } else {
        MaliciousCategory::NonStandard
    }
}

/// The severity reported for a verdict.
pub open spec fn kind_severity(k: int) -> Severity {
    if k < 20 {
        pattern_severity(k)
    } else {
        Severity::Error
    }
}

/// The message reported for a verdict.
pub open spec fn kind_description(k: int) -> Seq<char> {
    if k < 20 {
        pattern_description(k)
    } else if k == 20 {
        "Code point is explicitly denied by configuration"@
    } else {
        "Code point is outside the configured allowlist (deny-by-default)"@
    }
}

/// Whether a slice holds a value.
pub fn slice_contains_u32(s: &[u32], x: u32) -> (b: bool)
    ensures
        b == s@.contains(x),
{
    let mut i: usize = 0;
    while i < s.len()
        invariant
            i <= s.len(),
            forall|j: int| 0 <= j < i ==> s@[j] != x,
        decreases s.len() - i,
    {
        if s[i] == x {
            assert(s@[i as int] == x);
            return true;
        }
        i = i + 1;
    }
    false
}

/// Whether some range of a slice holds `cp`.
pub fn ranges_contain(ranges: &[UnicodeRange], cp: u32) -> (b: bool)
    ensures
        b == in_some_range(ranges@, cp),
{
    let mut i: usize = 0;
    while i < ranges.len()
        invariant
            i <= ranges.len(),
            forall|j: int| 0 <= j < i ==> !in_range(ranges@[j].start, ranges@[j].end, cp),
        decreases ranges.len() - i,
    {
        if ranges[i].contains(cp) {
            return true;
        }
        i = i + 1;
    }
    false
}

/// Whether `cp` is allowed: by the ranges when given, else by safe ASCII.
pub fn is_allowed_by_policy(code_point: u32, allowed_ranges: Option<&[UnicodeRange]>) -> (b: bool)
    ensures
        b == allowed_by_policy(code_point, ranges_view(allowed_ranges)),
{
    match allowed_ranges {
        Some(ranges) => ranges_contain(ranges, code_point),
        None => (0x0009 <= code_point && code_point <= 0x000D) || (0x0020 <= code_point
            && code_point <= 0x007E),
    }
}

/// The verdict for one code point.
pub fn judge(
    code_point: u32,
    deny_by_default: bool,
    allowed_ranges: Option<&[UnicodeRange]>,
    denied_code_points: &[u32],
) -> (r: Option<usize>)
    ensures
        r matches Some(k) ==> verdict(
            code_point,
            deny_by_default,
            ranges_view(allowed_ranges),
            denied_code_points@,
        ) == Some(k as int) && k <= KIND_DISALLOWED,
        r is None ==> verdict(
            code_point,
            deny_by_default,
            ranges_view(allowed_ranges),
            denied_code_points@,
        ) is None,
{
    match pattern_index_for(code_point) {
        Some(i) => Some(i),
        None => {
            if slice_contains_u32(denied_code_points, code_point) {
                Some(KIND_DENIED)
            } else if deny_by_default && !is_allowed_by_policy(code_point, allowed_ranges) {
                Some(KIND_DISALLOWED)
            } else {
                None
            }
        },
    }
}

/// The pattern name reported for a verdict.
pub fn kind_name_str(k: usize) -> (s: &'static str)
    requires
        k <= KIND_DISALLOWED,
    ensures
        s@ == kind_name(k as int),
{
    if k < PATTERN_COUNT {
        pattern_name_str(k)
    } else if k == KIND_DENIED {
        "explicitly-denied"
    } else {
        "disallowed-code-point"
    }
}

/// The message reported for a verdict.
pub fn kind_description_str(k: usize) -> (s: &'static str)
    requires
        k <= KIND_DISALLOWED,
    ensures
        s@ == kind_description(k as int),
{
    if k < PATTERN_COUNT {
        pattern_description_str(k)
    } else if k == KIND_DENIED {
        "Code point is explicitly denied by configuration"
    } else {
        "Code point is outside the configured allowlist (deny-by-default)"
    }
}

/// The category reported for a verdict.
pub fn kind_category_of(k: usize) -> (c: MaliciousCategory)
    requires
        k <= KIND_DISALLOWED,
    ensures
        c == kind_category(k as int),
{
    if k < PATTERN_COUNT {
        pattern_category_of(k)
    } else {
        MaliciousCategory::NonStandard
    }
}

/// The severity reported for a verdict.
pub fn kind_severity_of(k: usize) -> (s: Severity)
    requires
        k <= KIND_DISALLOWED,
    ensures
        s == kind_severity(k as int),
{
    if k < PATTERN_COUNT {
        pattern_severity_of(k)
    } else {
        Severity::Error
    }
}

/// The UTF-8 length of the first `k` characters of `line`.
pub open spec fn prefix_bytes(line: Seq<char>, k: int) -> nat {
    utf8_len(line.take(k))
}

/// The largest character index `j <= k` whose byte offset is at most `x`.
pub open spec fn last_boundary_le(line: Seq<char>, x: int, k: int) -> int
    decreases k,
{
    if k <= 0 {
        0
    } else if prefix_bytes(line, k) <= x {
        k
    } else {
        last_boundary_le(line, x, k - 1)
    }
}

/// The smallest character index `j >= k` whose byte offset is at least `y`,
/// or the length of the line.
pub open spec fn first_boundary_ge(line: Seq<char>, y: int, k: int) -> int
    decreases line.len() - k,
{
    if k >= line.len() {
        line.len() as int
    } else if prefix_bytes(line, k) >= y {
        k
    } else {
        first_boundary_ge(line, y, k + 1)
    }
}

/// The context shown for a violation at byte offset `off` of `line`: the whole
/// line when it is at most 120 bytes, else the characters between the nearest
/// character boundaries 60 bytes either side, with `...` where text is cut.
pub open spec fn context_of(line: Seq<char>, off: int) -> Seq<char> {
    let len = utf8_len(line) as int;
    if len <= 120 {
        line
    } else {
        let sraw = if off >= 60 {
            off - 60
        } else {
            0
        };
        let eraw = if off + 60 <= len {
            off + 60
        } else {
            len
        };
        let ks = last_boundary_le(line, sraw, line.len() as int);
        let ke = first_boundary_ge(line, eraw, 0);
        let head: Seq<char> = if prefix_bytes(line, ks) > 0 {
            "..."@
        } else {
            seq![]
        };
        let tail: Seq<char> = if prefix_bytes(line, ke) < len {
            "..."@
        } else {
            seq![]
        };
        head + line.subrange(ks, ke) + tail
    }
}

proof fn lemma_last_boundary_range(line: Seq<char>, x: int, k: int)
    requires
        0 <= k <= line.len(),
    ensures
        0 <= last_boundary_le(line, x, k) <= k,
    decreases k,
{
    if k > 0 && prefix_bytes(line, k) > x {
        lemma_last_boundary_range(line, x, k - 1);
    }
}

proof fn lemma_first_boundary_range(line: Seq<char>, y: int, k: int)
    requires
        0 <= k <= line.len(),
    ensures
        k <= first_boundary_ge(line, y, k) <= line.len(),
    decreases line.len() - k,
{
    if k < line.len() && prefix_bytes(line, k) < y {
        lemma_first_boundary_range(line, y, k + 1);
    }
}

proof fn lemma_last_boundary_bytes(line: Seq<char>, x: int, k: int)
    requires
        0 <= k <= line.len(),
        x >= 0,
    ensures
        prefix_bytes(line, last_boundary_le(line, x, k)) <= x,
        forall|j: int| last_boundary_le(line, x, k) < j <= k ==> prefix_bytes(line, j) > x,
    decreases k,
{
    if k > 0 && prefix_bytes(line, k) > x {
        lemma_last_boundary_bytes(line, x, k - 1);
    }
    if k == 0 {
        assert(line.take(0) =~= Seq::<char>::empty());
    }
}

proof fn lemma_first_boundary_bytes(line: Seq<char>, y: int, k: int)
    requires
        0 <= k <= line.len(),
    ensures
        first_boundary_ge(line, y, k) < line.len() ==> prefix_bytes(
            line,
            first_boundary_ge(line, y, k),
        ) >= y,
        forall|j: int| k <= j < first_boundary_ge(line, y, k) ==> prefix_bytes(line, j) < y,
    decreases line.len() - k,
{
    if k < line.len() && prefix_bytes(line, k) < y {
        lemma_first_boundary_bytes(line, y, k + 1);
    }
}

proof fn lemma_boundaries_ordered(line: Seq<char>, x: int, y: int)
    requires
        0 <= x,
        utf8_len(line) > 0,
        x < y || y == utf8_len(line),
        y <= utf8_len(line),
    ensures
        last_boundary_le(line, x, line.len() as int) <= first_boundary_ge(line, y, 0),
{
    let n = line.len() as int;
    let ks = last_boundary_le(line, x, n);
    let ke = first_boundary_ge(line, y, 0);
    lemma_last_boundary_range(line, x, n);
    lemma_first_boundary_range(line, y, 0);
    lemma_last_boundary_bytes(line, x, n);
    lemma_first_boundary_bytes(line, y, 0);
    assert(line.take(n) =~= line);
    if ks > ke {
        if ke < n {
            lemma_utf8_prefix_strict(line, ke, ks);
        } else {
            assert(ks <= n);
        }
    }
}

/// The byte offsets of every character boundary of `line`.
fn boundary_offsets(line: &[char]) -> (r: Vec<usize>)
    requires
        utf8_len(line@) <= usize::MAX,
    ensures
        r@.len() == line@.len() + 1,
        forall|k: int| 0 <= k <= line@.len() ==> r@[k] == prefix_bytes(line@, k),
{
    let mut r: Vec<usize> = Vec::new();
    r.push(0);
    assert(line@.take(0) =~= Seq::<char>::empty());
    let mut acc: usize = 0;
    let mut i: usize = 0;
    while i < line.len()
        invariant
            i <= line.len(),
            utf8_len(line@) <= usize::MAX,
            r@.len() == i + 1,
            acc == prefix_bytes(line@, i as int),
            forall|k: int| 0 <= k <= i ==> r@[k] == prefix_bytes(line@, k),
        decreases line.len() - i,
    {
        proof {
            lemma_utf8_len_take_next(line@, i as int);
            lemma_utf8_prefix_le(line@, i + 1);
        }
        acc = acc + char_width(line[i]);
        r.push(acc);
        i = i + 1;
    }
    r
}

/// The context shown for a violation at `byte_offset` within `line`.
pub fn context_snippet(line: &[char], byte_offset: usize) -> (s: String)
    requires
        utf8_len(line@) <= usize::MAX,
    ensures
        s@ == context_of(line@, byte_offset as int),
{
    let offsets = boundary_offsets(line);
    let n = line.len();
    let len = offsets[n];
    proof {
        assert(line@.take(n as int) =~= line@);
    }
    if len <= 120 {
        let mut out = String::new();
        push_chars_range(&mut out, line, 0, n);
        assert(out@ =~= line@);
        return out;
    }
    let sraw: usize = if byte_offset >= 60 {
        byte_offset - 60
    } else {
        0
    };
    let eraw: usize = if byte_offset <= len - 60 {
        byte_offset + 60
    } else {
        len
    };
    let mut ks: usize = n;
    while ks > 0 && offsets[ks] > sraw
        invariant
            ks <= n,
            n == line@.len(),
            offsets@.len() == n + 1,
            forall|k: int| 0 <= k <= n ==> offsets@[k] == prefix_bytes(line@, k),
            last_boundary_le(line@, sraw as int, n as int) == last_boundary_le(
                line@,
                sraw as int,
                ks as int,
            ),
        decreases ks,
    {
        ks = ks - 1;
    }
    let mut ke: usize = 0;
    while ke < n && offsets[ke] < eraw
        invariant
            ke <= n,
            n == line@.len(),
            offsets@.len() == n + 1,
            forall|k: int| 0 <= k <= n ==> offsets@[k] == prefix_bytes(line@, k),
            first_boundary_ge(line@, eraw as int, 0) == first_boundary_ge(
                line@,
                eraw as int,
                ke as int,
            ),
        decreases n - ke,
    {
        ke = ke + 1;
    }
    proof {
        lemma_boundaries_ordered(line@, sraw as int, eraw as int);
    }
    let mut out = String::new();
    if offsets[ks] > 0 {
        out.append("...");
    }
    push_chars_range(&mut out, line, ks, ke);
    if offsets[ke] < len {
        out.append("...");
    }
    out
}

/// The violations that one line of text gives, as positions and verdicts:
/// line number, column, byte offset, code point and verdict.
pub open spec fn line_hits(
    line: Seq<char>,
    ln: nat,
    k: int,
    deny_by_default: bool,
    ranges: Option<Seq<UnicodeRange>>,
    denied: Seq<u32>,
) -> Seq<(nat, nat, nat, u32, int)>
    decreases k,
{
    if k <= 0 || k > line.len() {
        seq![]
    } else {
        let prev = line_hits(line, ln, k - 1, deny_by_default, ranges, denied);
        match verdict(line[k - 1] as u32, deny_by_default, ranges, denied) {
            Some(kind) => prev.push(
                ((ln + 1) as nat, k as nat, prefix_bytes(line, k - 1), line[k - 1] as u32, kind),
            ),
            None => prev,
        }
    }
}

/// The violations that the first `m` lines give, in order.
pub open spec fn text_hits(
    lines: Seq<Seq<char>>,
    m: int,
    deny_by_default: bool,
    ranges: Option<Seq<UnicodeRange>>,
    denied: Seq<u32>,
) -> Seq<(nat, nat, nat, u32, int)>
    decreases m,
{
    if m <= 0 || m > lines.len() {
        seq![]
    } else {
        text_hits(lines, m - 1, deny_by_default, ranges, denied) + line_hits(
            lines[m - 1],
            (m - 1) as nat,
            lines[m - 1].len() as int,
            deny_by_default,
            ranges,
            denied,
        )
    }
}

/// The violations found in `content`: every character of every line (as
/// `str::lines` splits them) whose verdict is not empty, in text order.
pub open spec fn content_hits(
    content: Seq<char>,
    deny_by_default: bool,
    ranges: Option<Seq<UnicodeRange>>,
    denied: Seq<u32>,
) -> Seq<(nat, nat, nat, u32, int)> {
    let lines = str_lines(content);
    text_hits(lines, lines.len() as int, deny_by_default, ranges, denied)
}

/// `v` reports hit `h` of file `path`, whose line holds `line`.
pub open spec fn reports_hit(
    v: Violation,
    h: (nat, nat, nat, u32, int),
    path: Seq<char>,
    line: Seq<char>,
) -> bool {
    &&& v.file_path@ == path
    &&& v.line == h.0
    &&& v.column == h.1
    &&& v.byte_offset == h.2
    &&& v.code_point == h.3
    &&& is_display_char(v.character, h.3)
    &&& v.pattern_name@ == kind_name(h.4)
    &&& v.category == kind_category(h.4)
    &&& v.severity == kind_severity(h.4)
    &&& v.message@ == kind_description(h.4)
    &&& v.context@ == context_of(line, h.2 as int)
    &&& v.encoding == crate::scanner::encoding::DetectedEncoding::Utf8
}

/// `vs` reports exactly the hits `hs` of file `path` with lines `lines`.
pub open spec fn reports_hits(
    vs: Seq<Violation>,
    hs: Seq<(nat, nat, nat, u32, int)>,
    path: Seq<char>,
    lines: Seq<Seq<char>>,
) -> bool {
    &&& vs.len() == hs.len()
    &&& forall|i: int|
        0 <= i < vs.len() ==> reports_hit(#[trigger] vs[i], hs[i], path, lines[hs[i].0 - 1])
}

fn detect_in_line(
    line: &[char],
    ln: usize,
    file_path: &str,
    deny_by_default: bool,
    allowed_ranges: Option<&[UnicodeRange]>,
    denied_code_points: &[u32],
    out: &mut Vec<Violation>,
    Ghost(lines): Ghost<Seq<Seq<char>>>,
)
    requires
        utf8_len(line@) <= usize::MAX,
        ln < usize::MAX,
        ln < lines.len(),
        lines[ln as int] == line@,
    ensures
        final(out)@.len() == old(out)@.len() + line_hits(
            line@,
            ln as nat,
            line@.len() as int,
            deny_by_default,
            ranges_view(allowed_ranges),
            denied_code_points@,
        ).len(),
        forall|i: int| 0 <= i < old(out)@.len() ==> final(out)@[i] == old(out)@[i],
        forall|i: int|
            0 <= i < final(out)@.len() - old(out)@.len() ==> reports_hit(
                #[trigger] final(out)@[old(out)@.len() + i],
                line_hits(
                    line@,
                    ln as nat,
                    line@.len() as int,
                    deny_by_default,
                    ranges_view(allowed_ranges),
                    denied_code_points@,
                )[i],
                file_path@,
                lines[line_hits(
                    line@,
                    ln as nat,
                    line@.len() as int,
                    deny_by_default,
                    ranges_view(allowed_ranges),
                    denied_code_points@,
                )[i].0 - 1],
            ),
{
    let ghost rv = ranges_view(allowed_ranges);
    let ghost start = out@.len();
    let mut byte_offset: usize = 0;
    let mut k: usize = 0;
    assert(line@.take(0) =~= Seq::<char>::empty());
    while k < line.len()
        invariant
            k <= line.len(),
            utf8_len(line@) <= usize::MAX,
            ln < usize::MAX,
            ln < lines.len(),
            lines[ln as int] == line@,
            rv == ranges_view(allowed_ranges),
            start == old(out)@.len(),
            byte_offset == prefix_bytes(line@, k as int),
            out@.len() == start + line_hits(
                line@,
                ln as nat,
                k as int,
                deny_by_default,
                rv,
                denied_code_points@,
            ).len(),
            forall|i: int| 0 <= i < start ==> out@[i] == old(out)@[i],
            forall|i: int|
                0 <= i < out@.len() - start ==> reports_hit(
                    #[trigger] out@[start + i],
                    line_hits(line@, ln as nat, k as int, deny_by_default, rv, denied_code_points@)[i],
                    file_path@,
                    lines[line_hits(
                        line@,
                        ln as nat,
                        k as int,
                        deny_by_default,
                        rv,
                        denied_code_points@,
                    )[i].0 - 1],
                ),
        decreases line.len() - k,
    {
        let ch = line[k];
        let code_point = ch as u32;
        let ghost prev = line_hits(line@, ln as nat, k as int, deny_by_default, rv, denied_code_points@);
        let ghost next = line_hits(line@, ln as nat, k + 1, deny_by_default, rv, denied_code_points@);
        proof {
            lemma_utf8_len_take_next(line@, k as int);
            lemma_utf8_prefix_le(line@, k + 1);
            crate::text::lemma_utf8_len_at_least_len(line@);
        }
        match judge(code_point, deny_by_default, allowed_ranges, denied_code_points) {
            Some(kind) => {
                let v = Violation::new(
                    String::from_str(file_path),
                    ln + 1,
                    k + 1,
                    byte_offset,
                    code_point,
                    String::from_str(kind_name_str(kind)),
                    kind_category_of(kind),
                    kind_severity_of(kind),
                    String::from_str(kind_description_str(kind)),
                ).with_context(context_snippet(line, byte_offset));
                out.push(v);
                assert(next == prev.push(
                    ((ln + 1) as nat, (k + 1) as nat, byte_offset as nat, code_point, kind as int),
                ));
                assert forall|i: int| 0 <= i < out@.len() - start implies reports_hit(
                    #[trigger] out@[start + i],
                    next[i],
                    file_path@,
                    lines[next[i].0 - 1],
                ) by {
                    if i < prev.len() {
                        assert(next[i] == prev[i]);
                    }
                }
            },
            None => {
                assert(next == prev);
            },
        }
        byte_offset = byte_offset + char_width(ch);
        k = k + 1;
    }
}

/// The violations in `content`, with no allowlist and no deny list.
pub fn detect_in_string(content: &str, file_path: &str) -> (r: Vec<Violation>)
    requires
        utf8_len(content@) <= usize::MAX,
    ensures
        reports_hits(
            r@,
            content_hits(content@, false, None, seq![]),
            file_path@,
            str_lines(content@),
        ),
{
    let empty: Vec<u32> = Vec::new();
    assert(empty@ =~= Seq::<u32>::empty());
    detect_in_string_with_policy(content, file_path, false, None, empty.as_slice())
}

/// The violations in `content`: every character of every line whose verdict
/// is not empty — a built-in pattern, the deny list, or (under
/// deny-by-default) a miss of the allowlist — in text order, each with its
/// line, column, byte offset and context.
pub fn detect_in_string_with_policy(
    content: &str,
    file_path: &str,
    deny_by_default: bool,
    allowed_ranges: Option<&[UnicodeRange]>,
    denied_code_points: &[u32],
) -> (r: Vec<Violation>)
    requires
        utf8_len(content@) <= usize::MAX,
    ensures
        reports_hits(
            r@,
            content_hits(content@, deny_by_default, ranges_view(allowed_ranges), denied_code_points@),
            file_path@,
            str_lines(content@),
        ),
{
    let ghost rv = ranges_view(allowed_ranges);
    let lines = split_lines(content);
    let ghost ls = str_lines(content@);
    proof {
        lemma_lines_bounded(content@);
        crate::text::lemma_utf8_len_at_least_len(content@);
    }
    let mut out: Vec<Violation> = Vec::new();
    let mut m: usize = 0;
    while m < lines.len()
        invariant
            m <= lines.len(),
            chars_view(lines@) == ls,
            ls == str_lines(content@),
            ls.len() <= content@.len(),
            content@.len() <= utf8_len(content@),
            utf8_len(content@) <= usize::MAX,
            forall|j: int| 0 <= j < ls.len() ==> utf8_len(#[trigger] ls[j]) <= utf8_len(content@),
            rv == ranges_view(allowed_ranges),
            reports_hits(
                out@,
                text_hits(ls, m as int, deny_by_default, rv, denied_code_points@),
                file_path@,
                ls,
            ),
        decreases lines.len() - m,
    {
        let ghost before = out@;
        let ghost prev = text_hits(ls, m as int, deny_by_default, rv, denied_code_points@);
        let ghost lh = line_hits(ls[m as int], m as nat, ls[m as int].len() as int, deny_by_default, rv, denied_code_points@);
        assert(lines@[m as int]@ == ls[m as int]);
        detect_in_line(
            lines[m].as_slice(),
            m,
            file_path,
            deny_by_default,
            allowed_ranges,
            denied_code_points,
            &mut out,
            Ghost(ls),
        );
        let ghost next = text_hits(ls, m + 1, deny_by_default, rv, denied_code_points@);
        assert(next == prev + lh);
        assert forall|i: int| 0 <= i < out@.len() implies reports_hit(
            #[trigger] out@[i],
            next[i],
            file_path@,
            ls[next[i].0 - 1],
        ) by {
            if i < before.len() {
                assert(out@[i] == before[i]);
                assert(next[i] == prev[i]);
            } else {
                let t = i - before.len();
                assert(out@[before.len() + t] == out@[i]);
                assert(next[i] == lh[t]);
            }
        }
        m = m + 1;
    }
    out
}

/// A hit of a scan without policy: a position from line 1 and column 1 on,
/// a scalar value, and the built-in pattern that holds it.
pub open spec fn builtin_hit(h: (nat, nat, nat, u32, int)) -> bool {
    &&& h.0 >= 1
    &&& h.1 >= 1
    &&& h.3 <= 0x10FFFF
    &&& pattern_index(h.3) == Some(h.4)
}

proof fn lemma_line_hits_builtin(line: Seq<char>, ln: nat, k: int)
    ensures
        forall|i: int| 0 <= i < line_hits(line, ln, k, false, None, seq![]).len() ==> builtin_hit(
            #[trigger] line_hits(line, ln, k, false, None, seq![])[i],
        ),
    decreases k,
{
    if 0 < k <= line.len() {
        lemma_line_hits_builtin(line, ln, k - 1);
        let cp = line[k - 1] as u32;
        vstd::utf8::char_is_scalar(line[k - 1]);
        let none: Seq<u32> = seq![];
        assert(!none.contains(cp));
        let prev = line_hits(line, ln, k - 1, false, None, none);
        match pattern_index(cp) {
            Some(kind) => {
                let h = ((ln + 1) as nat, k as nat, prefix_bytes(line, k - 1), cp, kind);
                assert(line_hits(line, ln, k, false, None, none) == prev.push(h));
                assert forall|i: int| 0 <= i < prev.push(h).len() implies builtin_hit(#[trigger] prev.push(h)[i]) by {
                    if i < prev.len() {
                        assert(prev.push(h)[i] == prev[i]);
                    }
                }
            },
            None => {
                assert(verdict(cp, false, None, none) is None);
            },
        }
    }
}

proof fn lemma_text_hits_builtin(lines: Seq<Seq<char>>, m: int)
    ensures
        forall|i: int| 0 <= i < text_hits(lines, m, false, None, seq![]).len() ==> builtin_hit(
            #[trigger] text_hits(lines, m, false, None, seq![])[i],
        ),
    decreases m,
{
    if 0 < m <= lines.len() {
        lemma_text_hits_builtin(lines, m - 1);
        let a = text_hits(lines, m - 1, false, None, seq![]);
        let b = line_hits(lines[m - 1], (m - 1) as nat, lines[m - 1].len() as int, false, None, seq![]);
        lemma_line_hits_builtin(lines[m - 1], (m - 1) as nat, lines[m - 1].len() as int);
        assert forall|i: int| 0 <= i < (a + b).len() implies builtin_hit(#[trigger] (a + b)[i]) by {
            if i < a.len() {
                assert((a + b)[i] == a[i]);
            } else {
                assert((a + b)[i] == b[i - a.len()]);
            }
        }
    }
}

/// Every violation that a scan without policy reports is in the scanned file,
/// at line 1 or later and column 1 or later, on a scalar value that a
/// built-in pattern holds, and is reported under that pattern.
pub proof fn default_scan_reports_builtin_patterns(vs: Seq<Violation>, content: Seq<char>, path: Seq<char>)
    requires
        reports_hits(vs, content_hits(content, false, None, seq![]), path, str_lines(content)),
    ensures
        forall|i: int| 0 <= i < vs.len() ==> {
            let v = #[trigger] vs[i];
            &&& v.file_path@ == path
            &&& v.line >= 1
            &&& v.column >= 1
            &&& v.code_point <= 0x10FFFF
            &&& pattern_index(v.code_point) matches Some(k) && v.pattern_name@ == pattern_name(k)
                && v.category == pattern_category(k) && v.severity == pattern_severity(k)
        },
{
    let lines = str_lines(content);
    lemma_text_hits_builtin(lines, lines.len() as int);
    let hs = content_hits(content, false, None, seq![]);
    assert forall|i: int| 0 <= i < vs.len() implies {
        let v = #[trigger] vs[i];
        &&& v.file_path@ == path
        &&& v.line >= 1
        &&& v.column >= 1
        &&& v.code_point <= 0x10FFFF
        &&& pattern_index(v.code_point) matches Some(k) && v.pattern_name@ == pattern_name(k)
            && v.category == pattern_category(k) && v.severity == pattern_severity(k)
    } by {
        assert(builtin_hit(hs[i]));
        crate::unicode::malicious::lemma_pattern_index_range(vs[i].code_point);
    }
}

/// Hit `h` reports character `j` of `content`: its code point, judged as
/// the hit says, on line 1 + the line feeds before it, in column 1 + the
/// characters since the last of them, at the byte offset those characters
/// take in UTF-8.
pub open spec fn hit_stands_at(
    content: Seq<char>,
    deny_by_default: bool,
    ranges: Option<Seq<UnicodeRange>>,
    denied: Seq<u32>,
    h: (nat, nat, nat, u32, int),
    j: int,
) -> bool {
    &&& 0 <= j < content.len()
    &&& h.3 == content[j] as u32
    &&& verdict(h.3, deny_by_default, ranges, denied) == Some(h.4)
    &&& h.0 == 1 + newlines_before(content, j)
    &&& h.1 == 1 + column_before(content, j)
    &&& h.2 == utf8_len(content.subrange(j - column_before(content, j), j))
}

/// Hit `h` reports some character of `content`.
pub open spec fn hit_in_text(
    content: Seq<char>,
    deny_by_default: bool,
    ranges: Option<Seq<UnicodeRange>>,
    denied: Seq<u32>,
    h: (nat, nat, nat, u32, int),
) -> bool {
    exists|j: int| hit_stands_at(content, deny_by_default, ranges, denied, h, j)
}

proof fn lemma_line_hits_stand(
    content: Seq<char>,
    line: Seq<char>,
    m: int,
    st: int,
    k: int,
    deny_by_default: bool,
    ranges: Option<Seq<UnicodeRange>>,
    denied: Seq<u32>,
)
    requires
        line_at(content, line, m, st),
        !line.contains('\n'),
        0 <= m,
        k <= line.len(),
    ensures
        forall|q: int| 0 <= q < line_hits(line, m as nat, k, deny_by_default, ranges, denied).len() ==> hit_in_text(
            content,
            deny_by_default,
            ranges,
            denied,
            #[trigger] line_hits(line, m as nat, k, deny_by_default, ranges, denied)[q],
        ),
    decreases k,
{
    if 0 < k {
        lemma_line_hits_stand(content, line, m, st, k - 1, deny_by_default, ranges, denied);
        let prev = line_hits(line, m as nat, k - 1, deny_by_default, ranges, denied);
        let cur = line_hits(line, m as nat, k, deny_by_default, ranges, denied);
        let cp = line[k - 1] as u32;
        match verdict(cp, deny_by_default, ranges, denied) {
            Some(kind) => {
                let h = ((m + 1) as nat, k as nat, prefix_bytes(line, k - 1), cp, kind);
                assert(cur == prev.push(h));
                let j = st + k - 1;
                lemma_line_at_inside(content, line, m, st, k - 1);
                assert(content.subrange(j - column_before(content, j), j) =~= line.take(k - 1)) by {
                    assert(content.subrange(st, st + line.len()) == line);
                    assert forall|x: int| 0 <= x < k - 1 implies content.subrange(st, j)[x] == line.take(k - 1)[x] by {
                        assert(content.subrange(st, st + line.len())[x] == content[st + x]);
                    }
                }
                assert(hit_stands_at(content, deny_by_default, ranges, denied, h, j));
                assert forall|q: int| 0 <= q < cur.len() implies hit_in_text(content, deny_by_default, ranges, denied, #[trigger] cur[q]) by {
                    if q < prev.len() {
                        assert(cur[q] == prev[q]);
                    } else {
                        assert(cur[q] == h);
                    }
                }
            },
            None => {
                assert(cur == prev);
            },
        }
    }
}

proof fn lemma_text_hits_stand(
    content: Seq<char>,
    mm: int,
    deny_by_default: bool,
    ranges: Option<Seq<UnicodeRange>>,
    denied: Seq<u32>,
)
    requires
        0 <= mm <= str_lines(content).len(),
    ensures
        forall|q: int| 0 <= q < text_hits(str_lines(content), mm, deny_by_default, ranges, denied).len() ==> hit_in_text(
            content,
            deny_by_default,
            ranges,
            denied,
            #[trigger] text_hits(str_lines(content), mm, deny_by_default, ranges, denied)[q],
        ),
    decreases mm,
{
    if mm > 0 {
        let ls = str_lines(content);
        lemma_text_hits_stand(content, mm - 1, deny_by_default, ranges, denied);
        lemma_str_lines_placed(content);
        let line = ls[mm - 1];
        assert(line_placed(content, line, mm - 1));
        let st = choose|st: int| #[trigger] line_at(content, line, mm - 1, st);
        lemma_line_hits_stand(content, line, mm - 1, st, line.len() as int, deny_by_default, ranges, denied);
        let a = text_hits(ls, mm - 1, deny_by_default, ranges, denied);
        let b = line_hits(line, (mm - 1) as nat, line.len() as int, deny_by_default, ranges, denied);
        assert(text_hits(ls, mm, deny_by_default, ranges, denied) == a + b);
        assert forall|q: int| 0 <= q < (a + b).len() implies hit_in_text(content, deny_by_default, ranges, denied, #[trigger] (a + b)[q]) by {
            if q < a.len() {
                assert((a + b)[q] == a[q]);
            } else {
                assert((a + b)[q] == b[q - a.len()]);
            }
        }
    }
}

/// Every hit the detector reports stands at a character of the content:
/// the character's code point, judged as the hit says, on line 1 + the line
/// feeds before it (empty lines counted), in column 1 + the characters since
/// the last of them, at the byte offset those characters take in UTF-8.
pub proof fn detected_hits_stand_at_their_characters(
    content: Seq<char>,
    deny_by_default: bool,
    ranges: Option<Seq<UnicodeRange>>,
    denied: Seq<u32>,
)
    ensures
        forall|q: int| 0 <= q < content_hits(content, deny_by_default, ranges, denied).len() ==> hit_in_text(
            content,
            deny_by_default,
            ranges,
            denied,
            #[trigger] content_hits(content, deny_by_default, ranges, denied)[q],
        ),
{
    lemma_text_hits_stand(content, str_lines(content).len() as int, deny_by_default, ranges, denied);
}

/// Some hit of `hs` reports character `j` of `content`.
pub open spec fn char_detected(
    content: Seq<char>,
    deny_by_default: bool,
    ranges: Option<Seq<UnicodeRange>>,
    denied: Seq<u32>,
    hs: Seq<(nat, nat, nat, u32, int)>,
    j: int,
) -> bool {
    exists|q: int| 0 <= q < hs.len() && hit_stands_at(content, deny_by_default, ranges, denied, hs[q], j)
}

proof fn lemma_line_hits_complete(
    content: Seq<char>,
    line: Seq<char>,
    m: int,
    st: int,
    k: int,
    deny_by_default: bool,
    ranges: Option<Seq<UnicodeRange>>,
    denied: Seq<u32>,
)
    requires
        line_at(content, line, m, st),
        !line.contains('\n'),
        0 <= m,
        0 <= k <= line.len(),
    ensures
        forall|x: int| 0 <= x < k && verdict(line[x] as u32, deny_by_default, ranges, denied) is Some ==> #[trigger] char_detected(
            content,
            deny_by_default,
            ranges,
            denied,
            line_hits(line, m as nat, k, deny_by_default, ranges, denied),
            st + x,
        ),
    decreases k,
{
    if 0 < k {
        lemma_line_hits_complete(content, line, m, st, k - 1, deny_by_default, ranges, denied);
        let prev = line_hits(line, m as nat, k - 1, deny_by_default, ranges, denied);
        let cur = line_hits(line, m as nat, k, deny_by_default, ranges, denied);
        let cp = line[k - 1] as u32;
        assert forall|x: int| 0 <= x < k && verdict(line[x] as u32, deny_by_default, ranges, denied) is Some implies #[trigger] char_detected(
            content,
            deny_by_default,
            ranges,
            denied,
            cur,
            st + x,
        ) by {
            if x < k - 1 {
                assert(char_detected(content, deny_by_default, ranges, denied, prev, st + x));
                let q = choose|q: int| 0 <= q < prev.len() && hit_stands_at(content, deny_by_default, ranges, denied, prev[q], st + x);
                if verdict(cp, deny_by_default, ranges, denied) is Some {
                    assert(cur[q] == prev[q]);
                }
                assert(hit_stands_at(content, deny_by_default, ranges, denied, cur[q], st + x));
            } else {
                let kind = verdict(cp, deny_by_default, ranges, denied)->0;
                let h = ((m + 1) as nat, k as nat, prefix_bytes(line, k - 1), cp, kind);
                assert(cur == prev.push(h));
                let j = st + k - 1;
                lemma_line_at_inside(content, line, m, st, k - 1);
                assert(content.subrange(j - column_before(content, j), j) =~= line.take(k - 1)) by {
                    assert(content.subrange(st, st + line.len()) == line);
                    assert forall|y: int| 0 <= y < k - 1 implies content.subrange(st, j)[y] == line.take(k - 1)[y] by {
                        assert(content.subrange(st, st + line.len())[y] == content[st + y]);
                    }
                }
                assert(hit_stands_at(content, deny_by_default, ranges, denied, cur[prev.len() as int], j));
            }
        }
    }
}

proof fn lemma_text_hits_complete(
    content: Seq<char>,
    mm: int,
    m: int,
    st: int,
    x: int,
    deny_by_default: bool,
    ranges: Option<Seq<UnicodeRange>>,
    denied: Seq<u32>,
)
    requires
        0 <= m < mm <= str_lines(content).len(),
        line_at(content, str_lines(content)[m], m, st),
        0 <= x < str_lines(content)[m].len(),
        verdict(str_lines(content)[m][x] as u32, deny_by_default, ranges, denied) is Some,
    ensures
        char_detected(content, deny_by_default, ranges, denied, text_hits(str_lines(content), mm, deny_by_default, ranges, denied), st + x),
    decreases mm,
{
    let ls = str_lines(content);
    let a = text_hits(ls, mm - 1, deny_by_default, ranges, denied);
    let b = line_hits(ls[mm - 1], (mm - 1) as nat, ls[mm - 1].len() as int, deny_by_default, ranges, denied);
    assert(text_hits(ls, mm, deny_by_default, ranges, denied) == a + b);
    if m < mm - 1 {
        lemma_text_hits_complete(content, mm - 1, m, st, x, deny_by_default, ranges, denied);
        let q = choose|q: int| 0 <= q < a.len() && hit_stands_at(content, deny_by_default, ranges, denied, a[q], st + x);
        assert((a + b)[q] == a[q]);
    } else {
        lemma_str_lines_placed(content);
        lemma_line_hits_complete(content, ls[m], m, st, ls[m].len() as int, deny_by_default, ranges, denied);
        assert(char_detected(content, deny_by_default, ranges, denied, b, st + x));
        let q = choose|q: int| 0 <= q < b.len() && hit_stands_at(content, deny_by_default, ranges, denied, b[q], st + x);
        assert((a + b)[a.len() + q] == b[q]);
    }
}

/// Every character of the content that the verdict flags is reported,
/// except line feeds and the carriage return right before one, which end
/// lines: the detector misses no flagged character on any line, empty lines
/// counted.
pub proof fn detector_reports_every_flagged_character(
    content: Seq<char>,
    deny_by_default: bool,
    ranges: Option<Seq<UnicodeRange>>,
    denied: Seq<u32>,
)
    ensures
        forall|j: int| text_char(content, j) && verdict(content[j] as u32, deny_by_default, ranges, denied) is Some ==> #[trigger] char_detected(
            content,
            deny_by_default,
            ranges,
            denied,
            content_hits(content, deny_by_default, ranges, denied),
            j,
        ),
{
    let ls = str_lines(content);
    lemma_text_chars_on_lines(content);
    assert forall|j: int| text_char(content, j) && verdict(content[j] as u32, deny_by_default, ranges, denied) is Some implies #[trigger] char_detected(
        content,
        deny_by_default,
        ranges,
        denied,
        content_hits(content, deny_by_default, ranges, denied),
        j,
    ) by {
        assert(text_char(content, j));
        assert(in_some_line(content, ls, j));
        let (m, st) = choose|m: int, st: int| 0 <= m < ls.len() && #[trigger] line_at(content, ls[m], m, st) && st <= j < st + ls[m].len();
        assert(content.subrange(st, st + ls[m].len())[j - st] == content[j]);
        lemma_text_hits_complete(content, ls.len() as int, m, st, j - st, deny_by_default, ranges, denied);
    }
}

} // verus!

