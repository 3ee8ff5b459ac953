//! Scanning one file's bytes: decoding them, finding the violations under
//! the configuration, and dropping the ones the allowlist covers.

use vstd::prelude::*;
use crate::config::presets::ranges_view as range_tuples;
use crate::config::rules::{find_matching_rule, first_match, lemma_first_match_from, list_holds};
use crate::config::{config_ranges, Configuration};
use crate::error::Error;
use crate::report::violation::Violation;
use crate::scanner::encoding::{
    decode_as, decoding_as, detect_decode_with_encoding, detect_decoding, detect_utf16_or_utf32,
    is_binary, looks_binary, utf16_or_utf32_hint, DetectedEncoding,
};
use crate::scanner::unicode_detector::{
    content_hits, detect_in_string_with_policy, in_some_range, line_hits, ranges_contain, ranges_view,
    reports_hit, reports_hits, text_hits, verdict, allowed_by_policy,
};
use crate::text::{str_lines, utf8_len_fits};
use crate::unicode::ranges::{in_range, UnicodeRange};

verus! {

/// Bidirectional marks and controls, which no allowlist excuses: U+061C,
/// U+200E-U+200F, U+202A-U+202E and U+2066-U+2069.
pub open spec fn always_deny(cp: u32) -> bool {
    cp == 0x061C || (0x200E <= cp && cp <= 0x200F) || (0x202A <= cp && cp <= 0x202E) || (0x2066 <= cp
        && cp <= 0x2069)
}

/// Whether a code point is one that no allowlist excuses.
pub fn is_always_deny(code_point: u32) -> (b: bool)
    ensures
        b == always_deny(code_point),
{
    code_point == 0x061C || (0x200E <= code_point && code_point <= 0x200F) || (0x202A <= code_point
        && code_point <= 0x202E) || (0x2066 <= code_point && code_point <= 0x2069)
}

/// A violation at `cp` stays: bidi controls and denied code points always,
/// others unless the allowlist holds them.
pub open spec fn stays(cp: u32, allowed: Option<Seq<UnicodeRange>>, denied: Seq<u32>) -> bool {
    always_deny(cp) || denied.contains(cp) || !(match allowed {
        Some(rs) => in_some_range(rs, cp),
        None => false,
    })
}

/// The violations that stay, in their order.
pub open spec fn staying(vs: Seq<Violation>, allowed: Option<Seq<UnicodeRange>>, denied: Seq<u32>) -> Seq<Violation>
    decreases vs.len(),
{
    if vs.len() == 0 {
        vs
    } else if stays(vs.last().code_point, allowed, denied) {
        staying(vs.drop_last(), allowed, denied).push(vs.last())
    } else {
        staying(vs.drop_last(), allowed, denied)
    }
}

/// The hits that stay, in their order.
pub open spec fn staying_hits(
    hs: Seq<(nat, nat, nat, u32, int)>,
    allowed: Option<Seq<UnicodeRange>>,
    denied: Seq<u32>,
) -> Seq<(nat, nat, nat, u32, int)>
    decreases hs.len(),
{
    if hs.len() == 0 {
        hs
    } else if stays(hs.last().3, allowed, denied) {
        staying_hits(hs.drop_last(), allowed, denied).push(hs.last())
    } else {
        staying_hits(hs.drop_last(), allowed, denied)
    }
}

/// Drop the violations that the allowlist covers, unless they are bidi
/// controls or explicitly denied.
pub fn apply_config_rules(
    violations: Vec<Violation>,
    allowed_ranges: Option<&[UnicodeRange]>,
    denied_code_points: &[u32],
) -> (r: Vec<Violation>)
    ensures
        r@ == staying(violations@, ranges_view(allowed_ranges), denied_code_points@),
{
    let ghost all = violations@;
    let ghost rv = ranges_view(allowed_ranges);
    let mut out: Vec<Violation> = Vec::new();
    for v in it: violations.into_iter()
        invariant
            it.seq() == all,
            rv == ranges_view(allowed_ranges),
            out@ == staying(all.take(it.index() as int), rv, denied_code_points@),
    {
        proof {
            assert(all.take(it.index() + 1).drop_last() =~= all.take(it.index() as int));
        }
        let covered = match allowed_ranges {
            Some(rs) => ranges_contain(rs, v.code_point),
            None => false,
        };
        if is_always_deny(v.code_point) || list_holds(denied_code_points, v.code_point) || !covered {
            out.push(v);
        }
    }
    assert(all.take(all.len() as int) =~= all);
    out
}

proof fn lemma_staying_reports(
    vs: Seq<Violation>,
    hs: Seq<(nat, nat, nat, u32, int)>,
    path: Seq<char>,
    lines: Seq<Seq<char>>,
    allowed: Option<Seq<UnicodeRange>>,
    denied: Seq<u32>,
)
    requires
        reports_hits(vs, hs, path, lines),
    ensures
        reports_hits(staying(vs, allowed, denied), staying_hits(hs, allowed, denied), path, lines),
    decreases vs.len(),
{
    if vs.len() > 0 {
        let pv = vs.drop_last();
        let ph = hs.drop_last();
        assert forall|i: int| 0 <= i < pv.len() implies reports_hit(#[trigger] pv[i], ph[i], path, lines[ph[i].0 - 1]) by {
            assert(pv[i] == vs[i]);
            assert(ph[i] == hs[i]);
        }
        lemma_staying_reports(pv, ph, path, lines, allowed, denied);
        assert(reports_hit(vs[vs.len() - 1], hs[hs.len() - 1], path, lines[hs[hs.len() - 1].0 - 1]));
        let sv = staying(pv, allowed, denied);
        let sh = staying_hits(ph, allowed, denied);
        if stays(vs.last().code_point, allowed, denied) {
            assert forall|i: int| 0 <= i < sv.len() + 1 implies reports_hit(
                #[trigger] sv.push(vs.last())[i],
                sh.push(hs.last())[i],
                path,
                lines[sh.push(hs.last())[i].0 - 1],
            ) by {
                if i < sv.len() {
                    assert(sv.push(vs.last())[i] == sv[i]);
                    assert(sh.push(hs.last())[i] == sh[i]);
                }
            }
        }
    }
}

/// Both allowlists are absent, or both present and holding the same code
/// points.
pub open spec fn same_cover(a: Option<Seq<UnicodeRange>>, b: Option<Seq<UnicodeRange>>) -> bool {
    match (a, b) {
        (None, None) => true,
        (Some(x), Some(y)) => forall|cp: u32| in_some_range(x, cp) == in_some_range(y, cp),
        _ => false,
    }
}

proof fn lemma_line_hits_cover(
    line: Seq<char>,
    ln: nat,
    k: int,
    d: bool,
    a: Option<Seq<UnicodeRange>>,
    b: Option<Seq<UnicodeRange>>,
    denied: Seq<u32>,
)
    requires
        same_cover(a, b),
    ensures
        line_hits(line, ln, k, d, a, denied) == line_hits(line, ln, k, d, b, denied),
    decreases k,
{
    if k > 0 && k <= line.len() {
        lemma_line_hits_cover(line, ln, k - 1, d, a, b, denied);
        let cp = line[k - 1] as u32;
        assert(allowed_by_policy(cp, a) == allowed_by_policy(cp, b));
        assert(verdict(cp, d, a, denied) == verdict(cp, d, b, denied));
    }
}

proof fn lemma_text_hits_cover(
    lines: Seq<Seq<char>>,
    m: int,
    d: bool,
    a: Option<Seq<UnicodeRange>>,
    b: Option<Seq<UnicodeRange>>,
    denied: Seq<u32>,
)
    requires
        same_cover(a, b),
    ensures
        text_hits(lines, m, d, a, denied) == text_hits(lines, m, d, b, denied),
    decreases m,
{
    if m > 0 && m <= lines.len() {
        lemma_text_hits_cover(lines, m - 1, d, a, b, denied);
        lemma_line_hits_cover(lines[m - 1], (m - 1) as nat, lines[m - 1].len() as int, d, a, b, denied);
    }
}

proof fn lemma_staying_cover(
    hs: Seq<(nat, nat, nat, u32, int)>,
    a: Option<Seq<UnicodeRange>>,
    b: Option<Seq<UnicodeRange>>,
    denied: Seq<u32>,
)
    requires
        same_cover(a, b),
    ensures
        staying_hits(hs, a, denied) == staying_hits(hs, b, denied),
    decreases hs.len(),
{
    if hs.len() > 0 {
        lemma_staying_cover(hs.drop_last(), a, b, denied);
        assert(stays(hs.last().3, a, denied) == stays(hs.last().3, b, denied));
    }
}

/// Ranges with the given bounds and no descriptions.
pub open spec fn plain_ranges(t: Seq<(u32, u32, Option<Seq<char>>)>) -> Seq<UnicodeRange> {
    t.map_values(|x: (u32, u32, Option<Seq<char>>)| UnicodeRange { start: x.0, end: x.1, description: None })
}

proof fn lemma_plain_cover(rs: Seq<UnicodeRange>)
    ensures
        same_cover(Some(rs), Some(plain_ranges(range_tuples(rs)))),
{
    let p = plain_ranges(range_tuples(rs));
    assert forall|cp: u32| in_some_range(rs, cp) == in_some_range(p, cp) by {
        if in_some_range(rs, cp) {
            let j = choose|j: int| 0 <= j < rs.len() && in_range(rs[j].start, rs[j].end, cp);
            assert(p[j].start == rs[j].start && p[j].end == rs[j].end);
        }
        if in_some_range(p, cp) {
            let j = choose|j: int| 0 <= j < p.len() && in_range(p[j].start, p[j].end, cp);
            assert(p[j].start == rs[j].start && p[j].end == rs[j].end);
        }
    }
}

/// The allowlist of a file: the configured ranges, by their bounds.
pub open spec fn file_allowlist(c: Configuration, path: Seq<char>) -> Option<Seq<UnicodeRange>> {
    match config_ranges(c, path) {
        Some(t) => Some(plain_ranges(t)),
        None => None,
    }
}

/// The code points the first matching rule denies.
pub open spec fn file_denied(c: Configuration, path: Seq<char>) -> Seq<u32> {
    match first_match(c.file_rules@, path) {
        Some(i) => c.file_rules@[i].denied_code_points@,
        None => Seq::empty(),
    }
}

/// The hits of a file's text under the configuration, once the allowlist
/// has excused what it covers.
pub open spec fn scan_hits(c: Configuration, path: Seq<char>, content: Seq<char>) -> Seq<(nat, nat, nat, u32, int)> {
    let allowed = file_allowlist(c, path);
    let denied = file_denied(c, path);
    staying_hits(content_hits(content, c.deny_by_default, allowed, denied), allowed, denied)
}

/// `vs` reports the hits `hs`, each read in encoding `enc`.
pub open spec fn scanned(
    vs: Seq<Violation>,
    hs: Seq<(nat, nat, nat, u32, int)>,
    path: Seq<char>,
    lines: Seq<Seq<char>>,
    enc: DetectedEncoding,
) -> bool {
    &&& vs.len() == hs.len()
    &&& forall|i: int|
        0 <= i < vs.len() ==> reports_hit(
            (Violation { encoding: DetectedEncoding::Utf8, ..#[trigger] vs[i] }),
            hs[i],
            path,
            lines[hs[i].0 - 1],
        ) && vs[i].encoding == enc
}

/// How a file's bytes are read: with an encoding given, decoded in it;
/// otherwise skipped as binary (`None`) unless a UTF-16 or UTF-32 layout is
/// likely, then detected and decoded, a failure counting as binary where
/// only the layout hinted at UTF-16 or UTF-32 and the bytes look binary.
pub open spec fn decoded(b: Seq<u8>, encoding_override: Option<DetectedEncoding>) -> Option<Result<(Seq<char>, DetectedEncoding), Seq<char>>> {
    match encoding_override {
        Some(e) => match decoding_as(e, b, "Invalid UTF-8: "@) {
            Ok(t) => Some(Ok((t, e))),
            Err(m) => Some(Err(m)),
        },
        None => {
            let hint = utf16_or_utf32_hint(b);
            if hint is None && looks_binary(b) {
                None
            } else {
                match detect_decoding(b) {
                    Ok(x) => Some(Ok(x)),
                    Err(m) => if hint is Some && looks_binary(b) {
                        None
                    } else {
                        Some(Err(m))
                    },
                }
            }
        },
    }
}

/// Decode bytes in the given encoding.
pub fn decode_with_override(bytes: &[u8], encoding: DetectedEncoding) -> (r: Result<String, Error>)
    ensures
        match decoding_as(encoding, bytes@, "Invalid UTF-8: "@) {
            Ok(t) => r matches Ok(s) && s@ == t,
            Err(m) => r matches Err(Error::Encoding(x)) && x@ == m,
        },
{
    decode_as(bytes, encoding, "Invalid UTF-8: ")
}

fn decode_for_scan(bytes: &[u8], encoding_override: Option<DetectedEncoding>) -> (r: Option<Result<(String, DetectedEncoding), Error>>)
    ensures
        match decoded(bytes@, encoding_override) {
            None => r is None,
            Some(Ok((t, e))) => r matches Some(Ok((s, e2))) && s@ == t && e2 == e,
            Some(Err(m)) => r matches Some(Err(Error::Encoding(x))) && x@ == m,
        },
{
    match encoding_override {
        Some(enc) => match decode_with_override(bytes, enc) {
            Ok(s) => Some(Ok((s, enc))),
            Err(e) => Some(Err(e)),
        },
        None => {
            let hint = detect_utf16_or_utf32(bytes);
            if hint.is_none() && is_binary(bytes) {
                return None;
            }
            match detect_decode_with_encoding(bytes) {
                Ok(v) => Some(Ok(v)),
                Err(e) => {
                    if hint.is_some() && is_binary(bytes) {
                        return None;
                    }
                    Some(Err(e))
                },
            }
        },
    }
}

/// Scan a file's bytes under a configuration: decode them (in the given
/// encoding, else detected; binary files give nothing), find the
/// violations with the file's allowlist and deny list, drop those the
/// allowlist excuses, and mark each with the encoding.
pub fn scan_file_with_config(
    path: &str,
    bytes: &[u8],
    config: &Configuration,
    encoding_override: Option<DetectedEncoding>,
) -> (r: Result<Vec<Violation>, Error>)
    ensures
        match decoded(bytes@, encoding_override) {
            None => r matches Ok(vs) && vs@.len() == 0,
            Some(Err(m)) => r matches Err(Error::Encoding(x)) && x@ == m,
            Some(Ok((t, enc))) => r matches Ok(vs) && scanned(vs@, scan_hits(*config, path@, t), path@, str_lines(t), enc),
        },
{
    let (content, encoding) = match decode_for_scan(bytes, encoding_override) {
        None => return Ok(Vec::new()),
        Some(Err(e)) => return Err(e),
        Some(Ok(v)) => v,
    };
    proof {
        lemma_first_match_from(config.file_rules@, path@, 0);
    }
    let empty: Vec<u32> = Vec::new();
    let denied: &[u32] = match find_matching_rule(config.file_rules.as_slice(), path) {
        Some(rule) => rule.denied_code_points.as_slice(),
        None => empty.as_slice(),
    };
    assert(denied@ == file_denied(*config, path@));
    let allowed = config.get_allowed_ranges(path);
    let allowed_slice: Option<&[UnicodeRange]> = match &allowed {
        Some(v) => Some(v.as_slice()),
        None => None,
    };
    let ghost av = ranges_view(allowed_slice);
    proof {
        match &allowed {
            Some(v) => {
                lemma_plain_cover(v@);
                assert(file_allowlist(*config, path@) == Some(plain_ranges(range_tuples(v@))));
            },
            None => {},
        }
        assert(same_cover(av, file_allowlist(*config, path@)));
    }
    utf8_len_fits(content.as_str());
    let found = detect_in_string_with_policy(
        content.as_str(),
        path,
        config.deny_by_default,
        allowed_slice,
        denied,
    );
    let ghost lines = str_lines(content@);
    let ghost hits = content_hits(content@, config.deny_by_default, av, denied@);
    let kept = apply_config_rules(found, allowed_slice, denied);
    proof {
        lemma_staying_reports(found@, hits, path@, lines, av, denied@);
        lemma_text_hits_cover(lines, lines.len() as int, config.deny_by_default, av, file_allowlist(*config, path@), denied@);
        lemma_staying_cover(content_hits(content@, config.deny_by_default, file_allowlist(*config, path@), denied@), av, file_allowlist(*config, path@), denied@);
    }
    let ghost kh = scan_hits(*config, path@, content@);
    let ghost kv = kept@;
    assert(reports_hits(kv, kh, path@, lines));
    let mut out: Vec<Violation> = Vec::new();
    for v in it: kept.into_iter()
        invariant
            it.seq() == kv,
            reports_hits(kv, kh, path@, lines),
            out@.len() == it.index(),
            forall|i: int| 0 <= i < it.index() ==> (#[trigger] out@[i]) == (Violation { encoding: encoding, ..kv[i] }),
    {
        out.push(v.with_encoding(encoding));
    }
    assert forall|i: int| 0 <= i < out@.len() implies reports_hit(
        (Violation { encoding: DetectedEncoding::Utf8, ..#[trigger] out@[i] }),
        kh[i],
        path@,
        lines[kh[i].0 - 1],
    ) && out@[i].encoding == encoding by {
        assert((Violation { encoding: DetectedEncoding::Utf8, ..out@[i] }) == kv[i]);
    }
    Ok(out)
}

proof fn lemma_all_stay(hs: Seq<(nat, nat, nat, u32, int)>)
    ensures
        staying_hits(hs, None, Seq::empty()) == hs,
    decreases hs.len(),
{
    if hs.len() > 0 {
        lemma_all_stay(hs.drop_last());
        assert(hs.drop_last().push(hs.last()) =~= hs);
    }
}

/// Scan a file's bytes under the default configuration: deny-by-default
/// with safe ASCII as the allowlist.
pub fn scan_file(path: &str, bytes: &[u8]) -> (r: Result<Vec<Violation>, Error>)
    ensures
        match decoded(bytes@, None) {
            None => r matches Ok(vs) && vs@.len() == 0,
            Some(Err(m)) => r matches Err(Error::Encoding(x)) && x@ == m,
            Some(Ok((t, enc))) => r matches Ok(vs) && scanned(vs@, content_hits(t, true, None, Seq::empty()), path@, str_lines(t), enc),
        },
{
    let config = Configuration::new();
    proof {
        assert(first_match(config.file_rules@, path@) is None);
        assert(crate::config::lookup(config.language_presets@, Seq::<char>::empty()) is None);
        assert(forall|e: Seq<char>| crate::config::lookup(config.language_presets@, e) is None);
        assert(file_allowlist(config, path@) is None);
        assert(file_denied(config, path@) == Seq::<u32>::empty());
        if let Some(Ok((t, enc))) = decoded(bytes@, None) {
            lemma_all_stay(content_hits(t, true, None, Seq::empty()));
        }
    }
    scan_file_with_config(path, bytes, &config, None)
}

} // verus!

verus! {

/// A bidirectional mark or control: U+061C, U+200E-U+200F, U+202A-U+202E
/// or U+2066-U+2069.
pub open spec fn bidi_mark(cp: u32) -> bool {
    cp == 0x061C || (0x200E <= cp && cp <= 0x200F) || (0x202A <= cp && cp <= 0x202E) || (0x2066 <= cp
        && cp <= 0x2069)
}

/// Every hit on a bidirectional mark or control stays, whatever the
/// allowlist and the deny list.
pub proof fn bidi_hits_always_stay(
    hs: Seq<(nat, nat, nat, u32, int)>,
    allowed: Option<Seq<UnicodeRange>>,
    denied: Seq<u32>,
)
    ensures
        forall|i: int| 0 <= i < hs.len() && bidi_mark(#[trigger] hs[i].3) ==> staying_hits(hs, allowed, denied).contains(hs[i]),
    decreases hs.len(),
{
    if hs.len() > 0 {
        let d = hs.drop_last();
        bidi_hits_always_stay(d, allowed, denied);
        let t = staying_hits(d, allowed, denied);
        assert forall|i: int| 0 <= i < hs.len() && bidi_mark(#[trigger] hs[i].3) implies staying_hits(hs, allowed, denied).contains(hs[i]) by {
            if i < hs.len() - 1 {
                assert(hs[i] == d[i]);
                assert(bidi_mark(d[i].3));
                let k = choose|k: int| 0 <= k < t.len() && t[k] == d[i];
                if stays(hs.last().3, allowed, denied) {
                    assert(t.push(hs.last())[k] == d[i]);
                }
            } else {
                assert(stays(hs[i].3, allowed, denied));
                assert(t.push(hs.last())[t.len() as int] == hs[i]);
            }
        }
    }
}

/// Scanning a file under any configuration keeps every hit that its text
/// has on a bidirectional mark or control, whatever the file's allowlist
/// covers.
pub proof fn scan_keeps_bidi_controls(c: Configuration, path: Seq<char>, content: Seq<char>)
    ensures
        forall|i: int|
            0 <= i < content_hits(content, c.deny_by_default, file_allowlist(c, path), file_denied(c, path)).len()
                && bidi_mark(
                #[trigger] content_hits(content, c.deny_by_default, file_allowlist(c, path), file_denied(c, path))[i].3,
            ) ==> scan_hits(c, path, content).contains(
                content_hits(content, c.deny_by_default, file_allowlist(c, path), file_denied(c, path))[i],
            ),
{
    let hs = content_hits(content, c.deny_by_default, file_allowlist(c, path), file_denied(c, path));
    bidi_hits_always_stay(hs, file_allowlist(c, path), file_denied(c, path));
}

/// The allowlist, where there is one, has a range holding `cp`.
pub open spec fn allowlist_holds(allowed: Option<Seq<UnicodeRange>>, cp: u32) -> bool {
    match allowed {
        Some(rs) => exists|j: int| 0 <= j < rs.len() && rs[j].start <= cp && cp <= rs[j].end,
        None => false,
    }
}

/// The hits that stay are exactly those on a bidirectional mark or control,
/// on a denied code point, or on a code point the allowlist does not hold,
/// in their order.
pub proof fn staying_hits_are_the_unexcused(
    hs: Seq<(nat, nat, nat, u32, int)>,
    allowed: Option<Seq<UnicodeRange>>,
    denied: Seq<u32>,
)
    ensures
        staying_hits(hs, allowed, denied) == hs.filter(
            |h: (nat, nat, nat, u32, int)| bidi_mark(h.3) || denied.contains(h.3) || !allowlist_holds(allowed, h.3),
        ),
    decreases hs.len(),
{
    reveal(Seq::filter);
    if hs.len() > 0 {
        staying_hits_are_the_unexcused(hs.drop_last(), allowed, denied);
        let cp = hs.last().3;
        match allowed {
            Some(rs) => {
                if in_some_range(rs, cp) {
                    let j = choose|j: int| 0 <= j < rs.len() && in_range(rs[j].start, rs[j].end, cp);
                    assert(rs[j].start <= cp && cp <= rs[j].end);
                }
                if allowlist_holds(allowed, cp) {
                    let j = choose|j: int| 0 <= j < rs.len() && rs[j].start <= cp && cp <= rs[j].end;
                    assert(in_range(rs[j].start, rs[j].end, cp));
                }
            },
            None => {},
        }
        assert(stays(cp, allowed, denied) == (bidi_mark(cp) || denied.contains(cp) || !allowlist_holds(allowed, cp)));
    }
}

} // verus!

