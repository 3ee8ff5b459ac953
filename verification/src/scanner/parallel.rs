//! Gathering the outcomes of scanning many files: violations and errors,
//! each sorted so that the report does not depend on the order in which the
//! files were scanned.

use vstd::prelude::*;
use crate::error::{error_text, Error};
use crate::paths::{
    key_lt, lemma_key_lt_irreflexive, lemma_key_lt_transitive, lemma_text_lt_irreflexive,
    lemma_text_lt_transitive, part_view, parts_less, path_key, path_parts, same_parts, text_less,
    text_lt, PathPart,
};
use vstd::seq_lib::{to_multiset_build, to_multiset_insert};
use crate::report::violation::{ErrorType, ScanError, Violation};

verus! {

/// The kind of error a failed scan reports.
pub open spec fn error_kind(e: Error) -> ErrorType {
    match e {
        Error::Encoding(_) => ErrorType::EncodingError,
        Error::Io(f) => if f.permission_denied {
            ErrorType::PermissionDenied
        } else {
            ErrorType::IoError
        },
        Error::Config(_) => ErrorType::ParseError,
        _ => ErrorType::IoError,
    }
}

/// The kind of error a failed scan reports: encoding, permission, other
/// I/O, or configuration (as a parse error).
pub fn classify_error(error: &Error) -> (t: ErrorType)
    ensures
        t == error_kind(*error),
{
    match error {
        Error::Encoding(_) => ErrorType::EncodingError,
        Error::Io(f) => if f.permission_denied {
            ErrorType::PermissionDenied
        } else {
            ErrorType::IoError
        },
        Error::Config(_) => ErrorType::ParseError,
        _ => ErrorType::IoError,
    }
}

/// The place of an error kind in the order of errors.
pub open spec fn rank_of(t: ErrorType) -> u8 {
    match t {
        ErrorType::PermissionDenied => 0,
        ErrorType::IoError => 1,
        ErrorType::EncodingError => 2,
        ErrorType::ParseError => 3,
    }
}

/// The place of an error kind in the order of errors: permission, I/O,
/// encoding, parse.
pub fn error_type_rank(error_type: ErrorType) -> (r: u8)
    ensures
        r == rank_of(error_type),
{
    match error_type {
        ErrorType::PermissionDenied => 0,
        ErrorType::IoError => 1,
        ErrorType::EncodingError => 2,
        ErrorType::ParseError => 3,
    }
}

/// `a` comes before `b`: by path, then line, column and code point.
pub open spec fn violation_lt(a: Violation, b: Violation) -> bool {
    let ka = path_key(a.file_path@);
    let kb = path_key(b.file_path@);
    key_lt(ka, kb) || (ka == kb && (a.line < b.line || (a.line == b.line && (a.column < b.column || (
    a.column == b.column && a.code_point < b.code_point)))))
}

/// An error as plain values: path, kind, message.
pub open spec fn error_view(e: ScanError) -> (Seq<char>, ErrorType, Seq<char>) {
    (e.file_path@, e.error_type, e.message@)
}

/// `a` comes before `b`: by path, then kind, then message.
pub open spec fn error_lt(a: (Seq<char>, ErrorType, Seq<char>), b: (Seq<char>, ErrorType, Seq<char>)) -> bool {
    let ka = path_key(a.0);
    let kb = path_key(b.0);
    key_lt(ka, kb) || (ka == kb && (rank_of(a.1) < rank_of(b.1) || (rank_of(a.1) == rank_of(b.1)
        && text_lt(a.2, b.2))))
}

/// The first position in `s` whose violation comes after `x`.
pub open spec fn violation_pos(s: Seq<Violation>, x: Violation) -> int
    decreases s.len(),
{
    if s.len() == 0 {
        0
    } else if violation_lt(x, s[0]) {
        0
    } else {
        1 + violation_pos(s.drop_first(), x)
    }
}

/// The violations sorted, equal ones in their order: each goes after the
/// ones before it that do not come after it.
pub open spec fn sorted_violations(s: Seq<Violation>) -> Seq<Violation>
    decreases s.len(),
{
    if s.len() == 0 {
        s
    } else {
        let t = sorted_violations(s.drop_last());
        t.insert(violation_pos(t, s.last()), s.last())
    }
}

/// The first position in `s` whose error comes after `x`.
pub open spec fn error_pos(s: Seq<(Seq<char>, ErrorType, Seq<char>)>, x: (Seq<char>, ErrorType, Seq<char>)) -> int
    decreases s.len(),
{
    if s.len() == 0 {
        0
    } else if error_lt(x, s[0]) {
        0
    } else {
        1 + error_pos(s.drop_first(), x)
    }
}

/// The errors sorted, equal ones in their order.
pub open spec fn sorted_errors(s: Seq<(Seq<char>, ErrorType, Seq<char>)>) -> Seq<(Seq<char>, ErrorType, Seq<char>)>
    decreases s.len(),
{
    if s.len() == 0 {
        s
    } else {
        let t = sorted_errors(s.drop_last());
        t.insert(error_pos(t, s.last()), s.last())
    }
}

/// `violation_lt` is irreflexive and transitive.
proof fn lemma_violation_lt_order(a: Violation, b: Violation, c: Violation)
    ensures
        !violation_lt(a, a),
        violation_lt(a, b) && violation_lt(b, c) ==> violation_lt(a, c),
{
    let ka = path_key(a.file_path@);
    let kb = path_key(b.file_path@);
    let kc = path_key(c.file_path@);
    lemma_key_lt_irreflexive(ka);
    if key_lt(ka, kb) && key_lt(kb, kc) {
        lemma_key_lt_transitive(ka, kb, kc);
    }
}

/// `error_lt` is irreflexive and transitive.
proof fn lemma_error_lt_order(a: (Seq<char>, ErrorType, Seq<char>), b: (Seq<char>, ErrorType, Seq<char>), c: (Seq<char>, ErrorType, Seq<char>))
    ensures
        !error_lt(a, a),
        error_lt(a, b) && error_lt(b, c) ==> error_lt(a, c),
{
    let ka = path_key(a.0);
    let kb = path_key(b.0);
    let kc = path_key(c.0);
    lemma_key_lt_irreflexive(ka);
    lemma_text_lt_irreflexive(a.2);
    if key_lt(ka, kb) && key_lt(kb, kc) {
        lemma_key_lt_transitive(ka, kb, kc);
    }
    if text_lt(a.2, b.2) && text_lt(b.2, c.2) {
        lemma_text_lt_transitive(a.2, b.2, c.2);
    }
}

proof fn lemma_violation_pos(t: Seq<Violation>, x: Violation)
    ensures
        0 <= violation_pos(t, x) <= t.len(),
        forall|k: int| 0 <= k < violation_pos(t, x) ==> !violation_lt(x, #[trigger] t[k]),
        violation_pos(t, x) < t.len() ==> violation_lt(x, t[violation_pos(t, x)]),
    decreases t.len(),
{
    if t.len() > 0 && !violation_lt(x, t[0]) {
        let u = t.drop_first();
        lemma_violation_pos(u, x);
        assert forall|k: int| 0 <= k < violation_pos(t, x) implies !violation_lt(x, #[trigger] t[k]) by {
            if k > 0 {
                assert(t[k] == u[k - 1]);
            }
        }
    }
}

proof fn lemma_error_pos(t: Seq<(Seq<char>, ErrorType, Seq<char>)>, x: (Seq<char>, ErrorType, Seq<char>))
    ensures
        0 <= error_pos(t, x) <= t.len(),
        forall|k: int| 0 <= k < error_pos(t, x) ==> !error_lt(x, #[trigger] t[k]),
        error_pos(t, x) < t.len() ==> error_lt(x, t[error_pos(t, x)]),
    decreases t.len(),
{
    if t.len() > 0 && !error_lt(x, t[0]) {
        let u = t.drop_first();
        lemma_error_pos(u, x);
        assert forall|k: int| 0 <= k < error_pos(t, x) implies !error_lt(x, #[trigger] t[k]) by {
            if k > 0 {
                assert(t[k] == u[k - 1]);
            }
        }
    }
}

/// No violation of `s` comes before one that stands earlier.
pub open spec fn violations_in_order(s: Seq<Violation>) -> bool {
    forall|i: int, j: int| 0 <= i < j < s.len() ==> !violation_lt(#[trigger] s[j], #[trigger] s[i])
}

/// No error of `s` comes before one that stands earlier.
pub open spec fn errors_in_order(s: Seq<(Seq<char>, ErrorType, Seq<char>)>) -> bool {
    forall|i: int, j: int| 0 <= i < j < s.len() ==> !error_lt(#[trigger] s[j], #[trigger] s[i])
}

/// Sorted violations are in order (by path, then line, column and code
/// point) and are the same violations, each as many times as before.
pub proof fn sorted_violations_are_ordered(s: Seq<Violation>)
    ensures
        violations_in_order(sorted_violations(s)),
        sorted_violations(s).to_multiset() == s.to_multiset(),
    decreases s.len(),
{
    if s.len() > 0 {
        let t = sorted_violations(s.drop_last());
        sorted_violations_are_ordered(s.drop_last());
        let x = s.last();
        let p = violation_pos(t, x);
        lemma_violation_pos(t, x);
        let r = t.insert(p, x);
        assert(sorted_violations(s) == r);
        assert forall|i: int, j: int| 0 <= i < j < r.len() implies !violation_lt(#[trigger] r[j], #[trigger] r[i]) by {
            if j < p {
                assert(r[i] == t[i] && r[j] == t[j]);
            } else if i < p && j == p {
                assert(r[i] == t[i]);
            } else if i < p {
                assert(r[i] == t[i] && r[j] == t[j - 1]);
            } else if i == p {
                assert(r[j] == t[j - 1]);
                lemma_violation_lt_order(t[j - 1], x, t[p]);
                if j - 1 > p {
                    assert(!violation_lt(t[j - 1], t[p]));
                }
            } else {
                assert(r[i] == t[i - 1] && r[j] == t[j - 1]);
            }
        }
        to_multiset_insert(t, p, x);
        assert(s =~= s.drop_last().push(x));
        to_multiset_build(s.drop_last(), x);
    }
}

/// Sorted errors are in order (by path, then kind and message) and are the
/// same errors, each as many times as before.
pub proof fn sorted_errors_are_ordered(s: Seq<(Seq<char>, ErrorType, Seq<char>)>)
    ensures
        errors_in_order(sorted_errors(s)),
        sorted_errors(s).to_multiset() == s.to_multiset(),
    decreases s.len(),
{
    if s.len() > 0 {
        let t = sorted_errors(s.drop_last());
        sorted_errors_are_ordered(s.drop_last());
        let x = s.last();
        let p = error_pos(t, x);
        lemma_error_pos(t, x);
        let r = t.insert(p, x);
        assert(sorted_errors(s) == r);
        assert forall|i: int, j: int| 0 <= i < j < r.len() implies !error_lt(#[trigger] r[j], #[trigger] r[i]) by {
            if j < p {
                assert(r[i] == t[i] && r[j] == t[j]);
            } else if i < p && j == p {
                assert(r[i] == t[i]);
            } else if i < p {
                assert(r[i] == t[i] && r[j] == t[j - 1]);
            } else if i == p {
                assert(r[j] == t[j - 1]);
                lemma_error_lt_order(t[j - 1], x, t[p]);
                if j - 1 > p {
                    assert(!error_lt(t[j - 1], t[p]));
                }
            } else {
                assert(r[i] == t[i - 1] && r[j] == t[j - 1]);
            }
        }
        to_multiset_insert(t, p, x);
        assert(s =~= s.drop_last().push(x));
        to_multiset_build(s.drop_last(), x);
    }
}

fn key_of(p: &String) -> (k: Vec<PathPart>)
    ensures
        k@.map_values(|q: PathPart| part_view(q)) == path_key(p@),
{
    path_parts(p.as_str())
}

/// Whether violation `a` (path components `ka`) comes before `b` (`kb`).
fn violation_less(a: &Violation, ka: &Vec<PathPart>, b: &Violation, kb: &Vec<PathPart>) -> (r: bool)
    requires
        ka@.map_values(|q: PathPart| part_view(q)) == path_key(a.file_path@),
        kb@.map_values(|q: PathPart| part_view(q)) == path_key(b.file_path@),
    ensures
        r == violation_lt(*a, *b),
{
    if parts_less(ka, kb) {
        return true;
    }
    if !same_parts(ka, kb) {
        return false;
    }
    a.line < b.line || (a.line == b.line && (a.column < b.column || (a.column == b.column && a.code_point
        < b.code_point)))
}

/// Whether error `a` (path components `ka`) comes before `b` (`kb`).
fn error_less(a: &ScanError, ka: &Vec<PathPart>, b: &ScanError, kb: &Vec<PathPart>) -> (r: bool)
    requires
        ka@.map_values(|q: PathPart| part_view(q)) == path_key(a.file_path@),
        kb@.map_values(|q: PathPart| part_view(q)) == path_key(b.file_path@),
    ensures
        r == error_lt(error_view(*a), error_view(*b)),
{
    if parts_less(ka, kb) {
        return true;
    }
    if !same_parts(ka, kb) {
        return false;
    }
    let ra = error_type_rank(a.error_type);
    let rb = error_type_rank(b.error_type);
    ra < rb || (ra == rb && text_less(a.message.as_str(), b.message.as_str()))
}

/// Sort violations by path, line, column and code point, keeping equal ones
/// in their order.
pub fn sort_violations(vs: Vec<Violation>) -> (r: Vec<Violation>)
    ensures
        r@ == sorted_violations(vs@),
{
    let ghost all = vs@;
    let mut out: Vec<Violation> = Vec::new();
    let mut keys: Vec<Vec<PathPart>> = Vec::new();
    for v in it: vs.into_iter()
        invariant
            it.seq() == all,
            out@ == sorted_violations(all.take(it.index() as int)),
            keys.len() == out.len(),
            forall|j: int| 0 <= j < out.len() ==> (#[trigger] keys@[j])@.map_values(|q: PathPart| part_view(q)) == path_key(out@[j].file_path@),
    {
        proof {
            assert(all.take(it.index() + 1).drop_last() =~= all.take(it.index() as int));
        }
        let ghost t = out@;
        let k = key_of(&v.file_path);
        let mut p: usize = 0;
        assert(t.skip(0) =~= t);
        while p < out.len() && !violation_less(&v, &k, &out[p], &keys[p])
            invariant
                p <= out.len(),
                t == out@,
                keys.len() == out.len(),
                forall|j: int| 0 <= j < out.len() ==> (#[trigger] keys@[j])@.map_values(|q: PathPart| part_view(q)) == path_key(out@[j].file_path@),
                k@.map_values(|q: PathPart| part_view(q)) == path_key(v.file_path@),
                violation_pos(t, v) == p + violation_pos(t.skip(p as int), v),
            decreases out.len() - p,
        {
            assert(t.skip(p as int).drop_first() =~= t.skip(p + 1));
            assert(t.skip(p as int)[0] == t[p as int]);
            p = p + 1;
        }
        proof {
            if p < out.len() {
                assert(t.skip(p as int)[0] == t[p as int]);
            }
        }
        let ghost ks = keys@;
        out.insert(p, v);
        keys.insert(p, k);
        assert forall|j: int| 0 <= j < out.len() implies (#[trigger] keys@[j])@.map_values(|q: PathPart| part_view(q)) == path_key(out@[j].file_path@) by {
            if j < p {
                assert(keys@[j] == ks[j]);
            } else if j > p {
                assert(keys@[j] == ks[j - 1]);
                assert(out@[j] == t[j - 1]);
            }
        }
    }
    assert(all.take(all.len() as int) =~= all);
    out
}

/// Sort errors by path, kind and message, keeping equal ones in their order.
pub fn sort_errors(es: Vec<ScanError>) -> (r: Vec<ScanError>)
    ensures
        r@.map_values(|e: ScanError| error_view(e)) == sorted_errors(es@.map_values(|e: ScanError| error_view(e))),
{
    let ghost all = es@.map_values(|e: ScanError| error_view(e));
    let ghost raw = es@;
    let mut out: Vec<ScanError> = Vec::new();
    let mut keys: Vec<Vec<PathPart>> = Vec::new();
    for e in it: es.into_iter()
        invariant
            it.seq() == raw,
            all == raw.map_values(|e: ScanError| error_view(e)),
            out@.map_values(|e: ScanError| error_view(e)) == sorted_errors(all.take(it.index() as int)),
            keys.len() == out.len(),
            forall|j: int| 0 <= j < out.len() ==> (#[trigger] keys@[j])@.map_values(|q: PathPart| part_view(q)) == path_key(out@[j].file_path@),
    {
        proof {
            assert(all.take(it.index() + 1).drop_last() =~= all.take(it.index() as int));
            assert(all.take(it.index() + 1).last() == error_view(e));
        }
        let ghost t = out@.map_values(|e: ScanError| error_view(e));
        let ghost tr = out@;
        let k = key_of(&e.file_path);
        let mut p: usize = 0;
        assert(t.skip(0) =~= t);
        while p < out.len() && !error_less(&e, &k, &out[p], &keys[p])
            invariant
                p <= out.len(),
                t == out@.map_values(|e: ScanError| error_view(e)),
                tr == out@,
                keys.len() == out.len(),
                forall|j: int| 0 <= j < out.len() ==> (#[trigger] keys@[j])@.map_values(|q: PathPart| part_view(q)) == path_key(out@[j].file_path@),
                k@.map_values(|q: PathPart| part_view(q)) == path_key(e.file_path@),
                error_pos(t, error_view(e)) == p + error_pos(t.skip(p as int), error_view(e)),
            decreases out.len() - p,
        {
            assert(t.skip(p as int).drop_first() =~= t.skip(p + 1));
            assert(t.skip(p as int)[0] == error_view(out@[p as int]));
            p = p + 1;
        }
        proof {
            if p < out.len() {
                assert(t.skip(p as int)[0] == error_view(out@[p as int]));
            }
        }
        let ghost ks = keys@;
        let ghost ev = error_view(e);
        out.insert(p, e);
        keys.insert(p, k);
        assert(out@.map_values(|e: ScanError| error_view(e)) =~= t.insert(p as int, ev));
        assert forall|j: int| 0 <= j < out.len() implies (#[trigger] keys@[j])@.map_values(|q: PathPart| part_view(q)) == path_key(out@[j].file_path@) by {
            if j < p {
                assert(keys@[j] == ks[j]);
            } else if j > p {
                assert(keys@[j] == ks[j - 1]);
                assert(out@[j] == tr[j - 1]);
            }
        }
    }
    assert(all.take(all.len() as int) =~= all);
    out
}

/// The violations of the scanned files, in file order, and an error (path,
/// kind, displayed text) for each file that could not be scanned.
pub open spec fn gathered(outcomes: Seq<(String, Result<Vec<Violation>, Error>)>) -> (Seq<Violation>, Seq<(Seq<char>, ErrorType, Seq<char>)>)
    decreases outcomes.len(),
{
    if outcomes.len() == 0 {
        (Seq::empty(), Seq::empty())
    } else {
        let prev = gathered(outcomes.drop_last());
        let last = outcomes.last();
        match last.1 {
            Ok(found) => (prev.0 + found@, prev.1),
            Err(e) => (prev.0, prev.1.push((last.0@, error_kind(e), error_text(e)))),
        }
    }
}

/// Gather the outcomes of scanning files (each file's path and its
/// violations or error): all violations sorted by path, line, column and
/// code point, and an error per failed file, sorted by path, kind and
/// message.
pub fn collect_results(outcomes: Vec<(String, Result<Vec<Violation>, Error>)>) -> (r: (Vec<Violation>, Vec<ScanError>))
    ensures
        r.0@ == sorted_violations(gathered(outcomes@).0),
        r.1@.map_values(|e: ScanError| error_view(e)) == sorted_errors(gathered(outcomes@).1),
{
    let ghost all = outcomes@;
    let mut vs: Vec<Violation> = Vec::new();
    let mut es: Vec<ScanError> = Vec::new();
    for o in it: outcomes.into_iter()
        invariant
            it.seq() == all,
            vs@ == gathered(all.take(it.index() as int)).0,
            es@.map_values(|e: ScanError| error_view(e)) == gathered(all.take(it.index() as int)).1,
    {
        proof {
            assert(all.take(it.index() + 1).drop_last() =~= all.take(it.index() as int));
            assert(all.take(it.index() + 1).last() == o);
        }
        let (path, result) = o;
        match result {
            Ok(found) => {
                let ghost before = vs@;
                let mut found = found;
                let ghost fv = found@;
                vs.append(&mut found);
                assert(vs@ =~= before + fv);
            },
            Err(e) => {
                let ghost before = es@.map_values(|e: ScanError| error_view(e));
                let kind = classify_error(&e);
                let text = e.to_text();
                es.push(ScanError::new(path, kind, text));
                assert(es@.map_values(|e: ScanError| error_view(e)) =~= before.push((path@, error_kind(e), error_text(e))));
            },
        }
    }
    assert(all.take(all.len() as int) =~= all);
    (sort_violations(vs), sort_errors(es))
}

} // verus!
