//! Changed files in a git repository: reading git's output and keeping the
//! files a scan was asked for that git reports as changed.

use vstd::prelude::*;
use crate::error::Error;
use crate::paths::{part_view, path_key, path_parts, same_parts, PathPart};
use crate::text::{chars_view, split_lines, str_lines, string_from_chars};

verus! {

/// What `String::from_utf8_lossy` makes of bytes.
pub uninterp spec fn spec_utf8_lossy(b: Seq<u8>) -> Seq<char>;

/// Decode bytes as UTF-8, replacing what is not.
///
/// Trusted: `String::from_utf8_lossy`; a function of the bytes, named
/// `spec_utf8_lossy`. Valid UTF-8 decodes as it is.
#[verifier::external_body]
fn utf8_lossy(b: &[u8]) -> (r: String)
    ensures
        r@ == spec_utf8_lossy(b@),
        vstd::utf8::valid_utf8(b@) ==> r@ == vstd::utf8::decode_utf8(b@),
{
    String::from_utf8_lossy(b).into_owned()
}

/// What `std::path::Path::join` gives for a base and a relative path.
pub uninterp spec fn spec_path_join(base: Seq<char>, rel: Seq<char>) -> Seq<char>;

/// Join a path onto a base.
///
/// Trusted: `std::path::Path::join`, as text; a function of the two paths,
/// named `spec_path_join`.
#[verifier::external_body]
fn path_join(base: &str, rel: &str) -> (r: String)
    ensures
        r@ == spec_path_join(base@, rel@),
{
    std::path::Path::new(base).join(rel).to_string_lossy().into_owned()
}

/// The non-empty lines of `ls`, each joined onto `repo`.
pub open spec fn joined_lines(repo: Seq<char>, ls: Seq<Seq<char>>) -> Seq<Seq<char>>
    decreases ls.len(),
{
    if ls.len() == 0 {
        Seq::empty()
    } else {
        let rest = joined_lines(repo, ls.drop_last());
        if ls.last().len() == 0 {
            rest
        } else {
            rest.push(spec_path_join(repo, ls.last()))
        }
    }
}

/// The paths git printed, one per non-empty line, under the repository.
pub open spec fn output_paths_of(repo: Seq<char>, stdout: Seq<u8>) -> Seq<Seq<char>> {
    joined_lines(repo, str_lines(spec_utf8_lossy(stdout)))
}

/// The paths git printed, one per non-empty line, joined onto the
/// repository path.
pub fn output_paths(repo: &str, stdout: &[u8]) -> (r: Vec<String>)
    ensures
        r@.map_values(|s: String| s@) == output_paths_of(repo@, stdout@),
{
    let text = utf8_lossy(stdout);
    let lines = split_lines(text.as_str());
    let ghost ls = chars_view(lines@);
    let mut out: Vec<String> = Vec::new();
    let mut i: usize = 0;
    while i < lines.len()
        invariant
            i <= lines.len(),
            ls == chars_view(lines@),
            ls == str_lines(text@),
            out@.map_values(|s: String| s@) == joined_lines(repo@, ls.take(i as int)),
        decreases lines.len() - i,
    {
        assert(ls.take(i + 1).drop_last() =~= ls.take(i as int));
        assert(ls.take(i + 1).last() == lines@[i as int]@);
        if lines[i].len() > 0 {
            let line = string_from_chars(lines[i].as_slice());
            let p = path_join(repo, line.as_str());
            let ghost before = out@.map_values(|s: String| s@);
            out.push(p);
            assert(out@.map_values(|s: String| s@) =~= before.push(spec_path_join(repo@, ls[i as int])));
        }
        i = i + 1;
    }
    assert(ls.take(lines.len() as int) =~= ls);
    out
}

/// The changed files of a repository from git's answers: the paths of
/// `git diff --name-only HEAD` (or `git ls-files` before the first commit),
/// then the untracked files when that listing succeeded; a failed diff is an
/// error carrying its standard error.
pub fn changed_files(
    repo: &str,
    diff_ok: bool,
    diff_stdout: &[u8],
    diff_stderr: &[u8],
    untracked_ok: bool,
    untracked_stdout: &[u8],
) -> (r: Result<Vec<String>, Error>)
    ensures
        !diff_ok ==> (r matches Err(Error::Git(m)) && m@ == "git diff failed: "@ + spec_utf8_lossy(diff_stderr@)),
        diff_ok ==> (r matches Ok(v) && v@.map_values(|s: String| s@) == output_paths_of(repo@, diff_stdout@) + if untracked_ok {
            output_paths_of(repo@, untracked_stdout@)
        } else {
            Seq::empty()
        }),
{
    if !diff_ok {
        let mut m = String::from_str("git diff failed: ");
        let e = utf8_lossy(diff_stderr);
        m.append(e.as_str());
        return Err(Error::Git(m));
    }
    let mut files = output_paths(repo, diff_stdout);
    let ghost first = files@.map_values(|s: String| s@);
    if untracked_ok {
        let mut more = output_paths(repo, untracked_stdout);
        let ghost second = more@.map_values(|s: String| s@);
        files.append(&mut more);
        assert(files@.map_values(|s: String| s@) =~= first + second);
    } else {
        assert(first + Seq::<Seq<char>>::empty() =~= first);
    }
    Ok(files)
}

/// Some path of `changed` is the same path as `p`.
pub open spec fn among(p: Seq<char>, changed: Seq<String>) -> bool {
    exists|j: int| 0 <= j < changed.len() && path_key(#[trigger] changed[j]@) == path_key(p)
}

/// The files whose canonical path is among the changed ones, in order.
pub open spec fn changed_only(files: Seq<String>, canonical: Seq<String>, changed: Seq<String>) -> Seq<String>
    decreases files.len(),
{
    if files.len() == 0 || canonical.len() < files.len() {
        Seq::empty()
    } else {
        let k = files.len() - 1;
        let rest = changed_only(files.drop_last(), canonical, changed);
        if among(canonical[k]@, changed) {
            rest.push(files.last())
        } else {
            rest
        }
    }
}

/// Keep the files (given with their canonical paths) whose canonical path
/// git reports as changed.
pub fn filter_changed_files(files: Vec<String>, canonical: &[String], changed: &[String]) -> (r: Vec<String>)
    requires
        canonical.len() == files.len(),
    ensures
        r@ == changed_only(files@, canonical@, changed@),
{
    let mut keys: Vec<Vec<PathPart>> = Vec::new();
    let mut j: usize = 0;
    while j < changed.len()
        invariant
            j <= changed.len(),
            keys.len() == j,
            forall|m: int| 0 <= m < j ==> (#[trigger] keys@[m])@.map_values(|q: PathPart| part_view(q)) == path_key(changed@[m]@),
        decreases changed.len() - j,
    {
        keys.push(path_parts(changed[j].as_str()));
        j = j + 1;
    }
    let ghost all = files@;
    let mut out: Vec<String> = Vec::new();
    let mut i: usize = 0;
    for f in it: files.into_iter()
        invariant
            it.seq() == all,
            i == it.index(),
            canonical.len() == all.len(),
            keys.len() == changed.len(),
            forall|m: int| 0 <= m < changed.len() ==> (#[trigger] keys@[m])@.map_values(|q: PathPart| part_view(q)) == path_key(changed@[m]@),
            out@ == changed_only(all.take(it.index() as int), canonical@, changed@),
    {
        proof {
            assert(all.take(it.index() + 1).drop_last() =~= all.take(it.index() as int));
        }
        let k = path_parts(canonical[i].as_str());
        let mut found = false;
        let mut m: usize = 0;
        while m < keys.len()
            invariant
                m <= keys.len(),
                keys.len() == changed.len(),
                forall|q: int| 0 <= q < changed.len() ==> (#[trigger] keys@[q])@.map_values(|p: PathPart| part_view(p)) == path_key(changed@[q]@),
                k@.map_values(|p: PathPart| part_view(p)) == path_key(canonical@[i as int]@),
                found == exists|q: int| 0 <= q < m && path_key(#[trigger] changed@[q]@) == path_key(canonical@[i as int]@),
            decreases keys.len() - m,
        {
            if same_parts(&keys[m], &k) {
                found = true;
            }
            m = m + 1;
        }
        if found {
            out.push(f);
        }
        i = i + 1;
    }
    assert(all.take(all.len() as int) =~= all);
    out
}

} // verus!

verus! {

/// Whether the components `a` begin the components `b`.
fn parts_prefix(a: &Vec<PathPart>, b: &Vec<PathPart>) -> (r: bool)
    ensures
        r == (a@.len() <= b@.len() && b@.map_values(|q: PathPart| part_view(q)).take(a@.len() as int)
            == a@.map_values(|q: PathPart| part_view(q))),
{
    let ghost va = a@.map_values(|q: PathPart| part_view(q));
    let ghost vb = b@.map_values(|q: PathPart| part_view(q));
    if a.len() > b.len() {
        return false;
    }
    let mut i: usize = 0;
    while i < a.len()
        invariant
            i <= a.len(),
            a.len() <= b.len(),
            va == a@.map_values(|q: PathPart| part_view(q)),
            vb == b@.map_values(|q: PathPart| part_view(q)),
            forall|j: int| 0 <= j < i ==> va[j] == vb[j],
        decreases a.len() - i,
    {
        if a[i].kind != b[i].kind || a[i].text != b[i].text {
            assert(vb.take(a.len() as int)[i as int] != va[i as int]);
            return false;
        }
        i = i + 1;
    }
    assert(vb.take(a.len() as int) =~= va);
    true
}

/// A changed file lies under a root: inside it when the root is a
/// directory (by whole components), equal to it otherwise.
pub open spec fn under_root(canonical: Seq<char>, root: (Seq<char>, bool)) -> bool {
    let kc = path_key(canonical);
    let kr = path_key(root.0);
    if root.1 {
        kr.len() <= kc.len() && kc.take(kr.len() as int) == kr
    } else {
        kc == kr
    }
}

/// A changed file is scanned: it is a file and lies under some root.
pub open spec fn wanted(c: (Seq<char>, bool, Seq<char>), roots: Seq<(Seq<char>, bool)>) -> bool {
    c.1 && exists|j: int| 0 <= j < roots.len() && under_root(c.2, #[trigger] roots[j])
}

/// The changed files that are scanned, in their order.
pub open spec fn wanted_files(changed: Seq<(Seq<char>, bool, Seq<char>)>, roots: Seq<(Seq<char>, bool)>) -> Seq<Seq<char>>
    decreases changed.len(),
{
    if changed.len() == 0 {
        Seq::empty()
    } else {
        let rest = wanted_files(changed.drop_last(), roots);
        if wanted(changed.last(), roots) {
            rest.push(changed.last().0)
        } else {
            rest
        }
    }
}

/// The first position in `s` whose path comes after `p`.
pub open spec fn path_pos(s: Seq<Seq<char>>, p: Seq<char>) -> int
    decreases s.len(),
{
    if s.len() == 0 {
        0
    } else if crate::paths::key_lt(path_key(p), path_key(s[0])) {
        0
    } else {
        1 + path_pos(s.drop_first(), p)
    }
}

/// The paths sorted as paths, equal ones in their order.
pub open spec fn sorted_paths(s: Seq<Seq<char>>) -> Seq<Seq<char>>
    decreases s.len(),
{
    if s.len() == 0 {
        s
    } else {
        let t = sorted_paths(s.drop_last());
        t.insert(path_pos(t, s.last()), s.last())
    }
}

/// The changed files a diff scan covers: each changed path (with whether it
/// is a file and its canonical form) that is a file under one of the roots
/// (canonical, with whether each is a directory), sorted as paths.
pub fn select_changed_files(changed: Vec<(String, bool, String)>, roots: &[(String, bool)]) -> (r: Vec<String>)
    ensures
        r@.map_values(|s: String| s@) == sorted_paths(
            wanted_files(
                changed@.map_values(|c: (String, bool, String)| (c.0@, c.1, c.2@)),
                roots@.map_values(|x: (String, bool)| (x.0@, x.1)),
            ),
        ),
{
    let ghost rv = roots@.map_values(|x: (String, bool)| (x.0@, x.1));
    let mut rkeys: Vec<Vec<PathPart>> = Vec::new();
    let mut j: usize = 0;
    while j < roots.len()
        invariant
            j <= roots.len(),
            rkeys.len() == j,
            forall|m: int| 0 <= m < j ==> (#[trigger] rkeys@[m])@.map_values(|q: PathPart| part_view(q)) == path_key(roots@[m].0@),
        decreases roots.len() - j,
    {
        rkeys.push(path_parts(roots[j].0.as_str()));
        j = j + 1;
    }
    let ghost cv = changed@.map_values(|c: (String, bool, String)| (c.0@, c.1, c.2@));
    let ghost raw = changed@;
    let mut kept: Vec<String> = Vec::new();
    for c in it: changed.into_iter()
        invariant
            it.seq() == raw,
            cv == raw.map_values(|c: (String, bool, String)| (c.0@, c.1, c.2@)),
            rv == roots@.map_values(|x: (String, bool)| (x.0@, x.1)),
            rkeys.len() == roots.len(),
            forall|m: int| 0 <= m < roots.len() ==> (#[trigger] rkeys@[m])@.map_values(|q: PathPart| part_view(q)) == path_key(roots@[m].0@),
            kept@.map_values(|s: String| s@) == wanted_files(cv.take(it.index() as int), rv),
    {
        proof {
            assert(cv.take(it.index() + 1).drop_last() =~= cv.take(it.index() as int));
            assert(cv.take(it.index() + 1).last() == (c.0@, c.1, c.2@));
        }
        let (path, is_file, canonical) = c;
        let ghost ce = (path@, is_file, canonical@);
        let k = path_parts(canonical.as_str());
        let mut hit = false;
        let mut m: usize = 0;
        while m < roots.len()
            invariant
                m <= roots.len(),
                rkeys.len() == roots.len(),
                rv == roots@.map_values(|x: (String, bool)| (x.0@, x.1)),
                forall|q: int| 0 <= q < roots.len() ==> (#[trigger] rkeys@[q])@.map_values(|p: PathPart| part_view(p)) == path_key(roots@[q].0@),
                k@.map_values(|p: PathPart| part_view(p)) == path_key(canonical@),
                hit == exists|q: int| 0 <= q < m && under_root(canonical@, #[trigger] rv[q]),
            decreases roots.len() - m,
        {
            assert(rv[m as int] == (roots@[m as int].0@, roots@[m as int].1));
            let inside = if roots[m].1 {
                parts_prefix(&rkeys[m], &k)
            } else {
                same_parts(&rkeys[m], &k)
            };
            if inside {
                hit = true;
            }
            m = m + 1;
        }
        if is_file && hit {
            let ghost before = kept@.map_values(|s: String| s@);
            kept.push(path);
            assert(kept@.map_values(|s: String| s@) =~= before.push(ce.0));
        }
    }
    assert(cv.take(cv.len() as int) =~= cv);
    let ghost wv = kept@.map_values(|s: String| s@);
    let mut out: Vec<String> = Vec::new();
    let mut keys: Vec<Vec<PathPart>> = Vec::new();
    let mut i: usize = 0;
    while i < kept.len()
        invariant
            i <= kept.len(),
            wv == kept@.map_values(|s: String| s@),
            out@.map_values(|s: String| s@) == sorted_paths(wv.take(i as int)),
            keys.len() == out.len(),
            forall|q: int| 0 <= q < out.len() ==> (#[trigger] keys@[q])@.map_values(|p: PathPart| part_view(p)) == path_key(out@[q]@),
        decreases kept.len() - i,
    {
        assert(wv.take(i + 1).drop_last() =~= wv.take(i as int));
        assert(wv.take(i + 1).last() == kept@[i as int]@);
        let ghost t = out@.map_values(|s: String| s@);
        let ghost ks = keys@;
        let ghost to = out@;
        let k = path_parts(kept[i].as_str());
        let mut p: usize = 0;
        assert(t.skip(0) =~= t);
        while p < out.len() && !crate::paths::parts_less(&k, &keys[p])
            invariant
                p <= out.len(),
                t == out@.map_values(|s: String| s@),
                keys.len() == out.len(),
                forall|q: int| 0 <= q < out.len() ==> (#[trigger] keys@[q])@.map_values(|p: PathPart| part_view(p)) == path_key(out@[q]@),
                k@.map_values(|p: PathPart| part_view(p)) == path_key(kept@[i as int]@),
                path_pos(t, kept@[i as int]@) == p + path_pos(t.skip(p as int), kept@[i as int]@),
            decreases out.len() - p,
        {
            assert(t.skip(p as int).drop_first() =~= t.skip(p + 1));
            assert(t.skip(p as int)[0] == out@[p as int]@);
            p = p + 1;
        }
        proof {
            if p < out.len() {
                assert(t.skip(p as int)[0] == out@[p as int]@);
            }
        }
        out.insert(p, kept[i].clone());
        keys.insert(p, k);
        assert(out@.map_values(|s: String| s@) =~= t.insert(p as int, kept@[i as int]@));
        assert forall|q: int| 0 <= q < out.len() implies (#[trigger] keys@[q])@.map_values(|p: PathPart| part_view(p)) == path_key(out@[q]@) by {
            if q < p {
                assert(keys@[q] == ks[q]);
                assert(out@[q] == to[q]);
            } else if q > p {
                assert(keys@[q] == ks[q - 1]);
                assert(out@[q] == to[q - 1]);
            }
        }
        i = i + 1;
    }
    assert(wv.take(kept.len() as int) =~= wv);
    out
}

} // verus!
