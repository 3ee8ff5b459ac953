//! File paths as sequences of components: the key by which paths are compared,
//! ordered and grouped.

use std::path::{Component, Path};
use vstd::prelude::*;

verus! {

/// One component of a path: its kind (`1` root directory, `2` current
/// directory, `3` parent directory, `4` a normal name) and its text.
#[derive(Debug, Clone)]
pub struct PathPart {
    pub kind: u8,
    pub text: String,
}

/// A component as plain values.
pub open spec fn part_view(p: PathPart) -> (u8, Seq<char>) {
    (p.kind, p.text@)
}

/// The components of a path as `std::path::Path::components` yields them.
pub uninterp spec fn spec_path_components(p: Seq<char>) -> Seq<(u8, Seq<char>)>;

/// The key of a path: its components.
pub open spec fn path_key(p: Seq<char>) -> Seq<(u8, Seq<char>)> {
    spec_path_components(p)
}

/// Split a path into its components.
///
/// Trusted: `std::path::Path::components` on the path, each component given
/// by its variant and its text; the result is a function of the path alone
/// and is named `spec_path_components`.
#[verifier::external_body]
pub fn path_parts(p: &str) -> (r: Vec<PathPart>)
    ensures
        r@.map_values(|q: PathPart| part_view(q)) == spec_path_components(p@),
{
    let mut v: Vec<PathPart> = Vec::new();
    for c in Path::new(p).components() {
        let kind: u8 = match c {
            Component::Prefix(_) => 0,
            Component::RootDir => 1,
            Component::CurDir => 2,
            Component::ParentDir => 3,
            Component::Normal(_) => 4,
        };
        v.push(PathPart { kind, text: c.as_os_str().to_string_lossy().into_owned() });
    }
    v
}

/// What `std::path::Path::extension` gives for a path, as text.
pub uninterp spec fn spec_path_extension(p: Seq<char>) -> Option<Seq<char>>;

/// The extension of a path's file name.
///
/// Trusted: `std::path::Path::extension` on the path, as text; it depends on
/// the path alone and is named `spec_path_extension`.
#[verifier::external_body]
pub fn path_extension(p: &str) -> (r: Option<String>)
    ensures
        match spec_path_extension(p@) {
            Some(e) => r matches Some(x) && x@ == e,
            None => r is None,
        },
{
    match Path::new(p).extension() {
        Some(e) => Some(e.to_string_lossy().into_owned()),
        None => None,
    }
}

/// Whether two component lists are the same.
pub fn same_parts(a: &Vec<PathPart>, b: &Vec<PathPart>) -> (r: bool)
    ensures
        r == (a@.map_values(|q: PathPart| part_view(q)) == b@.map_values(|q: PathPart| part_view(q))),
{
    let ghost va = a@.map_values(|q: PathPart| part_view(q));
    let ghost vb = b@.map_values(|q: PathPart| part_view(q));
    if a.len() != b.len() {
        assert(va.len() != vb.len());
        return false;
    }
    let mut i: usize = 0;
    while i < a.len()
        invariant
            i <= a.len(),
            a.len() == b.len(),
            va == a@.map_values(|q: PathPart| part_view(q)),
            vb == b@.map_values(|q: PathPart| part_view(q)),
            forall|j: int| 0 <= j < i ==> va[j] == vb[j],
        decreases a.len() - i,
    {
        if a[i].kind != b[i].kind || a[i].text != b[i].text {
            assert(va[i as int] != vb[i as int]);
            return false;
        }
        i = i + 1;
    }
    assert(va =~= vb);
    true
}

/// `a` comes strictly before `b` in character order, compared
/// lexicographically (a proper prefix comes first).
pub open spec fn text_lt(a: Seq<char>, b: Seq<char>) -> bool
    decreases a.len(),
{
    if b.len() == 0 {
        false
    } else if a.len() == 0 {
        true
    } else if a[0] != b[0] {
        (a[0] as u32) < (b[0] as u32)
    } else {
        text_lt(a.drop_first(), b.drop_first())
    }
}

/// `a` comes strictly before `b`: by kind, then by text.
pub open spec fn part_lt(a: (u8, Seq<char>), b: (u8, Seq<char>)) -> bool {
    a.0 < b.0 || (a.0 == b.0 && text_lt(a.1, b.1))
}

/// `a` comes strictly before `b` as component sequences, lexicographically:
/// the order of `std::path::Path`.
pub open spec fn key_lt(a: Seq<(u8, Seq<char>)>, b: Seq<(u8, Seq<char>)>) -> bool
    decreases a.len(),
{
    if b.len() == 0 {
        false
    } else if a.len() == 0 {
        true
    } else if a[0] != b[0] {
        part_lt(a[0], b[0])
    } else {
        key_lt(a.drop_first(), b.drop_first())
    }
}

} // verus!

verus! {

proof fn lemma_text_lt_skip(a: Seq<char>, b: Seq<char>, i: int)
    requires
        0 <= i <= a.len(),
        i <= b.len(),
        forall|j: int| 0 <= j < i ==> a[j] == b[j],
    ensures
        text_lt(a, b) == text_lt(a.skip(i), b.skip(i)),
    decreases i,
{
    if i > 0 {
        lemma_text_lt_skip(a.drop_first(), b.drop_first(), i - 1);
        assert(a.drop_first().skip(i - 1) =~= a.skip(i));
        assert(b.drop_first().skip(i - 1) =~= b.skip(i));
    } else {
        assert(a.skip(0) =~= a);
        assert(b.skip(0) =~= b);
    }
}

proof fn lemma_key_lt_skip(a: Seq<(u8, Seq<char>)>, b: Seq<(u8, Seq<char>)>, i: int)
    requires
        0 <= i <= a.len(),
        i <= b.len(),
        forall|j: int| 0 <= j < i ==> a[j] == b[j],
    ensures
        key_lt(a, b) == key_lt(a.skip(i), b.skip(i)),
    decreases i,
{
    if i > 0 {
        lemma_key_lt_skip(a.drop_first(), b.drop_first(), i - 1);
        assert(a.drop_first().skip(i - 1) =~= a.skip(i));
        assert(b.drop_first().skip(i - 1) =~= b.skip(i));
    } else {
        assert(a.skip(0) =~= a);
        assert(b.skip(0) =~= b);
    }
}

/// No text comes strictly before itself.
pub proof fn lemma_text_lt_irreflexive(a: Seq<char>)
    ensures
        !text_lt(a, a),
    decreases a.len(),
{
    if a.len() > 0 {
        lemma_text_lt_irreflexive(a.drop_first());
    }
}

/// The character order on texts is transitive.
pub proof fn lemma_text_lt_transitive(a: Seq<char>, b: Seq<char>, c: Seq<char>)
    requires
        text_lt(a, b),
        text_lt(b, c),
    ensures
        text_lt(a, c),
    decreases a.len(),
{
    if a.len() > 0 && a[0] == b[0] && b[0] == c[0] {
        lemma_text_lt_transitive(a.drop_first(), b.drop_first(), c.drop_first());
    }
}

/// No component comes strictly before itself.
pub proof fn lemma_part_lt_irreflexive(a: (u8, Seq<char>))
    ensures
        !part_lt(a, a),
{
    lemma_text_lt_irreflexive(a.1);
}

/// The order on components is transitive.
pub proof fn lemma_part_lt_transitive(a: (u8, Seq<char>), b: (u8, Seq<char>), c: (u8, Seq<char>))
    requires
        part_lt(a, b),
        part_lt(b, c),
    ensures
        part_lt(a, c),
{
    if a.0 == b.0 && b.0 == c.0 {
        lemma_text_lt_transitive(a.1, b.1, c.1);
    }
}

/// No component sequence comes strictly before itself.
pub proof fn lemma_key_lt_irreflexive(a: Seq<(u8, Seq<char>)>)
    ensures
        !key_lt(a, a),
    decreases a.len(),
{
    if a.len() > 0 {
        lemma_key_lt_irreflexive(a.drop_first());
    }
}

/// The order on component sequences is transitive.
pub proof fn lemma_key_lt_transitive(a: Seq<(u8, Seq<char>)>, b: Seq<(u8, Seq<char>)>, c: Seq<(u8, Seq<char>)>)
    requires
        key_lt(a, b),
        key_lt(b, c),
    ensures
        key_lt(a, c),
    decreases a.len(),
{
    if a.len() > 0 {
        if a[0] == b[0] && b[0] == c[0] {
            lemma_key_lt_transitive(a.drop_first(), b.drop_first(), c.drop_first());
        } else if a[0] != b[0] && b[0] != c[0] {
            lemma_part_lt_transitive(a[0], b[0], c[0]);
            if a[0] == c[0] {
                lemma_part_lt_irreflexive(a[0]);
            }
        }
    }
}

/// Of two different texts, one comes strictly before the other.
pub proof fn lemma_text_lt_total(a: Seq<char>, b: Seq<char>)
    requires
        a != b,
    ensures
        text_lt(a, b) || text_lt(b, a),
    decreases a.len(),
{
    if a.len() == 0 || b.len() == 0 {
        if a.len() == 0 && b.len() == 0 {
            assert(a =~= b);
        }
    } else if a[0] == b[0] {
        if a.drop_first() == b.drop_first() {
            assert(a =~= seq![a[0]] + a.drop_first());
            assert(b =~= seq![b[0]] + b.drop_first());
        }
        lemma_text_lt_total(a.drop_first(), b.drop_first());
    } else {
        vstd::utf8::char_u32_cast(a[0], a[0] as u32);
        vstd::utf8::char_u32_cast(b[0], b[0] as u32);
    }
}

/// Of two different component sequences, one comes strictly before the
/// other.
pub proof fn lemma_key_lt_total(a: Seq<(u8, Seq<char>)>, b: Seq<(u8, Seq<char>)>)
    requires
        a != b,
    ensures
        key_lt(a, b) || key_lt(b, a),
    decreases a.len(),
{
    if a.len() == 0 || b.len() == 0 {
        if a.len() == 0 && b.len() == 0 {
            assert(a =~= b);
        }
    } else if a[0] == b[0] {
        if a.drop_first() == b.drop_first() {
            assert(a =~= seq![a[0]] + a.drop_first());
            assert(b =~= seq![b[0]] + b.drop_first());
        }
        lemma_key_lt_total(a.drop_first(), b.drop_first());
    } else if a[0].0 == b[0].0 {
        lemma_text_lt_total(a[0].1, b[0].1);
    }
}

/// Whether `a` comes strictly before `b` in character order.
pub fn text_less(a: &str, b: &str) -> (r: bool)
    ensures
        r == text_lt(a@, b@),
{
    let x = crate::text::str_chars(a);
    let y = crate::text::str_chars(b);
    let mut i: usize = 0;
    while i < x.len() && i < y.len() && x[i] == y[i]
        invariant
            i <= x.len(),
            i <= y.len(),
            x@ == a@,
            y@ == b@,
            forall|j: int| 0 <= j < i ==> x@[j] == y@[j],
        decreases x.len() - i,
    {
        i = i + 1;
    }
    proof {
        lemma_text_lt_skip(x@, y@, i as int);
    }
    if i == y.len() {
        false
    } else if i == x.len() {
        true
    } else {
        (x[i] as u32) < (y[i] as u32)
    }
}

/// Whether the components `a` come strictly before the components `b`, as
/// paths are ordered.
pub fn parts_less(a: &Vec<PathPart>, b: &Vec<PathPart>) -> (r: bool)
    ensures
        r == key_lt(a@.map_values(|q: PathPart| part_view(q)), b@.map_values(|q: PathPart| part_view(q))),
{
    let ghost va = a@.map_values(|q: PathPart| part_view(q));
    let ghost vb = b@.map_values(|q: PathPart| part_view(q));
    let mut i: usize = 0;
    while i < a.len() && i < b.len() && a[i].kind == b[i].kind && a[i].text == b[i].text
        invariant
            i <= a.len(),
            i <= b.len(),
            va == a@.map_values(|q: PathPart| part_view(q)),
            vb == b@.map_values(|q: PathPart| part_view(q)),
            forall|j: int| 0 <= j < i ==> va[j] == vb[j],
        decreases a.len() - i,
    {
        i = i + 1;
    }
    proof {
        lemma_key_lt_skip(va, vb, i as int);
    }
    if i == b.len() {
        false
    } else if i == a.len() {
        true
    } else {
        assert(va.skip(i as int)[0] == va[i as int]);
        assert(vb.skip(i as int)[0] == vb[i as int]);
        if a[i].kind != b[i].kind {
            a[i].kind < b[i].kind
        } else {
            text_less(a[i].text.as_str(), b[i].text.as_str())
        }
    }
}

} // verus!
