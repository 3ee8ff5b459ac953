//! Which files a scan covers: the files given, and the files found under the
//! directories given.

use vstd::prelude::*;
use crate::error::{Error, IoFailure};

verus! {

/// How directories are walked.
#[derive(Debug, Clone)]
pub struct WalkConfig {
    /// Follow symbolic links.
    pub follow_links: bool,
    /// Skip what `.gitignore` files exclude.
    pub respect_gitignore: bool,
    /// Skip hidden files.
    pub respect_hidden: bool,
    /// How deep to descend; `None` for no limit.
    pub max_depth: Option<usize>,
    /// Threads for walking.
    pub threads: usize,
}

/// The number of CPUs.
///
/// Trusted: `num_cpus::get`, which its documentation says is always at least
/// one; the count depends on the machine, so nothing else is stated.
#[verifier::external_body]
fn cpu_count() -> (n: usize)
    ensures
        n >= 1,
{
    num_cpus::get()
}

impl Default for WalkConfig {
    /// Do not follow links, respect `.gitignore` and hidden files, no depth
    /// limit, one thread per CPU.
    fn default() -> (c: Self)
        ensures
            !c.follow_links,
            c.respect_gitignore,
            c.respect_hidden,
            c.max_depth is None,
            c.threads >= 1,
    {
        WalkConfig {
            follow_links: false,
            respect_gitignore: true,
            respect_hidden: true,
            max_depth: None,
            threads: cpu_count(),
        }
    }
}

/// What a path given to a scan turned out to be.
#[derive(Debug, Clone)]
pub enum PathEntry {
    /// A file.
    File(String),
    /// A directory, with the files the walk found under it.
    Dir(String, Vec<String>),
    /// Neither.
    Missing(String),
}

/// The message for a path that is neither file nor directory.
pub open spec fn missing_text(p: Seq<char>) -> Seq<char> {
    "Path not found: "@ + p
}

/// The files of the entries, in order, or the error for the first missing
/// path.
pub open spec fn walked(entries: Seq<PathEntry>) -> Result<Seq<Seq<char>>, Seq<char>>
    decreases entries.len(),
{
    if entries.len() == 0 {
        Ok(Seq::empty())
    } else {
        match entries[0] {
            PathEntry::Missing(p) => Err(missing_text(p@)),
            PathEntry::File(p) => match walked(entries.drop_first()) {
                Ok(rest) => Ok(seq![p@] + rest),
                Err(m) => Err(m),
            },
            PathEntry::Dir(_, found) => match walked(entries.drop_first()) {
                Ok(rest) => Ok(found@.map_values(|s: String| s@) + rest),
                Err(m) => Err(m),
            },
        }
    }
}

/// The files to scan: each file given, the files found under each
/// directory given, in order; a path that is neither is an I/O error.
pub fn walk_paths(entries: Vec<PathEntry>) -> (r: Result<Vec<String>, Error>)
    ensures
        match walked(entries@) {
            Ok(fs) => r matches Ok(v) && v@.map_values(|s: String| s@) == fs,
            Err(m) => r matches Err(Error::Io(f)) && f.message@ == m && !f.permission_denied,
        },
{
    let ghost all = entries@;
    let mut files: Vec<String> = Vec::new();
    let rest = entries;
    proof {
        assert(all.skip(0) =~= all);
    }
    for e in it: rest.into_iter()
        invariant
            it.seq() == all,
            all == entries@,
            match walked(all) {
                Ok(fs) => match walked(all.skip(it.index() as int)) {
                    Ok(tail) => fs == files@.map_values(|s: String| s@) + tail,
                    Err(_) => false,
                },
                Err(m) => walked(all.skip(it.index() as int)) == Err::<Seq<Seq<char>>, Seq<char>>(m),
            },
    {
        proof {
            assert(all.skip(it.index() as int).drop_first() =~= all.skip(it.index() + 1));
            assert(all.skip(it.index() as int)[0] == e);
        }
        match e {
            PathEntry::Missing(p) => {
                assert(walked(all.skip(it.index() as int)) == Err::<Seq<Seq<char>>, Seq<char>>(missing_text(p@)));
                let mut m = String::from_str("Path not found: ");
                m.append(p.as_str());
                assert(walked(all) == Err::<Seq<Seq<char>>, Seq<char>>(m@));
                return Err(Error::Io(IoFailure { permission_denied: false, message: m }));
            },
            PathEntry::File(p) => {
                let ghost before = files@.map_values(|s: String| s@);
                files.push(p);
                assert(files@.map_values(|s: String| s@) =~= before + seq![p@]);
            },
            PathEntry::Dir(_, found) => {
                let ghost before = files@.map_values(|s: String| s@);
                let mut found = found;
                let ghost fv = found@.map_values(|s: String| s@);
                files.append(&mut found);
                assert(files@.map_values(|s: String| s@) =~= before + fv);
            },
        }
    }
    assert(all.skip(all.len() as int) =~= Seq::<PathEntry>::empty());
    Ok(files)
}

} // verus!
