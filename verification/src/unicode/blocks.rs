//! Unicode blocks by name: resolving a block name or alias to its range,
//! suggesting names for a misspelt one, and listing the blocks.

use unicode_blocks::{find_unicode_block, HIGH_PRIVATE_USE_SURROGATES, HIGH_SURROGATES, LOW_SURROGATES};
use vstd::prelude::*;
use crate::paths::{text_less, text_lt};
use crate::text::{char_from_u32, contains_seq, is_scalar_value, lowercase, spec_lowercase, str_contains, str_eq};
use crate::unicode::ranges::{UnicodeRange, MAX_CODE_POINT};

verus! {

/// A Unicode block: its official name and its code points.
#[derive(Debug, Clone)]
pub struct BlockEntry {
    pub name: String,
    pub start: u32,
    pub end: u32,
}

/// A block for listing, with the short aliases that resolve to it.
#[derive(Debug, Clone)]
pub struct BlockInfo {
    pub name: String,
    pub start: u32,
    pub end: u32,
    pub aliases: Vec<String>,
}

/// Lookup of Unicode blocks by name.
pub struct BlockRegistry;

/// A block name that resolves to nothing, with the closest official names.
#[derive(Debug, Clone)]
pub enum BlockError {
    UnknownBlock { name: String, suggestions: Vec<String> },
}

/// A block as plain values: name, start, end.
pub open spec fn entry_view(e: BlockEntry) -> (Seq<char>, u32, u32) {
    (e.name@, e.start, e.end)
}

/// The block `unicode_blocks::find_unicode_block` gives for the character
/// with code point `cp`.
pub uninterp spec fn spec_find_block(cp: u32) -> Option<(Seq<char>, u32, u32)>;

/// The block that holds a character.
///
/// Trusted: `unicode_blocks::find_unicode_block`, its block taken by name,
/// start and end; the result depends on the character alone and is named
/// `spec_find_block`. The crate's table puts each character in a block whose
/// bounds hold it, all within the code space.
#[verifier::external_body]
fn find_block(c: char) -> (r: Option<BlockEntry>)
    ensures
        match spec_find_block(c as u32) {
            Some(v) => r matches Some(e) && entry_view(e) == v,
            None => r is None,
        },
        r matches Some(e) ==> e.start <= c as u32 && c as u32 <= e.end && e.end <= MAX_CODE_POINT,
{
    match find_unicode_block(c) {
        Some(b) => Some(BlockEntry { name: b.name().to_string(), start: b.start(), end: b.end() }),
        None => None,
    }
}

/// The three surrogate blocks, which no character falls in.
pub open spec fn surrogates() -> Seq<(Seq<char>, u32, u32)> {
    seq![
        ("High Surrogates"@, 0xD800u32, 0xDB7Fu32),
        ("High Private Use Surrogates"@, 0xDB80u32, 0xDBFFu32),
        ("Low Surrogates"@, 0xDC00u32, 0xDFFFu32),
    ]
}

/// The surrogate blocks.
///
/// Trusted: the constants `HIGH_SURROGATES`, `HIGH_PRIVATE_USE_SURROGATES`
/// and `LOW_SURROGATES` of `unicode_blocks`, whose names and bounds its
/// source gives as `surrogates` states them.
#[verifier::external_body]
fn surrogate_blocks() -> (r: Vec<BlockEntry>)
    ensures
        r@.map_values(|e: BlockEntry| entry_view(e)) == surrogates(),
{
    let mut v = Vec::new();
    for b in [HIGH_SURROGATES, HIGH_PRIVATE_USE_SURROGATES, LOW_SURROGATES] {
        v.push(BlockEntry { name: b.name().to_string(), start: b.start(), end: b.end() });
    }
    v
}

/// The blocks met walking the code points up from `cp`: the block of each
/// character, skipping to its end, and the surrogate blocks in place of the
/// surrogates.
pub open spec fn blocks_from(cp: int) -> Seq<(Seq<char>, u32, u32)>
    decreases 0x110000 - cp,
{
    if cp < 0 || cp > 0x10FFFF {
        Seq::empty()
    } else if 0xD800 <= cp && cp <= 0xDFFF {
        surrogates() + blocks_from(0xE000)
    } else {
        match spec_find_block(cp as u32) {
            Some(b) => if b.2 >= cp && b.2 <= 0x10FFFF {
                seq![b] + blocks_from(b.2 + 1)
            } else {
                Seq::empty()
            },
            None => blocks_from(cp + 1),
        }
    }
}

/// Every block, in code point order.
pub open spec fn all_blocks() -> Seq<(Seq<char>, u32, u32)> {
    blocks_from(0)
}

/// Every block, in code point order, each with its bounds in order.
fn registry() -> (r: Vec<BlockEntry>)
    ensures
        r@.map_values(|e: BlockEntry| entry_view(e)) == all_blocks(),
        forall|i: int| 0 <= i < r.len() ==> (#[trigger] r@[i]).start <= r@[i].end && r@[i].end <= MAX_CODE_POINT,
{
    let mut out: Vec<BlockEntry> = Vec::new();
    let mut cp: u32 = 0;
    while cp <= 0x10FFFF
        invariant
            cp <= 0x110000,
            out@.map_values(|e: BlockEntry| entry_view(e)) + blocks_from(cp as int) == all_blocks(),
            forall|i: int| 0 <= i < out.len() ==> (#[trigger] out@[i]).start <= out@[i].end && out@[i].end <= MAX_CODE_POINT,
        decreases 0x110000 - cp,
    {
        let ghost before = out@.map_values(|e: BlockEntry| entry_view(e));
        if 0xD800 <= cp && cp <= 0xDFFF {
            let mut s = surrogate_blocks();
            assert(s@[0].start == 0xD800 && s@[1].start == 0xDB80 && s@[2].start == 0xDC00) by {
                assert(s@.map_values(|e: BlockEntry| entry_view(e))[0] == entry_view(s@[0]));
                assert(s@.map_values(|e: BlockEntry| entry_view(e))[1] == entry_view(s@[1]));
                assert(s@.map_values(|e: BlockEntry| entry_view(e))[2] == entry_view(s@[2]));
            }
            let ghost sv = s@;
            out.append(&mut s);
            assert(out@.map_values(|e: BlockEntry| entry_view(e)) =~= before + surrogates());
            assert forall|i: int| 0 <= i < out.len() implies (#[trigger] out@[i]).start <= out@[i].end && out@[i].end
                <= MAX_CODE_POINT by {
                if i >= before.len() {
                    let k = i - before.len();
                    assert(out@[i] == sv[k]);
                    assert(sv.map_values(|e: BlockEntry| entry_view(e))[k] == entry_view(sv[k]));
                }
            }
            cp = 0xE000;
        } else {
            assert(is_scalar_value(cp));
            let c = match char_from_u32(cp) {
                Some(c) => c,
                None => '\0',
            };
            assert(c as u32 == cp);
            match find_block(c) {
                Some(b) => {
                    let next = b.end + 1;
                    let ghost bv = entry_view(b);
                    out.push(b);
                    assert(out@.map_values(|e: BlockEntry| entry_view(e)) =~= before.push(bv));
                    assert(seq![bv] + blocks_from(next as int) =~= blocks_from(cp as int));
                    cp = next;
                },
                None => {
                    cp = cp + 1;
                },
            }
        }
    }
    assert(blocks_from(cp as int) =~= Seq::empty());
    assert(out@.map_values(|e: BlockEntry| entry_view(e)) =~= all_blocks());
    out
}

} // verus!

verus! {

/// The number of short aliases.
pub const ALIAS_COUNT: usize = 13;

/// Short alias `i` and the lower-case official name it stands for.
pub open spec fn alias_pair(i: int) -> (Seq<char>, Seq<char>) {
    if i == 0 {
        ("ascii"@, "basic latin"@)
    } else if i == 1 {
        ("latin-1"@, "latin-1 supplement"@)
    } else if i == 2 {
        ("latin-extended-a"@, "latin extended-a"@)
    } else if i == 3 {
        ("latin-extended-b"@, "latin extended-b"@)
    } else if i == 4 {
        ("greek"@, "greek and coptic"@)
    } else if i == 5 {
        ("cyrillic"@, "cyrillic"@)
    } else if i == 6 {
        ("hebrew"@, "hebrew"@)
    } else if i == 7 {
        ("arabic"@, "arabic"@)
    } else if i == 8 {
        ("cjk"@, "cjk unified ideographs"@)
    } else if i == 9 {
        ("hangul"@, "hangul syllables"@)
    } else if i == 10 {
        ("hiragana"@, "hiragana"@)
    } else if i == 11 {
        ("katakana"@, "katakana"@)
    } else {
        ("emoji"@, "emoticons"@)
    }
}

fn alias_strs(i: usize) -> (r: (&'static str, &'static str))
    requires
        i < ALIAS_COUNT,
    ensures
        (r.0@, r.1@) == alias_pair(i as int),
{
    match i {
        0 => ("ascii", "basic latin"),
        1 => ("latin-1", "latin-1 supplement"),
        2 => ("latin-extended-a", "latin extended-a"),
        3 => ("latin-extended-b", "latin extended-b"),
        4 => ("greek", "greek and coptic"),
        5 => ("cyrillic", "cyrillic"),
        6 => ("hebrew", "hebrew"),
        7 => ("arabic", "arabic"),
        8 => ("cjk", "cjk unified ideographs"),
        9 => ("hangul", "hangul syllables"),
        10 => ("hiragana", "hiragana"),
        11 => ("katakana", "katakana"),
        _ => ("emoji", "emoticons"),
    }
}

/// The official name that the first alias from `k` on equal to `key`
/// stands for.
pub open spec fn alias_from(key: Seq<char>, k: int) -> Option<Seq<char>>
    decreases ALIAS_COUNT - k,
{
    if k < 0 || k >= ALIAS_COUNT {
        None
    } else if alias_pair(k).0 == key {
        Some(alias_pair(k).1)
    } else {
        alias_from(key, k + 1)
    }
}

/// The last of the first `k` blocks whose lower-case name is `key`.
pub open spec fn last_named(bs: Seq<(Seq<char>, u32, u32)>, key: Seq<char>, k: int) -> Option<int>
    decreases k,
{
    if k <= 0 {
        None
    } else if spec_lowercase(bs[k - 1].0) == key {
        Some(k - 1)
    } else {
        last_named(bs, key, k - 1)
    }
}

/// The block whose lower-case official name is `key`.
pub open spec fn official(key: Seq<char>) -> Option<int> {
    last_named(all_blocks(), key, all_blocks().len() as int)
}

/// The block a lower-case key names: through an alias whose official name
/// exists, else as an official name.
pub open spec fn block_index(key: Seq<char>) -> Option<int> {
    match alias_from(key, 0) {
        Some(t) => match official(t) {
            Some(i) => Some(i),
            None => official(key),
        },
        None => official(key),
    }
}

pub proof fn lemma_last_named(bs: Seq<(Seq<char>, u32, u32)>, key: Seq<char>, k: int)
    requires
        k <= bs.len(),
    ensures
        last_named(bs, key, k) matches Some(i) ==> 0 <= i < k,
    decreases k,
{
    if k > 0 {
        lemma_last_named(bs, key, k - 1);
    }
}

proof fn lemma_block_index(key: Seq<char>)
    ensures
        block_index(key) matches Some(i) ==> 0 <= i < all_blocks().len(),
{
    lemma_last_named(all_blocks(), key, all_blocks().len() as int);
    if let Some(t) = alias_from(key, 0) {
        lemma_last_named(all_blocks(), t, all_blocks().len() as int);
    }
}

/// The lower-case names of the blocks.
fn lower_names(bs: &Vec<BlockEntry>) -> (r: Vec<String>)
    ensures
        r.len() == bs.len(),
        forall|i: int| 0 <= i < bs.len() ==> (#[trigger] r@[i])@ == spec_lowercase(bs@[i].name@),
{
    let mut r: Vec<String> = Vec::new();
    let mut i: usize = 0;
    while i < bs.len()
        invariant
            i <= bs.len(),
            r.len() == i,
            forall|j: int| 0 <= j < i ==> (#[trigger] r@[j])@ == spec_lowercase(bs@[j].name@),
        decreases bs.len() - i,
    {
        r.push(lowercase(bs[i].name.as_str()));
        i = i + 1;
    }
    r
}

/// The last block whose lower-case name is `key`.
fn find_named(bs: &Vec<BlockEntry>, lowers: &Vec<String>, key: &str) -> (r: Option<usize>)
    requires
        lowers.len() == bs.len(),
        forall|i: int| 0 <= i < bs.len() ==> (#[trigger] lowers@[i])@ == spec_lowercase(bs@[i].name@),
    ensures
        match last_named(bs@.map_values(|e: BlockEntry| entry_view(e)), key@, bs.len() as int) {
            Some(i) => r == Some(i as usize),
            None => r is None,
        },
        r matches Some(i) ==> i < bs.len(),
{
    let ghost v = bs@.map_values(|e: BlockEntry| entry_view(e));
    let mut k: usize = bs.len();
    while k > 0
        invariant
            k <= bs.len(),
            lowers.len() == bs.len(),
            forall|i: int| 0 <= i < bs.len() ==> (#[trigger] lowers@[i])@ == spec_lowercase(bs@[i].name@),
            v == bs@.map_values(|e: BlockEntry| entry_view(e)),
            last_named(v, key@, bs.len() as int) == last_named(v, key@, k as int),
        decreases k,
    {
        assert(v[k - 1].0 == bs@[k - 1].name@);
        if str_eq(lowers[k - 1].as_str(), key) {
            return Some(k - 1);
        }
        k = k - 1;
    }
    None
}

/// The official name the alias `key` stands for.
fn alias_target(key: &str) -> (r: Option<&'static str>)
    ensures
        match alias_from(key@, 0) {
            Some(t) => r matches Some(x) && x@ == t,
            None => r is None,
        },
{
    let mut k: usize = 0;
    while k < ALIAS_COUNT
        invariant
            k <= ALIAS_COUNT,
            alias_from(key@, 0) == alias_from(key@, k as int),
        decreases ALIAS_COUNT - k,
    {
        let (a, t) = alias_strs(k);
        if str_eq(a, key) {
            return Some(t);
        }
        k = k + 1;
    }
    None
}

/// The block a lower-case key names, by its index among all blocks.
fn lookup_block(bs: &Vec<BlockEntry>, lowers: &Vec<String>, key: &str) -> (r: Option<usize>)
    requires
        bs@.map_values(|e: BlockEntry| entry_view(e)) == all_blocks(),
        lowers.len() == bs.len(),
        forall|i: int| 0 <= i < bs.len() ==> (#[trigger] lowers@[i])@ == spec_lowercase(bs@[i].name@),
    ensures
        match block_index(key@) {
            Some(i) => r == Some(i as usize),
            None => r is None,
        },
        r matches Some(i) ==> i < bs.len(),
{
    proof {
        lemma_last_named(all_blocks(), key@, all_blocks().len() as int);
    }
    if let Some(t) = alias_target(key) {
        proof {
            lemma_last_named(all_blocks(), t@, all_blocks().len() as int);
        }
        if let Some(i) = find_named(bs, lowers, t) {
            return Some(i);
        }
    }
    find_named(bs, lowers, key)
}

/// The error message: the unknown name, and the closest suggestion if any.
pub open spec fn block_error_text(name: Seq<char>, suggestions: Seq<Seq<char>>) -> Seq<char> {
    "Unknown Unicode block \""@ + name + "\""@ + if suggestions.len() > 0 {
        "\n  Did you mean: \""@ + suggestions[0] + "\"?"@
    } else {
        Seq::<char>::empty()
    }
}

impl BlockError {
    /// The message, as it is displayed.
    pub fn to_text(&self) -> (s: String)
        ensures
            match self {
                BlockError::UnknownBlock { name, suggestions } => s@ == block_error_text(
                    name@,
                    suggestions@.map_values(|x: String| x@),
                ),
            },
    {
        match self {
            BlockError::UnknownBlock { name, suggestions } => {
                let mut s = String::from_str("Unknown Unicode block \"");
                s.append(name.as_str());
                s.append("\"");
                if suggestions.len() > 0 {
                    s.append("\n  Did you mean: \"");
                    s.append(suggestions[0].as_str());
                    s.append("\"?");
                }
                assert(s@ =~= block_error_text(name@, suggestions@.map_values(|x: String| x@)));
                s
            },
        }
    }
}

} // verus!

verus! {

/// The first position in a sorted list of names whose name comes after `n`.
pub open spec fn name_pos(s: Seq<Seq<char>>, n: Seq<char>) -> int
    decreases s.len(),
{
    if s.len() == 0 {
        0
    } else if text_lt(n, s[0]) {
        0
    } else {
        1 + name_pos(s.drop_first(), n)
    }
}

/// The list with `n` put in its place, unless it is there already.
pub open spec fn add_name(s: Seq<Seq<char>>, n: Seq<char>) -> Seq<Seq<char>> {
    if s.contains(n) {
        s
    } else {
        s.insert(name_pos(s, n), n)
    }
}

/// The official names of the blocks, sorted, each once.
pub open spec fn sorted_names(bs: Seq<(Seq<char>, u32, u32)>) -> Seq<Seq<char>>
    decreases bs.len(),
{
    if bs.len() == 0 {
        Seq::empty()
    } else {
        add_name(sorted_names(bs.drop_last()), bs.last().0)
    }
}

/// The bits of the `f64` 0.7: a name is suggested when its similarity is
/// above that.
pub const JW_THRESHOLD: u64 = 0x3FE6666666666666;

/// The bits of `strsim::jaro_winkler(a, b)`.
pub uninterp spec fn spec_jaro_winkler_bits(a: Seq<char>, b: Seq<char>) -> u64;

/// The Jaro-Winkler similarity of two strings, as the bits of the `f64`.
///
/// Trusted: `strsim::jaro_winkler(a, b).to_bits()`; it depends on the two
/// strings alone and is named `spec_jaro_winkler_bits`. The similarity is a
/// non-negative finite number, and such numbers compare as their bits do.
#[verifier::external_body]
fn jaro_winkler_bits(a: &str, b: &str) -> (r: u64)
    ensures
        r == spec_jaro_winkler_bits(a@, b@),
{
    strsim::jaro_winkler(a, b).to_bits()
}

/// The names, in order, whose similarity to `input` (lower-cased) is above
/// the threshold, with that similarity.
pub open spec fn scored(names: Seq<Seq<char>>, input: Seq<char>) -> Seq<(u64, Seq<char>)>
    decreases names.len(),
{
    if names.len() == 0 {
        Seq::empty()
    } else {
        let rest = scored(names.drop_last(), input);
        let b = spec_jaro_winkler_bits(input, spec_lowercase(names.last()));
        if b > JW_THRESHOLD {
            rest.push((b, names.last()))
        } else {
            rest
        }
    }
}

/// The first position in a list sorted by falling score whose score is
/// below `b`.
pub open spec fn score_pos(s: Seq<(u64, Seq<char>)>, b: u64) -> int
    decreases s.len(),
{
    if s.len() == 0 {
        0
    } else if s[0].0 < b {
        0
    } else {
        1 + score_pos(s.drop_first(), b)
    }
}

/// The list sorted by falling score, equal scores in their order.
pub open spec fn by_score(s: Seq<(u64, Seq<char>)>) -> Seq<(u64, Seq<char>)>
    decreases s.len(),
{
    if s.len() == 0 {
        s
    } else {
        let t = by_score(s.drop_last());
        t.insert(score_pos(t, s.last().0), s.last())
    }
}

/// Up to three official names most similar to `name`, most similar first.
pub open spec fn suggestions_for(name: Seq<char>) -> Seq<Seq<char>> {
    let r = by_score(scored(sorted_names(all_blocks()), spec_lowercase(name)));
    let k = if r.len() < 3 { r.len() } else { 3 };
    r.take(k as int).map_values(|p: (u64, Seq<char>)| p.1)
}

fn names_hold(names: &Vec<String>, n: &str) -> (b: bool)
    ensures
        b == names@.map_values(|x: String| x@).contains(n@),
{
    let ghost v = names@.map_values(|x: String| x@);
    let mut i: usize = 0;
    while i < names.len()
        invariant
            i <= names.len(),
            v == names@.map_values(|x: String| x@),
            forall|j: int| 0 <= j < i ==> v[j] != n@,
        decreases names.len() - i,
    {
        if str_eq(names[i].as_str(), n) {
            assert(v[i as int] == n@);
            return true;
        }
        i = i + 1;
    }
    false
}

/// The official names of the blocks, sorted, each once.
fn official_names(bs: &Vec<BlockEntry>) -> (names: Vec<String>)
    ensures
        names@.map_values(|x: String| x@) == sorted_names(bs@.map_values(|e: BlockEntry| entry_view(e))),
{
    let ghost all = bs@.map_values(|e: BlockEntry| entry_view(e));
    let mut names: Vec<String> = Vec::new();
    let mut i: usize = 0;
    while i < bs.len()
        invariant
            i <= bs.len(),
            all == bs@.map_values(|e: BlockEntry| entry_view(e)),
            names@.map_values(|x: String| x@) == sorted_names(all.take(i as int)),
        decreases bs.len() - i,
    {
        let ghost t = names@.map_values(|x: String| x@);
        assert(all.take(i + 1).drop_last() =~= all.take(i as int));
        assert(all.take(i + 1).last() == all[i as int]);
        let n = bs[i].name.as_str();
        if !names_hold(&names, n) {
            let mut p: usize = 0;
            assert(t.skip(0) =~= t);
            while p < names.len() && !text_less(n, names[p].as_str())
                invariant
                    p <= names.len(),
                    t == names@.map_values(|x: String| x@),
                    name_pos(t, n@) == p + name_pos(t.skip(p as int), n@),
                decreases names.len() - p,
            {
                assert(t.skip(p as int).drop_first() =~= t.skip(p + 1));
                assert(t.skip(p as int)[0] == names@[p as int]@);
                p = p + 1;
            }
            proof {
                if p < names.len() {
                    assert(t.skip(p as int)[0] == names@[p as int]@);
                }
            }
            names.insert(p, String::from_str(n));
            assert(names@.map_values(|x: String| x@) =~= t.insert(p as int, n@));
        }
        i = i + 1;
    }
    assert(all.take(bs.len() as int) =~= all);
    names
}

impl BlockRegistry {
    /// Up to three official block names most similar to `name` (Jaro-Winkler,
    /// case-insensitive, above 0.7), most similar first.
    pub fn suggest(name: &str) -> (r: Vec<String>)
        ensures
            r@.map_values(|x: String| x@) == suggestions_for(name@),
    {
        let bs = registry();
        let names = official_names(&bs);
        let input = lowercase(name);
        let ghost nv = names@.map_values(|x: String| x@);
        let mut cand: Vec<(u64, String)> = Vec::new();
        let mut i: usize = 0;
        while i < names.len()
            invariant
                i <= names.len(),
                nv == names@.map_values(|x: String| x@),
                input@ == spec_lowercase(name@),
                cand@.map_values(|p: (u64, String)| (p.0, p.1@)) == scored(nv.take(i as int), input@),
            decreases names.len() - i,
        {
            assert(nv.take(i + 1).drop_last() =~= nv.take(i as int));
            assert(nv.take(i + 1).last() == names@[i as int]@);
            let ln = lowercase(names[i].as_str());
            let b = jaro_winkler_bits(input.as_str(), ln.as_str());
            if b > JW_THRESHOLD {
                let ghost before = cand@.map_values(|p: (u64, String)| (p.0, p.1@));
                cand.push((b, names[i].clone()));
                assert(cand@.map_values(|p: (u64, String)| (p.0, p.1@)) =~= before.push((b, names@[i as int]@)));
            }
            i = i + 1;
        }
        assert(nv.take(names.len() as int) =~= nv);
        let ghost cv = cand@.map_values(|p: (u64, String)| (p.0, p.1@));
        let mut ranked: Vec<(u64, String)> = Vec::new();
        let mut j: usize = 0;
        while j < cand.len()
            invariant
                j <= cand.len(),
                cv == cand@.map_values(|p: (u64, String)| (p.0, p.1@)),
                ranked@.map_values(|p: (u64, String)| (p.0, p.1@)) == by_score(cv.take(j as int)),
            decreases cand.len() - j,
        {
            assert(cv.take(j + 1).drop_last() =~= cv.take(j as int));
            assert(cv.take(j + 1).last() == cv[j as int]);
            let ghost t = ranked@.map_values(|p: (u64, String)| (p.0, p.1@));
            let score = cand[j].0;
            let mut p: usize = 0;
            assert(t.skip(0) =~= t);
            while p < ranked.len() && !(ranked[p].0 < score)
                invariant
                    p <= ranked.len(),
                    t == ranked@.map_values(|p: (u64, String)| (p.0, p.1@)),
                    score_pos(t, score) == p + score_pos(t.skip(p as int), score),
                decreases ranked.len() - p,
            {
                assert(t.skip(p as int).drop_first() =~= t.skip(p + 1));
                assert(t.skip(p as int)[0].0 == ranked@[p as int].0);
                p = p + 1;
            }
            proof {
                if p < ranked.len() {
                    assert(t.skip(p as int)[0].0 == ranked@[p as int].0);
                }
            }
            ranked.insert(p, (score, cand[j].1.clone()));
            assert(ranked@.map_values(|p: (u64, String)| (p.0, p.1@)) =~= t.insert(p as int, cv[j as int]));
            j = j + 1;
        }
        assert(cv.take(cand.len() as int) =~= cv);
        let ghost rv = ranked@.map_values(|p: (u64, String)| (p.0, p.1@));
        let mut out: Vec<String> = Vec::new();
        let mut k: usize = 0;
        while k < ranked.len() && k < 3
            invariant
                k <= ranked.len(),
                k <= 3,
                rv == ranked@.map_values(|p: (u64, String)| (p.0, p.1@)),
                out@.map_values(|x: String| x@) == rv.take(k as int).map_values(|p: (u64, Seq<char>)| p.1),
            decreases ranked.len() - k,
        {
            assert(rv[k as int].1 == ranked@[k as int].1@);
            let ghost before = out@.map_values(|x: String| x@);
            out.push(ranked[k].1.clone());
            assert(out@.map_values(|x: String| x@) =~= before.push(rv[k as int].1));
            assert(out@.map_values(|x: String| x@) =~= rv.take(k + 1).map_values(|p: (u64, Seq<char>)| p.1));
            k = k + 1;
        }
        out
    }
}

} // verus!

verus! {

/// No earlier block of `bs` starts where `bs[i]` does.
pub open spec fn first_at_start(bs: Seq<(Seq<char>, u32, u32)>, i: int) -> bool {
    forall|j: int| 0 <= j < i ==> bs[j].1 != bs[i].1
}

/// The blocks, one per start, in their order.
pub open spec fn one_per_start(bs: Seq<(Seq<char>, u32, u32)>) -> Seq<(Seq<char>, u32, u32)>
    decreases bs.len(),
{
    if bs.len() == 0 {
        bs
    } else if first_at_start(bs, bs.len() - 1) {
        one_per_start(bs.drop_last()).push(bs.last())
    } else {
        one_per_start(bs.drop_last())
    }
}

/// The first position in a list sorted by start whose start is above `x`.
pub open spec fn start_pos(s: Seq<(Seq<char>, u32, u32)>, x: u32) -> int
    decreases s.len(),
{
    if s.len() == 0 {
        0
    } else if s[0].1 > x {
        0
    } else {
        1 + start_pos(s.drop_first(), x)
    }
}

/// The blocks sorted by start, equal starts in their order.
pub open spec fn by_start(s: Seq<(Seq<char>, u32, u32)>) -> Seq<(Seq<char>, u32, u32)>
    decreases s.len(),
{
    if s.len() == 0 {
        s
    } else {
        let t = by_start(s.drop_last());
        t.insert(start_pos(t, s.last().1), s.last())
    }
}

/// The first `n` aliases that stand for a block starting where `b` does,
/// other than `b`'s own lower-case name.
pub open spec fn aliases_of(b: (Seq<char>, u32, u32), n: int) -> Seq<Seq<char>>
    decreases n,
{
    if n <= 0 {
        Seq::empty()
    } else {
        let rest = aliases_of(b, n - 1);
        let (a, t) = alias_pair(n - 1);
        match official(t) {
            Some(j) => if all_blocks()[j].1 == b.1 && a != spec_lowercase(b.0) {
                rest.push(a)
            } else {
                rest
            },
            None => rest,
        }
    }
}

/// The blocks whose lower-case name holds the lower-case filter.
pub open spec fn named_like(s: Seq<(Seq<char>, u32, u32)>, filter: Option<Seq<char>>) -> Seq<(Seq<char>, u32, u32)>
    decreases s.len(),
{
    if s.len() == 0 {
        s
    } else {
        let rest = named_like(s.drop_last(), filter);
        match filter {
            Some(f) => if contains_seq(spec_lowercase(s.last().0), spec_lowercase(f)) {
                rest.push(s.last())
            } else {
                rest
            },
            None => rest.push(s.last()),
        }
    }
}

/// A listed block as plain values: name, start, end, aliases.
pub open spec fn info_view(i: BlockInfo) -> (Seq<char>, u32, u32, Seq<Seq<char>>) {
    (i.name@, i.start, i.end, i.aliases@.map_values(|x: String| x@))
}

/// What `list_blocks` lists: one block per start, by start, filtered by
/// name, each with its aliases.
pub open spec fn listed(filter: Option<Seq<char>>) -> Seq<(Seq<char>, u32, u32, Seq<Seq<char>>)> {
    named_like(by_start(one_per_start(all_blocks())), filter).map_values(
        |b: (Seq<char>, u32, u32)| (b.0, b.1, b.2, aliases_of(b, ALIAS_COUNT as int)),
    )
}

impl BlockRegistry {
    /// The range of the block with the given official name or alias,
    /// compared case-insensitively, described by its official name; an
    /// unknown name gives the error with suggestions.
    pub fn resolve(name: &str) -> (r: Result<UnicodeRange, BlockError>)
        ensures
            match block_index(spec_lowercase(name@)) {
                Some(i) => r matches Ok(range) && crate::config::presets::range_view(range) == (
                    all_blocks()[i].1,
                    all_blocks()[i].2,
                    Some(all_blocks()[i].0),
                ),
                None => r matches Err(BlockError::UnknownBlock { name: n, suggestions: s }) && n@ == name@
                    && s@.map_values(|x: String| x@) == suggestions_for(name@),
            },
            r matches Ok(range) ==> range.wf(),
    {
        let bs = registry();
        let lowers = lower_names(&bs);
        let key = lowercase(name);
        proof {
            lemma_block_index(key@);
        }
        match lookup_block(&bs, &lowers, key.as_str()) {
            Some(i) => {
                assert(bs@.map_values(|e: BlockEntry| entry_view(e))[i as int] == entry_view(bs@[i as int]));
                Ok(UnicodeRange::with_description(bs[i].start, bs[i].end, bs[i].name.clone()))
            },
            None => Err(BlockError::UnknownBlock { name: String::from_str(name), suggestions: Self::suggest(name) }),
        }
    }

    /// The blocks, one per start and sorted by start, each with its aliases;
    /// with a filter, only those whose name holds it (case-insensitively).
    pub fn list_blocks(filter: Option<&str>) -> (r: Vec<BlockInfo>)
        ensures
            r@.map_values(|i: BlockInfo| info_view(i)) == listed(
                match filter {
                    Some(f) => Some(f@),
                    None => None,
                },
            ),
    {
        let bs = registry();
        let lowers = lower_names(&bs);
        let ghost all = bs@.map_values(|e: BlockEntry| entry_view(e));
        // one block per start
        let mut uniq: Vec<usize> = Vec::new();
        let mut i: usize = 0;
        while i < bs.len()
            invariant
                i <= bs.len(),
                all == bs@.map_values(|e: BlockEntry| entry_view(e)),
                forall|q: int| 0 <= q < uniq.len() ==> (#[trigger] uniq@[q]) < bs.len(),
                uniq@.map_values(|x: usize| all[x as int]) == one_per_start(all.take(i as int)),
            decreases bs.len() - i,
        {
            assert(all.take(i + 1).drop_last() =~= all.take(i as int));
            let mut seen = false;
            let mut j: usize = 0;
            while j < i
                invariant
                    j <= i,
                    i < bs.len(),
                    all == bs@.map_values(|e: BlockEntry| entry_view(e)),
                    seen == exists|m: int| 0 <= m < j && all[m].1 == all[i as int].1,
                decreases i - j,
            {
                assert(all[j as int].1 == bs@[j as int].start);
                assert(all[i as int].1 == bs@[i as int].start);
                if bs[j].start == bs[i].start {
                    seen = true;
                }
                j = j + 1;
            }
            proof {
                let t = all.take(i + 1);
                assert(t.last() == all[i as int]);
                if seen {
                    let m = choose|m: int| 0 <= m < i && all[m].1 == all[i as int].1;
                    assert(t[m] == all[m]);
                } else {
                    assert forall|m: int| 0 <= m < i implies t[m].1 != t[i as int].1 by {
                        assert(t[m] == all[m]);
                    }
                }
            }
            if !seen {
                let ghost before = uniq@.map_values(|x: usize| all[x as int]);
                uniq.push(i);
                assert(uniq@.map_values(|x: usize| all[x as int]) =~= before.push(all[i as int]));
            }
            i = i + 1;
        }
        assert(all.take(bs.len() as int) =~= all);
        // sorted by start
        let ghost uv = uniq@.map_values(|x: usize| all[x as int]);
        let mut sorted: Vec<usize> = Vec::new();
        let mut k: usize = 0;
        while k < uniq.len()
            invariant
                k <= uniq.len(),
                all == bs@.map_values(|e: BlockEntry| entry_view(e)),
                forall|q: int| 0 <= q < uniq.len() ==> (#[trigger] uniq@[q]) < bs.len(),
                forall|q: int| 0 <= q < sorted.len() ==> (#[trigger] sorted@[q]) < bs.len(),
                uv == uniq@.map_values(|x: usize| all[x as int]),
                sorted@.map_values(|x: usize| all[x as int]) == by_start(uv.take(k as int)),
            decreases uniq.len() - k,
        {
            assert(uv.take(k + 1).drop_last() =~= uv.take(k as int));
            assert(uv.take(k + 1).last() == uv[k as int]);
            let ghost t = sorted@.map_values(|x: usize| all[x as int]);
            let s = bs[uniq[k]].start;
            assert(uv[k as int].1 == s);
            let mut p: usize = 0;
            assert(t.skip(0) =~= t);
            while p < sorted.len() && !(bs[sorted[p]].start > s)
                invariant
                    p <= sorted.len(),
                    all == bs@.map_values(|e: BlockEntry| entry_view(e)),
                    forall|q: int| 0 <= q < sorted.len() ==> (#[trigger] sorted@[q]) < bs.len(),
                    t == sorted@.map_values(|x: usize| all[x as int]),
                    start_pos(t, s) == p + start_pos(t.skip(p as int), s),
                decreases sorted.len() - p,
            {
                assert(t.skip(p as int).drop_first() =~= t.skip(p + 1));
                assert(t.skip(p as int)[0].1 == bs@[sorted@[p as int] as int].start);
                p = p + 1;
            }
            proof {
                if p < sorted.len() {
                    assert(t.skip(p as int)[0].1 == bs@[sorted@[p as int] as int].start);
                }
            }
            sorted.insert(p, uniq[k]);
            assert(sorted@.map_values(|x: usize| all[x as int]) =~= t.insert(p as int, uv[k as int]));
            k = k + 1;
        }
        assert(uv.take(uniq.len() as int) =~= uv);
        // filtered, with aliases
        let ghost sv = sorted@.map_values(|x: usize| all[x as int]);
        let ghost fv = match filter {
            Some(f) => Some(f@),
            None => None,
        };
        let flower = match filter {
            Some(f) => Some(lowercase(f)),
            None => None,
        };
        let mut out: Vec<BlockInfo> = Vec::new();
        let mut q: usize = 0;
        while q < sorted.len()
            invariant
                q <= sorted.len(),
                all == bs@.map_values(|e: BlockEntry| entry_view(e)),
                all == all_blocks(),
                lowers.len() == bs.len(),
                forall|m: int| 0 <= m < bs.len() ==> (#[trigger] lowers@[m])@ == spec_lowercase(bs@[m].name@),
                forall|m: int| 0 <= m < sorted.len() ==> (#[trigger] sorted@[m]) < bs.len(),
                sv == sorted@.map_values(|x: usize| all[x as int]),
                match fv {
                    Some(f) => flower matches Some(x) && x@ == spec_lowercase(f),
                    None => flower is None,
                },
                out@.map_values(|i: BlockInfo| info_view(i)) == named_like(sv.take(q as int), fv).map_values(
                    |b: (Seq<char>, u32, u32)| (b.0, b.1, b.2, aliases_of(b, ALIAS_COUNT as int)),
                ),
            decreases sorted.len() - q,
        {
            assert(sv.take(q + 1).drop_last() =~= sv.take(q as int));
            assert(sv.take(q + 1).last() == sv[q as int]);
            let b = sorted[q];
            let ghost bv = all[b as int];
            assert(bv == entry_view(bs@[b as int]));
            let keep = match &flower {
                Some(f) => str_contains(lowers[b].as_str(), f.as_str()),
                None => true,
            };
            if keep {
                let aliases = block_aliases(&bs, &lowers, b);
                let info = BlockInfo { name: bs[b].name.clone(), start: bs[b].start, end: bs[b].end, aliases };
                let ghost before = out@.map_values(|i: BlockInfo| info_view(i));
                out.push(info);
                assert(out@.map_values(|i: BlockInfo| info_view(i)) =~= before.push(
                    (bv.0, bv.1, bv.2, aliases_of(bv, ALIAS_COUNT as int)),
                ));
            }
            q = q + 1;
        }
        assert(sv.take(sorted.len() as int) =~= sv);
        out
    }
}

/// The aliases that stand for a block starting where block `b` does, other
/// than its own lower-case name.
fn block_aliases(bs: &Vec<BlockEntry>, lowers: &Vec<String>, b: usize) -> (r: Vec<String>)
    requires
        b < bs.len(),
        bs@.map_values(|e: BlockEntry| entry_view(e)) == all_blocks(),
        lowers.len() == bs.len(),
        forall|i: int| 0 <= i < bs.len() ==> (#[trigger] lowers@[i])@ == spec_lowercase(bs@[i].name@),
    ensures
        r@.map_values(|x: String| x@) == aliases_of(entry_view(bs@[b as int]), ALIAS_COUNT as int),
{
    let ghost all = bs@.map_values(|e: BlockEntry| entry_view(e));
    let ghost bv = entry_view(bs@[b as int]);
    let mut r: Vec<String> = Vec::new();
    let mut k: usize = 0;
    while k < ALIAS_COUNT
        invariant
            k <= ALIAS_COUNT,
            b < bs.len(),
            all == bs@.map_values(|e: BlockEntry| entry_view(e)),
            all == all_blocks(),
            bv == entry_view(bs@[b as int]),
            lowers.len() == bs.len(),
            forall|i: int| 0 <= i < bs.len() ==> (#[trigger] lowers@[i])@ == spec_lowercase(bs@[i].name@),
            r@.map_values(|x: String| x@) == aliases_of(bv, k as int),
        decreases ALIAS_COUNT - k,
    {
        let (a, t) = alias_strs(k);
        let ghost before = r@.map_values(|x: String| x@);
        proof {
            lemma_last_named(all_blocks(), t@, all_blocks().len() as int);
        }
        match find_named(bs, lowers, t) {
            Some(j) => {
                assert(all[j as int].1 == bs@[j as int].start);
                if bs[j].start == bs[b].start && !str_eq(a, lowers[b].as_str()) {
                    r.push(String::from_str(a));
                    assert(r@.map_values(|x: String| x@) =~= before.push(a@));
                }
            },
            None => {},
        }
        k = k + 1;
    }
    r
}

} // verus!

verus! {

/// The starts do not fall along the list.
pub open spec fn starts_rise(s: Seq<(Seq<char>, u32, u32)>) -> bool {
    forall|i: int, j: int| 0 <= i < j < s.len() ==> s[i].1 <= s[j].1
}

proof fn lemma_start_pos(s: Seq<(Seq<char>, u32, u32)>, x: u32)
    requires
        starts_rise(s),
    ensures
        0 <= start_pos(s, x) <= s.len(),
        forall|j: int| 0 <= j < start_pos(s, x) ==> s[j].1 <= x,
        forall|j: int| start_pos(s, x) <= j < s.len() ==> s[j].1 > x,
    decreases s.len(),
{
    if s.len() > 0 && s[0].1 <= x {
        let t = s.drop_first();
        lemma_start_pos(t, x);
        assert forall|j: int| 0 <= j < start_pos(s, x) implies s[j].1 <= x by {
            if j > 0 {
                assert(s[j] == t[j - 1]);
            }
        }
        assert forall|j: int| start_pos(s, x) <= j < s.len() implies s[j].1 > x by {
            assert(s[j] == t[j - 1]);
        }
    }
}

proof fn lemma_by_start_rises(s: Seq<(Seq<char>, u32, u32)>)
    ensures
        starts_rise(by_start(s)),
    decreases s.len(),
{
    if s.len() > 0 {
        let t = by_start(s.drop_last());
        lemma_by_start_rises(s.drop_last());
        let x = s.last();
        lemma_start_pos(t, x.1);
        let p = start_pos(t, x.1);
        let u = t.insert(p, x);
        assert forall|i: int, j: int| 0 <= i < j < u.len() implies u[i].1 <= u[j].1 by {
            if i < p && j < p {
            } else if i < p && j == p {
            } else if i < p {
                assert(u[j] == t[j - 1]);
            } else if i == p {
                assert(u[j] == t[j - 1]);
            } else {
                assert(u[i] == t[i - 1]);
                assert(u[j] == t[j - 1]);
            }
        }
    }
}

proof fn lemma_named_like_rises(s: Seq<(Seq<char>, u32, u32)>, filter: Option<Seq<char>>)
    requires
        starts_rise(s),
    ensures
        starts_rise(named_like(s, filter)),
        forall|i: int| 0 <= i < named_like(s, filter).len() ==> exists|k: int| 0 <= k < s.len() && #[trigger] named_like(s, filter)[i] == s[k],
    decreases s.len(),
{
    if s.len() > 0 {
        let d = s.drop_last();
        assert(starts_rise(d));
        lemma_named_like_rises(d, filter);
        let r = named_like(d, filter);
        let t = r.push(s.last());
        assert forall|i: int| 0 <= i < r.len() implies exists|k: int| 0 <= k < s.len() && #[trigger] r[i] == s[k] by {
            let k = choose|k: int| 0 <= k < d.len() && r[i] == d[k];
            assert(r[i] == s[k]);
        }
        assert forall|i: int, j: int| 0 <= i < j < t.len() implies t[i].1 <= t[j].1 by {
            if j < r.len() {
                assert(t[i] == r[i] && t[j] == r[j]);
            } else {
                assert(t[i] == r[i]);
                let k = choose|k: int| 0 <= k < d.len() && r[i] == d[k];
                assert(s[k] == d[k]);
            }
        }
        assert forall|i: int| 0 <= i < t.len() implies exists|k: int| 0 <= k < s.len() && #[trigger] t[i] == s[k] by {
            if i < r.len() {
                assert(t[i] == r[i]);
            } else {
                assert(t[i] == s[s.len() - 1]);
            }
        }
    }
}

/// The starts strictly rise along the list.
pub open spec fn starts_strictly_rise(s: Seq<(Seq<char>, u32, u32)>) -> bool {
    forall|i: int, j: int| 0 <= i < j < s.len() ==> s[i].1 < s[j].1
}

/// No two blocks of the list start at the same code point.
pub open spec fn starts_distinct(s: Seq<(Seq<char>, u32, u32)>) -> bool {
    forall|i: int, j: int| 0 <= i < j < s.len() ==> s[i].1 != s[j].1
}

proof fn lemma_one_per_start_distinct(bs: Seq<(Seq<char>, u32, u32)>)
    ensures
        starts_distinct(one_per_start(bs)),
        forall|i: int| 0 <= i < one_per_start(bs).len() ==> exists|k: int| 0 <= k < bs.len() && #[trigger] one_per_start(bs)[i] == bs[k],
    decreases bs.len(),
{
    if bs.len() > 0 {
        let d = bs.drop_last();
        lemma_one_per_start_distinct(d);
        let r = one_per_start(d);
        assert forall|i: int| 0 <= i < r.len() implies exists|k: int| 0 <= k < bs.len() && #[trigger] r[i] == bs[k] by {
            let k = choose|k: int| 0 <= k < d.len() && r[i] == d[k];
            assert(r[i] == bs[k]);
        }
        if first_at_start(bs, bs.len() - 1) {
            let t = r.push(bs.last());
            assert forall|i: int, j: int| 0 <= i < j < t.len() implies t[i].1 != t[j].1 by {
                if j < r.len() {
                    assert(t[i] == r[i] && t[j] == r[j]);
                } else {
                    assert(t[i] == r[i]);
                    let k = choose|k: int| 0 <= k < d.len() && r[i] == d[k];
                    assert(bs[k] == d[k]);
                }
            }
            assert forall|i: int| 0 <= i < t.len() implies exists|k: int| 0 <= k < bs.len() && #[trigger] t[i] == bs[k] by {
                if i < r.len() {
                    assert(t[i] == r[i]);
                } else {
                    assert(t[i] == bs[bs.len() - 1]);
                }
            }
        }
    }
}

proof fn lemma_by_start_strict(s: Seq<(Seq<char>, u32, u32)>)
    requires
        starts_distinct(s),
    ensures
        starts_strictly_rise(by_start(s)),
        forall|i: int| 0 <= i < by_start(s).len() ==> exists|k: int| 0 <= k < s.len() && #[trigger] by_start(s)[i] == s[k],
        by_start(s).len() == s.len(),
    decreases s.len(),
{
    if s.len() > 0 {
        let d = s.drop_last();
        assert(starts_distinct(d));
        lemma_by_start_strict(d);
        lemma_by_start_rises(d);
        let t = by_start(d);
        let x = s.last();
        lemma_start_pos(t, x.1);
        let p = start_pos(t, x.1);
        let u = t.insert(p, x);
        assert forall|i: int| 0 <= i < t.len() implies t[i].1 != x.1 by {
            let k = choose|k: int| 0 <= k < d.len() && t[i] == d[k];
            assert(s[k] == d[k]);
        }
        assert forall|i: int, j: int| 0 <= i < j < u.len() implies u[i].1 < u[j].1 by {
            if j < p {
                assert(u[i] == t[i] && u[j] == t[j]);
            } else if i < p && j == p {
                assert(u[i] == t[i]);
            } else if i < p {
                assert(u[i] == t[i] && u[j] == t[j - 1]);
            } else if i == p {
                assert(u[j] == t[j - 1]);
            } else {
                assert(u[i] == t[i - 1] && u[j] == t[j - 1]);
            }
        }
        assert forall|i: int| 0 <= i < u.len() implies exists|k: int| 0 <= k < s.len() && #[trigger] u[i] == s[k] by {
            if i < p {
                assert(u[i] == t[i]);
                let k = choose|k: int| 0 <= k < d.len() && t[i] == d[k];
                assert(s[k] == d[k]);
            } else if i == p {
                assert(u[i] == s[s.len() - 1]);
            } else {
                assert(u[i] == t[i - 1]);
                let k = choose|k: int| 0 <= k < d.len() && t[i - 1] == d[k];
                assert(s[k] == d[k]);
            }
        }
    }
}

proof fn lemma_named_like_strict(s: Seq<(Seq<char>, u32, u32)>, filter: Option<Seq<char>>)
    requires
        starts_strictly_rise(s),
    ensures
        starts_strictly_rise(named_like(s, filter)),
    decreases s.len(),
{
    if s.len() > 0 {
        let d = s.drop_last();
        assert(starts_strictly_rise(d));
        assert(starts_rise(d));
        lemma_named_like_strict(d, filter);
        lemma_named_like_rises(d, filter);
        let r = named_like(d, filter);
        let t = r.push(s.last());
        assert forall|i: int, j: int| 0 <= i < j < t.len() implies t[i].1 < t[j].1 by {
            if j < r.len() {
                assert(t[i] == r[i] && t[j] == r[j]);
            } else {
                assert(t[i] == r[i]);
                let k = choose|k: int| 0 <= k < d.len() && r[i] == d[k];
                assert(s[k] == d[k]);
            }
        }
    }
}

/// A listed block as its listing: name, start, end, aliases.
pub open spec fn listing(b: (Seq<char>, u32, u32)) -> (Seq<char>, u32, u32, Seq<Seq<char>>) {
    (b.0, b.1, b.2, aliases_of(b, ALIAS_COUNT as int))
}

/// The lower-case name of a listing holds the lower-case filter `f`.
pub open spec fn listing_named_like(x: (Seq<char>, u32, u32, Seq<Seq<char>>), f: Seq<char>) -> bool {
    contains_seq(spec_lowercase(x.0), spec_lowercase(f))
}

proof fn lemma_named_like_filter(s: Seq<(Seq<char>, u32, u32)>, f: Seq<char>)
    ensures
        named_like(s, None) == s,
        named_like(s, Some(f)).map_values(|b: (Seq<char>, u32, u32)| (b.0, b.1, b.2, aliases_of(b, ALIAS_COUNT as int)))
            == s.map_values(|b: (Seq<char>, u32, u32)| (b.0, b.1, b.2, aliases_of(b, ALIAS_COUNT as int))).filter(
            |x: (Seq<char>, u32, u32, Seq<Seq<char>>)| listing_named_like(x, f),
        ),
    decreases s.len(),
{
    let g = |b: (Seq<char>, u32, u32)| (b.0, b.1, b.2, aliases_of(b, ALIAS_COUNT as int));
    let p = |x: (Seq<char>, u32, u32, Seq<Seq<char>>)| listing_named_like(x, f);
    if s.len() == 0 {
        reveal(Seq::filter);
        assert(s.map_values(g) =~= Seq::empty());
        assert(named_like(s, Some(f)).map_values(g) =~= Seq::empty());
    } else {
        let d = s.drop_last();
        lemma_named_like_filter(d, f);
        assert(named_like(s, None) =~= s);
        let m = s.map_values(g);
        assert(m.drop_last() =~= d.map_values(g));
        assert(m.last() == g(s.last()));
        let r = named_like(d, Some(f));
        reveal(Seq::filter);
        assert(r.map_values(g) == d.map_values(g).filter(p));
        assert(m.filter(p) == if p(m.last()) {
            m.drop_last().filter(p).push(m.last())
        } else {
            m.drop_last().filter(p)
        });
        assert(p(m.last()) == contains_seq(spec_lowercase(s.last().0), spec_lowercase(f)));
        if contains_seq(spec_lowercase(s.last().0), spec_lowercase(f)) {
            assert(named_like(s, Some(f)).map_values(g) =~= r.map_values(g).push(g(s.last())));
        } else {
            assert(named_like(s, Some(f)).map_values(g) =~= r.map_values(g));
        }
        assert(named_like(s, Some(f)).map_values(g) == m.filter(p));
    }
}

/// The listed blocks, filtered or not, strictly rise by start, so no two
/// share a start; filtering keeps exactly the listed blocks whose lower-case
/// name holds the lower-case filter, in the same order.
pub proof fn listed_blocks_are_sorted(filter: Option<Seq<char>>)
    ensures
        forall|i: int, j: int| 0 <= i < j < listed(filter).len() ==> listed(filter)[i].1 < listed(filter)[j].1,
        filter matches Some(f) ==> listed(filter) == listed(None).filter(
            |x: (Seq<char>, u32, u32, Seq<Seq<char>>)| listing_named_like(x, f),
        ),
{
    let s = by_start(one_per_start(all_blocks()));
    lemma_one_per_start_distinct(all_blocks());
    lemma_by_start_strict(one_per_start(all_blocks()));
    lemma_named_like_strict(s, filter);
    if let Some(f) = filter {
        lemma_named_like_filter(s, f);
    }
}

/// Resolution depends on the name only through its lower-case form.
pub proof fn resolution_ignores_case(a: Seq<char>, b: Seq<char>)
    requires
        spec_lowercase(a) == spec_lowercase(b),
    ensures
        block_index(spec_lowercase(a)) == block_index(spec_lowercase(b)),
        suggestions_for(a) == suggestions_for(b),
{
}

/// There are at most three suggestions.
pub proof fn at_most_three_suggestions(name: Seq<char>)
    ensures
        suggestions_for(name).len() <= 3,
{
}

} // verus!
