//! Character-level string helpers: building strings, decimal and hexadecimal
//! rendering, whitespace trimming, substring search and UTF-8 widths.

use vstd::prelude::*;

verus! {

/// Append one character to a string.
///
/// Trusted: `String::push` appends exactly the given character.
#[verifier::external_body]
pub fn push_char(s: &mut String, c: char)
    ensures
        final(s)@ == old(s)@.push(c),
{
    s.push(c);
}

/// `cp` is a Unicode scalar value: at most U+10FFFF and not a surrogate.
pub open spec fn is_scalar_value(cp: u32) -> bool {
    cp <= 0x10FFFF && !(0xD800 <= cp && cp <= 0xDFFF)
}

/// The character with code point `cp`, if `cp` is a scalar value.
///
/// Trusted: `char::from_u32` returns `Some` exactly for scalar values, holding
/// that code point.
#[verifier::external_body]
pub fn char_from_u32(cp: u32) -> (r: Option<char>)
    ensures
        r is Some <==> is_scalar_value(cp),
        r matches Some(c) ==> c as u32 == cp,
{
    char::from_u32(cp)
}

/// What `str::to_lowercase` returns for a string (Unicode lower-case mapping).
pub uninterp spec fn spec_lowercase(s: Seq<char>) -> Seq<char>;

/// Lower-case a string with the full Unicode mapping.
///
/// Trusted: the result is `str::to_lowercase` of the argument, a function of the
/// characters alone; its value is named by `spec_lowercase`, not spelled out.
#[verifier::external_body]
pub fn lowercase(s: &str) -> (r: String)
    ensures
        r@ == spec_lowercase(s@),
{
    s.to_lowercase()
}

/// The characters of a string slice, in order.
pub fn str_chars(s: &str) -> (v: Vec<char>)
    ensures
        v@ == s@,
{
    let mut v: Vec<char> = Vec::new();
    for c in it: s.chars()
        invariant
            v@ == it.seq().take(it.index() as int),
            it.seq() == s@,
    {
        v.push(c);
    }
    v
}

/// A string made of the given characters.
pub fn string_from_chars(v: &[char]) -> (s: String)
    ensures
        s@ == v@,
{
    let mut s = String::new();
    let mut i: usize = 0;
    while i < v.len()
        invariant
            i <= v.len(),
            s@ == v@.take(i as int),
        decreases v.len() - i,
    {
        push_char(&mut s, v[i]);
        i = i + 1;
    }
    assert(v@.take(v.len() as int) =~= v@);
    s
}

/// Append the characters `v[from..to]` to `s`.
pub fn push_chars_range(s: &mut String, v: &[char], from: usize, to: usize)
    requires
        from <= to <= v.len(),
    ensures
        final(s)@ == old(s)@ + v@.subrange(from as int, to as int),
{
    let mut i: usize = from;
    while i < to
        invariant
            from <= i <= to <= v.len(),
            s@ == old(s)@ + v@.subrange(from as int, i as int),
        decreases to - i,
    {
        push_char(s, v[i]);
        assert(v@.subrange(from as int, i + 1) =~= v@.subrange(from as int, i as int).push(
            v@[i as int],
        ));
        i = i + 1;
    }
}

/// The ASCII digit for `d < 16`, upper-case letters past nine.
pub open spec fn digit_char(d: nat) -> char {
    if d < 10 {
        (48 + d) as char
    } else {
        (55 + d) as char
    }
}

/// The decimal rendering of `n`, without sign or padding.
pub open spec fn decimal(n: nat) -> Seq<char>
    decreases n,
{
    if n < 10 {
        seq![digit_char(n)]
    } else {
        decimal(n / 10).push(digit_char(n % 10))
    }
}

/// The upper-case hexadecimal rendering of `n`, without prefix or padding.
pub open spec fn hex_upper(n: nat) -> Seq<char>
    decreases n,
{
    if n < 16 {
        seq![digit_char(n)]
    } else {
        hex_upper(n / 16).push(digit_char(n % 16))
    }
}

/// `s` left-padded with zeros up to `width` characters.
pub open spec fn zero_pad(s: Seq<char>, width: nat) -> Seq<char> {
    if s.len() >= width {
        s
    } else {
        Seq::new((width - s.len()) as nat, |i: int| '0') + s
    }
}

fn digit(d: u64) -> (c: char)
    requires
        d < 16,
    ensures
        c == digit_char(d as nat),
{
    if d < 10 {
        ((48 + d) as u8) as char
    } else {
        ((55 + d) as u8) as char
    }
}

/// Append the decimal rendering of `n`.
pub fn push_decimal(s: &mut String, n: u64)
    ensures
        final(s)@ == old(s)@ + decimal(n as nat),
    decreases n,
{
    if n >= 10 {
        push_decimal(s, n / 10);
    }
    push_char(s, digit(n % 10));
}

/// Append the upper-case hexadecimal rendering of `n`.
pub fn push_hex(s: &mut String, n: u64)
    ensures
        final(s)@ == old(s)@ + hex_upper(n as nat),
    decreases n,
{
    if n >= 16 {
        push_hex(s, n / 16);
    }
    push_char(s, digit(n % 16));
}

proof fn lemma_hex_len_pos(n: nat)
    ensures
        hex_upper(n).len() >= 1,
        n < 16 ==> hex_upper(n).len() == 1,
        16 <= n < 256 ==> hex_upper(n).len() == 2,
        256 <= n < 4096 ==> hex_upper(n).len() == 3,
        n >= 4096 ==> hex_upper(n).len() >= 4,
    decreases n,
{
    if n >= 16 {
        lemma_hex_len_pos(n / 16);
    }
}

/// Append the upper-case hexadecimal rendering of `n`, zero-padded to at least
/// four digits.
pub fn push_hex4(s: &mut String, n: u64)
    ensures
        final(s)@ == old(s)@ + zero_pad(hex_upper(n as nat), 4),
{
    proof {
        lemma_hex_len_pos(n as nat);
    }
    let ghost start = s@;
    if n < 16 {
        push_char(s, '0');
        push_char(s, '0');
        push_char(s, '0');
    } else if n < 256 {
        push_char(s, '0');
        push_char(s, '0');
    } else if n < 4096 {
        push_char(s, '0');
    }
    push_hex(s, n);
    assert(s@ =~= start + zero_pad(hex_upper(n as nat), 4));
}

/// Characters with the Unicode `White_Space` property, as `char::is_whitespace`.
pub open spec fn is_white_space(c: char) -> bool {
    let u = c as u32;
    (0x09 <= u && u <= 0x0D) || u == 0x20 || u == 0x85 || u == 0xA0 || u == 0x1680 || (0x2000
        <= u && u <= 0x200A) || u == 0x2028 || u == 0x2029 || u == 0x202F || u == 0x205F || u
        == 0x3000
}

fn white_space(c: char) -> (b: bool)
    ensures
        b == is_white_space(c),
{
    let u = c as u32;
    (0x09 <= u && u <= 0x0D) || u == 0x20 || u == 0x85 || u == 0xA0 || u == 0x1680 || (0x2000
        <= u && u <= 0x200A) || u == 0x2028 || u == 0x2029 || u == 0x202F || u == 0x205F || u
        == 0x3000
}

/// `s` without leading white space.
pub open spec fn trim_start(s: Seq<char>) -> Seq<char>
    decreases s.len(),
{
    if s.len() > 0 && is_white_space(s[0]) {
        trim_start(s.drop_first())
    } else {
        s
    }
}

/// `s` without trailing white space.
pub open spec fn trim_end(s: Seq<char>) -> Seq<char>
    decreases s.len(),
{
    if s.len() > 0 && is_white_space(s.last()) {
        trim_end(s.drop_last())
    } else {
        s
    }
}

/// `s` without leading and trailing white space, as `str::trim`.
pub open spec fn trim(s: Seq<char>) -> Seq<char> {
    trim_end(trim_start(s))
}

proof fn lemma_trim_start_skip(s: Seq<char>, i: int)
    requires
        0 <= i <= s.len(),
        forall|j: int| 0 <= j < i ==> is_white_space(#[trigger] s[j]),
    ensures
        trim_start(s) == trim_start(s.subrange(i, s.len() as int)),
    decreases i,
{
    if i > 0 {
        assert(s.subrange(1, s.len() as int) =~= s.drop_first());
        lemma_trim_start_skip(s.drop_first(), i - 1);
        assert(s.drop_first().subrange(i - 1, s.drop_first().len() as int) =~= s.subrange(
            i,
            s.len() as int,
        ));
    } else {
        assert(s.subrange(0, s.len() as int) =~= s);
    }
}

proof fn lemma_trim_end_skip(s: Seq<char>, k: int)
    requires
        0 <= k <= s.len(),
        forall|j: int| k <= j < s.len() ==> is_white_space(#[trigger] s[j]),
    ensures
        trim_end(s) == trim_end(s.subrange(0, k)),
    decreases s.len() - k,
{
    if k < s.len() {
        lemma_trim_end_skip(s.drop_last(), k);
        assert(s.drop_last().subrange(0, k) =~= s.subrange(0, k));
    } else {
        assert(s.subrange(0, k) =~= s);
    }
}

/// The string slice without leading and trailing white space.
pub fn trim_str(s: &str) -> (r: String)
    ensures
        r@ == trim(s@),
{
    let v = str_chars(s);
    let mut i: usize = 0;
    while i < v.len() && white_space(v[i])
        invariant
            i <= v.len(),
            v@ == s@,
            forall|j: int| 0 <= j < i ==> is_white_space(#[trigger] v@[j]),
        decreases v.len() - i,
    {
        i = i + 1;
    }
    proof {
        lemma_trim_start_skip(v@, i as int);
    }
    let ghost rest = v@.subrange(i as int, v@.len() as int);
    assert(rest.len() == 0 || !is_white_space(rest[0]));
    assert(trim_start(v@) == rest);
    let mut k: usize = v.len();
    while k > i && white_space(v[k - 1])
        invariant
            i <= k <= v.len(),
            v@ == s@,
            forall|j: int| k <= j < v.len() ==> is_white_space(#[trigger] v@[j]),
        decreases k,
    {
        k = k - 1;
    }
    proof {
        let r = v@.subrange(i as int, k as int);
        lemma_trim_end_skip(rest, k - i);
        assert(rest.subrange(0, k - i) =~= r);
        assert(r.len() == 0 || !is_white_space(r.last()));
        assert(trim_end(r) == r);
    }
    let mut out = String::new();
    push_chars_range(&mut out, v.as_slice(), i, k);
    assert(out@ =~= v@.subrange(i as int, k as int));
    out
}

/// `needle` occurs in `hay` starting at index `i`.
pub open spec fn occurs_at(hay: Seq<char>, needle: Seq<char>, i: int) -> bool {
    0 <= i && i + needle.len() <= hay.len() && hay.subrange(i, i + needle.len()) == needle
}

/// `needle` occurs somewhere in `hay`, as `str::contains`.
pub open spec fn contains_seq(hay: Seq<char>, needle: Seq<char>) -> bool {
    exists|i: int| occurs_at(hay, needle, i)
}

/// The first index at which `needle` occurs in `hay`, as `str::find` counted in
/// characters.
pub open spec fn find_seq(hay: Seq<char>, needle: Seq<char>) -> Option<int> {
    if contains_seq(hay, needle) {
        Some(choose|i: int| occurs_at(hay, needle, i) && forall|j: int| 0 <= j < i ==> !occurs_at(hay, needle, j))
    } else {
        None
    }
}

fn occurs_at_exec(hay: &[char], needle: &[char], i: usize) -> (b: bool)
    requires
        i + needle.len() <= hay.len(),
    ensures
        b == occurs_at(hay@, needle@, i as int),
{
    let mut k: usize = 0;
    while k < needle.len()
        invariant
            i + needle.len() <= hay.len(),
            k <= needle.len(),
            forall|j: int| 0 <= j < k ==> hay@[i + j] == needle@[j],
        decreases needle.len() - k,
    {
        if hay[i + k] != needle[k] {
            assert(hay@.subrange(i as int, i + needle.len())[k as int] != needle@[k as int]);
            return false;
        }
        k = k + 1;
    }
    assert(hay@.subrange(i as int, i + needle.len()) =~= needle@);
    true
}

/// The first character index at which `needle` occurs in `hay`.
pub fn find_chars(hay: &[char], needle: &[char]) -> (r: Option<usize>)
    ensures
        r matches Some(i) ==> find_seq(hay@, needle@) == Some(i as int) && occurs_at(hay@, needle@, i as int),
        r is None ==> find_seq(hay@, needle@) is None,
{
    if needle.len() > hay.len() {
        assert(!contains_seq(hay@, needle@));
        return None;
    }
    let last = hay.len() - needle.len();
    let mut i: usize = 0;
    loop
        invariant
            needle.len() <= hay.len(),
            last == hay.len() - needle.len(),
            i <= last,
            forall|j: int| 0 <= j < i ==> !occurs_at(hay@, needle@, j),
        ensures
            forall|j: int| 0 <= j <= last ==> !occurs_at(hay@, needle@, j),
        decreases last - i,
    {
        if occurs_at_exec(hay, needle, i) {
            assert(contains_seq(hay@, needle@));
            let ghost c = choose|k: int|
                occurs_at(hay@, needle@, k) && forall|j: int| 0 <= j < k ==> !occurs_at(hay@, needle@, j);
            assert(occurs_at(hay@, needle@, c));
            assert(c == i) by {
                if c < i {
                    assert(!occurs_at(hay@, needle@, c));
                } else if c > i {
                    assert(!occurs_at(hay@, needle@, i as int));
                }
            }
            return Some(i);
        }
        if i == last {
            break;
        }
        i = i + 1;
    }
    assert(!contains_seq(hay@, needle@));
    None
}

/// Whether `needle` occurs in `hay`.
pub fn str_contains(hay: &str, needle: &str) -> (b: bool)
    ensures
        b == contains_seq(hay@, needle@),
{
    let h = str_chars(hay);
    let n = str_chars(needle);
    let r = find_chars(h.as_slice(), n.as_slice());
    r.is_some()
}

/// The number of bytes in the UTF-8 encoding of `c`.
pub open spec fn utf8_width(c: char) -> nat {
    let u = c as u32;
    if u < 0x80 {
        1
    } else if u < 0x800 {
        2
    } else if u < 0x10000 {
        3
    } else {
        4
    }
}

/// The number of bytes in the UTF-8 encoding of `s`, as `str::len`.
pub open spec fn utf8_len(s: Seq<char>) -> nat
    decreases s.len(),
{
    if s.len() == 0 {
        0
    } else {
        utf8_len(s.drop_last()) + utf8_width(s.last())
    }
}

/// The UTF-8 width of one character, as `char::len_utf8`.
pub fn char_width(c: char) -> (n: usize)
    ensures
        n == utf8_width(c),
{
    let u = c as u32;
    if u < 0x80 {
        1
    } else if u < 0x800 {
        2
    } else if u < 0x10000 {
        3
    } else {
        4
    }
}

/// Appending a character adds its UTF-8 width.
pub proof fn lemma_utf8_len_push(s: Seq<char>, c: char)
    ensures
        utf8_len(s.push(c)) == utf8_len(s) + utf8_width(c),
{
    assert(s.push(c).drop_last() =~= s);
}

/// Taking one more character adds its UTF-8 width.
pub proof fn lemma_utf8_len_take_next(s: Seq<char>, i: int)
    requires
        0 <= i < s.len(),
    ensures
        utf8_len(s.take(i + 1)) == utf8_len(s.take(i)) + utf8_width(s[i]),
{
    assert(s.take(i + 1).drop_last() =~= s.take(i));
}

/// Every character takes at least one byte.
pub proof fn lemma_utf8_len_at_least_len(s: Seq<char>)
    ensures
        utf8_len(s) >= s.len(),
    decreases s.len(),
{
    if s.len() > 0 {
        lemma_utf8_len_at_least_len(s.drop_last());
    }
}

/// The UTF-8 length of a prefix grows strictly with the prefix.
pub proof fn lemma_utf8_prefix_strict(s: Seq<char>, i: int, j: int)
    requires
        0 <= i < j <= s.len(),
    ensures
        utf8_len(s.take(i)) + (j - i) <= utf8_len(s.take(j)),
    decreases j - i,
{
    lemma_utf8_len_take_next(s, j - 1);
    if i < j - 1 {
        lemma_utf8_prefix_strict(s, i, j - 1);
    }
}

/// A prefix is no longer in UTF-8 than the whole.
pub proof fn lemma_utf8_prefix_le(s: Seq<char>, i: int)
    requires
        0 <= i <= s.len(),
    ensures
        utf8_len(s.take(i)) <= utf8_len(s),
{
    if i < s.len() {
        lemma_utf8_prefix_strict(s, i, s.len() as int);
    }
    assert(s.take(s.len() as int) =~= s);
}

/// `line` without one trailing carriage return.
pub open spec fn strip_cr(line: Seq<char>) -> Seq<char> {
    if line.len() > 0 && line.last() == '\r' {
        line.drop_last()
    } else {
        line
    }
}

/// The lines completed within the first `i` characters of `s`, and the line
/// being read after them.
pub open spec fn lines_fold(s: Seq<char>, i: nat) -> (Seq<Seq<char>>, Seq<char>)
    decreases i,
{
    if i == 0 || i > s.len() {
        (seq![], seq![])
    } else {
        let (d, cur) = lines_fold(s, (i - 1) as nat);
        if s[i - 1] == '\n' {
            (d.push(strip_cr(cur)), seq![])
        } else {
            (d, cur.push(s[i - 1]))
        }
    }
}

/// The lines of `s` as `str::lines` yields them: split at `\n`, each line
/// ended by `\n` loses one trailing `\r`, and a last line is kept only when it
/// is not empty.
pub open spec fn str_lines(s: Seq<char>) -> Seq<Seq<char>> {
    let (d, cur) = lines_fold(s, s.len());
    if cur.len() > 0 {
        d.push(cur)
    } else {
        d
    }
}

/// The summed UTF-8 length of some lines.
pub open spec fn total_utf8(d: Seq<Seq<char>>) -> nat
    decreases d.len(),
{
    if d.len() == 0 {
        0
    } else {
        total_utf8(d.drop_last()) + utf8_len(d.last())
    }
}

proof fn lemma_total_utf8_push(d: Seq<Seq<char>>, l: Seq<char>)
    ensures
        total_utf8(d.push(l)) == total_utf8(d) + utf8_len(l),
{
    assert(d.push(l).drop_last() =~= d);
}

proof fn lemma_total_utf8_elem(d: Seq<Seq<char>>, j: int)
    requires
        0 <= j < d.len(),
    ensures
        utf8_len(d[j]) <= total_utf8(d),
    decreases d.len(),
{
    if j < d.len() - 1 {
        lemma_total_utf8_elem(d.drop_last(), j);
    }
}

/// Each line of a text is no longer in UTF-8 than the text, and there are no
/// more lines than characters.
pub proof fn lemma_lines_bounded(s: Seq<char>)
    ensures
        str_lines(s).len() <= s.len(),
        forall|j: int| 0 <= j < str_lines(s).len() ==> utf8_len(#[trigger] str_lines(s)[j]) <= utf8_len(s),
{
    lemma_lines_fold_bounded(s, s.len());
    let (d, cur) = lines_fold(s, s.len());
    assert(s.take(s.len() as int) =~= s);
    let l = str_lines(s);
    if cur.len() > 0 {
        lemma_total_utf8_push(d, cur);
    }
    assert(total_utf8(l) <= utf8_len(s));
    assert forall|j: int| 0 <= j < l.len() implies utf8_len(#[trigger] l[j]) <= utf8_len(s) by {
        lemma_total_utf8_elem(l, j);
    }
}

proof fn lemma_lines_fold_bounded(s: Seq<char>, i: nat)
    requires
        i <= s.len(),
    ensures
        lines_fold(s, i).0.len() + lines_fold(s, i).1.len() <= i,
        total_utf8(lines_fold(s, i).0) + utf8_len(lines_fold(s, i).1) <= utf8_len(s.take(i as int)),
    decreases i,
{
    if i > 0 {
        lemma_lines_fold_bounded(s, (i - 1) as nat);
        let (d, cur) = lines_fold(s, (i - 1) as nat);
        lemma_utf8_len_take_next(s, i - 1);
        if s[i - 1] == '\n' {
            lemma_total_utf8_push(d, strip_cr(cur));
            if cur.len() > 0 && cur.last() == '\r' {
                assert(cur.drop_last().push(cur.last()) =~= cur);
                lemma_utf8_len_push(cur.drop_last(), cur.last());
            }
        } else {
            lemma_utf8_len_push(cur, s[i - 1]);
        }
    }
}

/// The character sequences of some character vectors.
pub open spec fn chars_view(v: Seq<Vec<char>>) -> Seq<Seq<char>> {
    v.map_values(|l: Vec<char>| l@)
}

/// The lines of a text, as `str::lines`.
pub fn split_lines(s: &str) -> (r: Vec<Vec<char>>)
    ensures
        chars_view(r@) == str_lines(s@),
{
    let chars = str_chars(s);
    let mut done: Vec<Vec<char>> = Vec::new();
    let mut cur: Vec<char> = Vec::new();
    let mut i: usize = 0;
    while i < chars.len()
        invariant
            i <= chars.len(),
            chars@ == s@,
            chars_view(done@) == lines_fold(s@, i as nat).0,
            cur@ == lines_fold(s@, i as nat).1,
        decreases chars.len() - i,
    {
        let c = chars[i];
        if c == '\n' {
            let mut line = cur;
            let n = line.len();
            if n > 0 && line[n - 1] == '\r' {
                line.pop();
            }
            assert(line@ == strip_cr(lines_fold(s@, i as nat).1));
            let ghost before = done@;
            done.push(line);
            assert(chars_view(done@) =~= chars_view(before).push(line@));
            cur = Vec::new();
        } else {
            cur.push(c);
        }
        i = i + 1;
    }
    assert(s@.len() == chars.len());
    if cur.len() > 0 {
        let ghost before = done@;
        done.push(cur);
        assert(chars_view(done@) =~= chars_view(before).push(cur@));
    }
    done
}

} // verus!

verus! {

/// Whether two string slices hold the same characters.
pub fn str_eq(a: &str, b: &str) -> (r: bool)
    ensures
        r == (a@ == b@),
{
    let x = str_chars(a);
    let y = str_chars(b);
    if x.len() != y.len() {
        return false;
    }
    let mut i: usize = 0;
    while i < x.len()
        invariant
            i <= x.len(),
            x.len() == y.len(),
            x@ == a@,
            y@ == b@,
            forall|j: int| 0 <= j < i ==> x@[j] == y@[j],
        decreases x.len() - i,
    {
        if x[i] != y[i] {
            return false;
        }
        i = i + 1;
    }
    assert(x@ =~= y@);
    true
}

} // verus!

verus! {

proof fn lemma_utf8_len_first(s: Seq<char>)
    requires
        s.len() > 0,
    ensures
        utf8_len(s) == utf8_width(s[0]) + utf8_len(s.drop_first()),
    decreases s.len(),
{
    let d = s.drop_last();
    let f = s.drop_first();
    assert(utf8_len(s) == utf8_len(d) + utf8_width(s.last()));
    if s.len() == 1 {
        assert(d.len() == 0);
        assert(f.len() == 0);
        assert(utf8_len(d) == 0);
        assert(utf8_len(f) == 0);
        assert(s.last() == s[0]);
    } else {
        lemma_utf8_len_first(d);
        assert(d[0] == s[0]);
        assert(f.drop_last() =~= d.drop_first());
        assert(f.last() == s.last());
        assert(utf8_len(f) == utf8_len(f.drop_last()) + utf8_width(f.last()));
    }
}

proof fn lemma_encode_utf8_len(s: Seq<char>)
    ensures
        vstd::utf8::encode_utf8(s).len() == utf8_len(s),
    decreases s.len(),
{
    if s.len() > 0 {
        lemma_encode_utf8_len(s.drop_first());
        lemma_utf8_len_first(s);
        let u = s[0] as u32;
        vstd::utf8::char_is_scalar(s[0]);
        assert(vstd::utf8::encode_scalar(u).len() == utf8_width(s[0]));
    }
}

/// The UTF-8 length of a string slice fits in a `usize`.
pub fn utf8_len_fits(s: &str)
    ensures
        utf8_len(s@) <= usize::MAX,
{
    let b = s.as_bytes();
    proof {
        lemma_encode_utf8_len(s@);
    }
    assert(b@.len() == b.len());
}

} // verus!

verus! {

/// The lines each followed by a line feed, one after the other.
pub open spec fn join_lines(ls: Seq<Seq<char>>) -> Seq<char>
    decreases ls.len(),
{
    if ls.len() == 0 {
        Seq::empty()
    } else {
        join_lines(ls.drop_last()) + ls.last() + seq!['\n']
    }
}

/// `s` without each carriage return that stands right before a line feed.
pub open spec fn drop_cr_before_lf(s: Seq<char>) -> Seq<char>
    decreases s.len(),
{
    if s.len() == 0 {
        s
    } else if s.len() >= 2 && s.last() == '\n' && s[s.len() - 2] == '\r' {
        drop_cr_before_lf(s.drop_last().drop_last()).push('\n')
    } else {
        drop_cr_before_lf(s.drop_last()).push(s.last())
    }
}

/// `s` has a last line not ended by a line feed.
pub open spec fn ends_open(s: Seq<char>) -> bool {
    s.len() > 0 && s.last() != '\n'
}

proof fn lemma_lines_fold_join(s: Seq<char>, i: nat)
    requires
        i <= s.len(),
    ensures
        join_lines(lines_fold(s, i).0) + lines_fold(s, i).1 == drop_cr_before_lf(s.take(i as int)),
        !lines_fold(s, i).1.contains('\n'),
        forall|k: int| 0 <= k < lines_fold(s, i).0.len() ==> !(#[trigger] lines_fold(s, i).0[k]).contains('\n'),
        i > 0 && s[i - 1] != '\n' ==> lines_fold(s, i).1.len() > 0 && lines_fold(s, i).1.last() == s[i - 1],
        i > 0 && s[i - 1] == '\n' ==> lines_fold(s, i).1.len() == 0,
        i == 0 ==> lines_fold(s, i).1.len() == 0,
    decreases i,
{
    if i > 0 {
        let n = (i - 1) as nat;
        lemma_lines_fold_join(s, n);
        let (d, cur) = lines_fold(s, n);
        let t = s.take(i as int);
        assert(t.drop_last() =~= s.take(n as int));
        assert(t.last() == s[n as int]);
        if s[n as int] == '\n' {
            let line = strip_cr(cur);
            let d2 = d.push(line);
            assert(d2.drop_last() =~= d);
            assert(join_lines(d2) == join_lines(d) + line + seq!['\n']);
            if n >= 1 && s[n - 1] == '\r' {
                assert(t[t.len() - 2] == '\r');
                assert(t.drop_last().drop_last() =~= s.take(n - 1));
                let u = s.take(n as int);
                assert(u.drop_last() =~= s.take(n - 1));
                assert(u.last() == '\r');
                assert(drop_cr_before_lf(u) == drop_cr_before_lf(s.take(n - 1)).push('\r'));
                assert(cur.last() == '\r');
                assert(cur =~= line.push('\r'));
                let a = join_lines(d) + line;
                let b = drop_cr_before_lf(s.take(n - 1));
                assert(join_lines(d) + cur =~= a.push('\r'));
                assert(a.push('\r') == b.push('\r'));
                assert(a.push('\r').drop_last() =~= a);
                assert(b.push('\r').drop_last() =~= b);
                assert(a == b);
                assert(join_lines(d2) + lines_fold(s, i).1 =~= drop_cr_before_lf(s.take(n - 1)).push('\n'));
            } else {
                if n >= 1 {
                    assert(t[t.len() - 2] == s[n - 1]);
                }
                assert(line == cur);
                assert(join_lines(d2) + lines_fold(s, i).1 =~= (join_lines(d) + cur).push('\n'));
            }
            assert forall|k: int| 0 <= k < d2.len() implies !(#[trigger] d2[k]).contains('\n') by {
                if k < d.len() {
                    assert(d2[k] == d[k]);
                } else {
                    if line.contains('\n') {
                        let x = choose|x: int| 0 <= x < line.len() && line[x] == '\n';
                        assert(cur[x] == line[x]);
                    }
                }
            }
        } else {
            let cur2 = cur.push(s[n as int]);
            assert(join_lines(d) + cur2 =~= (join_lines(d) + cur).push(s[n as int]));
            if n >= 1 {
                assert(t[t.len() - 2] == s[n - 1]);
            }
            if cur2.contains('\n') {
                let x = choose|x: int| 0 <= x < cur2.len() && cur2[x] == '\n';
                if x < cur.len() {
                    assert(cur[x] == cur2[x]);
                }
            }
        }
    }
}

/// The lines of a text are its pieces between line feeds: none holds a line
/// feed, and joining them, each followed by a line feed, gives the text back
/// (without the carriage return that ends a line before its line feed),
/// with one more line feed when the last line is not ended by one. So every
/// line feed ends exactly one line, empty lines included.
pub proof fn lines_rejoin_to_text(s: Seq<char>)
    ensures
        forall|k: int| 0 <= k < str_lines(s).len() ==> !(#[trigger] str_lines(s)[k]).contains('\n'),
        join_lines(str_lines(s)) == drop_cr_before_lf(s) + if ends_open(s) {
            seq!['\n']
        } else {
            Seq::<char>::empty()
        },
{
    lemma_lines_fold_join(s, s.len());
    let (d, cur) = lines_fold(s, s.len());
    assert(s.take(s.len() as int) =~= s);
    if cur.len() > 0 {
        let l = d.push(cur);
        assert(l.drop_last() =~= d);
        assert forall|k: int| 0 <= k < l.len() implies !(#[trigger] l[k]).contains('\n') by {
            if k < d.len() {
                assert(l[k] == d[k]);
            }
        }
    } else {
        assert(join_lines(d) + cur =~= join_lines(d));
    }
}

/// The number of line feeds among the first `j` characters of `s`.
pub open spec fn newlines_before(s: Seq<char>, j: int) -> nat {
    crate::config::rules::count_char(s.take(j), '\n')
}

/// The number of characters between the last line feed before index `j`
/// (or the start) and `j`.
pub open spec fn column_before(s: Seq<char>, j: int) -> nat
    decreases j,
{
    if j <= 0 || j > s.len() {
        0
    } else if s[j - 1] == '\n' {
        0
    } else {
        1 + column_before(s, j - 1)
    }
}

/// Line `l` stands in `s` from index `st`: on line `m` (counted from 0),
/// at the start of that line.
pub open spec fn line_at(s: Seq<char>, l: Seq<char>, m: int, st: int) -> bool {
    &&& 0 <= st
    &&& st + l.len() <= s.len()
    &&& s.subrange(st, st + l.len()) == l
    &&& newlines_before(s, st) == m
    &&& column_before(s, st) == 0
}

/// Line `l` stands somewhere in `s` as line `m`.
pub open spec fn line_placed(s: Seq<char>, l: Seq<char>, m: int) -> bool {
    exists|st: int| line_at(s, l, m, st)
}

proof fn lemma_newlines_step(s: Seq<char>, j: int)
    requires
        0 <= j < s.len(),
    ensures
        newlines_before(s, j + 1) == newlines_before(s, j) + if s[j] == '\n' {
            1nat
        } else {
            0nat
        },
{
    assert(s.take(j + 1).drop_last() =~= s.take(j));
    assert(s.take(j + 1).last() == s[j]);
}

/// Inside a placed line without line feeds, character `x` of the line is
/// character `st + x` of `s`, on the line's number and in column `x`.
pub proof fn lemma_line_at_inside(s: Seq<char>, l: Seq<char>, m: int, st: int, x: int)
    requires
        line_at(s, l, m, st),
        !l.contains('\n'),
        0 <= x <= l.len(),
    ensures
        newlines_before(s, st + x) == m,
        column_before(s, st + x) == x,
        x < l.len() ==> s[st + x] == l[x],
    decreases x,
{
    if x < l.len() {
        assert(s.subrange(st, st + l.len())[x] == s[st + x]);
    }
    if x > 0 {
        lemma_line_at_inside(s, l, m, st, x - 1);
        assert(s.subrange(st, st + l.len())[x - 1] == s[st + x - 1]);
        assert(s[st + x - 1] == l[x - 1]);
        lemma_newlines_step(s, st + x - 1);
    }
}

proof fn lemma_lines_fold_placed(s: Seq<char>, i: nat)
    requires
        i <= s.len(),
    ensures
        ({
            let (d, cur) = lines_fold(s, i);
            &&& d.len() == newlines_before(s, i as int)
            &&& cur.len() <= i
            &&& cur == s.subrange(i - cur.len(), i as int)
            &&& column_before(s, i as int) == cur.len()
            &&& newlines_before(s, i - cur.len()) == d.len()
            &&& column_before(s, i - cur.len()) == 0
            &&& forall|m: int| 0 <= m < d.len() ==> line_placed(s, #[trigger] d[m], m)
        }),
    decreases i,
{
    if i == 0 {
        assert(s.take(0) =~= Seq::<char>::empty());
        assert(s.subrange(0, 0) =~= Seq::<char>::empty());
    } else {
        let n = (i - 1) as nat;
        lemma_lines_fold_placed(s, n);
        let (d, cur) = lines_fold(s, n);
        lemma_newlines_step(s, n as int);
        let st = n - cur.len();
        if s[n as int] == '\n' {
            let l = strip_cr(cur);
            let d2 = d.push(l);
            assert(s.subrange(st, st + l.len()) =~= l);
            assert(line_at(s, l, d.len() as int, st));
            assert forall|m: int| 0 <= m < d2.len() implies line_placed(s, #[trigger] d2[m], m) by {
                if m < d.len() {
                    assert(d2[m] == d[m]);
                } else {
                    assert(line_at(s, d2[m], m, st));
                }
            }
            assert(s.subrange(i as int, i as int) =~= Seq::<char>::empty());
        } else {
            let cur2 = cur.push(s[n as int]);
            assert(s.subrange(i - cur2.len(), i as int) =~= cur2);
        }
    }
}

/// Every line that `str_lines` gives is placed in the text: line `m` starts
/// right after the `m`-th line feed and holds no line feed.
pub proof fn lemma_str_lines_placed(s: Seq<char>)
    ensures
        forall|m: int| 0 <= m < str_lines(s).len() ==> line_placed(s, #[trigger] str_lines(s)[m], m)
            && !str_lines(s)[m].contains('\n'),
{
    lemma_lines_fold_placed(s, s.len());
    lines_rejoin_to_text(s);
    let (d, cur) = lines_fold(s, s.len());
    if cur.len() > 0 {
        let l = d.push(cur);
        let st = s.len() - cur.len();
        assert(line_at(s, cur, d.len() as int, st));
        assert forall|m: int| 0 <= m < l.len() implies line_placed(s, #[trigger] l[m], m) by {
            if m < d.len() {
                assert(l[m] == d[m]);
            } else {
                assert(line_at(s, l[m], m, st));
            }
        }
    }
}

/// Character `j` of `s` belongs to a line of `ls` placed in `s`.
pub open spec fn in_some_line(s: Seq<char>, ls: Seq<Seq<char>>, j: int) -> bool {
    exists|m: int, st: int| 0 <= m < ls.len() && #[trigger] line_at(s, ls[m], m, st) && st <= j < st + ls[m].len()
}

/// Character `j` of `s` is text: neither a line feed nor the carriage
/// return right before one.
pub open spec fn text_char(s: Seq<char>, j: int) -> bool {
    0 <= j < s.len() && s[j] != '\n' && !(s[j] == '\r' && j + 1 < s.len() && s[j + 1] == '\n')
}

proof fn lemma_lines_fold_cover(s: Seq<char>, i: nat)
    requires
        i <= s.len(),
    ensures
        forall|j: int| 0 <= j < i - lines_fold(s, i).1.len() && #[trigger] text_char(s, j) ==> in_some_line(s, lines_fold(s, i).0, j),
    decreases i,
{
    if i > 0 {
        let n = (i - 1) as nat;
        lemma_lines_fold_cover(s, n);
        lemma_lines_fold_placed(s, n);
        lemma_lines_fold_join(s, n);
        let (d, cur) = lines_fold(s, n);
        if s[n as int] == '\n' {
            let l = strip_cr(cur);
            let d2 = d.push(l);
            let st = n - cur.len();
            lemma_newlines_step(s, n as int);
            assert(s.subrange(st, st + l.len()) =~= l);
            assert(line_at(s, l, d.len() as int, st));
            assert(d2[d.len() as int] == l);
            assert forall|j: int| 0 <= j < i && #[trigger] text_char(s, j) implies in_some_line(s, d2, j) by {
                if j < st {
                    let (m, st0) = choose|m: int, st0: int| 0 <= m < d.len() && #[trigger] line_at(s, d[m], m, st0) && st0 <= j < st0 + d[m].len();
                    assert(d2[m] == d[m]);
                    assert(line_at(s, d2[m], m, st0));
                } else if j < n {
                    if cur.len() > 0 && cur.last() == '\r' {
                        assert(j != n - 1) by {
                            if j == n - 1 {
                                assert(s[j] == '\r');
                            }
                        }
                    }
                    assert(line_at(s, d2[d.len() as int], d.len() as int, st));
                }
            }
            assert(lines_fold(s, i).1.len() == 0);
        } else {
            let d2 = lines_fold(s, i).0;
            assert(d2 == d);
        }
    }
}

/// Every character of the text that is neither a line feed nor the carriage
/// return right before one lies on a line that `str_lines` gives.
pub proof fn lemma_text_chars_on_lines(s: Seq<char>)
    ensures
        forall|j: int| #[trigger] text_char(s, j) ==> in_some_line(s, str_lines(s), j),
{
    lemma_lines_fold_cover(s, s.len());
    lemma_lines_fold_placed(s, s.len());
    let (d, cur) = lines_fold(s, s.len());
    let ls = str_lines(s);
    assert forall|j: int| #[trigger] text_char(s, j) implies in_some_line(s, ls, j) by {
        if j < s.len() - cur.len() {
            let (m, st0) = choose|m: int, st0: int| 0 <= m < d.len() && #[trigger] line_at(s, d[m], m, st0) && st0 <= j < st0 + d[m].len();
            if cur.len() > 0 {
                assert(ls[m] == d[m]);
            }
            assert(line_at(s, ls[m], m, st0));
        } else {
            let st = s.len() - cur.len();
            assert(cur.len() > 0);
            assert(ls[d.len() as int] == cur);
            assert(line_at(s, cur, d.len() as int, st));
            assert(line_at(s, ls[d.len() as int], d.len() as int, st));
        }
    }
}

} // verus!

