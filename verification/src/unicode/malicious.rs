//! The built-in table of malicious Unicode patterns.

use vstd::prelude::*;

verus! {

/// Category of a malicious Unicode pattern.
#[derive(Debug, Clone, Copy, PartialEq, Eq, PartialOrd, Ord, Hash, Structural)]
pub enum MaliciousCategory {
    ZeroWidth,
    BidiOverride,
    Homoglyph,
    ControlChar,
    NonStandard,
}

/// Severity of a violation, ordered `Info < Warning < Error`.
#[derive(Debug, Clone, Copy, PartialEq, Eq, PartialOrd, Ord, Hash, Structural)]
pub enum Severity {
    Info,
    Warning,
    Error,
}

/// The position of a severity in the order `Info < Warning < Error`.
pub open spec fn severity_rank(s: Severity) -> nat {
    match s {
        Severity::Info => 0,
        Severity::Warning => 1,
        Severity::Error => 2,
    }
}

/// Whether `a` is at least as severe as `b`.
pub fn severity_at_least(a: Severity, b: Severity) -> (r: bool)
    ensures
        r == (severity_rank(a) >= severity_rank(b)),
{
    let ra: u8 = match a {
        Severity::Info => 0,
        Severity::Warning => 1,
        Severity::Error => 2,
    };
    let rb: u8 = match b {
        Severity::Info => 0,
        Severity::Warning => 1,
        Severity::Error => 2,
    };
    ra >= rb
}

/// A named set of code points considered malicious.
#[derive(Debug, Clone)]
pub struct MaliciousPattern {
    pub name: String,
    pub category: MaliciousCategory,
    pub code_points: Vec<u32>,
    pub severity: Severity,
    pub description: String,
}

impl MaliciousPattern {
    /// Whether `code_point` belongs to this pattern.
    pub fn matches(&self, code_point: u32) -> (b: bool)
        ensures
            b == self.code_points@.contains(code_point),
    {
        let mut i: usize = 0;
        while i < self.code_points.len()
            invariant
                i <= self.code_points.len(),
                forall|j: int| 0 <= j < i ==> self.code_points@[j] != code_point,
            decreases self.code_points.len() - i,
        {
            if self.code_points[i] == code_point {
                assert(self.code_points@[i as int] == code_point);
                return true;
            }
            i = i + 1;
        }
        false
    }
}

/// The number of built-in patterns.
pub const PATTERN_COUNT: usize = 20;

/// Membership of `cp` in built-in pattern `i`.
pub open spec fn in_pattern(i: int, cp: u32) -> bool {
    if i == 0 {
        cp == 0x200B
    } else if i == 1 {
        cp == 0x200C
    } else if i == 2 {
        cp == 0x200D
    } else if i == 3 {
        cp == 0xFEFF
    } else if i == 4 {
        cp == 0x202A
    } else if i == 5 {
        cp == 0x202B
    } else if i == 6 {
        cp == 0x202C
    } else if i == 7 {
        cp == 0x202D
    } else if i == 8 {
        cp == 0x202E
    } else if i == 9 {
        cp == 0x2066
    } else if i == 10 {
        cp == 0x2067
    } else if i == 11 {
        cp == 0x2068
    } else if i == 12 {
        cp == 0x2069
    } else if i == 13 {
        cp == 0x061C || cp == 0x200E || cp == 0x200F
    } else if i == 14 {
        cp == 0x0430 || cp == 0x0435 || cp == 0x043E || cp == 0x0440 || cp == 0x0441 || cp
            == 0x0445 || cp == 0x0443 || cp == 0x0410 || cp == 0x0415 || cp == 0x041E || cp
            == 0x0420 || cp == 0x0421 || cp == 0x0425
    } else if i == 15 {
        cp == 0x03B1 || cp == 0x03BF || cp == 0x03C1 || cp == 0x03BD || cp == 0x0391 || cp
            == 0x039F || cp == 0x03A1
    } else if i == 16 {
        0xFF01 <= cp && cp <= 0xFF5E
    } else if i == 17 {
        (0x1D400 <= cp && cp <= 0x1D7FF) || cp == 0x2102 || cp == 0x210D || cp == 0x2115 || cp
            == 0x2119 || cp == 0x211A || cp == 0x211D || cp == 0x2124
    } else if i == 18 {
        0x0300 <= cp && cp <= 0x036F
    } else if i == 19 {
        cp == 0x00A0 || cp == 0x1680 || cp == 0x180E || (0x2000 <= cp && cp <= 0x200A) || cp
            == 0x2028 || cp == 0x2029 || cp == 0x202F || cp == 0x205F || cp == 0x3000
    } else {
        false
    }
}

/// The first built-in pattern, at index `k` or later, that holds `cp`.
pub open spec fn first_pattern_from(k: int, cp: u32) -> Option<int>
    decreases 20 - k,
{
    if k < 0 || k >= 20 {
        None
    } else if in_pattern(k, cp) {
        Some(k)
    } else {
        first_pattern_from(k + 1, cp)
    }
}

/// The index of the first built-in pattern that holds `cp`.
pub open spec fn pattern_index(cp: u32) -> Option<int> {
    first_pattern_from(0, cp)
}

/// The name of built-in pattern `i`.
pub open spec fn pattern_name(i: int) -> Seq<char> {
    if i == 0 {
        "zero-width-space"@
    } else if i == 1 {
        "zero-width-non-joiner"@
    } else if i == 2 {
        "zero-width-joiner"@
    } else if i == 3 {
        "zero-width-no-break-space"@
    } else if i == 4 {
        "left-to-right-embedding"@
    } else if i == 5 {
        "right-to-left-embedding"@
    } else if i == 6 {
        "pop-directional-formatting"@
    } else if i == 7 {
        "left-to-right-override"@
    } else if i == 8 {
        "right-to-left-override"@
    } else if i == 9 {
        "left-to-right-isolate"@
    } else if i == 10 {
        "right-to-left-isolate"@
    } else if i == 11 {
        "first-strong-isolate"@
    } else if i == 12 {
        "pop-directional-isolate"@
    } else if i == 13 {
        "bidi-marks"@
    } else if i == 14 {
        "cyrillic-homoglyphs"@
    } else if i == 15 {
        "greek-homoglyphs"@
    } else if i == 16 {
        "fullwidth-forms"@
    } else if i == 17 {
        "mathematical-alphanumeric"@
    } else if i == 18 {
        "combining-characters"@
    } else {
        "invisible-separators"@
    }
}

/// The category of built-in pattern `i`.
pub open spec fn pattern_category(i: int) -> MaliciousCategory {
    if 0 <= i && i <= 3 {
        MaliciousCategory::ZeroWidth
    } else if 4 <= i && i <= 13 {
        MaliciousCategory::BidiOverride
    } else if 14 <= i && i <= 17 {
        MaliciousCategory::Homoglyph
    } else {
        MaliciousCategory::ZeroWidth
    }
}

/// The severity of built-in pattern `i`.
pub open spec fn pattern_severity(i: int) -> Severity {
    if 0 <= i && i <= 15 {
        Severity::Error
    } else {
        Severity::Warning
    }
}

/// The description of built-in pattern `i`.
pub open spec fn pattern_description(i: int) -> Seq<char> {
    if i == 0 {
        "Zero-width space can hide malicious code"@
    } else if i == 1 {
        "Zero-width non-joiner can hide malicious code"@
    } else if i == 2 {
        "Zero-width joiner can hide malicious code"@
    } else if i == 3 {
        "Zero-width no-break space (BOM) can hide malicious code"@
    } else if i == 4 || i == 5 {
        "Bidirectional text control can alter code meaning"@
    } else if i == 6 {
        "PDF character detected - bidirectional text control can alter code meaning"@
    } else if i == 7 {
        "LRO character detected - can reverse code visually (Trojan Source)"@
    } else if i == 8 {
        "RLO character detected"@
    } else if i == 9 {
        "LRI character detected"@
    } else if i == 10 {
        "RLI character detected"@
    } else if i == 11 {
        "FSI character detected"@
    } else if i == 12 {
        "PDI character detected"@
    } else if i == 13 {
        "Bidirectional mark detected - can manipulate source display"@
    } else if i == 14 {
        "Cyrillic homoglyph detected - confusable with Latin characters"@
    } else if i == 15 {
        "Greek homoglyph detected - confusable with Latin characters"@
    } else if i == 16 {
        "Fullwidth character detected - confusable with ASCII"@
    } else if i == 17 {
        "Mathematical alphanumeric character detected"@
    } else if i == 18 {
        "Combining character detected - can be used for stacking attacks"@
    } else {
        "Invisible separator detected"@
    }
}

/// The code points of built-in pattern `i`, in table order.
pub open spec fn pattern_code_points(i: int) -> Seq<u32> {
    if i == 0 {
        seq![0x200Bu32]
    } else if i == 1 {
        seq![0x200Cu32]
    } else if i == 2 {
        seq![0x200Du32]
    } else if i == 3 {
        seq![0xFEFFu32]
    } else if i == 4 {
        seq![0x202Au32]
    } else if i == 5 {
        seq![0x202Bu32]
    } else if i == 6 {
        seq![0x202Cu32]
    } else if i == 7 {
        seq![0x202Du32]
    } else if i == 8 {
        seq![0x202Eu32]
    } else if i == 9 {
        seq![0x2066u32]
    } else if i == 10 {
        seq![0x2067u32]
    } else if i == 11 {
        seq![0x2068u32]
    } else if i == 12 {
        seq![0x2069u32]
    } else if i == 13 {
        seq![0x061Cu32, 0x200E, 0x200F]
    } else if i == 14 {
        seq![
            0x0430u32,
            0x0435,
            0x043E,
            0x0440,
            0x0441,
            0x0445,
            0x0443,
            0x0410,
            0x0415,
            0x041E,
            0x0420,
            0x0421,
            0x0425,
        ]
    } else if i == 15 {
        seq![0x03B1u32, 0x03BF, 0x03C1, 0x03BD, 0x0391, 0x039F, 0x03A1]
    } else if i == 16 {
        span(0xFF01, 0xFF5E)
    } else if i == 17 {
        span(0x1D400, 0x1D7FF) + seq![
            0x2102u32,
            0x210D,
            0x2115,
            0x2119,
            0x211A,
            0x211D,
            0x2124,
        ]
    } else if i == 18 {
        span(0x0300, 0x036F)
    } else {
        seq![
            0x00A0u32,
            0x1680,
            0x180E,
            0x2000,
            0x2001,
            0x2002,
            0x2003,
            0x2004,
            0x2005,
            0x2006,
            0x2007,
            0x2008,
            0x2009,
            0x200A,
            0x2028,
            0x2029,
            0x202F,
            0x205F,
            0x3000,
        ]
    }
}

/// The code points `lo..=hi`, ascending.
pub open spec fn span(lo: u32, hi: u32) -> Seq<u32> {
    Seq::new((hi - lo + 1) as nat, |k: int| (lo + k) as u32)
}

/// Whether `p` is built-in pattern `i`: same name, category, code points,
/// severity and description.
pub open spec fn is_builtin_pattern(p: MaliciousPattern, i: int) -> bool {
    &&& p.name@ == pattern_name(i)
    &&& p.category == pattern_category(i)
    &&& p.code_points@ == pattern_code_points(i)
    &&& p.severity == pattern_severity(i)
    &&& p.description@ == pattern_description(i)
}

/// The index of the built-in pattern holding `code_point`, if any.
pub fn pattern_index_for(code_point: u32) -> (r: Option<usize>)
    ensures
        r matches Some(i) ==> pattern_index(code_point) == Some(i as int) && i < PATTERN_COUNT,
        r is None ==> pattern_index(code_point) is None,
{
    let cp = code_point;
    let r: Option<usize> = if cp == 0x200B {
        Some(0)
    } else if cp == 0x200C {
        Some(1)
    } else if cp == 0x200D {
        Some(2)
    } else if cp == 0xFEFF {
        Some(3)
    } else if cp == 0x202A {
        Some(4)
    } else if cp == 0x202B {
        Some(5)
    } else if cp == 0x202C {
        Some(6)
    } else if cp == 0x202D {
        Some(7)
    } else if cp == 0x202E {
        Some(8)
    } else if cp == 0x2066 {
        Some(9)
    } else if cp == 0x2067 {
        Some(10)
    } else if cp == 0x2068 {
        Some(11)
    } else if cp == 0x2069 {
        Some(12)
    } else if cp == 0x061C || cp == 0x200E || cp == 0x200F {
        Some(13)
    } else if cp == 0x0430 || cp == 0x0435 || cp == 0x043E || cp == 0x0440 || cp == 0x0441 || cp
        == 0x0445 || cp == 0x0443 || cp == 0x0410 || cp == 0x0415 || cp == 0x041E || cp == 0x0420
        || cp == 0x0421 || cp == 0x0425 {
        Some(14)
    } else if cp == 0x03B1 || cp == 0x03BF || cp == 0x03C1 || cp == 0x03BD || cp == 0x0391 || cp
        == 0x039F || cp == 0x03A1 {
        Some(15)
    } else if 0xFF01 <= cp && cp <= 0xFF5E {
        Some(16)
    } else if (0x1D400 <= cp && cp <= 0x1D7FF) || cp == 0x2102 || cp == 0x210D || cp == 0x2115
        || cp == 0x2119 || cp == 0x211A || cp == 0x211D || cp == 0x2124 {
        Some(17)
    } else if 0x0300 <= cp && cp <= 0x036F {
        Some(18)
    } else if cp == 0x00A0 || cp == 0x1680 || cp == 0x180E || (0x2000 <= cp && cp <= 0x200A) || cp
        == 0x2028 || cp == 0x2029 || cp == 0x202F || cp == 0x205F || cp == 0x3000 {
        Some(19)
    } else {
        None
    };
    proof {
        reveal_with_fuel(first_pattern_from, 21);
    }
    r
}

/// The name of built-in pattern `i`.
pub fn pattern_name_str(i: usize) -> (s: &'static str)
    requires
        i < PATTERN_COUNT,
    ensures
        s@ == pattern_name(i as int),
{
    match i {
        0 => "zero-width-space",
        1 => "zero-width-non-joiner",
        2 => "zero-width-joiner",
        3 => "zero-width-no-break-space",
        4 => "left-to-right-embedding",
        5 => "right-to-left-embedding",
        6 => "pop-directional-formatting",
        7 => "left-to-right-override",
        8 => "right-to-left-override",
        9 => "left-to-right-isolate",
        10 => "right-to-left-isolate",
        11 => "first-strong-isolate",
        12 => "pop-directional-isolate",
        13 => "bidi-marks",
        14 => "cyrillic-homoglyphs",
        15 => "greek-homoglyphs",
        16 => "fullwidth-forms",
        17 => "mathematical-alphanumeric",
        18 => "combining-characters",
        _ => "invisible-separators",
    }
}

/// The description of built-in pattern `i`.
pub fn pattern_description_str(i: usize) -> (s: &'static str)
    requires
        i < PATTERN_COUNT,
    ensures
        s@ == pattern_description(i as int),
{
    match i {
        0 => "Zero-width space can hide malicious code",
        1 => "Zero-width non-joiner can hide malicious code",
        2 => "Zero-width joiner can hide malicious code",
        3 => "Zero-width no-break space (BOM) can hide malicious code",
        4 => "Bidirectional text control can alter code meaning",
        5 => "Bidirectional text control can alter code meaning",
        6 => "PDF character detected - bidirectional text control can alter code meaning",
        7 => "LRO character detected - can reverse code visually (Trojan Source)",
        8 => "RLO character detected",
        9 => "LRI character detected",
        10 => "RLI character detected",
        11 => "FSI character detected",
        12 => "PDI character detected",
        13 => "Bidirectional mark detected - can manipulate source display",
        14 => "Cyrillic homoglyph detected - confusable with Latin characters",
        15 => "Greek homoglyph detected - confusable with Latin characters",
        16 => "Fullwidth character detected - confusable with ASCII",
        17 => "Mathematical alphanumeric character detected",
        18 => "Combining character detected - can be used for stacking attacks",
        _ => "Invisible separator detected",
    }
}

/// The category of built-in pattern `i`.
pub fn pattern_category_of(i: usize) -> (c: MaliciousCategory)
    requires
        i < PATTERN_COUNT,
    ensures
        c == pattern_category(i as int),
{
    if i <= 3 {
        MaliciousCategory::ZeroWidth
    } else if i <= 13 {
        MaliciousCategory::BidiOverride
    } else if i <= 17 {
        MaliciousCategory::Homoglyph
    } else {
        MaliciousCategory::ZeroWidth
    }
}

/// The severity of built-in pattern `i`.
pub fn pattern_severity_of(i: usize) -> (s: Severity)
    requires
        i < PATTERN_COUNT,
    ensures
        s == pattern_severity(i as int),
{
    if i <= 15 {
        Severity::Error
    } else {
        Severity::Warning
    }
}

fn push_span(v: &mut Vec<u32>, lo: u32, hi: u32)
    requires
        lo <= hi,
        hi < 0x110000,
    ensures
        final(v)@ == old(v)@ + span(lo, hi),
{
    let mut k: u32 = lo;
    while k <= hi
        invariant
            lo <= k <= hi + 1,
            hi < 0x110000,
            v@ == old(v)@ + Seq::new((k - lo) as nat, |j: int| (lo + j) as u32),
        decreases hi + 1 - k,
    {
        v.push(k);
        assert(v@ =~= old(v)@ + Seq::new((k + 1 - lo) as nat, |j: int| (lo + j) as u32));
        k = k + 1;
    }
    assert(Seq::new((k - lo) as nat, |j: int| (lo + j) as u32) =~= span(lo, hi));
}

/// The code points of built-in pattern `i`, in table order.
pub fn pattern_code_points_of(i: usize) -> (v: Vec<u32>)
    requires
        i < PATTERN_COUNT,
    ensures
        v@ == pattern_code_points(i as int),
{
    let mut v: Vec<u32> = Vec::new();
    if i <= 12 {
        let cp: u32 = match i {
            0 => 0x200B,
            1 => 0x200C,
            2 => 0x200D,
            3 => 0xFEFF,
            4 => 0x202A,
            5 => 0x202B,
            6 => 0x202C,
            7 => 0x202D,
            8 => 0x202E,
            9 => 0x2066,
            10 => 0x2067,
            11 => 0x2068,
            _ => 0x2069,
        };
        v.push(cp);
    } else if i == 13 {
        v.push(0x061C);
        v.push(0x200E);
        v.push(0x200F);
    } else if i == 14 {
        v.push(0x0430);
        v.push(0x0435);
        v.push(0x043E);
        v.push(0x0440);
        v.push(0x0441);
        v.push(0x0445);
        v.push(0x0443);
        v.push(0x0410);
        v.push(0x0415);
        v.push(0x041E);
        v.push(0x0420);
        v.push(0x0421);
        v.push(0x0425);
    } else if i == 15 {
        v.push(0x03B1);
        v.push(0x03BF);
        v.push(0x03C1);
        v.push(0x03BD);
        v.push(0x0391);
        v.push(0x039F);
        v.push(0x03A1);
    } else if i == 16 {
        push_span(&mut v, 0xFF01, 0xFF5E);
    } else if i == 17 {
        push_span(&mut v, 0x1D400, 0x1D7FF);
        v.push(0x2102);
        v.push(0x210D);
        v.push(0x2115);
        v.push(0x2119);
        v.push(0x211A);
        v.push(0x211D);
        v.push(0x2124);
    } else if i == 18 {
        push_span(&mut v, 0x0300, 0x036F);
    } else {
        v.push(0x00A0);
        v.push(0x1680);
        v.push(0x180E);
        v.push(0x2000);
        v.push(0x2001);
        v.push(0x2002);
        v.push(0x2003);
        v.push(0x2004);
        v.push(0x2005);
        v.push(0x2006);
        v.push(0x2007);
        v.push(0x2008);
        v.push(0x2009);
        v.push(0x200A);
        v.push(0x2028);
        v.push(0x2029);
        v.push(0x202F);
        v.push(0x205F);
        v.push(0x3000);
    }
    assert(v@ =~= pattern_code_points(i as int));
    v
}

/// The built-in pattern at index `i`.
pub fn builtin_pattern(i: usize) -> (p: MaliciousPattern)
    requires
        i < PATTERN_COUNT,
    ensures
        is_builtin_pattern(p, i as int),
{
    MaliciousPattern {
        name: String::from_str(pattern_name_str(i)),
        category: pattern_category_of(i),
        code_points: pattern_code_points_of(i),
        severity: pattern_severity_of(i),
        description: String::from_str(pattern_description_str(i)),
    }
}

/// All built-in malicious patterns, in table order.
pub fn get_malicious_patterns() -> (v: Vec<MaliciousPattern>)
    ensures
        v@.len() == PATTERN_COUNT,
        forall|i: int| 0 <= i < PATTERN_COUNT ==> is_builtin_pattern(#[trigger] v@[i], i),
{
    let mut v: Vec<MaliciousPattern> = Vec::new();
    let mut i: usize = 0;
    while i < PATTERN_COUNT
        invariant
            i <= PATTERN_COUNT,
            v@.len() == i,
            forall|j: int| 0 <= j < i ==> is_builtin_pattern(#[trigger] v@[j], j),
        decreases PATTERN_COUNT - i,
    {
        v.push(builtin_pattern(i));
        i = i + 1;
    }
    v
}

/// The built-in pattern that holds `code_point`, if any.
pub fn pattern_for(code_point: u32) -> (r: Option<MaliciousPattern>)
    ensures
        r is Some <==> pattern_index(code_point) is Some,
        r matches Some(p) ==> is_builtin_pattern(p, pattern_index(code_point)->0),
{
    match pattern_index_for(code_point) {
        Some(i) => Some(builtin_pattern(i)),
        None => None,
    }
}

/// The name of the built-in pattern that holds `code_point`, if any.
pub fn is_malicious(code_point: u32) -> (r: Option<&'static str>)
    ensures
        r is Some <==> pattern_index(code_point) is Some,
        r matches Some(n) ==> n@ == pattern_name(pattern_index(code_point)->0),
{
    match pattern_index_for(code_point) {
        Some(i) => Some(pattern_name_str(i)),
        None => None,
    }
}

proof fn lemma_first_pattern_range(k: int, cp: u32)
    ensures
        first_pattern_from(k, cp) matches Some(i) ==> k <= i < 20,
    decreases 20 - k,
{
    if 0 <= k < 20 {
        lemma_first_pattern_range(k + 1, cp);
    }
}

/// A pattern found for a code point is one of the built-in patterns.
pub proof fn lemma_pattern_index_range(cp: u32)
    ensures
        pattern_index(cp) matches Some(i) ==> 0 <= i < 20,
{
    lemma_first_pattern_range(0, cp);
}

/// No code point belongs to two built-in patterns, so the first match is the
/// only match.
pub proof fn patterns_are_disjoint(i: int, j: int, cp: u32)
    requires
        0 <= i < 20,
        0 <= j < 20,
        i != j,
    ensures
        !(in_pattern(i, cp) && in_pattern(j, cp)),
{
}

/// The lookup finds pattern `i` exactly when `cp` is a member of it.
pub proof fn pattern_index_is_membership(cp: u32, i: int)
    requires
        0 <= i < 20,
    ensures
        pattern_index(cp) == Some(i) <==> in_pattern(i, cp),
{
    reveal_with_fuel(first_pattern_from, 21);
}

proof fn lemma_span_contains(lo: u32, hi: u32, cp: u32)
    requires
        lo <= hi,
        hi < 0x110000,
    ensures
        span(lo, hi).contains(cp) <==> lo <= cp <= hi,
{
    if lo <= cp <= hi {
        assert(span(lo, hi)[(cp - lo) as int] == cp);
    }
}

/// The code points listed in the table for pattern `i` are exactly its
/// members: the table and the lookup agree.
pub proof fn table_agrees_with_lookup(i: int, cp: u32)
    requires
        0 <= i < 20,
    ensures
        pattern_code_points(i).contains(cp) <==> in_pattern(i, cp),
{
    let s = pattern_code_points(i);
    if i == 16 {
        lemma_span_contains(0xFF01, 0xFF5E, cp);
    } else if i == 17 {
        let a = span(0x1D400, 0x1D7FF);
        let b = seq![0x2102u32, 0x210D, 0x2115, 0x2119, 0x211A, 0x211D, 0x2124];
        lemma_span_contains(0x1D400, 0x1D7FF, cp);
        assert(s == a + b);
        if s.contains(cp) {
            let k = choose|k: int| 0 <= k < s.len() && s[k] == cp;
            if k >= a.len() {
                assert(b[k - a.len()] == cp);
            } else {
                assert(a[k] == cp);
            }
        }
        if a.contains(cp) {
            let k = choose|k: int| 0 <= k < a.len() && a[k] == cp;
            assert(s[k] == cp);
        }
        if b.contains(cp) {
            let k = choose|k: int| 0 <= k < b.len() && b[k] == cp;
            assert(s[a.len() + k] == cp);
        }
    } else if i == 18 {
        lemma_span_contains(0x0300, 0x036F, cp);
    } else {
        if in_pattern(i, cp) {
            if i == 13 {
                if cp == 0x061C { assert(s[0] == cp); }
                else if cp == 0x200E { assert(s[1] == cp); }
                else { assert(s[2] == cp); }
            } else if i == 14 {
                assert(s[0] == 0x0430 && s[1] == 0x0435 && s[2] == 0x043E && s[3] == 0x0440);
                assert(s[4] == 0x0441 && s[5] == 0x0445 && s[6] == 0x0443 && s[7] == 0x0410);
                assert(s[8] == 0x0415 && s[9] == 0x041E && s[10] == 0x0420 && s[11] == 0x0421);
                assert(s[12] == 0x0425);
            } else if i == 15 {
                assert(s[0] == 0x03B1 && s[1] == 0x03BF && s[2] == 0x03C1 && s[3] == 0x03BD);
                assert(s[4] == 0x0391 && s[5] == 0x039F && s[6] == 0x03A1);
            } else if i == 19 {
                assert(s[0] == 0x00A0 && s[1] == 0x1680 && s[2] == 0x180E && s[3] == 0x2000);
                assert(s[4] == 0x2001 && s[5] == 0x2002 && s[6] == 0x2003 && s[7] == 0x2004);
                assert(s[8] == 0x2005 && s[9] == 0x2006 && s[10] == 0x2007 && s[11] == 0x2008);
                assert(s[12] == 0x2009 && s[13] == 0x200A && s[14] == 0x2028 && s[15] == 0x2029);
                assert(s[16] == 0x202F && s[17] == 0x205F && s[18] == 0x3000);
            } else {
                assert(s[0] == cp);
            }
        }
        if s.contains(cp) {
            let k = choose|k: int| 0 <= k < s.len() && s[k] == cp;
            assert(s[k] == cp);
        }
    }
}

/// A code point is malicious exactly when some pattern of the table returned
/// by `get_malicious_patterns` lists it, and the pattern that `pattern_for`
/// returns is that table entry.
pub proof fn pattern_for_agrees_with_table(table: Seq<MaliciousPattern>, cp: u32)
    requires
        table.len() == PATTERN_COUNT,
        forall|i: int| 0 <= i < PATTERN_COUNT ==> is_builtin_pattern(#[trigger] table[i], i),
    ensures
        pattern_index(cp) is Some <==> exists|i: int|
            0 <= i < PATTERN_COUNT && (#[trigger] table[i]).code_points@.contains(cp),
        forall|i: int|
            0 <= i < PATTERN_COUNT && (#[trigger] table[i]).code_points@.contains(cp)
                ==> pattern_index(cp) == Some(i),
{
    reveal_with_fuel(first_pattern_from, 21);
    assert forall|i: int|
        0 <= i < PATTERN_COUNT && (#[trigger] table[i]).code_points@.contains(cp) implies
        pattern_index(cp) == Some(i) by {
        table_agrees_with_lookup(i, cp);
        pattern_index_is_membership(cp, i);
    }
    if pattern_index(cp) is Some {
        let i = pattern_index(cp)->0;
        pattern_index_is_membership(cp, i);
        table_agrees_with_lookup(i, cp);
        assert(table[i].code_points@.contains(cp));
    }
}

} // verus!
