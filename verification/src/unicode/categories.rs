//! Classification of single characters.

use vstd::prelude::*;
use crate::text::{contains_seq, occurs_at, str_contains};
use crate::unicode::malicious::{is_malicious, pattern_category, pattern_index, pattern_name, MaliciousCategory};

verus! {

/// Bidirectional text controls: ALM, LRM, RLM, LRE..RLO and LRI..PDI.
pub open spec fn spec_is_bidi_control(cp: u32) -> bool {
    cp == 0x061C || (0x200E <= cp && cp <= 0x200F) || (0x202A <= cp && cp <= 0x202E) || (0x2066
        <= cp && cp <= 0x2069)
}

/// Zero-width characters, combining diacritical marks and invisible separators.
pub open spec fn spec_is_invisible(cp: u32) -> bool {
    cp == 0x200B || cp == 0x200C || cp == 0x200D || cp == 0xFEFF || (0x0300 <= cp && cp
        <= 0x036F) || cp == 0x00A0 || cp == 0x1680 || cp == 0x180E || (0x2000 <= cp && cp
        <= 0x200A) || cp == 0x2028 || cp == 0x2029 || cp == 0x202F || cp == 0x205F || cp == 0x3000
}

/// Characters that look like ASCII letters but come from other scripts or
/// from fullwidth and mathematical forms.
pub open spec fn spec_is_homoglyph_risk(cp: u32) -> bool {
    cp == 0x0430 || cp == 0x0435 || cp == 0x043E || cp == 0x0440 || cp == 0x0441 || cp == 0x0445
        || cp == 0x0443 || cp == 0x0410 || cp == 0x0415 || cp == 0x041E || cp == 0x0420 || cp
        == 0x0421 || cp == 0x0425 || cp == 0x03B1 || cp == 0x03BF || cp == 0x03C1 || cp == 0x03BD
        || cp == 0x0391 || cp == 0x039F || cp == 0x03A1 || (0xFF01 <= cp && cp <= 0xFF5E) || (
    0x1D400 <= cp && cp <= 0x1D7FF) || cp == 0x2102 || cp == 0x210D || cp == 0x2115 || cp
        == 0x2119 || cp == 0x211A || cp == 0x211D || cp == 0x2124
}

/// Whether `c` is a bidirectional text control (Trojan Source).
pub fn is_bidi_control(c: char) -> (b: bool)
    ensures
        b == spec_is_bidi_control(c as u32),
{
    let cp = c as u32;
    cp == 0x061C || (0x200E <= cp && cp <= 0x200F) || (0x202A <= cp && cp <= 0x202E) || (0x2066
        <= cp && cp <= 0x2069)
}

/// Whether `c` is invisible or zero-width.
pub fn is_invisible(c: char) -> (b: bool)
    ensures
        b == spec_is_invisible(c as u32),
{
    let cp = c as u32;
    cp == 0x200B || cp == 0x200C || cp == 0x200D || cp == 0xFEFF || (0x0300 <= cp && cp
        <= 0x036F) || cp == 0x00A0 || cp == 0x1680 || cp == 0x180E || (0x2000 <= cp && cp
        <= 0x200A) || cp == 0x2028 || cp == 0x2029 || cp == 0x202F || cp == 0x205F || cp == 0x3000
}

/// Whether `c` is a likely homoglyph of an ASCII character.
pub fn is_homoglyph_risk(c: char) -> (b: bool)
    ensures
        b == spec_is_homoglyph_risk(c as u32),
{
    let cp = c as u32;
    cp == 0x0430 || cp == 0x0435 || cp == 0x043E || cp == 0x0440 || cp == 0x0441 || cp == 0x0445
        || cp == 0x0443 || cp == 0x0410 || cp == 0x0415 || cp == 0x041E || cp == 0x0420 || cp
        == 0x0421 || cp == 0x0425 || cp == 0x03B1 || cp == 0x03BF || cp == 0x03C1 || cp == 0x03BD
        || cp == 0x0391 || cp == 0x039F || cp == 0x03A1 || (0xFF01 <= cp && cp <= 0xFF5E) || (
    0x1D400 <= cp && cp <= 0x1D7FF) || cp == 0x2102 || cp == 0x210D || cp == 0x2115 || cp
        == 0x2119 || cp == 0x211A || cp == 0x211D || cp == 0x2124
}

/// The category label given to a malicious pattern name.
pub open spec fn category_label(name: Seq<char>) -> Seq<char> {
    if contains_seq(name, "bidi"@) || contains_seq(name, "directional"@) || contains_seq(
        name,
        "override"@,
    ) || contains_seq(name, "embedding"@) || contains_seq(name, "isolate"@) {
        "bidi-control"@
    } else if contains_seq(name, "zero-width"@) || contains_seq(name, "invisible"@)
        || contains_seq(name, "combining"@) {
        "invisible"@
    } else if contains_seq(name, "homoglyph"@) || contains_seq(name, "cyrillic"@)
        || contains_seq(name, "greek"@) || contains_seq(name, "fullwidth"@) || contains_seq(
        name,
        "mathematical"@,
    ) {
        "homoglyph"@
    } else {
        "malicious"@
    }
}

/// The category label of a code point: derived from the name of its pattern,
/// or `normal`.
pub open spec fn spec_category(cp: u32) -> Seq<char> {
    match pattern_index(cp) {
        Some(i) => category_label(pattern_name(i)),
        None => "normal"@,
    }
}

/// The category label of `c`: `bidi-control`, `invisible`, `homoglyph`,
/// `malicious` or `normal`.
pub fn get_category(c: char) -> (s: String)
    ensures
        s@ == spec_category(c as u32),
{
    let code = c as u32;
    match is_malicious(code) {
        Some(name) => {
            if str_contains(name, "bidi") || str_contains(name, "directional") || str_contains(
                name,
                "override",
            ) || str_contains(name, "embedding") || str_contains(name, "isolate") {
                String::from_str("bidi-control")
            } else if str_contains(name, "zero-width") || str_contains(name, "invisible")
                || str_contains(name, "combining") {
                String::from_str("invisible")
            } else if str_contains(name, "homoglyph") || str_contains(name, "cyrillic")
                || str_contains(name, "greek") || str_contains(name, "fullwidth") || str_contains(
                name,
                "mathematical",
            ) {
                String::from_str("homoglyph")
            } else {
                String::from_str("malicious")
            }
        },
        None => String::from_str("normal"),
    }
}

/// A character is a bidi control exactly when the table files it under a
/// bidirectional-override pattern.
pub proof fn bidi_control_is_bidi_pattern(cp: u32)
    ensures
        spec_is_bidi_control(cp) <==> (pattern_index(cp) is Some && pattern_category(
            pattern_index(cp)->0,
        ) == MaliciousCategory::BidiOverride),
{
    reveal_with_fuel(crate::unicode::malicious::first_pattern_from, 21);
}

/// A character is invisible exactly when the table files it under a
/// zero-width pattern.
pub proof fn invisible_is_zero_width_pattern(cp: u32)
    ensures
        spec_is_invisible(cp) <==> (pattern_index(cp) is Some && pattern_category(
            pattern_index(cp)->0,
        ) == MaliciousCategory::ZeroWidth),
{
    reveal_with_fuel(crate::unicode::malicious::first_pattern_from, 21);
}

/// A character is a homoglyph risk exactly when the table files it under a
/// homoglyph pattern.
pub proof fn homoglyph_is_homoglyph_pattern(cp: u32)
    ensures
        spec_is_homoglyph_risk(cp) <==> (pattern_index(cp) is Some && pattern_category(
            pattern_index(cp)->0,
        ) == MaliciousCategory::Homoglyph),
{
    reveal_with_fuel(crate::unicode::malicious::first_pattern_from, 21);
}

/// No ASCII character is a homoglyph risk.
pub proof fn ascii_is_never_homoglyph(cp: u32)
    requires
        cp < 0x80,
    ensures
        !spec_is_homoglyph_risk(cp),
{
}

/// No position from `i` on starts with the first three characters of
/// `needle`, so `needle` does not occur there.
spec fn absent_from(hay: Seq<char>, needle: Seq<char>, i: int) -> bool
    decreases hay.len() - i,
{
    if i < 0 || needle.len() < 3 {
        false
    } else if i + needle.len() > hay.len() {
        true
    } else {
        (hay[i] != needle[0] || hay[i + 1] != needle[1] || hay[i + 2] != needle[2]) && absent_from(
            hay,
            needle,
            i + 1,
        )
    }
}

proof fn lemma_absent_from(hay: Seq<char>, needle: Seq<char>, i: int, j: int)
    requires
        absent_from(hay, needle, i),
        i <= j,
    ensures
        !occurs_at(hay, needle, j),
    decreases hay.len() - i,
{
    if occurs_at(hay, needle, j) {
        assert(hay.subrange(j, j + needle.len())[0] == hay[j]);
        assert(hay.subrange(j, j + needle.len())[1] == hay[j + 1]);
        assert(hay.subrange(j, j + needle.len())[2] == hay[j + 2]);
        if i < j {
            lemma_absent_from(hay, needle, i + 1, j);
        }
    }
}

proof fn lemma_absent(hay: Seq<char>, needle: Seq<char>)
    requires
        absent_from(hay, needle, 0),
    ensures
        !contains_seq(hay, needle),
{
    assert forall|j: int| !occurs_at(hay, needle, j) by {
        if j >= 0 {
            lemma_absent_from(hay, needle, 0, j);
        }
    }
}

proof fn lemma_present(hay: Seq<char>, needle: Seq<char>, p: int)
    requires
        0 <= p,
        p + needle.len() <= hay.len(),
        hay.subrange(p, p + needle.len()) =~= needle,
    ensures
        contains_seq(hay, needle),
{
    assert(occurs_at(hay, needle, p));
}

proof fn lemma_label_0()
    ensures
        category_label(pattern_name(0)) == "invisible"@,
{
    reveal_with_fuel(absent_from, 30);
    reveal_strlit("zero-width-space");
    reveal_strlit("zero-width");
    lemma_present("zero-width-space"@, "zero-width"@, 0);
    reveal_strlit("bidi");
    lemma_absent("zero-width-space"@, "bidi"@);
    reveal_strlit("directional");
    lemma_absent("zero-width-space"@, "directional"@);
    reveal_strlit("override");
    lemma_absent("zero-width-space"@, "override"@);
    reveal_strlit("embedding");
    lemma_absent("zero-width-space"@, "embedding"@);
    reveal_strlit("isolate");
    lemma_absent("zero-width-space"@, "isolate"@);
}

proof fn lemma_label_1()
    ensures
        category_label(pattern_name(1)) == "invisible"@,
{
    reveal_with_fuel(absent_from, 30);
    reveal_strlit("zero-width-non-joiner");
    reveal_strlit("zero-width");
    lemma_present("zero-width-non-joiner"@, "zero-width"@, 0);
    reveal_strlit("bidi");
    lemma_absent("zero-width-non-joiner"@, "bidi"@);
    reveal_strlit("directional");
    lemma_absent("zero-width-non-joiner"@, "directional"@);
    reveal_strlit("override");
    lemma_absent("zero-width-non-joiner"@, "override"@);
    reveal_strlit("embedding");
    lemma_absent("zero-width-non-joiner"@, "embedding"@);
    reveal_strlit("isolate");
    lemma_absent("zero-width-non-joiner"@, "isolate"@);
}

proof fn lemma_label_2()
    ensures
        category_label(pattern_name(2)) == "invisible"@,
{
    reveal_with_fuel(absent_from, 30);
    reveal_strlit("zero-width-joiner");
    reveal_strlit("zero-width");
    lemma_present("zero-width-joiner"@, "zero-width"@, 0);
    reveal_strlit("bidi");
    lemma_absent("zero-width-joiner"@, "bidi"@);
    reveal_strlit("directional");
    lemma_absent("zero-width-joiner"@, "directional"@);
    reveal_strlit("override");
    lemma_absent("zero-width-joiner"@, "override"@);
    reveal_strlit("embedding");
    lemma_absent("zero-width-joiner"@, "embedding"@);
    reveal_strlit("isolate");
    lemma_absent("zero-width-joiner"@, "isolate"@);
}

proof fn lemma_label_3()
    ensures
        category_label(pattern_name(3)) == "invisible"@,
{
    reveal_with_fuel(absent_from, 30);
    reveal_strlit("zero-width-no-break-space");
    reveal_strlit("zero-width");
    lemma_present("zero-width-no-break-space"@, "zero-width"@, 0);
    reveal_strlit("bidi");
    lemma_absent("zero-width-no-break-space"@, "bidi"@);
    reveal_strlit("directional");
    lemma_absent("zero-width-no-break-space"@, "directional"@);
    reveal_strlit("override");
    lemma_absent("zero-width-no-break-space"@, "override"@);
    reveal_strlit("embedding");
    lemma_absent("zero-width-no-break-space"@, "embedding"@);
    reveal_strlit("isolate");
    lemma_absent("zero-width-no-break-space"@, "isolate"@);
}

proof fn lemma_label_4()
    ensures
        category_label(pattern_name(4)) == "bidi-control"@,
{
    reveal_with_fuel(absent_from, 30);
    reveal_strlit("left-to-right-embedding");
    reveal_strlit("embedding");
    lemma_present("left-to-right-embedding"@, "embedding"@, 14);
}

proof fn lemma_label_5()
    ensures
        category_label(pattern_name(5)) == "bidi-control"@,
{
    reveal_with_fuel(absent_from, 30);
    reveal_strlit("right-to-left-embedding");
    reveal_strlit("embedding");
    lemma_present("right-to-left-embedding"@, "embedding"@, 14);
}

proof fn lemma_label_6()
    ensures
        category_label(pattern_name(6)) == "bidi-control"@,
{
    reveal_with_fuel(absent_from, 30);
    reveal_strlit("pop-directional-formatting");
    reveal_strlit("directional");
    lemma_present("pop-directional-formatting"@, "directional"@, 4);
}

proof fn lemma_label_7()
    ensures
        category_label(pattern_name(7)) == "bidi-control"@,
{
    reveal_with_fuel(absent_from, 30);
    reveal_strlit("left-to-right-override");
    reveal_strlit("override");
    lemma_present("left-to-right-override"@, "override"@, 14);
}

proof fn lemma_label_8()
    ensures
        category_label(pattern_name(8)) == "bidi-control"@,
{
    reveal_with_fuel(absent_from, 30);
    reveal_strlit("right-to-left-override");
    reveal_strlit("override");
    lemma_present("right-to-left-override"@, "override"@, 14);
}

proof fn lemma_label_9()
    ensures
        category_label(pattern_name(9)) == "bidi-control"@,
{
    reveal_with_fuel(absent_from, 30);
    reveal_strlit("left-to-right-isolate");
    reveal_strlit("isolate");
    lemma_present("left-to-right-isolate"@, "isolate"@, 14);
}

proof fn lemma_label_10()
    ensures
        category_label(pattern_name(10)) == "bidi-control"@,
{
    reveal_with_fuel(absent_from, 30);
    reveal_strlit("right-to-left-isolate");
    reveal_strlit("isolate");
    lemma_present("right-to-left-isolate"@, "isolate"@, 14);
}

proof fn lemma_label_11()
    ensures
        category_label(pattern_name(11)) == "bidi-control"@,
{
    reveal_with_fuel(absent_from, 30);
    reveal_strlit("first-strong-isolate");
    reveal_strlit("isolate");
    lemma_present("first-strong-isolate"@, "isolate"@, 13);
}

proof fn lemma_label_12()
    ensures
        category_label(pattern_name(12)) == "bidi-control"@,
{
    reveal_with_fuel(absent_from, 30);
    reveal_strlit("pop-directional-isolate");
    reveal_strlit("directional");
    lemma_present("pop-directional-isolate"@, "directional"@, 4);
}

proof fn lemma_label_13()
    ensures
        category_label(pattern_name(13)) == "bidi-control"@,
{
    reveal_with_fuel(absent_from, 30);
    reveal_strlit("bidi-marks");
    reveal_strlit("bidi");
    lemma_present("bidi-marks"@, "bidi"@, 0);
}

proof fn lemma_label_14()
    ensures
        category_label(pattern_name(14)) == "homoglyph"@,
{
    reveal_with_fuel(absent_from, 30);
    reveal_strlit("cyrillic-homoglyphs");
    reveal_strlit("homoglyph");
    lemma_present("cyrillic-homoglyphs"@, "homoglyph"@, 9);
    reveal_strlit("bidi");
    lemma_absent("cyrillic-homoglyphs"@, "bidi"@);
    reveal_strlit("directional");
    lemma_absent("cyrillic-homoglyphs"@, "directional"@);
    reveal_strlit("override");
    lemma_absent("cyrillic-homoglyphs"@, "override"@);
    reveal_strlit("embedding");
    lemma_absent("cyrillic-homoglyphs"@, "embedding"@);
    reveal_strlit("isolate");
    lemma_absent("cyrillic-homoglyphs"@, "isolate"@);
    reveal_strlit("zero-width");
    lemma_absent("cyrillic-homoglyphs"@, "zero-width"@);
    reveal_strlit("invisible");
    lemma_absent("cyrillic-homoglyphs"@, "invisible"@);
    reveal_strlit("combining");
    lemma_absent("cyrillic-homoglyphs"@, "combining"@);
}

proof fn lemma_label_15()
    ensures
        category_label(pattern_name(15)) == "homoglyph"@,
{
    reveal_with_fuel(absent_from, 30);
    reveal_strlit("greek-homoglyphs");
    reveal_strlit("homoglyph");
    lemma_present("greek-homoglyphs"@, "homoglyph"@, 6);
    reveal_strlit("bidi");
    lemma_absent("greek-homoglyphs"@, "bidi"@);
    reveal_strlit("directional");
    lemma_absent("greek-homoglyphs"@, "directional"@);
    reveal_strlit("override");
    lemma_absent("greek-homoglyphs"@, "override"@);
    reveal_strlit("embedding");
    lemma_absent("greek-homoglyphs"@, "embedding"@);
    reveal_strlit("isolate");
    lemma_absent("greek-homoglyphs"@, "isolate"@);
    reveal_strlit("zero-width");
    lemma_absent("greek-homoglyphs"@, "zero-width"@);
    reveal_strlit("invisible");
    lemma_absent("greek-homoglyphs"@, "invisible"@);
    reveal_strlit("combining");
    lemma_absent("greek-homoglyphs"@, "combining"@);
}

proof fn lemma_label_16()
    ensures
        category_label(pattern_name(16)) == "homoglyph"@,
{
    reveal_with_fuel(absent_from, 30);
    reveal_strlit("fullwidth-forms");
    reveal_strlit("fullwidth");
    lemma_present("fullwidth-forms"@, "fullwidth"@, 0);
    reveal_strlit("bidi");
    lemma_absent("fullwidth-forms"@, "bidi"@);
    reveal_strlit("directional");
    lemma_absent("fullwidth-forms"@, "directional"@);
    reveal_strlit("override");
    lemma_absent("fullwidth-forms"@, "override"@);
    reveal_strlit("embedding");
    lemma_absent("fullwidth-forms"@, "embedding"@);
    reveal_strlit("isolate");
    lemma_absent("fullwidth-forms"@, "isolate"@);
    reveal_strlit("zero-width");
    lemma_absent("fullwidth-forms"@, "zero-width"@);
    reveal_strlit("invisible");
    lemma_absent("fullwidth-forms"@, "invisible"@);
    reveal_strlit("combining");
    lemma_absent("fullwidth-forms"@, "combining"@);
}

proof fn lemma_label_17()
    ensures
        category_label(pattern_name(17)) == "homoglyph"@,
{
    reveal_with_fuel(absent_from, 30);
    reveal_strlit("mathematical-alphanumeric");
    reveal_strlit("mathematical");
    lemma_present("mathematical-alphanumeric"@, "mathematical"@, 0);
    reveal_strlit("bidi");
    lemma_absent("mathematical-alphanumeric"@, "bidi"@);
    reveal_strlit("directional");
    lemma_absent("mathematical-alphanumeric"@, "directional"@);
    reveal_strlit("override");
    lemma_absent("mathematical-alphanumeric"@, "override"@);
    reveal_strlit("embedding");
    lemma_absent("mathematical-alphanumeric"@, "embedding"@);
    reveal_strlit("isolate");
    lemma_absent("mathematical-alphanumeric"@, "isolate"@);
    reveal_strlit("zero-width");
    lemma_absent("mathematical-alphanumeric"@, "zero-width"@);
    reveal_strlit("invisible");
    lemma_absent("mathematical-alphanumeric"@, "invisible"@);
    reveal_strlit("combining");
    lemma_absent("mathematical-alphanumeric"@, "combining"@);
}

proof fn lemma_label_18()
    ensures
        category_label(pattern_name(18)) == "invisible"@,
{
    reveal_with_fuel(absent_from, 30);
    reveal_strlit("combining-characters");
    reveal_strlit("combining");
    lemma_present("combining-characters"@, "combining"@, 0);
    reveal_strlit("bidi");
    lemma_absent("combining-characters"@, "bidi"@);
    reveal_strlit("directional");
    lemma_absent("combining-characters"@, "directional"@);
    reveal_strlit("override");
    lemma_absent("combining-characters"@, "override"@);
    reveal_strlit("embedding");
    lemma_absent("combining-characters"@, "embedding"@);
    reveal_strlit("isolate");
    lemma_absent("combining-characters"@, "isolate"@);
}

proof fn lemma_label_19()
    ensures
        category_label(pattern_name(19)) == "invisible"@,
{
    reveal_with_fuel(absent_from, 30);
    reveal_strlit("invisible-separators");
    reveal_strlit("invisible");
    lemma_present("invisible-separators"@, "invisible"@, 0);
    reveal_strlit("bidi");
    lemma_absent("invisible-separators"@, "bidi"@);
    reveal_strlit("directional");
    lemma_absent("invisible-separators"@, "directional"@);
    reveal_strlit("override");
    lemma_absent("invisible-separators"@, "override"@);
    reveal_strlit("embedding");
    lemma_absent("invisible-separators"@, "embedding"@);
    reveal_strlit("isolate");
    lemma_absent("invisible-separators"@, "isolate"@);
}

proof fn lemma_label(i: int)
    requires
        0 <= i < 20,
    ensures
        category_label(pattern_name(i)) == match pattern_category(i) {
            MaliciousCategory::BidiOverride => "bidi-control"@,
            MaliciousCategory::ZeroWidth => "invisible"@,
            _ => "homoglyph"@,
        },
{
    if i == 0 {
        lemma_label_0();
    } else if i == 1 {
        lemma_label_1();
    } else if i == 2 {
        lemma_label_2();
    } else if i == 3 {
        lemma_label_3();
    } else if i == 4 {
        lemma_label_4();
    } else if i == 5 {
        lemma_label_5();
    } else if i == 6 {
        lemma_label_6();
    } else if i == 7 {
        lemma_label_7();
    } else if i == 8 {
        lemma_label_8();
    } else if i == 9 {
        lemma_label_9();
    } else if i == 10 {
        lemma_label_10();
    } else if i == 11 {
        lemma_label_11();
    } else if i == 12 {
        lemma_label_12();
    } else if i == 13 {
        lemma_label_13();
    } else if i == 14 {
        lemma_label_14();
    } else if i == 15 {
        lemma_label_15();
    } else if i == 16 {
        lemma_label_16();
    } else if i == 17 {
        lemma_label_17();
    } else if i == 18 {
        lemma_label_18();
    } else {
        lemma_label_19();
    }
}

/// The category label of a character follows the three predicates, checked
/// in order: `bidi-control`, `invisible`, `homoglyph`, else `normal`; and
/// no character satisfies two of them.
pub proof fn category_follows_predicates(cp: u32)
    ensures
        spec_category(cp) == if spec_is_bidi_control(cp) {
            "bidi-control"@
        } else if spec_is_invisible(cp) {
            "invisible"@
        } else if spec_is_homoglyph_risk(cp) {
            "homoglyph"@
        } else {
            "normal"@
        },
        !(spec_is_bidi_control(cp) && spec_is_invisible(cp)),
        !(spec_is_bidi_control(cp) && spec_is_homoglyph_risk(cp)),
        !(spec_is_invisible(cp) && spec_is_homoglyph_risk(cp)),
{
    bidi_control_is_bidi_pattern(cp);
    invisible_is_zero_width_pattern(cp);
    homoglyph_is_homoglyph_pattern(cp);
    crate::unicode::malicious::lemma_pattern_index_range(cp);
    if let Some(i) = pattern_index(cp) {
        lemma_label(i);
    }
}

} // verus!

