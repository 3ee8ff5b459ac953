//! Built-in language presets: the code points that source files of a language
//! are expected to hold.

use vstd::prelude::*;
use crate::paths::{lemma_text_lt_irreflexive, lemma_text_lt_transitive, text_lt};
use crate::text::str_eq;
use crate::unicode::ranges::UnicodeRange;

verus! {

/// A named allowlist of code point ranges.
#[derive(Debug, Clone)]
pub struct LanguagePreset {
    pub name: String,
    pub description: String,
    pub allowed_ranges: Vec<UnicodeRange>,
}

/// A range as plain values: start, end, description.
pub open spec fn range_view(r: UnicodeRange) -> (u32, u32, Option<Seq<char>>) {
    (r.start, r.end, match r.description {
        Some(d) => Some(d@),
        None => None,
    })
}

/// The ranges of a list as plain values.
pub open spec fn ranges_view(rs: Seq<UnicodeRange>) -> Seq<(u32, u32, Option<Seq<char>>)> {
    rs.map_values(|r: UnicodeRange| range_view(r))
}

/// A preset as plain values: name, description, ranges.
pub open spec fn preset_view(p: LanguagePreset) -> (Seq<char>, Seq<char>, Seq<(u32, u32, Option<Seq<char>>)>) {
    (p.name@, p.description@, ranges_view(p.allowed_ranges@))
}

impl LanguagePreset {
    /// A preset with no ranges yet.
    pub fn new(name: &str, description: &str) -> (p: Self)
        ensures
            p.name@ == name@,
            p.description@ == description@,
            p.allowed_ranges@.len() == 0,
    {
        LanguagePreset {
            name: String::from_str(name),
            description: String::from_str(description),
            allowed_ranges: Vec::new(),
        }
    }

    /// The preset with one more range, taken as given.
    pub fn with_range(self, start: u32, end: u32, description: Option<String>) -> (p: Self)
        ensures
            p.name == self.name,
            p.description == self.description,
            p.allowed_ranges@ == self.allowed_ranges@.push(UnicodeRange { start, end, description }),
    {
        let mut p = self;
        p.allowed_ranges.push(UnicodeRange { start, end, description });
        p
    }
}

/// The number of built-in presets.
pub const PRESET_COUNT: usize = 56;

/// The number of named Unicode ranges that presets draw on.
pub const BLOCK_COUNT: u8 = 33;

/// The number of range profiles that presets draw on.
pub const PROFILE_COUNT: u8 = 32;

/// The key of built-in preset `i`, in sorted order.
pub open spec fn preset_key(i: int) -> Seq<char> {
    if i == 0 {
        "amharic"@
    } else if i == 1 {
        "arabic"@
    } else if i == 2 {
        "armenian"@
    } else if i == 3 {
        "bengali"@
    } else if i == 4 {
        "bulgarian"@
    } else if i == 5 {
        "burmese"@
    } else if i == 6 {
        "c"@
    } else if i == 7 {
        "chinese"@
    } else if i == 8 {
        "cpp"@
    } else if i == 9 {
        "czech"@
    } else if i == 10 {
        "dutch"@
    } else if i == 11 {
        "english"@
    } else if i == 12 {
        "french"@
    } else if i == 13 {
        "georgian"@
    } else if i == 14 {
        "german"@
    } else if i == 15 {
        "go"@
    } else if i == 16 {
        "greek"@
    } else if i == 17 {
        "gujarati"@
    } else if i == 18 {
        "hebrew"@
    } else if i == 19 {
        "hindi"@
    } else if i == 20 {
        "hungarian"@
    } else if i == 21 {
        "italian"@
    } else if i == 22 {
        "japanese"@
    } else if i == 23 {
        "java"@
    } else if i == 24 {
        "javascript"@
    } else if i == 25 {
        "kannada"@
    } else if i == 26 {
        "khmer"@
    } else if i == 27 {
        "korean"@
    } else if i == 28 {
        "lao"@
    } else if i == 29 {
        "malayalam"@
    } else if i == 30 {
        "marathi"@
    } else if i == 31 {
        "mongolian"@
    } else if i == 32 {
        "nepali"@
    } else if i == 33 {
        "persian"@
    } else if i == 34 {
        "php"@
    } else if i == 35 {
        "polish"@
    } else if i == 36 {
        "portuguese"@
    } else if i == 37 {
        "punjabi"@
    } else if i == 38 {
        "python"@
    } else if i == 39 {
        "romanian"@
    } else if i == 40 {
        "ruby"@
    } else if i == 41 {
        "russian"@
    } else if i == 42 {
        "rust"@
    } else if i == 43 {
        "serbian"@
    } else if i == 44 {
        "sinhala"@
    } else if i == 45 {
        "spanish"@
    } else if i == 46 {
        "swedish"@
    } else if i == 47 {
        "tamil"@
    } else if i == 48 {
        "telugu"@
    } else if i == 49 {
        "thai"@
    } else if i == 50 {
        "tibetan"@
    } else if i == 51 {
        "turkish"@
    } else if i == 52 {
        "typescript"@
    } else if i == 53 {
        "ukrainian"@
    } else if i == 54 {
        "urdu"@
    } else {
        "vietnamese"@
    }
}

/// The description of built-in preset `i`.
pub open spec fn preset_description(i: int) -> Seq<char> {
    if i == 0 {
        "Amharic text - Basic Latin + Ethiopic"@
    } else if i == 1 {
        "Arabic text - Basic Latin + Arabic"@
    } else if i == 2 {
        "Armenian text - Basic Latin + Armenian"@
    } else if i == 3 {
        "Bengali text - Basic Latin + Bengali"@
    } else if i == 4 {
        "Bulgarian text - Basic Latin + Cyrillic"@
    } else if i == 5 {
        "Burmese text - Basic Latin + Myanmar"@
    } else if i == 6 {
        "C/C++ source code - ASCII only"@
    } else if i == 7 {
        "Chinese text - Basic Latin + CJK ideographs"@
    } else if i == 8 {
        "C/C++ source code - ASCII only"@
    } else if i == 9 {
        "Czech text - Basic Latin + Latin-1 + Latin Extended-A"@
    } else if i == 10 {
        "Dutch text - Basic Latin + Latin-1"@
    } else if i == 11 {
        "English text - ASCII only"@
    } else if i == 12 {
        "French text - Basic Latin + Latin-1"@
    } else if i == 13 {
        "Georgian text - Basic Latin + Georgian"@
    } else if i == 14 {
        "German text - Basic Latin + Latin-1"@
    } else if i == 15 {
        "Go source code - UTF-8 friendly"@
    } else if i == 16 {
        "Greek text - Basic Latin + Greek"@
    } else if i == 17 {
        "Gujarati text - Basic Latin + Gujarati"@
    } else if i == 18 {
        "Hebrew text - Basic Latin + Hebrew"@
    } else if i == 19 {
        "Hindi text - Basic Latin + Devanagari"@
    } else if i == 20 {
        "Hungarian text - Basic Latin + Latin-1 + Latin Extended-A"@
    } else if i == 21 {
        "Italian text - Basic Latin + Latin-1"@
    } else if i == 22 {
        "Japanese text - Basic Latin + kana + CJK ideographs"@
    } else if i == 23 {
        "Java source code - Basic Latin + Latin-1"@
    } else if i == 24 {
        "JavaScript/TypeScript - Basic Latin + common symbols"@
    } else if i == 25 {
        "Kannada text - Basic Latin + Kannada"@
    } else if i == 26 {
        "Khmer text - Basic Latin + Khmer"@
    } else if i == 27 {
        "Korean text - Basic Latin + Hangul"@
    } else if i == 28 {
        "Lao text - Basic Latin + Lao"@
    } else if i == 29 {
        "Malayalam text - Basic Latin + Malayalam"@
    } else if i == 30 {
        "Marathi text - Basic Latin + Devanagari"@
    } else if i == 31 {
        "Mongolian text - Basic Latin + Mongolian"@
    } else if i == 32 {
        "Nepali text - Basic Latin + Devanagari"@
    } else if i == 33 {
        "Persian text - Basic Latin + Arabic"@
    } else if i == 34 {
        "PHP source code - Basic Latin + Latin-1"@
    } else if i == 35 {
        "Polish text - Basic Latin + Latin-1 + Latin Extended-A"@
    } else if i == 36 {
        "Portuguese text - Basic Latin + Latin-1"@
    } else if i == 37 {
        "Punjabi text - Basic Latin + Gurmukhi"@
    } else if i == 38 {
        "Python source code - Basic Latin + Latin-1"@
    } else if i == 39 {
        "Romanian text - Basic Latin + Latin-1 + Latin Extended-A and -B"@
    } else if i == 40 {
        "Ruby source code - UTF-8 friendly"@
    } else if i == 41 {
        "Russian text - Basic Latin + Cyrillic"@
    } else if i == 42 {
        "Rust source code - ASCII only"@
    } else if i == 43 {
        "Serbian text - Basic Latin + Latin Extended-A + Cyrillic"@
    } else if i == 44 {
        "Sinhala text - Basic Latin + Sinhala"@
    } else if i == 45 {
        "Spanish text - Basic Latin + Latin-1"@
    } else if i == 46 {
        "Swedish text - Basic Latin + Latin-1"@
    } else if i == 47 {
        "Tamil text - Basic Latin + Tamil"@
    } else if i == 48 {
        "Telugu text - Basic Latin + Telugu"@
    } else if i == 49 {
        "Thai text - Basic Latin + Thai"@
    } else if i == 50 {
        "Tibetan text - Basic Latin + Tibetan"@
    } else if i == 51 {
        "Turkish text - Basic Latin + Latin-1 + Latin Extended-A"@
    } else if i == 52 {
        "JavaScript/TypeScript - Basic Latin + common symbols"@
    } else if i == 53 {
        "Ukrainian text - Basic Latin + Cyrillic"@
    } else if i == 54 {
        "Urdu text - Basic Latin + Arabic"@
    } else {
        "Vietnamese text - Basic Latin + Latin Extended + Latin Extended Additional"@
    }
}

/// The range profile of built-in preset `i`.
pub open spec fn preset_profile(i: int) -> u8 {
    if i == 0 {
        26u8
    } else if i == 1 {
        11u8
    } else if i == 2 {
        9u8
    } else if i == 3 {
        13u8
    } else if i == 4 {
        6u8
    } else if i == 5 {
        24u8
    } else if i == 6 {
        0u8
    } else if i == 7 {
        29u8
    } else if i == 8 {
        0u8
    } else if i == 9 {
        3u8
    } else if i == 10 {
        1u8
    } else if i == 11 {
        0u8
    } else if i == 12 {
        1u8
    } else if i == 13 {
        25u8
    } else if i == 14 {
        1u8
    } else if i == 15 {
        2u8
    } else if i == 16 {
        8u8
    } else if i == 17 {
        15u8
    } else if i == 18 {
        10u8
    } else if i == 19 {
        12u8
    } else if i == 20 {
        3u8
    } else if i == 21 {
        1u8
    } else if i == 22 {
        30u8
    } else if i == 23 {
        1u8
    } else if i == 24 {
        1u8
    } else if i == 25 {
        18u8
    } else if i == 26 {
        27u8
    } else if i == 27 {
        31u8
    } else if i == 28 {
        22u8
    } else if i == 29 {
        19u8
    } else if i == 30 {
        12u8
    } else if i == 31 {
        28u8
    } else if i == 32 {
        12u8
    } else if i == 33 {
        11u8
    } else if i == 34 {
        1u8
    } else if i == 35 {
        3u8
    } else if i == 36 {
        1u8
    } else if i == 37 {
        14u8
    } else if i == 38 {
        1u8
    } else if i == 39 {
        4u8
    } else if i == 40 {
        1u8
    } else if i == 41 {
        6u8
    } else if i == 42 {
        0u8
    } else if i == 43 {
        7u8
    } else if i == 44 {
        20u8
    } else if i == 45 {
        1u8
    } else if i == 46 {
        1u8
    } else if i == 47 {
        16u8
    } else if i == 48 {
        17u8
    } else if i == 49 {
        21u8
    } else if i == 50 {
        23u8
    } else if i == 51 {
        3u8
    } else if i == 52 {
        1u8
    } else if i == 53 {
        6u8
    } else if i == 54 {
        11u8
    } else {
        5u8
    }
}

/// The named ranges of range profile `p`, by index into the block table.
pub open spec fn profile_blocks(p: u8) -> Seq<u8> {
    if p == 0 {
        Seq::<u8>::empty()
    } else if p == 1 {
        seq![0u8]
    } else if p == 2 {
        seq![1u8]
    } else if p == 3 {
        seq![0u8, 2u8]
    } else if p == 4 {
        seq![0u8, 2u8, 3u8]
    } else if p == 5 {
        seq![0u8, 2u8, 3u8, 4u8]
    } else if p == 6 {
        seq![6u8]
    } else if p == 7 {
        seq![2u8, 6u8]
    } else if p == 8 {
        seq![5u8]
    } else if p == 9 {
        seq![7u8]
    } else if p == 10 {
        seq![8u8]
    } else if p == 11 {
        seq![9u8]
    } else if p == 12 {
        seq![10u8]
    } else if p == 13 {
        seq![11u8]
    } else if p == 14 {
        seq![12u8]
    } else if p == 15 {
        seq![13u8]
    } else if p == 16 {
        seq![14u8]
    } else if p == 17 {
        seq![15u8]
    } else if p == 18 {
        seq![16u8]
    } else if p == 19 {
        seq![17u8]
    } else if p == 20 {
        seq![18u8]
    } else if p == 21 {
        seq![19u8]
    } else if p == 22 {
        seq![20u8]
    } else if p == 23 {
        seq![21u8]
    } else if p == 24 {
        seq![22u8]
    } else if p == 25 {
        seq![23u8]
    } else if p == 26 {
        seq![25u8]
    } else if p == 27 {
        seq![26u8]
    } else if p == 28 {
        seq![27u8]
    } else if p == 29 {
        seq![28u8, 31u8]
    } else if p == 30 {
        seq![28u8, 29u8, 30u8, 31u8]
    } else {
        seq![24u8, 28u8, 32u8]
    }
}

/// Named range `b`: start, end, description.
pub open spec fn block_range(b: u8) -> (u32, u32, Option<Seq<char>>) {
    if b == 0 {
        (0xA0u32, 0xFFu32, Some("Latin-1 Supplement"@))
    } else if b == 1 {
        (0xA0u32, 0x24Fu32, Some("Latin Extended"@))
    } else if b == 2 {
        (0x100u32, 0x17Fu32, Some("Latin Extended-A"@))
    } else if b == 3 {
        (0x180u32, 0x24Fu32, Some("Latin Extended-B"@))
    } else if b == 4 {
        (0x1E00u32, 0x1EFFu32, Some("Latin Extended Additional"@))
    } else if b == 5 {
        (0x370u32, 0x3FFu32, Some("Greek and Coptic"@))
    } else if b == 6 {
        (0x400u32, 0x4FFu32, Some("Cyrillic"@))
    } else if b == 7 {
        (0x530u32, 0x58Fu32, Some("Armenian"@))
    } else if b == 8 {
        (0x590u32, 0x5FFu32, Some("Hebrew"@))
    } else if b == 9 {
        (0x600u32, 0x6FFu32, Some("Arabic"@))
    } else if b == 10 {
        (0x900u32, 0x97Fu32, Some("Devanagari"@))
    } else if b == 11 {
        (0x980u32, 0x9FFu32, Some("Bengali"@))
    } else if b == 12 {
        (0xA00u32, 0xA7Fu32, Some("Gurmukhi"@))
    } else if b == 13 {
        (0xA80u32, 0xAFFu32, Some("Gujarati"@))
    } else if b == 14 {
        (0xB80u32, 0xBFFu32, Some("Tamil"@))
    } else if b == 15 {
        (0xC00u32, 0xC7Fu32, Some("Telugu"@))
    } else if b == 16 {
        (0xC80u32, 0xCFFu32, Some("Kannada"@))
    } else if b == 17 {
        (0xD00u32, 0xD7Fu32, Some("Malayalam"@))
    } else if b == 18 {
        (0xD80u32, 0xDFFu32, Some("Sinhala"@))
    } else if b == 19 {
        (0xE00u32, 0xE7Fu32, Some("Thai"@))
    } else if b == 20 {
        (0xE80u32, 0xEFFu32, Some("Lao"@))
    } else if b == 21 {
        (0xF00u32, 0xFFFu32, Some("Tibetan"@))
    } else if b == 22 {
        (0x1000u32, 0x109Fu32, Some("Myanmar"@))
    } else if b == 23 {
        (0x10A0u32, 0x10FFu32, Some("Georgian"@))
    } else if b == 24 {
        (0x1100u32, 0x11FFu32, Some("Hangul Jamo"@))
    } else if b == 25 {
        (0x1200u32, 0x137Fu32, Some("Ethiopic"@))
    } else if b == 26 {
        (0x1780u32, 0x17FFu32, Some("Khmer"@))
    } else if b == 27 {
        (0x1800u32, 0x18AFu32, Some("Mongolian"@))
    } else if b == 28 {
        (0x3001u32, 0x303Fu32, Some("CJK punctuation"@))
    } else if b == 29 {
        (0x3040u32, 0x309Fu32, Some("Hiragana"@))
    } else if b == 30 {
        (0x30A0u32, 0x30FFu32, Some("Katakana"@))
    } else if b == 31 {
        (0x4E00u32, 0x9FFFu32, Some("CJK Unified Ideographs"@))
    } else {
        (0xAC00u32, 0xD7AFu32, Some("Hangul Syllables"@))
    }
}

/// The keys of the built-in presets, in sorted order.
pub open spec fn preset_keys() -> Seq<Seq<char>> {
    Seq::new(PRESET_COUNT as nat, |i: int| preset_key(i))
}

/// Printable Basic Latin, U+0020 to U+007E.
pub open spec fn printable_ascii() -> (u32, u32, Option<Seq<char>>) {
    (0x20, 0x7E, Some("Basic Latin printable"@))
}

/// Tab, line feed, vertical tab, form feed and carriage return.
pub open spec fn control_chars() -> (u32, u32, Option<Seq<char>>) {
    (0x09, 0x0D, Some("Control chars"@))
}

/// The control-character range of built-in preset `i`: the `rust` preset
/// describes it in more words.
pub open spec fn control_range(i: int) -> (u32, u32, Option<Seq<char>>) {
    if i == 42 {
        (0x09, 0x0D, Some("Control chars (tab, newline, CR)"@))
    } else {
        control_chars()
    }
}

/// The name of built-in preset `i`: its key, except that `cpp` shares the
/// `c` preset and `typescript` the `javascript` one, names included.
pub open spec fn preset_name(i: int) -> Seq<char> {
    if i == 8 {
        "c"@
    } else if i == 52 {
        "javascript"@
    } else {
        preset_key(i)
    }
}

/// Built-in preset `i`: name, description, and ranges: printable Basic
/// Latin, the control characters, then the named ranges of its profile.
pub open spec fn preset_at(i: int) -> (Seq<char>, Seq<char>, Seq<(u32, u32, Option<Seq<char>>)>) {
    (
        preset_name(i),
        preset_description(i),
        seq![printable_ascii(), control_range(i)] + profile_blocks(preset_profile(i)).map_values(
            |b: u8| block_range(b),
        ),
    )
}

/// The first built-in preset from `k` on whose key is `name`.
pub open spec fn preset_from(k: int, name: Seq<char>) -> Option<int>
    decreases PRESET_COUNT - k,
{
    if k < 0 || k >= PRESET_COUNT {
        None
    } else if preset_key(k) == name {
        Some(k)
    } else {
        preset_from(k + 1, name)
    }
}

/// The built-in preset with key `name`.
pub open spec fn builtin_preset(name: Seq<char>) -> Option<(Seq<char>, Seq<char>, Seq<(u32, u32, Option<Seq<char>>)>)> {
    match preset_from(0, name) {
        Some(i) => Some(preset_at(i)),
        None => None,
    }
}

proof fn lemma_preset_from_range(k: int, name: Seq<char>)
    ensures
        preset_from(k, name) matches Some(i) ==> k <= i < PRESET_COUNT && preset_key(i) == name,
    decreases PRESET_COUNT - k,
{
    if 0 <= k < PRESET_COUNT {
        lemma_preset_from_range(k + 1, name);
    }
}

fn preset_key_str(i: usize) -> (s: &'static str)
    requires
        i < PRESET_COUNT,
    ensures
        s@ == preset_key(i as int),
{
    match i {
        0 => "amharic",
        1 => "arabic",
        2 => "armenian",
        3 => "bengali",
        4 => "bulgarian",
        5 => "burmese",
        6 => "c",
        7 => "chinese",
        8 => "cpp",
        9 => "czech",
        10 => "dutch",
        11 => "english",
        12 => "french",
        13 => "georgian",
        14 => "german",
        15 => "go",
        16 => "greek",
        17 => "gujarati",
        18 => "hebrew",
        19 => "hindi",
        20 => "hungarian",
        21 => "italian",
        22 => "japanese",
        23 => "java",
        24 => "javascript",
        25 => "kannada",
        26 => "khmer",
        27 => "korean",
        28 => "lao",
        29 => "malayalam",
        30 => "marathi",
        31 => "mongolian",
        32 => "nepali",
        33 => "persian",
        34 => "php",
        35 => "polish",
        36 => "portuguese",
        37 => "punjabi",
        38 => "python",
        39 => "romanian",
        40 => "ruby",
        41 => "russian",
        42 => "rust",
        43 => "serbian",
        44 => "sinhala",
        45 => "spanish",
        46 => "swedish",
        47 => "tamil",
        48 => "telugu",
        49 => "thai",
        50 => "tibetan",
        51 => "turkish",
        52 => "typescript",
        53 => "ukrainian",
        54 => "urdu",
        _ => "vietnamese",
    }
}

fn preset_description_str(i: usize) -> (s: &'static str)
    requires
        i < PRESET_COUNT,
    ensures
        s@ == preset_description(i as int),
{
    match i {
        0 => "Amharic text - Basic Latin + Ethiopic",
        1 => "Arabic text - Basic Latin + Arabic",
        2 => "Armenian text - Basic Latin + Armenian",
        3 => "Bengali text - Basic Latin + Bengali",
        4 => "Bulgarian text - Basic Latin + Cyrillic",
        5 => "Burmese text - Basic Latin + Myanmar",
        6 => "C/C++ source code - ASCII only",
        7 => "Chinese text - Basic Latin + CJK ideographs",
        8 => "C/C++ source code - ASCII only",
        9 => "Czech text - Basic Latin + Latin-1 + Latin Extended-A",
        10 => "Dutch text - Basic Latin + Latin-1",
        11 => "English text - ASCII only",
        12 => "French text - Basic Latin + Latin-1",
        13 => "Georgian text - Basic Latin + Georgian",
        14 => "German text - Basic Latin + Latin-1",
        15 => "Go source code - UTF-8 friendly",
        16 => "Greek text - Basic Latin + Greek",
        17 => "Gujarati text - Basic Latin + Gujarati",
        18 => "Hebrew text - Basic Latin + Hebrew",
        19 => "Hindi text - Basic Latin + Devanagari",
        20 => "Hungarian text - Basic Latin + Latin-1 + Latin Extended-A",
        21 => "Italian text - Basic Latin + Latin-1",
        22 => "Japanese text - Basic Latin + kana + CJK ideographs",
        23 => "Java source code - Basic Latin + Latin-1",
        24 => "JavaScript/TypeScript - Basic Latin + common symbols",
        25 => "Kannada text - Basic Latin + Kannada",
        26 => "Khmer text - Basic Latin + Khmer",
        27 => "Korean text - Basic Latin + Hangul",
        28 => "Lao text - Basic Latin + Lao",
        29 => "Malayalam text - Basic Latin + Malayalam",
        30 => "Marathi text - Basic Latin + Devanagari",
        31 => "Mongolian text - Basic Latin + Mongolian",
        32 => "Nepali text - Basic Latin + Devanagari",
        33 => "Persian text - Basic Latin + Arabic",
        34 => "PHP source code - Basic Latin + Latin-1",
        35 => "Polish text - Basic Latin + Latin-1 + Latin Extended-A",
        36 => "Portuguese text - Basic Latin + Latin-1",
        37 => "Punjabi text - Basic Latin + Gurmukhi",
        38 => "Python source code - Basic Latin + Latin-1",
        39 => "Romanian text - Basic Latin + Latin-1 + Latin Extended-A and -B",
        40 => "Ruby source code - UTF-8 friendly",
        41 => "Russian text - Basic Latin + Cyrillic",
        42 => "Rust source code - ASCII only",
        43 => "Serbian text - Basic Latin + Latin Extended-A + Cyrillic",
        44 => "Sinhala text - Basic Latin + Sinhala",
        45 => "Spanish text - Basic Latin + Latin-1",
        46 => "Swedish text - Basic Latin + Latin-1",
        47 => "Tamil text - Basic Latin + Tamil",
        48 => "Telugu text - Basic Latin + Telugu",
        49 => "Thai text - Basic Latin + Thai",
        50 => "Tibetan text - Basic Latin + Tibetan",
        51 => "Turkish text - Basic Latin + Latin-1 + Latin Extended-A",
        52 => "JavaScript/TypeScript - Basic Latin + common symbols",
        53 => "Ukrainian text - Basic Latin + Cyrillic",
        54 => "Urdu text - Basic Latin + Arabic",
        _ => "Vietnamese text - Basic Latin + Latin Extended + Latin Extended Additional",
    }
}

fn preset_profile_of(i: usize) -> (p: u8)
    requires
        i < PRESET_COUNT,
    ensures
        p == preset_profile(i as int),
        p < PROFILE_COUNT,
{
    match i {
        0 => 26,
        1 => 11,
        2 => 9,
        3 => 13,
        4 => 6,
        5 => 24,
        6 => 0,
        7 => 29,
        8 => 0,
        9 => 3,
        10 => 1,
        11 => 0,
        12 => 1,
        13 => 25,
        14 => 1,
        15 => 2,
        16 => 8,
        17 => 15,
        18 => 10,
        19 => 12,
        20 => 3,
        21 => 1,
        22 => 30,
        23 => 1,
        24 => 1,
        25 => 18,
        26 => 27,
        27 => 31,
        28 => 22,
        29 => 19,
        30 => 12,
        31 => 28,
        32 => 12,
        33 => 11,
        34 => 1,
        35 => 3,
        36 => 1,
        37 => 14,
        38 => 1,
        39 => 4,
        40 => 1,
        41 => 6,
        42 => 0,
        43 => 7,
        44 => 20,
        45 => 1,
        46 => 1,
        47 => 16,
        48 => 17,
        49 => 21,
        50 => 23,
        51 => 3,
        52 => 1,
        53 => 6,
        54 => 11,
        _ => 5,
    }
}

fn block_of(b: u8) -> (r: UnicodeRange)
    requires
        b < BLOCK_COUNT,
    ensures
        range_view(r) == block_range(b),
{
    match b {
        0 => described(0xA0, 0xFF, "Latin-1 Supplement"),
        1 => described(0xA0, 0x24F, "Latin Extended"),
        2 => described(0x100, 0x17F, "Latin Extended-A"),
        3 => described(0x180, 0x24F, "Latin Extended-B"),
        4 => described(0x1E00, 0x1EFF, "Latin Extended Additional"),
        5 => described(0x370, 0x3FF, "Greek and Coptic"),
        6 => described(0x400, 0x4FF, "Cyrillic"),
        7 => described(0x530, 0x58F, "Armenian"),
        8 => described(0x590, 0x5FF, "Hebrew"),
        9 => described(0x600, 0x6FF, "Arabic"),
        10 => described(0x900, 0x97F, "Devanagari"),
        11 => described(0x980, 0x9FF, "Bengali"),
        12 => described(0xA00, 0xA7F, "Gurmukhi"),
        13 => described(0xA80, 0xAFF, "Gujarati"),
        14 => described(0xB80, 0xBFF, "Tamil"),
        15 => described(0xC00, 0xC7F, "Telugu"),
        16 => described(0xC80, 0xCFF, "Kannada"),
        17 => described(0xD00, 0xD7F, "Malayalam"),
        18 => described(0xD80, 0xDFF, "Sinhala"),
        19 => described(0xE00, 0xE7F, "Thai"),
        20 => described(0xE80, 0xEFF, "Lao"),
        21 => described(0xF00, 0xFFF, "Tibetan"),
        22 => described(0x1000, 0x109F, "Myanmar"),
        23 => described(0x10A0, 0x10FF, "Georgian"),
        24 => described(0x1100, 0x11FF, "Hangul Jamo"),
        25 => described(0x1200, 0x137F, "Ethiopic"),
        26 => described(0x1780, 0x17FF, "Khmer"),
        27 => described(0x1800, 0x18AF, "Mongolian"),
        28 => described(0x3001, 0x303F, "CJK punctuation"),
        29 => described(0x3040, 0x309F, "Hiragana"),
        30 => described(0x30A0, 0x30FF, "Katakana"),
        31 => described(0x4E00, 0x9FFF, "CJK Unified Ideographs"),
        _ => described(0xAC00, 0xD7AF, "Hangul Syllables"),
    }
}

fn profile_block_ids(p: u8) -> (v: Vec<u8>)
    requires
        p < PROFILE_COUNT,
    ensures
        v@ == profile_blocks(p),
        forall|j: int| 0 <= j < v@.len() ==> #[trigger] v@[j] < BLOCK_COUNT,
{
    let mut v: Vec<u8> = Vec::new();
    if p == 0 {
    } else if p == 1 {
        v.push(0);
    } else if p == 2 {
        v.push(1);
    } else if p == 3 {
        v.push(0);
        v.push(2);
    } else if p == 4 {
        v.push(0);
        v.push(2);
        v.push(3);
    } else if p == 5 {
        v.push(0);
        v.push(2);
        v.push(3);
        v.push(4);
    } else if p == 6 {
        v.push(6);
    } else if p == 7 {
        v.push(2);
        v.push(6);
    } else if p == 8 {
        v.push(5);
    } else if p == 9 {
        v.push(7);
    } else if p == 10 {
        v.push(8);
    } else if p == 11 {
        v.push(9);
    } else if p == 12 {
        v.push(10);
    } else if p == 13 {
        v.push(11);
    } else if p == 14 {
        v.push(12);
    } else if p == 15 {
        v.push(13);
    } else if p == 16 {
        v.push(14);
    } else if p == 17 {
        v.push(15);
    } else if p == 18 {
        v.push(16);
    } else if p == 19 {
        v.push(17);
    } else if p == 20 {
        v.push(18);
    } else if p == 21 {
        v.push(19);
    } else if p == 22 {
        v.push(20);
    } else if p == 23 {
        v.push(21);
    } else if p == 24 {
        v.push(22);
    } else if p == 25 {
        v.push(23);
    } else if p == 26 {
        v.push(25);
    } else if p == 27 {
        v.push(26);
    } else if p == 28 {
        v.push(27);
    } else if p == 29 {
        v.push(28);
        v.push(31);
    } else if p == 30 {
        v.push(28);
        v.push(29);
        v.push(30);
        v.push(31);
    } else {
        v.push(24);
        v.push(28);
        v.push(32);
    }
    assert(v@ =~= profile_blocks(p));
    v
}

fn described(start: u32, end: u32, description: &str) -> (r: UnicodeRange)
    ensures
        range_view(r) == (start, end, Some(description@)),
{
    UnicodeRange { start, end, description: Some(String::from_str(description)) }
}

/// Built-in preset `i`.
fn build_preset(i: usize) -> (p: LanguagePreset)
    requires
        i < PRESET_COUNT,
    ensures
        preset_view(p) == preset_at(i as int),
{
    let name = if i == 8 {
        "c"
    } else if i == 52 {
        "javascript"
    } else {
        preset_key_str(i)
    };
    let mut ranges: Vec<UnicodeRange> = Vec::new();
    ranges.push(described(0x20, 0x7E, "Basic Latin printable"));
    if i == 42 {
        ranges.push(described(0x09, 0x0D, "Control chars (tab, newline, CR)"));
    } else {
        ranges.push(described(0x09, 0x0D, "Control chars"));
    }
    let ids = profile_block_ids(preset_profile_of(i));
    let ghost head = seq![printable_ascii(), control_range(i as int)];
    assert(ranges_view(ranges@) =~= head);
    let mut k: usize = 0;
    while k < ids.len()
        invariant
            k <= ids.len(),
            forall|j: int| 0 <= j < ids@.len() ==> #[trigger] ids@[j] < BLOCK_COUNT,
            ranges_view(ranges@) == head + ids@.take(k as int).map_values(|b: u8| block_range(b)),
        decreases ids.len() - k,
    {
        let r = block_of(ids[k]);
        let ghost before = ranges@;
        ranges.push(r);
        assert(ranges_view(ranges@) =~= ranges_view(before).push(range_view(r)));
        assert(ids@.take(k + 1).map_values(|b: u8| block_range(b)) =~= ids@.take(k as int).map_values(
            |b: u8| block_range(b),
        ).push(block_range(ids@[k as int])));
        k = k + 1;
    }
    assert(ids@.take(ids@.len() as int) =~= ids@);
    let p = LanguagePreset {
        name: String::from_str(name),
        description: String::from_str(preset_description_str(i)),
        allowed_ranges: ranges,
    };
    p
}

/// The index of the built-in preset with key `name`.
fn preset_index(name: &str) -> (r: Option<usize>)
    ensures
        match preset_from(0, name@) {
            Some(i) => r == Some(i as usize),
            None => r is None,
        },
        r matches Some(i) ==> i < PRESET_COUNT,
{
    let mut k: usize = 0;
    while k < PRESET_COUNT
        invariant
            k <= PRESET_COUNT,
            preset_from(0, name@) == preset_from(k as int, name@),
        decreases PRESET_COUNT - k,
    {
        if str_eq(name, preset_key_str(k)) {
            return Some(k);
        }
        k = k + 1;
    }
    None
}

/// The built-in preset with key `name`, if there is one.
pub fn get_preset(name: &str) -> (r: Option<LanguagePreset>)
    ensures
        match builtin_preset(name@) {
            Some(v) => r matches Some(p) && preset_view(p) == v,
            None => r is None,
        },
{
    proof {
        lemma_preset_from_range(0, name@);
    }
    match preset_index(name) {
        Some(i) => Some(build_preset(i)),
        None => None,
    }
}

/// Every built-in preset under its key, keys in sorted order.
pub fn get_all_presets() -> (r: Vec<(String, LanguagePreset)>)
    ensures
        r@.len() == PRESET_COUNT,
        forall|i: int| 0 <= i < PRESET_COUNT ==> (#[trigger] r@[i]).0@ == preset_key(i) && preset_view(r@[i].1) == preset_at(i),
{
    let mut r: Vec<(String, LanguagePreset)> = Vec::new();
    let mut i: usize = 0;
    while i < PRESET_COUNT
        invariant
            i <= PRESET_COUNT,
            r@.len() == i,
            forall|j: int| 0 <= j < i ==> (#[trigger] r@[j]).0@ == preset_key(j) && preset_view(r@[j].1) == preset_at(j),
        decreases PRESET_COUNT - i,
    {
        r.push((String::from_str(preset_key_str(i)), build_preset(i)));
        i = i + 1;
    }
    r
}

/// The keys of the built-in presets, sorted.
pub fn list_preset_names() -> (r: Vec<String>)
    ensures
        r@.map_values(|s: String| s@) == preset_keys(),
{
    let mut r: Vec<String> = Vec::new();
    let mut i: usize = 0;
    while i < PRESET_COUNT
        invariant
            i <= PRESET_COUNT,
            r@.len() == i,
            forall|j: int| 0 <= j < i ==> (#[trigger] r@[j])@ == preset_key(j),
        decreases PRESET_COUNT - i,
    {
        r.push(String::from_str(preset_key_str(i)));
        i = i + 1;
    }
    assert(r@.map_values(|s: String| s@) =~= preset_keys());
    r
}

} // verus!

verus! {

proof fn lemma_block_range_bounds(b: u8)
    ensures
        block_range(b).0 <= block_range(b).1 <= 0x10FFFF,
        block_range(b).2 is Some,
{
}

proof fn lemma_preset_from_none(k: int, name: Seq<char>)
    requires
        0 <= k,
    ensures
        preset_from(k, name) is None ==> forall|i: int| k <= i < PRESET_COUNT ==> preset_key(i) != name,
    decreases PRESET_COUNT - k,
{
    if k < PRESET_COUNT {
        lemma_preset_from_none(k + 1, name);
    }
}

/// There are at least fifty built-in presets. Every one allows printable
/// Basic Latin first and the tab-to-carriage-return controls second, and
/// every range of every preset is ordered, within the code space and
/// described.
pub proof fn presets_allow_printable_ascii(i: int)
    requires
        0 <= i < PRESET_COUNT,
    ensures
        PRESET_COUNT >= 50,
        preset_at(i).2[0] == printable_ascii(),
        preset_at(i).2[1].0 == 0x09 && preset_at(i).2[1].1 == 0x0D,
        forall|j: int| 0 <= j < preset_at(i).2.len() ==> #[trigger] preset_at(i).2[j].0 <= preset_at(i).2[j].1 <= 0x10FFFF
            && preset_at(i).2[j].2 is Some,
{
    let rs = preset_at(i).2;
    let bs = profile_blocks(preset_profile(i));
    assert forall|j: int| 0 <= j < rs.len() implies #[trigger] rs[j].0 <= rs[j].1 <= 0x10FFFF && rs[j].2 is Some by {
        if j >= 2 {
            assert(rs[j] == block_range(bs[j - 2]));
            lemma_block_range_bounds(bs[j - 2]);
        }
    }
}

/// A name has a built-in preset exactly when it is one of the keys, and the
/// preset found is the one listed under that key.
pub proof fn preset_lookup_agrees_with_keys(name: Seq<char>)
    ensures
        builtin_preset(name) is Some <==> exists|i: int| 0 <= i < PRESET_COUNT && preset_key(i) == name,
        builtin_preset(name) matches Some(v) ==> exists|i: int|
            0 <= i < PRESET_COUNT && preset_key(i) == name && v == preset_at(i),
{
    lemma_preset_from_range(0, name);
    lemma_preset_from_none(0, name);
}

proof fn lemma_key_step_0()
    ensures
        text_lt(preset_key(0), preset_key(1)),
{
    reveal_strlit("amharic");
    reveal_strlit("arabic");
    reveal_with_fuel(text_lt, 6);
}

proof fn lemma_key_step_1()
    ensures
        text_lt(preset_key(1), preset_key(2)),
{
    reveal_strlit("arabic");
    reveal_strlit("armenian");
    reveal_with_fuel(text_lt, 6);
}

proof fn lemma_key_step_2()
    ensures
        text_lt(preset_key(2), preset_key(3)),
{
    reveal_strlit("armenian");
    reveal_strlit("bengali");
    reveal_with_fuel(text_lt, 6);
}

proof fn lemma_key_step_3()
    ensures
        text_lt(preset_key(3), preset_key(4)),
{
    reveal_strlit("bengali");
    reveal_strlit("bulgarian");
    reveal_with_fuel(text_lt, 6);
}

proof fn lemma_key_step_4()
    ensures
        text_lt(preset_key(4), preset_key(5)),
{
    reveal_strlit("bulgarian");
    reveal_strlit("burmese");
    reveal_with_fuel(text_lt, 6);
}

proof fn lemma_key_step_5()
    ensures
        text_lt(preset_key(5), preset_key(6)),
{
    reveal_strlit("burmese");
    reveal_strlit("c");
    reveal_with_fuel(text_lt, 6);
}

proof fn lemma_key_step_6()
    ensures
        text_lt(preset_key(6), preset_key(7)),
{
    reveal_strlit("c");
    reveal_strlit("chinese");
    reveal_with_fuel(text_lt, 6);
}

proof fn lemma_key_step_7()
    ensures
        text_lt(preset_key(7), preset_key(8)),
{
    reveal_strlit("chinese");
    reveal_strlit("cpp");
    reveal_with_fuel(text_lt, 6);
}

proof fn lemma_key_step_8()
    ensures
        text_lt(preset_key(8), preset_key(9)),
{
    reveal_strlit("cpp");
    reveal_strlit("czech");
    reveal_with_fuel(text_lt, 6);
}

proof fn lemma_key_step_9()
    ensures
        text_lt(preset_key(9), preset_key(10)),
{
    reveal_strlit("czech");
    reveal_strlit("dutch");
    reveal_with_fuel(text_lt, 6);
}

proof fn lemma_key_step_10()
    ensures
        text_lt(preset_key(10), preset_key(11)),
{
    reveal_strlit("dutch");
    reveal_strlit("english");
    reveal_with_fuel(text_lt, 6);
}

proof fn lemma_key_step_11()
    ensures
        text_lt(preset_key(11), preset_key(12)),
{
    reveal_strlit("english");
    reveal_strlit("french");
    reveal_with_fuel(text_lt, 6);
}

proof fn lemma_key_step_12()
    ensures
        text_lt(preset_key(12), preset_key(13)),
{
    reveal_strlit("french");
    reveal_strlit("georgian");
    reveal_with_fuel(text_lt, 6);
}

proof fn lemma_key_step_13()
    ensures
        text_lt(preset_key(13), preset_key(14)),
{
    reveal_strlit("georgian");
    reveal_strlit("german");
    reveal_with_fuel(text_lt, 6);
}

proof fn lemma_key_step_14()
    ensures
        text_lt(preset_key(14), preset_key(15)),
{
    reveal_strlit("german");
    reveal_strlit("go");
    reveal_with_fuel(text_lt, 6);
}

proof fn lemma_key_step_15()
    ensures
        text_lt(preset_key(15), preset_key(16)),
{
    reveal_strlit("go");
    reveal_strlit("greek");
    reveal_with_fuel(text_lt, 6);
}

proof fn lemma_key_step_16()
    ensures
        text_lt(preset_key(16), preset_key(17)),
{
    reveal_strlit("greek");
    reveal_strlit("gujarati");
    reveal_with_fuel(text_lt, 6);
}

proof fn lemma_key_step_17()
    ensures
        text_lt(preset_key(17), preset_key(18)),
{
    reveal_strlit("gujarati");
    reveal_strlit("hebrew");
    reveal_with_fuel(text_lt, 6);
}

proof fn lemma_key_step_18()
    ensures
        text_lt(preset_key(18), preset_key(19)),
{
    reveal_strlit("hebrew");
    reveal_strlit("hindi");
    reveal_with_fuel(text_lt, 6);
}

proof fn lemma_key_step_19()
    ensures
        text_lt(preset_key(19), preset_key(20)),
{
    reveal_strlit("hindi");
    reveal_strlit("hungarian");
    reveal_with_fuel(text_lt, 6);
}

proof fn lemma_key_step_20()
    ensures
        text_lt(preset_key(20), preset_key(21)),
{
    reveal_strlit("hungarian");
    reveal_strlit("italian");
    reveal_with_fuel(text_lt, 6);
}

proof fn lemma_key_step_21()
    ensures
        text_lt(preset_key(21), preset_key(22)),
{
    reveal_strlit("italian");
    reveal_strlit("japanese");
    reveal_with_fuel(text_lt, 6);
}

proof fn lemma_key_step_22()
    ensures
        text_lt(preset_key(22), preset_key(23)),
{
    reveal_strlit("japanese");
    reveal_strlit("java");
    reveal_with_fuel(text_lt, 6);
}

proof fn lemma_key_step_23()
    ensures
        text_lt(preset_key(23), preset_key(24)),
{
    reveal_strlit("java");
    reveal_strlit("javascript");
    reveal_with_fuel(text_lt, 6);
}

proof fn lemma_key_step_24()
    ensures
        text_lt(preset_key(24), preset_key(25)),
{
    reveal_strlit("javascript");
    reveal_strlit("kannada");
    reveal_with_fuel(text_lt, 6);
}

proof fn lemma_key_step_25()
    ensures
        text_lt(preset_key(25), preset_key(26)),
{
    reveal_strlit("kannada");
    reveal_strlit("khmer");
    reveal_with_fuel(text_lt, 6);
}

proof fn lemma_key_step_26()
    ensures
        text_lt(preset_key(26), preset_key(27)),
{
    reveal_strlit("khmer");
    reveal_strlit("korean");
    reveal_with_fuel(text_lt, 6);
}

proof fn lemma_key_step_27()
    ensures
        text_lt(preset_key(27), preset_key(28)),
{
    reveal_strlit("korean");
    reveal_strlit("lao");
    reveal_with_fuel(text_lt, 6);
}

proof fn lemma_key_step_28()
    ensures
        text_lt(preset_key(28), preset_key(29)),
{
    reveal_strlit("lao");
    reveal_strlit("malayalam");
    reveal_with_fuel(text_lt, 6);
}

proof fn lemma_key_step_29()
    ensures
        text_lt(preset_key(29), preset_key(30)),
{
    reveal_strlit("malayalam");
    reveal_strlit("marathi");
    reveal_with_fuel(text_lt, 6);
}

proof fn lemma_key_step_30()
    ensures
        text_lt(preset_key(30), preset_key(31)),
{
    reveal_strlit("marathi");
    reveal_strlit("mongolian");
    reveal_with_fuel(text_lt, 6);
}

proof fn lemma_key_step_31()
    ensures
        text_lt(preset_key(31), preset_key(32)),
{
    reveal_strlit("mongolian");
    reveal_strlit("nepali");
    reveal_with_fuel(text_lt, 6);
}

proof fn lemma_key_step_32()
    ensures
        text_lt(preset_key(32), preset_key(33)),
{
    reveal_strlit("nepali");
    reveal_strlit("persian");
    reveal_with_fuel(text_lt, 6);
}

proof fn lemma_key_step_33()
    ensures
        text_lt(preset_key(33), preset_key(34)),
{
    reveal_strlit("persian");
    reveal_strlit("php");
    reveal_with_fuel(text_lt, 6);
}

proof fn lemma_key_step_34()
    ensures
        text_lt(preset_key(34), preset_key(35)),
{
    reveal_strlit("php");
    reveal_strlit("polish");
    reveal_with_fuel(text_lt, 6);
}

proof fn lemma_key_step_35()
    ensures
        text_lt(preset_key(35), preset_key(36)),
{
    reveal_strlit("polish");
    reveal_strlit("portuguese");
    reveal_with_fuel(text_lt, 6);
}

proof fn lemma_key_step_36()
    ensures
        text_lt(preset_key(36), preset_key(37)),
{
    reveal_strlit("portuguese");
    reveal_strlit("punjabi");
    reveal_with_fuel(text_lt, 6);
}

proof fn lemma_key_step_37()
    ensures
        text_lt(preset_key(37), preset_key(38)),
{
    reveal_strlit("punjabi");
    reveal_strlit("python");
    reveal_with_fuel(text_lt, 6);
}

proof fn lemma_key_step_38()
    ensures
        text_lt(preset_key(38), preset_key(39)),
{
    reveal_strlit("python");
    reveal_strlit("romanian");
    reveal_with_fuel(text_lt, 6);
}

proof fn lemma_key_step_39()
    ensures
        text_lt(preset_key(39), preset_key(40)),
{
    reveal_strlit("romanian");
    reveal_strlit("ruby");
    reveal_with_fuel(text_lt, 6);
}

proof fn lemma_key_step_40()
    ensures
        text_lt(preset_key(40), preset_key(41)),
{
    reveal_strlit("ruby");
    reveal_strlit("russian");
    reveal_with_fuel(text_lt, 6);
}

proof fn lemma_key_step_41()
    ensures
        text_lt(preset_key(41), preset_key(42)),
{
    reveal_strlit("russian");
    reveal_strlit("rust");
    reveal_with_fuel(text_lt, 6);
}

proof fn lemma_key_step_42()
    ensures
        text_lt(preset_key(42), preset_key(43)),
{
    reveal_strlit("rust");
    reveal_strlit("serbian");
    reveal_with_fuel(text_lt, 6);
}

proof fn lemma_key_step_43()
    ensures
        text_lt(preset_key(43), preset_key(44)),
{
    reveal_strlit("serbian");
    reveal_strlit("sinhala");
    reveal_with_fuel(text_lt, 6);
}

proof fn lemma_key_step_44()
    ensures
        text_lt(preset_key(44), preset_key(45)),
{
    reveal_strlit("sinhala");
    reveal_strlit("spanish");
    reveal_with_fuel(text_lt, 6);
}

proof fn lemma_key_step_45()
    ensures
        text_lt(preset_key(45), preset_key(46)),
{
    reveal_strlit("spanish");
    reveal_strlit("swedish");
    reveal_with_fuel(text_lt, 6);
}

proof fn lemma_key_step_46()
    ensures
        text_lt(preset_key(46), preset_key(47)),
{
    reveal_strlit("swedish");
    reveal_strlit("tamil");
    reveal_with_fuel(text_lt, 6);
}

proof fn lemma_key_step_47()
    ensures
        text_lt(preset_key(47), preset_key(48)),
{
    reveal_strlit("tamil");
    reveal_strlit("telugu");
    reveal_with_fuel(text_lt, 6);
}

proof fn lemma_key_step_48()
    ensures
        text_lt(preset_key(48), preset_key(49)),
{
    reveal_strlit("telugu");
    reveal_strlit("thai");
    reveal_with_fuel(text_lt, 6);
}

proof fn lemma_key_step_49()
    ensures
        text_lt(preset_key(49), preset_key(50)),
{
    reveal_strlit("thai");
    reveal_strlit("tibetan");
    reveal_with_fuel(text_lt, 6);
}

proof fn lemma_key_step_50()
    ensures
        text_lt(preset_key(50), preset_key(51)),
{
    reveal_strlit("tibetan");
    reveal_strlit("turkish");
    reveal_with_fuel(text_lt, 6);
}

proof fn lemma_key_step_51()
    ensures
        text_lt(preset_key(51), preset_key(52)),
{
    reveal_strlit("turkish");
    reveal_strlit("typescript");
    reveal_with_fuel(text_lt, 6);
}

proof fn lemma_key_step_52()
    ensures
        text_lt(preset_key(52), preset_key(53)),
{
    reveal_strlit("typescript");
    reveal_strlit("ukrainian");
    reveal_with_fuel(text_lt, 6);
}

proof fn lemma_key_step_53()
    ensures
        text_lt(preset_key(53), preset_key(54)),
{
    reveal_strlit("ukrainian");
    reveal_strlit("urdu");
    reveal_with_fuel(text_lt, 6);
}

proof fn lemma_key_step_54()
    ensures
        text_lt(preset_key(54), preset_key(55)),
{
    reveal_strlit("urdu");
    reveal_strlit("vietnamese");
    reveal_with_fuel(text_lt, 6);
}

proof fn lemma_key_step(i: int)
    requires
        0 <= i < PRESET_COUNT - 1,
    ensures
        text_lt(preset_key(i), preset_key(i + 1)),
{
    if i == 0 {
        lemma_key_step_0();
    } else if i == 1 {
        lemma_key_step_1();
    } else if i == 2 {
        lemma_key_step_2();
    } else if i == 3 {
        lemma_key_step_3();
    } else if i == 4 {
        lemma_key_step_4();
    } else if i == 5 {
        lemma_key_step_5();
    } else if i == 6 {
        lemma_key_step_6();
    } else if i == 7 {
        lemma_key_step_7();
    } else if i == 8 {
        lemma_key_step_8();
    } else if i == 9 {
        lemma_key_step_9();
    } else if i == 10 {
        lemma_key_step_10();
    } else if i == 11 {
        lemma_key_step_11();
    } else if i == 12 {
        lemma_key_step_12();
    } else if i == 13 {
        lemma_key_step_13();
    } else if i == 14 {
        lemma_key_step_14();
    } else if i == 15 {
        lemma_key_step_15();
    } else if i == 16 {
        lemma_key_step_16();
    } else if i == 17 {
        lemma_key_step_17();
    } else if i == 18 {
        lemma_key_step_18();
    } else if i == 19 {
        lemma_key_step_19();
    } else if i == 20 {
        lemma_key_step_20();
    } else if i == 21 {
        lemma_key_step_21();
    } else if i == 22 {
        lemma_key_step_22();
    } else if i == 23 {
        lemma_key_step_23();
    } else if i == 24 {
        lemma_key_step_24();
    } else if i == 25 {
        lemma_key_step_25();
    } else if i == 26 {
        lemma_key_step_26();
    } else if i == 27 {
        lemma_key_step_27();
    } else if i == 28 {
        lemma_key_step_28();
    } else if i == 29 {
        lemma_key_step_29();
    } else if i == 30 {
        lemma_key_step_30();
    } else if i == 31 {
        lemma_key_step_31();
    } else if i == 32 {
        lemma_key_step_32();
    } else if i == 33 {
        lemma_key_step_33();
    } else if i == 34 {
        lemma_key_step_34();
    } else if i == 35 {
        lemma_key_step_35();
    } else if i == 36 {
        lemma_key_step_36();
    } else if i == 37 {
        lemma_key_step_37();
    } else if i == 38 {
        lemma_key_step_38();
    } else if i == 39 {
        lemma_key_step_39();
    } else if i == 40 {
        lemma_key_step_40();
    } else if i == 41 {
        lemma_key_step_41();
    } else if i == 42 {
        lemma_key_step_42();
    } else if i == 43 {
        lemma_key_step_43();
    } else if i == 44 {
        lemma_key_step_44();
    } else if i == 45 {
        lemma_key_step_45();
    } else if i == 46 {
        lemma_key_step_46();
    } else if i == 47 {
        lemma_key_step_47();
    } else if i == 48 {
        lemma_key_step_48();
    } else if i == 49 {
        lemma_key_step_49();
    } else if i == 50 {
        lemma_key_step_50();
    } else if i == 51 {
        lemma_key_step_51();
    } else if i == 52 {
        lemma_key_step_52();
    } else if i == 53 {
        lemma_key_step_53();
    } else {
        lemma_key_step_54();
    }
}

proof fn lemma_keys_ordered(i: int, j: int)
    requires
        0 <= i < j < PRESET_COUNT,
    ensures
        text_lt(preset_key(i), preset_key(j)),
    decreases j - i,
{
    lemma_key_step(j - 1);
    if i < j - 1 {
        lemma_keys_ordered(i, j - 1);
        lemma_text_lt_transitive(preset_key(i), preset_key(j - 1), preset_key(j));
    }
}

/// The keys of the built-in presets strictly rise in character order, so no
/// two are equal, and each key finds the preset listed under it.
pub proof fn preset_keys_are_sorted()
    ensures
        forall|i: int, j: int| 0 <= i < j < PRESET_COUNT ==> text_lt(#[trigger] preset_key(i), #[trigger] preset_key(j)),
        forall|i: int, j: int| 0 <= i < j < PRESET_COUNT ==> #[trigger] preset_key(i) != #[trigger] preset_key(j),
        forall|i: int| 0 <= i < PRESET_COUNT ==> builtin_preset(#[trigger] preset_key(i)) == Some(preset_at(i)),
{
    assert forall|i: int, j: int| 0 <= i < j < PRESET_COUNT implies text_lt(#[trigger] preset_key(i), #[trigger] preset_key(j))
        && preset_key(i) != preset_key(j) by {
        lemma_keys_ordered(i, j);
        lemma_text_lt_irreflexive(preset_key(i));
    }
    assert forall|i: int| 0 <= i < PRESET_COUNT implies builtin_preset(#[trigger] preset_key(i)) == Some(preset_at(i)) by {
        lemma_preset_from_range(0, preset_key(i));
        lemma_preset_from_none(0, preset_key(i));
        let k = preset_from(0, preset_key(i))->0;
        if k != i {
            if k < i {
                lemma_keys_ordered(k, i);
            } else {
                lemma_keys_ordered(i, k);
            }
            lemma_text_lt_irreflexive(preset_key(i));
        }
    }
}

/// A name that is no key, such as "nonexistent-language", has no preset.
pub proof fn unknown_language_has_no_preset()
    ensures
        builtin_preset("nonexistent-language"@) is None,
{
    let name = "nonexistent-language"@;
    reveal_strlit("nonexistent-language");
    reveal_strlit("nepali");
    reveal_strlit("persian");
    assert(text_lt(preset_key(32), name)) by {
        reveal_with_fuel(text_lt, 4);
    }
    assert(text_lt(name, preset_key(33))) by {
        reveal_with_fuel(text_lt, 4);
    }
    lemma_preset_from_range(0, name);
    if preset_from(0, name) is Some {
        let k = preset_from(0, name)->0;
        if k < 32 {
            lemma_keys_ordered(k, 32);
            lemma_text_lt_transitive(preset_key(k), preset_key(32), name);
        } else if k > 33 {
            lemma_keys_ordered(33, k);
            lemma_text_lt_transitive(name, preset_key(33), preset_key(k));
        }
        lemma_text_lt_irreflexive(name);
    }
}

} // verus!
