//! Text encodings: byte-order marks, heuristics, decoding and binary detection.

use vstd::prelude::*;

verus! {

/// An encoding that the scanner recognises.
#[derive(Debug, Clone, Copy, PartialEq, Eq, Hash, Structural)]
pub enum DetectedEncoding {
    Utf8,
    Utf16Le,
    Utf16Be,
    Utf32Le,
    Utf32Be,
}

/// The display name of an encoding.
pub open spec fn encoding_name_spec(e: DetectedEncoding) -> Seq<char> {
    match e {
        DetectedEncoding::Utf8 => "UTF-8"@,
        DetectedEncoding::Utf16Le => "UTF-16 LE"@,
        DetectedEncoding::Utf16Be => "UTF-16 BE"@,
        DetectedEncoding::Utf32Le => "UTF-32 LE"@,
        DetectedEncoding::Utf32Be => "UTF-32 BE"@,
    }
}

impl DetectedEncoding {
    /// The display name, such as `UTF-16 LE`.
    pub fn name(&self) -> (s: &'static str)
        ensures
            s@ == encoding_name_spec(*self),
    {
        match self {
            DetectedEncoding::Utf8 => "UTF-8",
            DetectedEncoding::Utf16Le => "UTF-16 LE",
            DetectedEncoding::Utf16Be => "UTF-16 BE",
            DetectedEncoding::Utf32Le => "UTF-32 LE",
            DetectedEncoding::Utf32Be => "UTF-32 BE",
        }
    }
}

} // verus!

verus! {

/// The encoding announced by a byte-order mark at the start of `b`. The
/// UTF-32 marks are checked first, since the UTF-32 LE mark begins with the
/// UTF-16 LE one.
pub open spec fn bom_of(b: Seq<u8>) -> Option<DetectedEncoding> {
    if b.len() >= 4 && b[0] == 0xFF && b[1] == 0xFE && b[2] == 0x00 && b[3] == 0x00 {
        Some(DetectedEncoding::Utf32Le)
    } else if b.len() >= 4 && b[0] == 0x00 && b[1] == 0x00 && b[2] == 0xFE && b[3] == 0xFF {
        Some(DetectedEncoding::Utf32Be)
    } else if b.len() >= 3 && b[0] == 0xEF && b[1] == 0xBB && b[2] == 0xBF {
        Some(DetectedEncoding::Utf8)
    } else if b.len() >= 2 && b[0] == 0xFF && b[1] == 0xFE {
        Some(DetectedEncoding::Utf16Le)
    } else if b.len() >= 2 && b[0] == 0xFE && b[1] == 0xFF {
        Some(DetectedEncoding::Utf16Be)
    } else {
        None
    }
}

/// The length of the byte-order mark of an encoding.
pub open spec fn bom_len(e: DetectedEncoding) -> nat {
    match e {
        DetectedEncoding::Utf8 => 3,
        DetectedEncoding::Utf16Le | DetectedEncoding::Utf16Be => 2,
        DetectedEncoding::Utf32Le | DetectedEncoding::Utf32Be => 4,
    }
}

/// Detect a byte-order mark.
fn detect_bom(bytes: &[u8]) -> (r: Option<DetectedEncoding>)
    ensures
        r == bom_of(bytes@),
{
    let n = bytes.len();
    if n >= 4 && bytes[0] == 0xFF && bytes[1] == 0xFE && bytes[2] == 0x00 && bytes[3] == 0x00 {
        Some(DetectedEncoding::Utf32Le)
    } else if n >= 4 && bytes[0] == 0x00 && bytes[1] == 0x00 && bytes[2] == 0xFE && bytes[3]
        == 0xFF {
        Some(DetectedEncoding::Utf32Be)
    } else if n >= 3 && bytes[0] == 0xEF && bytes[1] == 0xBB && bytes[2] == 0xBF {
        Some(DetectedEncoding::Utf8)
    } else if n >= 2 && bytes[0] == 0xFF && bytes[1] == 0xFE {
        Some(DetectedEncoding::Utf16Le)
    } else if n >= 2 && bytes[0] == 0xFE && bytes[1] == 0xFF {
        Some(DetectedEncoding::Utf16Be)
    } else {
        None
    }
}

/// The number of zero bytes among the first `k` bytes.
pub open spec fn zeros_in(b: Seq<u8>, k: int) -> nat
    decreases k,
{
    if k <= 0 || k > b.len() {
        0
    } else {
        zeros_in(b, k - 1) + if b[k - 1] == 0 {
            1nat
        } else {
            0nat
        }
    }
}

/// The number of even positions `i < k` where byte `i` is not zero and byte
/// `i + 1` exists and is zero (`le`), or the reverse (`!le`).
pub open spec fn pair_matches(b: Seq<u8>, k: int, le: bool) -> nat
    decreases k,
{
    if k <= 0 {
        0
    } else {
        let i = k - 1;
        pair_matches(b, k - 1, le) + if i % 2 == 0 && i + 1 < b.len() && (if le {
            b[i] != 0 && b[i + 1] == 0
        } else {
            b[i] == 0 && b[i + 1] != 0
        }) {
            1nat
        } else {
            0nat
        }
    }
}

/// `min(len, 100)`: how many leading bytes the heuristic samples.
pub open spec fn sample_len(b: Seq<u8>) -> int {
    if b.len() < 100 {
        b.len() as int
    } else {
        100
    }
}

/// UTF-16 or UTF-32 guessed from the NUL-byte pattern of text without a
/// byte-order mark.
pub open spec fn heuristic_of(b: Seq<u8>) -> Option<DetectedEncoding> {
    if b.len() < 4 {
        None
    } else {
        let nulls = zeros_in(b, sample_len(b));
        if nulls >= 4 && b.len() >= 8 && b[1] == 0 && b[2] == 0 && b[3] == 0 && b[5] == 0 && b[6]
            == 0 && b[7] == 0 {
            Some(DetectedEncoding::Utf32Le)
        } else if nulls >= 4 && b.len() >= 8 && b[0] == 0 && b[1] == 0 && b[2] == 0 && b[4] == 0
            && b[5] == 0 && b[6] == 0 {
            Some(DetectedEncoding::Utf32Be)
        } else if nulls >= 2 && pair_matches(b, sample_len(b), true) >= 2 {
            Some(DetectedEncoding::Utf16Le)
        } else if nulls >= 2 && pair_matches(b, sample_len(b), false) >= 2 {
            Some(DetectedEncoding::Utf16Be)
        } else {
            None
        }
    }
}

fn count_pairs(bytes: &[u8], limit: usize, le: bool) -> (c: usize)
    requires
        limit <= 100,
        limit <= bytes.len(),
    ensures
        c == pair_matches(bytes@, limit as int, le),
{
    let mut c: usize = 0;
    let mut i: usize = 0;
    while i < limit
        invariant
            i <= limit,
            limit <= 100,
            limit <= bytes.len(),
            c == pair_matches(bytes@, i as int, le),
            c <= i,
        decreases limit - i,
    {
        if i % 2 == 0 && i + 1 < bytes.len() && (if le {
            bytes[i] != 0 && bytes[i + 1] == 0
        } else {
            bytes[i] == 0 && bytes[i + 1] != 0
        }) {
            c = c + 1;
        }
        i = i + 1;
    }
    c
}

/// Guess UTF-16 or UTF-32 from NUL-byte patterns.
pub fn detect_heuristic(bytes: &[u8]) -> (r: Option<DetectedEncoding>)
    ensures
        r == heuristic_of(bytes@),
{
    let n = bytes.len();
    if n < 4 {
        return None;
    }
    let limit: usize = if n < 100 {
        n
    } else {
        100
    };
    let mut nulls: usize = 0;
    let mut i: usize = 0;
    while i < limit
        invariant
            i <= limit,
            limit == sample_len(bytes@),
            limit <= bytes.len(),
            nulls == zeros_in(bytes@, i as int),
            nulls <= i,
        decreases limit - i,
    {
        if bytes[i] == 0 {
            nulls = nulls + 1;
        }
        i = i + 1;
    }
    if nulls >= 4 {
        if n >= 8 && bytes[1] == 0 && bytes[2] == 0 && bytes[3] == 0 && bytes[5] == 0 && bytes[6]
            == 0 && bytes[7] == 0 {
            return Some(DetectedEncoding::Utf32Le);
        }
        if n >= 8 && bytes[0] == 0 && bytes[1] == 0 && bytes[2] == 0 && bytes[4] == 0 && bytes[5]
            == 0 && bytes[6] == 0 {
            return Some(DetectedEncoding::Utf32Be);
        }
    }
    if nulls >= 2 {
        if count_pairs(bytes, limit, true) >= 2 {
            return Some(DetectedEncoding::Utf16Le);
        }
        if count_pairs(bytes, limit, false) >= 2 {
            return Some(DetectedEncoding::Utf16Be);
        }
    }
    None
}

/// The UTF-16 or UTF-32 encoding hinted at by a byte-order mark or, failing
/// that, by the NUL-byte heuristic.
pub open spec fn utf16_or_utf32_hint(b: Seq<u8>) -> Option<DetectedEncoding> {
    match bom_of(b) {
        Some(e) => if e != DetectedEncoding::Utf8 {
            Some(e)
        } else {
            heuristic_of(b)
        },
        None => heuristic_of(b),
    }
}

/// A best-effort hint for UTF-16/UTF-32 text, without decoding, so that its
/// NUL bytes do not make it look binary.
pub fn detect_utf16_or_utf32(bytes: &[u8]) -> (r: Option<DetectedEncoding>)
    ensures
        r == utf16_or_utf32_hint(bytes@),
{
    match detect_bom(bytes) {
        Some(e) => {
            if e != DetectedEncoding::Utf8 {
                Some(e)
            } else {
                detect_heuristic(bytes)
            }
        },
        None => detect_heuristic(bytes),
    }
}

/// What `encoding_rs` decodes from UTF-16 bytes (little- or big-endian), with
/// its malformed-input flag.
pub uninterp spec fn spec_utf16_decode(big_endian: bool, bytes: Seq<u8>) -> (Seq<char>, bool);

/// Decode UTF-16 with `encoding_rs`.
///
/// Trusted: the text and error flag that `Encoding::decode` of `UTF_16BE` or
/// `UTF_16LE` returns are a function of the bytes alone, named by
/// `spec_utf16_decode` (which includes the crate's byte-order-mark sniffing
/// and its replacement of malformed sequences).
#[verifier::external_body]
fn utf16_decode(big_endian: bool, bytes: &[u8]) -> (r: (String, bool))
    ensures
        (r.0@, r.1) == spec_utf16_decode(big_endian, bytes@),
{
    let encoding = if big_endian { encoding_rs::UTF_16BE } else { encoding_rs::UTF_16LE };
    let (text, _used, had_errors) = encoding.decode(bytes);
    (text.into_owned(), had_errors)
}

/// The display text of the error `str::from_utf8` reports for invalid bytes.
pub uninterp spec fn spec_utf8_error_text(bytes: Seq<u8>) -> Seq<char>;

/// Decode UTF-8.
///
/// Trusted: `std::str::from_utf8` accepts exactly the valid UTF-8 byte
/// strings and then yields their decoding; the text of its error is a
/// function of the bytes, named by `spec_utf8_error_text`.
#[verifier::external_body]
pub fn utf8_decode(bytes: &[u8]) -> (r: Result<String, String>)
    ensures
        r is Ok <==> vstd::utf8::valid_utf8(bytes@),
        r matches Ok(s) ==> s@ == vstd::utf8::decode_utf8(bytes@),
        r matches Err(m) ==> m@ == spec_utf8_error_text(bytes@),
{
    match std::str::from_utf8(bytes) {
        Ok(s) => Ok(s.to_string()),
        Err(e) => Err(e.to_string()),
    }
}

/// The code point stored in the four bytes at `4 * k`.
pub open spec fn utf32_unit(b: Seq<u8>, k: int, big_endian: bool) -> u32 {
    let (b0, b1, b2, b3) = if big_endian {
        (b[4 * k + 3], b[4 * k + 2], b[4 * k + 1], b[4 * k])
    } else {
        (b[4 * k], b[4 * k + 1], b[4 * k + 2], b[4 * k + 3])
    };
    ((b0 as u32) + (b1 as u32) * 256 + (b2 as u32) * 65536 + (b3 as u32) * 16777216) as u32
}

/// The first `k` UTF-32 units of `b` decoded, or the first unit that is not a
/// scalar value.
pub open spec fn utf32_units(b: Seq<u8>, k: int, big_endian: bool) -> Result<Seq<char>, u32>
    decreases k,
{
    if k <= 0 {
        Ok(seq![])
    } else {
        match utf32_units(b, k - 1, big_endian) {
            Ok(cs) => {
                let u = utf32_unit(b, k - 1, big_endian);
                if crate::text::is_scalar_value(u) {
                    Ok(cs.push(u as char))
                } else {
                    Err(u)
                }
            },
            Err(u) => Err(u),
        }
    }
}

/// The result of decoding UTF-32: the characters, or the message of the
/// error.
pub open spec fn utf32_decoding(b: Seq<u8>, big_endian: bool) -> Result<Seq<char>, Seq<char>> {
    if b.len() % 4 != 0 {
        Err(
            if big_endian {
                "Invalid UTF-32 BE length (not multiple of 4)"@
            } else {
                "Invalid UTF-32 LE length (not multiple of 4)"@
            },
        )
    } else {
        match utf32_units(b, (b.len() / 4) as int, big_endian) {
            Ok(cs) => Ok(cs),
            Err(u) => Err(
                "Invalid UTF-32 code point: "@ + crate::report::violation::code_point_text(u),
            ),
        }
    }
}

fn decode_utf32(bytes: &[u8], big_endian: bool) -> (r: Result<String, crate::Error>)
    ensures
        match utf32_decoding(bytes@, big_endian) {
            Ok(t) => r matches Ok(s) && s@ == t,
            Err(m) => r matches Err(crate::Error::Encoding(x)) && x@ == m,
        },
{
    if bytes.len() % 4 != 0 {
        let m = if big_endian {
            "Invalid UTF-32 BE length (not multiple of 4)"
        } else {
            "Invalid UTF-32 LE length (not multiple of 4)"
        };
        return Err(crate::Error::Encoding(String::from_str(m)));
    }
    let units = bytes.len() / 4;
    let mut out = String::new();
    let mut k: usize = 0;
    while k < units
        invariant
            k <= units,
            units == bytes@.len() / 4,
            bytes@.len() % 4 == 0,
            utf32_units(bytes@, k as int, big_endian) matches Ok(cs) && cs == out@,
        decreases units - k,
    {
        assert(4 * k + 4 <= bytes@.len()) by (nonlinear_arith)
            requires
                k < units,
                units == bytes@.len() / 4,
                bytes@.len() % 4 == 0,
        ;
        assert(bytes@.len() == bytes.len());
        let base = 4 * k;
        let (b0, b1, b2, b3) = if big_endian {
            (bytes[base + 3], bytes[base + 2], bytes[base + 1], bytes[base])
        } else {
            (bytes[base], bytes[base + 1], bytes[base + 2], bytes[base + 3])
        };
        let u: u32 = (b0 as u32) + (b1 as u32) * 256 + (b2 as u32) * 65536 + (b3 as u32)
            * 16777216;
        assert(u == utf32_unit(bytes@, k as int, big_endian));
        match crate::text::char_from_u32(u) {
            Some(c) => {
                proof {
                    vstd::utf8::char_u32_cast(c, u);
                }
                crate::text::push_char(&mut out, c);
            },
            None => {
                let mut m = String::from_str("Invalid UTF-32 code point: U+");
                crate::text::push_hex4(&mut m, u as u64);
                proof {
                    lemma_utf32_err_sticky(bytes@, k as int + 1, units as int, big_endian, u);
                }
                assert(m@ =~= "Invalid UTF-32 code point: "@ + crate::report::violation::code_point_text(u)) by {
                    reveal_strlit("Invalid UTF-32 code point: U+");
                    reveal_strlit("Invalid UTF-32 code point: ");
                    reveal_strlit("U+");
                }
                return Err(crate::Error::Encoding(m));
            },
        }
        k = k + 1;
    }
    Ok(out)
}

proof fn lemma_utf32_err_sticky(b: Seq<u8>, k: int, n: int, be: bool, u: u32)
    requires
        1 <= k <= n,
        utf32_units(b, k, be) == Err::<Seq<char>, u32>(u),
    ensures
        utf32_units(b, n, be) == Err::<Seq<char>, u32>(u),
    decreases n - k,
{
    if k < n {
        lemma_utf32_err_sticky(b, k, n - 1, be, u);
    }
}

/// Decode UTF-32 LE bytes.
pub fn decode_utf32_le(bytes: &[u8]) -> (r: Result<String, crate::Error>)
    ensures
        match utf32_decoding(bytes@, false) {
            Ok(t) => r matches Ok(s) && s@ == t,
            Err(m) => r matches Err(crate::Error::Encoding(x)) && x@ == m,
        },
{
    decode_utf32(bytes, false)
}

/// Decode UTF-32 BE bytes.
pub fn decode_utf32_be(bytes: &[u8]) -> (r: Result<String, crate::Error>)
    ensures
        match utf32_decoding(bytes@, true) {
            Ok(t) => r matches Ok(s) && s@ == t,
            Err(m) => r matches Err(crate::Error::Encoding(x)) && x@ == m,
        },
{
    decode_utf32(bytes, true)
}

/// The result of decoding UTF-16: the text, or the message of the error.
pub open spec fn utf16_decoding(b: Seq<u8>, big_endian: bool) -> Result<Seq<char>, Seq<char>> {
    let (t, bad) = spec_utf16_decode(big_endian, b);
    if bad {
        Err(
            if big_endian {
                "Invalid UTF-16 BE sequence"@
            } else {
                "Invalid UTF-16 LE sequence"@
            },
        )
    } else {
        Ok(t)
    }
}

fn decode_utf16(bytes: &[u8], big_endian: bool) -> (r: Result<String, crate::Error>)
    ensures
        match utf16_decoding(bytes@, big_endian) {
            Ok(t) => r matches Ok(s) && s@ == t,
            Err(m) => r matches Err(crate::Error::Encoding(x)) && x@ == m,
        },
{
    let (text, had_errors) = utf16_decode(big_endian, bytes);
    if had_errors {
        let m = if big_endian {
            "Invalid UTF-16 BE sequence"
        } else {
            "Invalid UTF-16 LE sequence"
        };
        return Err(crate::Error::Encoding(String::from_str(m)));
    }
    Ok(text)
}

/// Decode UTF-16 LE bytes with `encoding_rs`.
pub fn decode_utf16_le(bytes: &[u8]) -> (r: Result<String, crate::Error>)
    ensures
        match utf16_decoding(bytes@, false) {
            Ok(t) => r matches Ok(s) && s@ == t,
            Err(m) => r matches Err(crate::Error::Encoding(x)) && x@ == m,
        },
{
    decode_utf16(bytes, false)
}

/// Decode UTF-16 BE bytes with `encoding_rs`.
pub fn decode_utf16_be(bytes: &[u8]) -> (r: Result<String, crate::Error>)
    ensures
        match utf16_decoding(bytes@, true) {
            Ok(t) => r matches Ok(s) && s@ == t,
            Err(m) => r matches Err(crate::Error::Encoding(x)) && x@ == m,
        },
{
    decode_utf16(bytes, true)
}

/// Decoding `b` as encoding `e`; for UTF-8 the error message starts with
/// `prefix`.
pub open spec fn decoding_as(e: DetectedEncoding, b: Seq<u8>, prefix: Seq<char>) -> Result<
    Seq<char>,
    Seq<char>,
> {
    match e {
        DetectedEncoding::Utf8 => if vstd::utf8::valid_utf8(b) {
            Ok(vstd::utf8::decode_utf8(b))
        } else {
            Err(prefix + spec_utf8_error_text(b))
        },
        DetectedEncoding::Utf16Le => utf16_decoding(b, false),
        DetectedEncoding::Utf16Be => utf16_decoding(b, true),
        DetectedEncoding::Utf32Le => utf32_decoding(b, false),
        DetectedEncoding::Utf32Be => utf32_decoding(b, true),
    }
}

/// Decode `bytes` as encoding `e`.
pub fn decode_as(
    bytes: &[u8],
    encoding: DetectedEncoding,
    utf8_prefix: &str,
) -> (r: Result<String, crate::Error>)
    ensures
        match decoding_as(encoding, bytes@, utf8_prefix@) {
            Ok(t) => r matches Ok(s) && s@ == t,
            Err(m) => r matches Err(crate::Error::Encoding(x)) && x@ == m,
        },
{
    match encoding {
        DetectedEncoding::Utf8 => match utf8_decode(bytes) {
            Ok(s) => Ok(s),
            Err(e) => {
                let mut m = String::from_str(utf8_prefix);
                m.append(e.as_str());
                Err(crate::Error::Encoding(m))
            },
        },
        DetectedEncoding::Utf16Le => decode_utf16_le(bytes),
        DetectedEncoding::Utf16Be => decode_utf16_be(bytes),
        DetectedEncoding::Utf32Le => decode_utf32_le(bytes),
        DetectedEncoding::Utf32Be => decode_utf32_be(bytes),
    }
}

/// Detecting and decoding `b`: a byte-order mark decides first (and is
/// skipped), then the NUL-byte heuristic, then UTF-8; otherwise an error.
pub open spec fn detect_decoding(b: Seq<u8>) -> Result<(Seq<char>, DetectedEncoding), Seq<char>> {
    match bom_of(b) {
        Some(e) => match decoding_as(e, b.skip(bom_len(e) as int), "Invalid UTF-8 after BOM: "@) {
            Ok(t) => Ok((t, e)),
            Err(m) => Err(m),
        },
        None => match heuristic_of(b) {
            Some(e) => match decoding_as(e, b, "Invalid UTF-8: "@) {
                Ok(t) => Ok((t, e)),
                Err(m) => Err(m),
            },
            None => if vstd::utf8::valid_utf8(b) {
                Ok((vstd::utf8::decode_utf8(b), DetectedEncoding::Utf8))
            } else {
                Err("Could not detect encoding (not UTF-8, UTF-16, or UTF-32)"@)
            },
        },
    }
}

/// Detect the encoding of `bytes` and decode them, with the encoding found.
pub fn detect_decode_with_encoding(bytes: &[u8]) -> (r: Result<(String, DetectedEncoding), crate::Error>)
    ensures
        match detect_decoding(bytes@) {
            Ok((t, e)) => r matches Ok((s, e2)) && s@ == t && e2 == e,
            Err(m) => r matches Err(crate::Error::Encoding(x)) && x@ == m,
        },
{
    if let Some(encoding) = detect_bom(bytes) {
        let skip: usize = match encoding {
            DetectedEncoding::Utf8 => 3,
            DetectedEncoding::Utf16Le | DetectedEncoding::Utf16Be => 2,
            DetectedEncoding::Utf32Le | DetectedEncoding::Utf32Be => 4,
        };
        let data = vstd::slice::slice_subrange(bytes, skip, bytes.len());
        assert(data@ =~= bytes@.skip(skip as int));
        return match decode_as(data, encoding, "Invalid UTF-8 after BOM: ") {
            Ok(s) => Ok((s, encoding)),
            Err(e) => Err(e),
        };
    }
    if let Some(encoding) = detect_heuristic(bytes) {
        return match decode_as(bytes, encoding, "Invalid UTF-8: ") {
            Ok(s) => Ok((s, encoding)),
            Err(e) => Err(e),
        };
    }
    match utf8_decode(bytes) {
        Ok(s) => Ok((s, DetectedEncoding::Utf8)),
        Err(_) => Err(
            crate::Error::Encoding(
                String::from_str("Could not detect encoding (not UTF-8, UTF-16, or UTF-32)"),
            ),
        ),
    }
}

/// Detect the encoding of `bytes` and decode them.
pub fn detect_and_decode(bytes: &[u8]) -> (r: Result<String, crate::Error>)
    ensures
        match detect_decoding(bytes@) {
            Ok((t, e)) => r matches Ok(s) && s@ == t,
            Err(m) => r matches Err(crate::Error::Encoding(x)) && x@ == m,
        },
{
    match detect_decode_with_encoding(bytes) {
        Ok((s, _)) => Ok(s),
        Err(e) => Err(e),
    }
}

/// How many bytes the binary check samples: the first 8 KiB.
pub open spec fn binary_sample_len(b: Seq<u8>) -> int {
    if b.len() < 8192 {
        b.len() as int
    } else {
        8192
    }
}

/// The length of the longest run of zero bytes among the first `k` bytes,
/// and of the run that ends at byte `k`.
pub open spec fn zero_runs(b: Seq<u8>, k: int) -> (nat, nat)
    decreases k,
{
    if k <= 0 || k > b.len() {
        (0, 0)
    } else {
        let (best, cur) = zero_runs(b, k - 1);
        if b[k - 1] == 0 {
            let c = cur + 1;
            (if c > best {
                c
            } else {
                best
            }, c)
        } else {
            (best, 0)
        }
    }
}

/// Control bytes other than tab, line feed, vertical tab, form feed and
/// carriage return.
pub open spec fn is_control_byte(x: u8) -> bool {
    x <= 0x08 || (0x0E <= x && x <= 0x1F)
}

/// The number of control bytes among the first `k` bytes.
pub open spec fn control_bytes(b: Seq<u8>, k: int) -> nat
    decreases k,
{
    if k <= 0 || k > b.len() {
        0
    } else {
        control_bytes(b, k - 1) + if is_control_byte(b[k - 1]) {
            1nat
        } else {
            0nat
        }
    }
}

/// Bytes look binary: within the first 8 KiB, a run of more than ten zero
/// bytes, or control bytes making up more than 30% of the sample.
pub open spec fn looks_binary(b: Seq<u8>) -> bool {
    let n = binary_sample_len(b);
    n > 0 && (zero_runs(b, n).0 > 10 || 10 * control_bytes(b, n) > 3 * n)
}

/// Whether bytes look binary.
///
/// The share of control bytes is compared exactly, as `10 * count > 3 * len`;
/// for samples of at most 8 KiB this agrees with comparing the quotient
/// against 0.30 in double precision.
pub fn is_binary(bytes: &[u8]) -> (b: bool)
    ensures
        b == looks_binary(bytes@),
{
    let check_len: usize = if bytes.len() < 8192 {
        bytes.len()
    } else {
        8192
    };
    if check_len == 0 {
        return false;
    }
    let mut max_run: usize = 0;
    let mut cur: usize = 0;
    let mut controls: usize = 0;
    let mut i: usize = 0;
    while i < check_len
        invariant
            i <= check_len,
            check_len <= 8192,
            check_len <= bytes.len(),
            (max_run as nat, cur as nat) == zero_runs(bytes@, i as int),
            controls == control_bytes(bytes@, i as int),
            max_run <= i,
            cur <= i,
            controls <= i,
        decreases check_len - i,
    {
        let x = bytes[i];
        if x == 0 {
            cur = cur + 1;
            if cur > max_run {
                max_run = cur;
            }
        } else {
            cur = 0;
        }
        if x <= 0x08 || (0x0E <= x && x <= 0x1F) {
            controls = controls + 1;
        }
        i = i + 1;
    }
    if max_run > 10 {
        return true;
    }
    10 * controls > 3 * check_len
}

} // verus!

verus! {

/// The four UTF-32 bytes of a code point.
pub open spec fn utf32_bytes(u: u32, big_endian: bool) -> Seq<u8> {
    let b0 = (u % 256) as u8;
    let b1 = ((u / 256) % 256) as u8;
    let b2 = ((u / 65536) % 256) as u8;
    let b3 = (u / 16777216) as u8;
    if big_endian {
        seq![b3, b2, b1, b0]
    } else {
        seq![b0, b1, b2, b3]
    }
}

/// The UTF-32 encoding of some characters.
pub open spec fn encode_utf32(cs: Seq<char>, big_endian: bool) -> Seq<u8>
    decreases cs.len(),
{
    if cs.len() == 0 {
        seq![]
    } else {
        encode_utf32(cs.drop_last(), big_endian) + utf32_bytes(cs.last() as u32, big_endian)
    }
}

proof fn lemma_unit_roundtrip(u: u32)
    ensures
        ((u % 256) as u8 as u32) + (((u / 256) % 256) as u8 as u32) * 256 + (((u / 65536)
            % 256) as u8 as u32) * 65536 + ((u / 16777216) as u8 as u32) * 16777216 == u,
{
    assert(((u % 256) as u8 as u32) + (((u / 256) % 256) as u8 as u32) * 256 + (((u / 65536)
        % 256) as u8 as u32) * 65536 + ((u / 16777216) as u8 as u32) * 16777216 == u)
        by (bit_vector);
}

proof fn lemma_encode_utf32_len(cs: Seq<char>, be: bool)
    ensures
        encode_utf32(cs, be).len() == 4 * cs.len(),
    decreases cs.len(),
{
    if cs.len() > 0 {
        lemma_encode_utf32_len(cs.drop_last(), be);
    }
}

proof fn lemma_encode_utf32_prefix(cs: Seq<char>, be: bool, k: int, j: int)
    requires
        0 <= k < cs.len(),
        0 <= j < 4,
    ensures
        encode_utf32(cs, be)[4 * k + j] == utf32_bytes(cs[k] as u32, be)[j],
    decreases cs.len(),
{
    lemma_encode_utf32_len(cs.drop_last(), be);
    if k < cs.len() - 1 {
        lemma_encode_utf32_prefix(cs.drop_last(), be, k, j);
    }
}

proof fn lemma_units_roundtrip(cs: Seq<char>, be: bool, k: int)
    requires
        0 <= k <= cs.len(),
    ensures
        utf32_units(encode_utf32(cs, be), k, be) == Ok::<Seq<char>, u32>(cs.take(k)),
    decreases k,
{
    let b = encode_utf32(cs, be);
    if k == 0 {
        assert(cs.take(0) =~= Seq::<char>::empty());
    } else {
        lemma_units_roundtrip(cs, be, k - 1);
        let c = cs[k - 1];
        let u = c as u32;
        lemma_encode_utf32_prefix(cs, be, k - 1, 0);
        lemma_encode_utf32_prefix(cs, be, k - 1, 1);
        lemma_encode_utf32_prefix(cs, be, k - 1, 2);
        lemma_encode_utf32_prefix(cs, be, k - 1, 3);
        lemma_unit_roundtrip(u);
        assert(utf32_unit(b, k - 1, be) == u);
        vstd::utf8::char_is_scalar(c);
        vstd::utf8::char_u32_cast(c, u);
        assert(cs.take(k) =~= cs.take(k - 1).push(c));
    }
}

/// Decoding the UTF-32 encoding of any text gives the text back, in either
/// byte order.
pub proof fn utf32_roundtrip(cs: Seq<char>, big_endian: bool)
    ensures
        utf32_decoding(encode_utf32(cs, big_endian), big_endian) == Ok::<Seq<char>, Seq<char>>(cs),
{
    lemma_encode_utf32_len(cs, big_endian);
    lemma_units_roundtrip(cs, big_endian, cs.len() as int);
    assert(cs.take(cs.len() as int) =~= cs);
    assert((4 * cs.len()) as nat / 4 == cs.len());
}

/// A UTF-32 byte-order mark decides the decoding: the text after it is
/// decoded as UTF-32 of that byte order, and the encoding is reported.
pub proof fn utf32_with_bom_roundtrip(cs: Seq<char>, big_endian: bool)
    ensures
        detect_decoding(
            (if big_endian {
                seq![0x00u8, 0x00, 0xFE, 0xFF]
            } else {
                seq![0xFFu8, 0xFE, 0x00, 0x00]
            }) + encode_utf32(cs, big_endian),
        ) == Ok::<(Seq<char>, DetectedEncoding), Seq<char>>(
            (
                cs,
                if big_endian {
                    DetectedEncoding::Utf32Be
                } else {
                    DetectedEncoding::Utf32Le
                },
            ),
        ),
{
    let bom: Seq<u8> = if big_endian {
        seq![0x00u8, 0x00, 0xFE, 0xFF]
    } else {
        seq![0xFFu8, 0xFE, 0x00, 0x00]
    };
    let b = bom + encode_utf32(cs, big_endian);
    assert(b.skip(4) =~= encode_utf32(cs, big_endian));
    utf32_roundtrip(cs, big_endian);
}

proof fn lemma_scalar_bytes(u: u32)
    requires
        vstd::utf8::is_scalar(u),
        u != 0,
    ensures
        forall|j: int| 0 <= j < vstd::utf8::encode_scalar(u).len() ==> {
            let x = #[trigger] vstd::utf8::encode_scalar(u)[j];
            x != 0 && x != 0xFE && x != 0xFF
        },
        vstd::utf8::encode_scalar(u).len() >= 1,
        vstd::utf8::encode_scalar(u).len() < 3 ==> vstd::utf8::encode_scalar(u)[0] != 0xEF,
        vstd::utf8::encode_scalar(u)[0] != 0xEF || vstd::utf8::encode_scalar(u).len() < 3
            || vstd::utf8::encode_scalar(u)[1] != 0xBB || vstd::utf8::encode_scalar(u)[2] != 0xBF
            || u == 0xFEFF,
{
    let e = vstd::utf8::encode_scalar(u);
    assert((1 <= u && u <= 0x7F) ==> ((u & 0x7F) as u8 != 0 && (u & 0x7F) as u8 <= 0x7F)) by (bit_vector);
    assert((0x80u8 | (u & 0x3F) as u8) >= 0x80 && (0x80u8 | (u & 0x3F) as u8) <= 0xBF) by (bit_vector);
    assert((0x80u8 | ((u >> 6) & 0x3F) as u8) >= 0x80 && (0x80u8 | ((u >> 6) & 0x3F) as u8) <= 0xBF) by (bit_vector);
    assert((0x80u8 | ((u >> 12) & 0x3F) as u8) >= 0x80 && (0x80u8 | ((u >> 12) & 0x3F) as u8) <= 0xBF) by (bit_vector);
    assert((0xC0u8 | ((u >> 6) & 0x1F) as u8) >= 0xC0 && (0xC0u8 | ((u >> 6) & 0x1F) as u8) <= 0xDF) by (bit_vector);
    assert((0xE0u8 | ((u >> 12) & 0x0F) as u8) >= 0xE0 && (0xE0u8 | ((u >> 12) & 0x0F) as u8) <= 0xEF) by (bit_vector);
    assert((0xF0u8 | ((u >> 18) & 0x7) as u8) >= 0xF0 && (0xF0u8 | ((u >> 18) & 0x7) as u8) <= 0xF7) by (bit_vector);
    assert((0x800 <= u && u <= 0xFFFF && (0xE0u8 | ((u >> 12) & 0x0F) as u8) == 0xEF && (0x80u8 | ((
    u >> 6) & 0x3F) as u8) == 0xBB && (0x80u8 | (u & 0x3F) as u8) == 0xBF) ==> u == 0xFEFF) by (bit_vector);
}

proof fn lemma_utf8_bytes(cs: Seq<char>)
    requires
        forall|i: int| 0 <= i < cs.len() ==> (#[trigger] cs[i]) as u32 != 0,
    ensures
        forall|j: int| 0 <= j < vstd::utf8::encode_utf8(cs).len() ==> {
            let x = #[trigger] vstd::utf8::encode_utf8(cs)[j];
            x != 0 && x != 0xFE && x != 0xFF
        },
    decreases cs.len(),
{
    if cs.len() > 0 {
        let rest = cs.drop_first();
        assert forall|i: int| 0 <= i < rest.len() implies (#[trigger] rest[i]) as u32 != 0 by {
            assert(rest[i] == cs[i + 1]);
        }
        lemma_utf8_bytes(rest);
        assert(cs[0] as u32 != 0);
        vstd::utf8::char_is_scalar(cs[0]);
        lemma_scalar_bytes(cs[0] as u32);
        let a = vstd::utf8::encode_scalar(cs[0] as u32);
        let b = vstd::utf8::encode_utf8(rest);
        assert(vstd::utf8::encode_utf8(cs) == a + b);
        assert forall|j: int| 0 <= j < (a + b).len() implies {
            let x = #[trigger] (a + b)[j];
            x != 0 && x != 0xFE && x != 0xFF
        } by {
            if j < a.len() {
                assert((a + b)[j] == a[j]);
            } else {
                assert((a + b)[j] == b[j - a.len()]);
            }
        }
    }
}

proof fn lemma_no_zeros(b: Seq<u8>, k: int)
    requires
        forall|j: int| 0 <= j < b.len() ==> #[trigger] b[j] != 0,
    ensures
        zeros_in(b, k) == 0,
    decreases k,
{
    if 0 < k <= b.len() {
        lemma_no_zeros(b, k - 1);
    }
}

/// Text without NUL characters and without a leading U+FEFF, encoded as
/// UTF-8, is detected as UTF-8 and decodes back to itself; behind a UTF-8
/// byte-order mark any text does.
pub proof fn utf8_text_roundtrips(cs: Seq<char>)
    requires
        forall|i: int| 0 <= i < cs.len() ==> (#[trigger] cs[i]) as u32 != 0,
        cs.len() > 0 ==> cs[0] as u32 != 0xFEFF,
    ensures
        detect_decoding(vstd::utf8::encode_utf8(cs)) == Ok::<(Seq<char>, DetectedEncoding), Seq<char>>(
            (cs, DetectedEncoding::Utf8),
        ),
        detect_decoding(seq![0xEFu8, 0xBB, 0xBF] + vstd::utf8::encode_utf8(cs)) == Ok::<
            (Seq<char>, DetectedEncoding),
            Seq<char>,
        >((cs, DetectedEncoding::Utf8)),
{
    let b = vstd::utf8::encode_utf8(cs);
    vstd::utf8::encode_utf8_valid_utf8(cs);
    vstd::utf8::encode_utf8_decode_utf8(cs);
    lemma_utf8_bytes(cs);
    if cs.len() > 0 {
        vstd::utf8::char_is_scalar(cs[0]);
        lemma_scalar_bytes(cs[0] as u32);
        let a = vstd::utf8::encode_scalar(cs[0] as u32);
        assert(b == a + vstd::utf8::encode_utf8(cs.drop_first()));
        assert(b[0] == a[0]);
        if a.len() >= 3 {
            assert(b[1] == a[1] && b[2] == a[2]);
        }
    }
    assert(bom_of(b) is None) by {
        if b.len() >= 2 {
            assert(b[0] != 0xFF && b[0] != 0xFE && b[0] != 0);
        }
    }
    assert(heuristic_of(b) is None) by {
        lemma_no_zeros(b, sample_len(b));
    }
    let bb = seq![0xEFu8, 0xBB, 0xBF] + b;
    assert(bb.skip(3) =~= b);
}

} // verus!

