//! What the library takes from the standard library and from other crates on trust.
//!
//! Every item here is believed by Verus without proof. Each says which outside function it
//! stands for and what it claims of it.

use vstd::prelude::*;
use vstd::utf8::{decode_utf8, valid_utf8};
use crate::ansi::{CSI_PATTERN, OSC_PATTERN, without_csi, without_osc};

verus! {

/// A compiled regular expression.
#[verifier::external_type_specification]
#[verifier::external_body]
pub struct ExRegex(regex::Regex);

/// Why a pattern is not a regular expression.
#[verifier::external_type_specification]
#[verifier::external_body]
pub struct ExRegexError(regex::Error);

/// The pattern that `regex::Regex::new` compiled `re` from. A regex that was built with options
/// of its own is not meant: none is made here.
pub uninterp spec fn regex_source(re: regex::Regex) -> Seq<char>;

/// Whether `regex::Regex::new` accepts `pattern`.
pub uninterp spec fn regex_compiles(pattern: Seq<char>) -> bool;

/// Whether `pattern` matches somewhere in `text`, as `regex::Regex::is_match` decides it.
pub uninterp spec fn regex_finds(pattern: Seq<char>, text: Seq<char>) -> bool;

/// `regex::Regex::new`: whether it succeeds depends on the pattern alone, the regex keeps the
/// pattern it came from, and the two escape-sequence patterns of this library compile.
#[verifier::external_body]
pub(crate) fn compile_regex(pattern: &str) -> (r: Result<regex::Regex, regex::Error>)
    ensures
        r is Ok <==> regex_compiles(pattern@),
        r matches Ok(re) ==> regex_source(re) == pattern@,
        pattern@ == CSI_PATTERN@ || pattern@ == OSC_PATTERN@ ==> r is Ok,
{
    regex::Regex::new(pattern)
}

/// `regex::Regex::is_match`: the answer depends on the pattern and the text alone.
#[verifier::external_body]
pub(crate) fn regex_is_match(re: &regex::Regex, text: &str) -> (r: bool)
    ensures
        r == regex_finds(regex_source(*re), text@),
{
    re.is_match(text)
}

/// `regex::Regex::replace_all` with an empty replacement: every match, taken leftmost first and
/// without overlap, is removed. Stated for the two escape-sequence patterns of this library,
/// whose matches are the sequences that `csi_len` and `osc_len` measure.
#[verifier::external_body]
pub(crate) fn remove_matches(re: &regex::Regex, text: &str) -> (r: String)
    ensures
        regex_source(*re) == CSI_PATTERN@ ==> r@ == without_csi(text@),
        regex_source(*re) == OSC_PATTERN@ ==> r@ == without_osc(text@),
{
    re.replace_all(text, "").into_owned()
}

/// `std::str::from_utf8`: it succeeds on valid UTF-8 and gives the characters encoded there.
#[verifier::external_body]
pub(crate) fn utf8_text(bytes: &[u8]) -> (r: Option<&str>)
    ensures
        r is Some <==> valid_utf8(bytes@),
        r matches Some(text) ==> text@ == decode_utf8(bytes@),
{
    std::str::from_utf8(bytes).ok()
}

/// The character that stands for bytes that could not be read.
pub const REPLACEMENT: char = '\u{fffd}';

/// What `String::from_utf8_lossy` makes of bytes that are not valid UTF-8.
pub uninterp spec fn lossy_utf8(bytes: Seq<u8>) -> Seq<char>;

/// `bytes` as text: exactly where they are valid UTF-8, with replacement characters otherwise.
pub open spec fn lossy_text(bytes: Seq<u8>) -> Seq<char> {
    if valid_utf8(bytes) {
        decode_utf8(bytes)
    } else {
        lossy_utf8(bytes)
    }
}

/// Whether `line` starts where a line starts and ends where one ends, between `before` and
/// `after`.
pub open spec fn on_line_boundaries(before: Seq<u8>, line: Seq<u8>, after: Seq<u8>) -> bool {
    &&& before.len() == 0 || before.last() == 0x0a
    &&& after.len() == 0 || (line.len() > 0 && line.last() == 0x0a)
}

/// `String::from_utf8_lossy`: valid UTF-8 is kept, also where invalid bytes follow it or come
/// before it (no valid sequence starts with a continuation byte, so what comes before cannot
/// reach into it), and invalid sequences become replacement characters. A line feed is a valid
/// sequence of its own,
/// so no invalid sequence reaches over one: a line is decoded in the same way alone and among
/// other lines.
///
/// How many replacement characters stand for one run of invalid bytes is left unsaid.
#[verifier::external_body]
pub(crate) fn utf8_lossy(line: &[u8]) -> (r: String)
    ensures
        valid_utf8(line@) ==> r@ == decode_utf8(line@),
        !valid_utf8(line@) ==> r@ == lossy_utf8(line@) && r@.contains(REPLACEMENT),
        forall|start: Seq<u8>| #[trigger]
            valid_utf8(start) && start.is_prefix_of(line@) ==> decode_utf8(start).is_prefix_of(r@),
        forall|end: Seq<u8>| #[trigger]
            valid_utf8(end) && end.is_suffix_of(line@) ==> decode_utf8(end).is_suffix_of(r@),
        forall|before: Seq<u8>, after: Seq<u8>| #[trigger]
            on_line_boundaries(before, line@, after) ==> lossy_text(before + line@ + after)
                == lossy_text(before) + r@ + lossy_text(after),
{
    String::from_utf8_lossy(line).into_owned()
}

/// The Windows code pages that `codepage::to_encoding` maps to an encoding.
pub open spec fn has_encoding(cp: u16) -> bool {
    ||| cp == 65001 || cp == 1200 || cp == 1252 || cp == 1251 || cp == 936 || cp == 932
    ||| cp == 949 || cp == 1250 || cp == 1256 || cp == 1254 || cp == 950 || cp == 874
    ||| cp == 1255 || cp == 1253 || cp == 1257 || cp == 1258 || cp == 20932 || cp == 28592
    ||| cp == 28605 || cp == 28597 || cp == 20866 || cp == 54936 || cp == 28595 || cp == 38598
    ||| cp == 28594 || cp == 28596 || cp == 50221 || cp == 21866 || cp == 28603 || cp == 28593
    ||| cp == 1201 || cp == 866 || cp == 28600 || cp == 28598 || cp == 10000 || cp == 10017
    ||| cp == 28604 || cp == 28606 || cp == 951 || cp == 10007 || cp == 20936 || cp == 20949
    ||| cp == 21010 || cp == 28591 || cp == 28599 || cp == 28601 || cp == 50220 || cp == 50222
    ||| cp == 50225 || cp == 50227 || cp == 51936 || cp == 51949 || cp == 52936
}

/// What `Encoding::decode`, for the encoding of code page `cp`, makes of `bytes`: the text, and
/// whether there were malformed sequences.
pub uninterp spec fn encoding_text(cp: u16, bytes: Seq<u8>) -> (Seq<char>, bool);

/// `codepage::to_encoding`, and `encoding_rs::Encoding::decode` of the encoding found: there is
/// an encoding for the code pages in `has_encoding`, and what it decodes to depends on the code
/// page and the bytes alone. The bound keeps the size of the buffer that `decode` allocates
/// within `usize`; past that it panics.
#[verifier::external_body]
pub(crate) fn encoding_decode(cp: u16, bytes: &[u8]) -> (r: Option<(String, bool)>)
    requires
        bytes@.len() <= usize::MAX / 16,
    ensures
        r is Some <==> has_encoding(cp),
        r matches Some((text, malformed)) ==> (text@, malformed) == encoding_text(cp, bytes@),
{
    match codepage::to_encoding(cp) {
        Some(encoding) => {
            let (text, _, malformed) = encoding.decode(bytes);
            Some((text.into_owned(), malformed))
        },
        None => None,
    }
}

/// The OEM code pages that `oem_cp` has a table for.
pub open spec fn has_oem_table(cp: u16) -> bool {
    ||| cp == 437 || cp == 720 || cp == 737 || cp == 775 || cp == 850 || cp == 852
    ||| cp == 855 || cp == 857 || cp == 858 || cp == 860 || cp == 861 || cp == 862
    ||| cp == 863 || cp == 864 || cp == 865 || cp == 866 || cp == 869 || cp == 874
}

/// The upper half of the table of OEM code page `cp` in `oem_cp`, with `None` for the undefined
/// positions.
pub uninterp spec fn oem_table(cp: u16) -> Seq<Option<char>>;

/// The character of `byte` under an OEM table: ASCII below 128, the table's entry from there on.
pub open spec fn oem_char(table: Seq<Option<char>>, byte: u8) -> Option<char> {
    if byte < 128 {
        Some(byte as char)
    } else {
        table[byte - 128]
    }
}

/// `bytes` under an OEM table, if every byte has a character there.
pub open spec fn oem_text(table: Seq<Option<char>>, bytes: Seq<u8>) -> Option<Seq<char>> {
    if forall|i: int| 0 <= i < bytes.len() ==> #[trigger] oem_char(table, bytes[i]) is Some {
        Some(Seq::new(bytes.len(), |i: int| oem_char(table, bytes[i])->0))
    } else {
        None
    }
}

/// The `get` of `oem_cp::code_table::DECODING_TABLE_CP_MAP`, and `decode_string_checked` of the
/// table found: there is a table for the code pages in `has_oem_table`, and only those of 857,
/// 864 and 874 have undefined positions. A string is decoded byte by byte, and one undefined
/// byte makes the whole string undecodable.
#[verifier::external_body]
pub(crate) fn oem_decode(cp: u16, bytes: &[u8]) -> (r: Option<Option<String>>)
    ensures
        r is Some <==> has_oem_table(cp),
        r matches Some(decoded) ==> (decoded is Some <==> oem_text(oem_table(cp), bytes@) is Some),
        r matches Some(Some(text)) ==> Some(text@) == oem_text(oem_table(cp), bytes@),
        r matches Some(None) ==> cp == 857 || cp == 864 || cp == 874,
{
    match oem_cp::code_table::DECODING_TABLE_CP_MAP.get(&cp) {
        Some(table) => Some(table.decode_string_checked(bytes)),
        None => None,
    }
}

/// The text that the JSON document `json` holds under key `inner` of the object under key
/// `outer`: `None` where `json` is no JSON document, a key is missing, or what is found there is
/// no string.
pub uninterp spec fn json_text_at(json: Seq<char>, outer: Seq<char>, inner: Seq<char>) -> Option<
    Seq<char>,
>;

/// `serde_json::from_str` to a `Value`, `Value::get` twice and `Value::as_str`: what is found
/// depends on the document and the two keys alone.
#[verifier::external_body]
pub(crate) fn json_string_at(json: &str, outer: &str, inner: &str) -> (r: Option<String>)
    ensures
        r is Some <==> json_text_at(json@, outer@, inner@) is Some,
        r matches Some(text) ==> json_text_at(json@, outer@, inner@) == Some(text@),
{
    let value: serde_json::Value = serde_json::from_str(json).ok()?;
    let text = value.get(outer)?.get(inner)?.as_str()?;
    Some(text.to_owned())
}

/// `String::push`: the character is added at the end.
pub assume_specification[ String::push ](s: &mut String, ch: char)
    ensures
        final(s)@ == old(s)@.push(ch),
;

} // verus!
