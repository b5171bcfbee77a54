//! Decoding of child process output.
//!
//! Valid UTF-8 is kept as it is. Otherwise the bytes are decoded line by line: a line that is
//! valid UTF-8 keeps its characters, and only the others go through the console code page.

use vstd::prelude::*;
use vstd::utf8::*;
use crate::chars::{combine, decimal, digits, opt_text, texts};
use crate::lines::{
    after_first_line, first_line, first_line_len, lemma_first_line_append, lemma_first_line_is,
    lemma_first_line_len,
};
use crate::outside::{
    encoding_decode, encoding_text, has_encoding, has_oem_table, lossy_text, oem_decode, oem_table,
    oem_text, on_line_boundaries, utf8_lossy, utf8_text, REPLACEMENT,
};

verus! {

/// The byte that ends a line.
pub const NEWLINE: u8 = 0x0a;

/// Whether code page `cp` does not decode the whole line cleanly, so that the line is read as
/// lossy UTF-8.
pub open spec fn reads_lossily(line: Seq<u8>, cp: Option<u16>) -> bool {
    match cp {
        None => true,
        Some(page) => if has_encoding(page) {
            encoding_text(page, line).1
        } else if has_oem_table(page) {
            oem_text(oem_table(page), line) is None
        } else {
            true
        },
    }
}

/// The text of a line that is not valid UTF-8, read through code page `cp`.
pub open spec fn page_text(line: Seq<u8>, cp: Option<u16>) -> Seq<char> {
    if reads_lossily(line, cp) {
        lossy_text(line)
    } else if has_encoding(cp->0) {
        encoding_text(cp->0, line).0
    } else {
        oem_text(oem_table(cp->0), line)->0
    }
}

/// Whether no table decodes for `cp`: there is no code page, or an unknown one.
pub open spec fn no_decoder(cp: Option<u16>) -> bool {
    cp matches Some(page) ==> !has_encoding(page) && !has_oem_table(page)
}

/// The text of one line of output.
pub open spec fn line_text(line: Seq<u8>, cp: Option<u16>) -> Seq<char> {
    if valid_utf8(line) {
        decode_utf8(line)
    } else {
        page_text(line, cp)
    }
}

/// The text of `bytes`, line by line.
pub open spec fn mixed_text(bytes: Seq<u8>, cp: Option<u16>) -> Seq<char>
    decreases bytes.len(),
{
    if bytes.len() == 0 {
        Seq::empty()
    } else {
        proof {
            lemma_first_line_len(bytes, NEWLINE);
        }
        line_text(first_line(bytes, NEWLINE), cp) + mixed_text(after_first_line(bytes, NEWLINE), cp)
    }
}

/// Valid UTF-8 decodes piece by piece.
proof fn lemma_decode_concat(a: Seq<u8>, b: Seq<u8>)
    requires
        valid_utf8(a),
        valid_utf8(b),
    ensures
        valid_utf8(a + b),
        decode_utf8(a + b) == decode_utf8(a) + decode_utf8(b),
    decreases a.len(),
{
    valid_utf8_concat(a, b);
    if a.len() == 0 {
        assert(a + b =~= b);
    } else {
        let rest = pop_first_scalar(a);
        lemma_decode_concat(rest, b);
        assert(pop_first_scalar(a + b) =~= rest + b);
    }
}

/// Whether `text` keeps what is valid in `bytes` at their start and at their end: all of it,
/// where all of `bytes` is valid.
pub open spec fn keeps_valid_ends(bytes: Seq<u8>, text: Seq<char>) -> bool {
    &&& valid_utf8(bytes) ==> text == decode_utf8(bytes)
    &&& forall|start: Seq<u8>| #[trigger]
        valid_utf8(start) && start.is_prefix_of(bytes) ==> decode_utf8(start).is_prefix_of(text)
    &&& forall|end: Seq<u8>| #[trigger]
        valid_utf8(end) && end.is_suffix_of(bytes) ==> decode_utf8(end).is_suffix_of(text)
}

/// Whether `text` is a faithful lossy reading of `bytes`: it keeps what is valid at their ends,
/// and shows that something is not valid.
pub open spec fn faithful(bytes: Seq<u8>, text: Seq<char>) -> bool {
    &&& keeps_valid_ends(bytes, text)
    &&& !valid_utf8(bytes) ==> text.contains(REPLACEMENT)
}

/// [`faithful`], with its quantifiers out of sight.
#[verifier::opaque]
spec fn is_faithful(bytes: Seq<u8>, text: Seq<char>) -> bool {
    faithful(bytes, text)
}

/// In valid bytes a valid start and what follows it decode one after the other.
proof fn lemma_valid_start(start: Seq<u8>, bytes: Seq<u8>)
    requires
        valid_utf8(bytes),
        valid_utf8(start),
        start.is_prefix_of(bytes),
    ensures
        is_char_boundary(bytes, start.len() as int),
    decreases bytes.len(),
{
    if start.len() == 0 {
        is_char_boundary_start_end_of_seq(bytes);
    } else {
        let k = length_of_first_scalar(bytes);
        assert(start[0] == bytes[0]);
        assert(k == length_of_first_scalar(start));
        assert(pop_first_scalar(start).is_prefix_of(pop_first_scalar(bytes))) by {
            assert(pop_first_scalar(start) =~= pop_first_scalar(bytes).subrange(
                0,
                start.len() - k,
            ));
        }
        lemma_valid_start(pop_first_scalar(start), pop_first_scalar(bytes));
    }
}

/// Valid bytes keep what is valid at their ends.
proof fn lemma_valid_keeps_ends(bytes: Seq<u8>)
    requires
        valid_utf8(bytes),
    ensures
        keeps_valid_ends(bytes, decode_utf8(bytes)),
{
    let text = decode_utf8(bytes);
    assert forall|start: Seq<u8>| #[trigger]
        valid_utf8(start) && start.is_prefix_of(bytes) implies decode_utf8(start).is_prefix_of(
        text,
    ) by {
        let n = start.len() as int;
        lemma_valid_start(start, bytes);
        decode_utf8_split(bytes, n);
        assert(bytes.subrange(0, n) =~= start);
        assert(decode_utf8(start) =~= text.subrange(0, decode_utf8(start).len() as int));
    }
    assert forall|end: Seq<u8>| #[trigger]
        valid_utf8(end) && end.is_suffix_of(bytes) implies decode_utf8(end).is_suffix_of(text) by {
        let n = bytes.len() - end.len();
        if end.len() == 0 {
            assert(decode_utf8(end).is_suffix_of(text)) by {
                assert(decode_utf8(end) =~= text.subrange(text.len() as int, text.len() as int));
            }
        } else {
            assert(bytes.subrange(n, bytes.len() as int) =~= end);
            assert(end[0] == bytes[n]);
            is_char_boundary_start_end_of_seq(end);
            is_char_boundary_iff_not_is_continuation_byte(end, 0);
            is_char_boundary_iff_not_is_continuation_byte(bytes, n);
            decode_utf8_split(bytes, n);
            assert(decode_utf8(end) =~= text.subrange(
                text.len() - decode_utf8(end).len(),
                text.len() as int,
            ));
        }
    }
}

/// What is valid at the ends is kept line by line.
proof fn lemma_keeps_ends_concat(a: Seq<u8>, a_text: Seq<char>, b: Seq<u8>, b_text: Seq<char>)
    requires
        keeps_valid_ends(a, a_text),
        keeps_valid_ends(b, b_text),
        a.len() == 0 || a.last() == NEWLINE,
    ensures
        keeps_valid_ends(a + b, a_text + b_text),
{
    let bytes = a + b;
    let text = a_text + b_text;
    let n = a.len() as int;
    assert forall|start: Seq<u8>| #[trigger]
        valid_utf8(start) && start.is_prefix_of(bytes) implies decode_utf8(start).is_prefix_of(
        text,
    ) by {
        if start.len() <= n {
            assert(start.is_prefix_of(a)) by {
                assert(start =~= a.subrange(0, start.len() as int));
            }
            let kept = decode_utf8(start);
            assert(kept =~= text.subrange(0, kept.len() as int)) by {
                assert(kept == a_text.subrange(0, kept.len() as int));
            }
        } else {
            let rest = start.skip(n);
            assert(start.take(n) =~= a);
            lemma_split_after_line(start, n);
            assert(rest.is_prefix_of(b)) by {
                assert(rest =~= b.subrange(0, rest.len() as int));
            }
            let kept = decode_utf8(rest);
            assert(kept == b_text.subrange(0, kept.len() as int));
            assert(decode_utf8(start) =~= text.subrange(0, decode_utf8(start).len() as int));
        }
    }
    assert forall|end: Seq<u8>| #[trigger]
        valid_utf8(end) && end.is_suffix_of(bytes) implies decode_utf8(end).is_suffix_of(text) by {
        if end.len() <= b.len() {
            assert(end.is_suffix_of(b)) by {
                assert(end =~= b.subrange(b.len() - end.len(), b.len() as int));
            }
            let kept = decode_utf8(end);
            assert(kept == b_text.subrange(b_text.len() - kept.len(), b_text.len() as int));
            assert(kept =~= text.subrange(text.len() - kept.len(), text.len() as int));
        } else {
            let m = end.len() - b.len();
            let head = end.take(m);
            assert(end.skip(m) =~= b);
            assert(head =~= a.subrange(n - m, n));
            lemma_split_after_line(end, m);
            assert(head.is_suffix_of(a));
            let kept = decode_utf8(head);
            assert(kept == a_text.subrange(a_text.len() - kept.len(), a_text.len() as int));
            assert(decode_utf8(end) =~= text.subrange(
                text.len() - decode_utf8(end).len(),
                text.len() as int,
            ));
        }
    }
    if valid_utf8(bytes) {
        assert(bytes.take(n) =~= a);
        assert(bytes.skip(n) =~= b);
        lemma_split_after_line(bytes, n);
    }
}

/// Valid bytes decode in two parts where a line ends, or at their start.
proof fn lemma_split_after_line(bytes: Seq<u8>, n: int)
    requires
        valid_utf8(bytes),
        0 <= n <= bytes.len(),
        n == 0 || bytes[n - 1] == NEWLINE,
    ensures
        valid_utf8(bytes.take(n)),
        valid_utf8(bytes.skip(n)),
        decode_utf8(bytes) == decode_utf8(bytes.take(n)) + decode_utf8(bytes.skip(n)),
{
    if n == 0 {
        assert(bytes.take(0) =~= Seq::<u8>::empty());
        assert(bytes.skip(0) =~= bytes);
        assert(Seq::<char>::empty() + decode_utf8(bytes) =~= decode_utf8(bytes));
    } else {
        lemma_valid_split(bytes, n);
    }
}

/// Decodes one line that is not valid UTF-8 using code page `cp`.
///
/// A code page result is only accepted when it decodes cleanly. A line that is really UTF-8
/// with a corrupt byte usually fails the code page decoder too, and lossy UTF-8 preserves its
/// valid characters.
pub fn decode_line(line: &[u8], cp: Option<u16>) -> (r: String)
    requires
        cp is Some ==> line@.len() <= usize::MAX / 16,
    ensures
        r@ == page_text(line@, cp),
        cp matches Some(page) ==> (has_encoding(page) && !encoding_text(page, line@).1 ==> r@
            == encoding_text(page, line@).0),
        cp matches Some(page) ==> (!has_encoding(page) && has_oem_table(page) ==> (oem_text(
            oem_table(page),
            line@,
        ) matches Some(text) ==> r@ == text)),
        reads_lossily(line@, cp) ==> faithful(line@, r@),
        no_decoder(cp) ==> forall|before: Seq<u8>, after: Seq<u8>| #[trigger]
            on_line_boundaries(before, line@, after) ==> lossy_text(before + line@ + after)
                == lossy_text(before) + r@ + lossy_text(after),
{
    if let Some(page) = cp {
        if let Some((text, malformed)) = encoding_decode(page, line) {
            if !malformed {
                return text;
            }
        } else if let Some(decoded) = oem_decode(page, line) {
            if let Some(text) = decoded {
                return text;
            }
        }
    }
    utf8_lossy(line)
}

/// [`decode_line`], with what is faithful out of sight.
fn decode_invalid(line: &[u8], cp: Option<u16>) -> (r: String)
    requires
        cp is Some ==> line@.len() <= usize::MAX / 16,
    ensures
        r@ == page_text(line@, cp),
        reads_lossily(line@, cp) ==> is_faithful(line@, r@),
        no_decoder(cp) ==> forall|before: Seq<u8>, after: Seq<u8>| #[trigger]
            on_line_boundaries(before, line@, after) ==> lossy_text(before + line@ + after)
                == lossy_text(before) + r@ + lossy_text(after),
{
    let text = decode_line(line, cp);
    proof {
        reveal(is_faithful);
    }
    text
}

/// Valid bytes are read faithfully.
proof fn lemma_valid_is_faithful(bytes: Seq<u8>)
    requires
        valid_utf8(bytes),
    ensures
        is_faithful(bytes, decode_utf8(bytes)),
{
    reveal(is_faithful);
    lemma_valid_keeps_ends(bytes);
}

/// Lines that are read faithfully make a faithful reading.
proof fn lemma_faithful_concat(a: Seq<u8>, a_text: Seq<char>, b: Seq<u8>, b_text: Seq<char>)
    requires
        is_faithful(a, a_text),
        is_faithful(b, b_text),
        a.len() == 0 || a.last() == NEWLINE,
    ensures
        is_faithful(a + b, a_text + b_text),
{
    reveal(is_faithful);
    lemma_keeps_ends_concat(a, a_text, b, b_text);
    let text = a_text + b_text;
    if valid_utf8(a) && valid_utf8(b) {
        valid_utf8_concat(a, b);
    } else if !valid_utf8(a) {
        let i = a_text.index_of(REPLACEMENT);
        assert(text[i] == REPLACEMENT);
    } else {
        let i = b_text.index_of(REPLACEMENT);
        assert(text[a_text.len() + i] == REPLACEMENT);
    }
}

/// Decodes `bytes` line by line, keeping valid UTF-8 lines verbatim and passing the rest through
/// code page `cp` (lossy UTF-8 when `cp` is `None`).
///
/// The line is the unit because a line feed is unambiguous in every encoding handled here, and a
/// process does not switch encoding in the middle of a line. Without a decoder for the
/// code page this is the lossy reading of the whole buffer.
#[verifier::rlimit(40)]
pub fn decode_mixed(bytes: &[u8], cp: Option<u16>) -> (r: String)
    requires
        cp is Some ==> bytes@.len() <= usize::MAX / 16,
    ensures
        r@ == mixed_text(bytes@, cp),
        no_decoder(cp) ==> r@ == lossy_text(bytes@),
        no_decoder(cp) ==> faithful(bytes@, r@),
{
    let mut out = String::new();
    let mut start: usize = 0;
    // Up to `settled` the lossy reading is known to be `head`; from there to `start` all lines
    // are valid.
    let ghost mut settled: int = 0;
    let ghost mut head: Seq<char> = Seq::empty();
    proof {
        assert(bytes@.skip(0) =~= bytes@);
        assert(bytes@.subrange(0, 0) =~= Seq::<u8>::empty());
        assert(bytes@.take(0) =~= Seq::<u8>::empty());
        lemma_valid_is_faithful(bytes@.take(0));
        assert forall|after: Seq<u8>| #[trigger] lossy_text(bytes@.take(0) + after) == head
            + lossy_text(after) by {
            assert(bytes@.take(0) + after =~= after);
            assert(head + lossy_text(after) =~= lossy_text(after));
        }
    }
    while start < bytes.len()
        invariant
            0 <= settled <= start <= bytes@.len(),
            cp is Some ==> bytes@.len() <= usize::MAX / 16,
            out@ + mixed_text(bytes@.skip(start as int), cp) == mixed_text(bytes@, cp),
            0 < start < bytes@.len() ==> bytes@[start - 1] == NEWLINE,
            no_decoder(cp) ==> is_faithful(bytes@.take(start as int), out@),
            no_decoder(cp) ==> {
                &&& valid_utf8(bytes@.subrange(settled, start as int))
                &&& out@ == head + decode_utf8(bytes@.subrange(settled, start as int))
                &&& forall|after: Seq<u8>|
                    settled < bytes@.len() || after.len() == 0 ==> #[trigger] lossy_text(
                        bytes@.take(settled) + after,
                    ) == head + lossy_text(after)
            },
        decreases bytes@.len() - start,
    {
        let end = line_end(bytes, start);
        let line = vstd::slice::slice_subrange(bytes, start, end);
        let ghost rest = bytes@.skip(start as int);
        let ghost valid_run = bytes@.subrange(settled, start as int);
        let ghost out_before = out@;
        proof {
            assert(first_line(rest, NEWLINE) =~= line@);
            assert(after_first_line(rest, NEWLINE) =~= bytes@.skip(end as int));
        }
        match utf8_text(line) {
            Some(text) => {
                out.append(text);
                proof {
                    if no_decoder(cp) {
                        lemma_decode_concat(valid_run, line@);
                        assert(valid_run + line@ =~= bytes@.subrange(settled, end as int));
                        assert(head + decode_utf8(valid_run) + decode_utf8(line@) =~= head + (
                        decode_utf8(valid_run) + decode_utf8(line@)));
                    }
                }
            },
            None => {
                let text = decode_invalid(line, cp);
                out.append(text.as_str());
                proof {
                    if no_decoder(cp) {
                        let settled_before = settled;
                        let head_before = head;
                        settled = end as int;
                        head = out@;
                        assert forall|after: Seq<u8>|
                            settled < bytes@.len() || after.len() == 0 implies #[trigger] lossy_text(
                            bytes@.take(settled) + after,
                        ) == head + lossy_text(after) by {
                            assert(on_line_boundaries(valid_run, line@, after));
                            let tail = valid_run + line@ + after;
                            assert(bytes@.take(settled) + after =~= bytes@.take(settled_before)
                                + tail);
                            assert(lossy_text(tail) == decode_utf8(valid_run) + text@
                                + lossy_text(after));
                            assert(head_before + (decode_utf8(valid_run) + text@ + lossy_text(
                                after,
                            )) =~= head + lossy_text(after));
                        }
                        assert(bytes@.subrange(settled, end as int) =~= Seq::<u8>::empty());
                        assert(head + decode_utf8(Seq::<u8>::empty()) =~= head);
                    }
                }
            },
        }
        proof {
            if no_decoder(cp) {
                if valid_utf8(line@) {
                    lemma_valid_is_faithful(line@);
                }
                let text = line_text(line@, cp);
                assert(out@ =~= out_before + text);
                lemma_faithful_concat(bytes@.take(start as int), out_before, line@, text);
                assert(bytes@.take(start as int) + line@ =~= bytes@.take(end as int));
            }
            let first = line_text(line@, cp);
            let remaining = mixed_text(bytes@.skip(end as int), cp);
            assert(out_before + (first + remaining) =~= out_before + first + remaining);
        }
        start = end;
    }
    proof {
        assert(bytes@.skip(start as int) =~= Seq::<u8>::empty());
        assert(out@ + Seq::<char>::empty() =~= out@);
        assert(bytes@.take(start as int) =~= bytes@);
        reveal(is_faithful);
        if no_decoder(cp) {
            let valid_run = bytes@.subrange(settled, start as int);
            assert(bytes@.take(settled) + valid_run =~= bytes@);
            assert(lossy_text(bytes@.take(settled) + valid_run) == head + lossy_text(valid_run));
        }
    }
    out
}

/// Where the line that starts at `start` ends: behind its line feed, or at the end of `bytes`.
fn line_end(bytes: &[u8], start: usize) -> (end: usize)
    requires
        start < bytes@.len(),
    ensures
        start < end <= bytes@.len(),
        end - start == first_line_len(bytes@.skip(start as int), NEWLINE),
        end < bytes@.len() ==> bytes@[end - 1] == NEWLINE,
{
    let mut end: usize = start;
    while end < bytes.len()
        invariant
            start <= end <= bytes@.len(),
            start < bytes@.len(),
            forall|i: int| start <= i < end ==> bytes@[i] != NEWLINE,
        decreases bytes@.len() - end,
    {
        end = end + 1;
        if bytes[end - 1] == NEWLINE {
            proof {
                lemma_first_line_is(bytes@.skip(start as int), end - start, NEWLINE);
            }
            return end;
        }
    }
    proof {
        lemma_first_line_is(bytes@.skip(start as int), end - start, NEWLINE);
    }
    end
}

/// The code pages of a Windows system, as `GetConsoleOutputCP` and `GetACP` return them.
#[derive(Clone, Copy, Debug, PartialEq, Eq, Structural)]
pub struct CodePages {
    pub console: u32,
    pub ansi: u32,
}

/// The code page that child output is decoded with: none where the platform has no code pages.
///
/// The console code page is 0 when there is no console; a console program that writes to a pipe
/// uses the ANSI code page instead.
pub fn output_codepage(pages: Option<CodePages>) -> (r: Option<u16>)
    ensures
        match pages {
            None => r is None,
            Some(CodePages { console, ansi }) => {
                let cp = if console != 0 {
                    console
                } else {
                    ansi
                };
                r == if 0 < cp <= u16::MAX {
                    Some(cp as u16)
                } else {
                    None
                }
            },
        },
{
    match pages {
        None => None,
        Some(pages) => {
            let cp: u32 = if pages.console != 0 {
                pages.console
            } else {
                pages.ansi
            };
            if 0 < cp && cp <= 0xffff {
                Some(cp as u16)
            } else {
                None
            }
        },
    }
}

/// Lines are decoded independently of each other: what comes before a line feed has no bearing
/// on what comes after it.
pub proof fn law_lines_decode_independently(a: Seq<u8>, b: Seq<u8>, cp: Option<u16>)
    requires
        a.len() > 0,
        a.last() == NEWLINE,
    ensures
        mixed_text(a + b, cp) == mixed_text(a, cp) + mixed_text(b, cp),
    decreases a.len(),
{
    lemma_first_line_len(a, NEWLINE);
    lemma_first_line_append(a, b, NEWLINE);
    let rest = after_first_line(a, NEWLINE);
    if rest.len() == 0 {
        assert(rest + b =~= b);
        assert(mixed_text(rest, cp) =~= Seq::<char>::empty());
        assert(line_text(first_line(a, NEWLINE), cp) + mixed_text(rest, cp) =~= line_text(
            first_line(a, NEWLINE),
            cp,
        ));
    } else {
        law_lines_decode_independently(rest, b, cp);
        assert(line_text(first_line(a, NEWLINE), cp) + (mixed_text(rest, cp) + mixed_text(b, cp)) =~= (
        line_text(first_line(a, NEWLINE), cp) + mixed_text(rest, cp)) + mixed_text(b, cp));
    }
}

/// Behind a line feed a character ends.
proof fn lemma_boundary_after_newline(bytes: Seq<u8>, n: int)
    requires
        valid_utf8(bytes),
        0 < n <= bytes.len(),
        bytes[n - 1] == NEWLINE,
    ensures
        is_char_boundary(bytes, n),
    decreases bytes.len(),
{
    let k = length_of_first_scalar(bytes);
    if n <= k {
        assert(n == k);
        reveal_with_fuel(is_char_boundary, 2);
    } else {
        lemma_boundary_after_newline(pop_first_scalar(bytes), n - k);
    }
}

/// Valid UTF-8 stays valid on both sides of a line feed.
pub proof fn lemma_valid_split(bytes: Seq<u8>, n: int)
    requires
        valid_utf8(bytes),
        0 < n <= bytes.len(),
        bytes[n - 1] == NEWLINE,
    ensures
        valid_utf8(bytes.take(n)),
        valid_utf8(bytes.skip(n)),
        decode_utf8(bytes) == decode_utf8(bytes.take(n)) + decode_utf8(bytes.skip(n)),
{
    lemma_boundary_after_newline(bytes, n);
    valid_utf8_split(bytes, n);
    decode_utf8_split(bytes, n);
    assert(bytes.subrange(0, n) =~= bytes.take(n));
    assert(bytes.subrange(n, bytes.len() as int) =~= bytes.skip(n));
}

/// Valid UTF-8 comes out untouched, whatever the code page.
pub proof fn law_valid_utf8_is_untouched(bytes: Seq<u8>, cp: Option<u16>)
    requires
        valid_utf8(bytes),
    ensures
        mixed_text(bytes, cp) == decode_utf8(bytes),
    decreases bytes.len(),
{
    if bytes.len() > 0 {
        lemma_first_line_len(bytes, NEWLINE);
        let n = first_line_len(bytes, NEWLINE) as int;
        if n < bytes.len() {
            lemma_valid_split(bytes, n);
        } else {
            assert(first_line(bytes, NEWLINE) =~= bytes);
            assert(after_first_line(bytes, NEWLINE) =~= Seq::<u8>::empty());
            assert(decode_utf8(bytes) + Seq::<char>::empty() =~= decode_utf8(bytes));
        }
        law_valid_utf8_is_untouched(after_first_line(bytes, NEWLINE), cp);
    }
}

/// A code page that no table is known for decodes as no code page does.
pub proof fn law_unknown_code_page_is_lossy(bytes: Seq<u8>, page: u16)
    requires
        !has_encoding(page),
        !has_oem_table(page),
    ensures
        mixed_text(bytes, Some(page)) == mixed_text(bytes, None),
    decreases bytes.len(),
{
    if bytes.len() > 0 {
        lemma_first_line_len(bytes, NEWLINE);
        law_unknown_code_page_is_lossy(after_first_line(bytes, NEWLINE), page);
    }
}

/// Decodes child process output. `cp` is the code page of the platform's console, as
/// [`output_codepage`] gives it.
///
/// Valid UTF-8 is returned untouched. Otherwise the bytes are decoded a line at a time: lines
/// that are valid UTF-8 keep their characters, and only the others go through the code page.
/// They are read lossily where no code page applies.
pub fn decode_process_output(bytes: &[u8], cp: Option<u16>) -> (r: String)
    requires
        cp is Some ==> bytes@.len() <= usize::MAX / 16,
    ensures
        r@ == mixed_text(bytes@, cp),
        valid_utf8(bytes@) ==> r@ == decode_utf8(bytes@),
        no_decoder(cp) ==> r@ == lossy_text(bytes@),
        no_decoder(cp) ==> faithful(bytes@, r@),
{
    match utf8_text(bytes) {
        Some(text) => {
            proof {
                law_valid_utf8_is_untouched(bytes@, cp);
                lemma_valid_keeps_ends(bytes@);
            }
            text.to_owned()
        },
        None => decode_mixed(bytes, cp),
    }
}

/// The warning for output that [`decode_process_output`] reads lossily because the console code
/// page has no known table. It is meant to be given once.
pub fn warn_unmapped_codepage(bytes: &[u8], cp: Option<u16>) -> (r: Option<String>)
    ensures
        match cp {
            Some(page) => if no_decoder(cp) && !valid_utf8(bytes@) {
                r matches Some(text) && text@ == "[rtk] warning: no decoder for console code page "@
                    + digits(page as nat)
                    + "; non-UTF-8 output will be shown with replacement characters"@
            } else {
                r is None
            },
            None => r is None,
        },
{
    match cp {
        None => None,
        Some(page) => {
            if utf8_text(bytes).is_some() || is_known_codepage(page) {
                return None;
            }
            let mut text = "[rtk] warning: no decoder for console code page ".to_owned();
            text.append(decimal(page as u64).as_str());
            text.append("; non-UTF-8 output will be shown with replacement characters");
            Some(text)
        },
    }
}

/// Whether there is a decoder for code page `page`.
fn is_known_codepage(page: u16) -> (r: bool)
    ensures
        r == !no_decoder(Some(page)),
{
    let nothing: [u8; 0] = [];
    encoding_decode(page, nothing.as_slice()).is_some() || oem_decode(
        page,
        nothing.as_slice(),
    ).is_some()
}

/// The byte that a Windows line feed is preceded by.
pub const CARRIAGE_RETURN: u8 = 0x0d;

/// `line` without one carriage return at its end.
pub open spec fn without_carriage_return(line: Seq<u8>) -> Seq<u8> {
    if line.len() > 0 && line.last() == CARRIAGE_RETURN {
        line.drop_last()
    } else {
        line
    }
}

/// `line` without one line feed at its end.
pub open spec fn without_newline(line: Seq<u8>) -> Seq<u8> {
    if line.len() > 0 && line.last() == NEWLINE {
        line.drop_last()
    } else {
        line
    }
}

/// The lines of `bytes`, without their line endings.
pub open spec fn raw_lines(bytes: Seq<u8>) -> Seq<Seq<u8>>
    decreases bytes.len(),
{
    if bytes.len() == 0 {
        Seq::empty()
    } else {
        proof {
            lemma_first_line_len(bytes, NEWLINE);
        }
        seq![without_carriage_return(without_newline(first_line(bytes, NEWLINE)))] + raw_lines(
            after_first_line(bytes, NEWLINE),
        )
    }
}

/// Whether `lines` are faithful lossy readings of the lines of `bytes`.
pub open spec fn faithful_lines(bytes: Seq<u8>, lines: Seq<String>) -> bool {
    &&& lines.len() == raw_lines(bytes).len()
    &&& forall|i: int|
        0 <= i < lines.len() ==> faithful(raw_lines(bytes)[i], (#[trigger] lines[i])@)
}

/// The texts of the lines of `bytes`, without their line endings.
pub open spec fn stream_texts(bytes: Seq<u8>, cp: Option<u16>) -> Seq<Seq<char>>
    decreases bytes.len(),
{
    if bytes.len() == 0 {
        Seq::empty()
    } else {
        proof {
            lemma_first_line_len(bytes, NEWLINE);
        }
        seq![mixed_text(without_carriage_return(without_newline(first_line(bytes, NEWLINE))), cp)]
            + stream_texts(after_first_line(bytes, NEWLINE), cp)
    }
}

/// No line is lost to another: the lines of a stream are those before a line feed and those
/// after it, whatever their bytes.
pub proof fn law_no_line_is_lost(a: Seq<u8>, b: Seq<u8>, cp: Option<u16>)
    requires
        a.len() > 0,
        a.last() == NEWLINE,
    ensures
        stream_texts(a + b, cp) == stream_texts(a, cp) + stream_texts(b, cp),
    decreases a.len(),
{
    lemma_first_line_len(a, NEWLINE);
    lemma_first_line_append(a, b, NEWLINE);
    let rest = after_first_line(a, NEWLINE);
    if rest.len() == 0 {
        assert(rest + b =~= b);
        assert(stream_texts(rest, cp) =~= Seq::<Seq<char>>::empty());
        assert(stream_texts(a + b, cp) =~= stream_texts(a, cp) + stream_texts(b, cp));
    } else {
        law_no_line_is_lost(rest, b, cp);
        assert(stream_texts(a + b, cp) =~= stream_texts(a, cp) + stream_texts(b, cp));
    }
}

/// A valid line stays valid without its line feed.
pub proof fn lemma_valid_line(line: Seq<u8>)
    requires
        valid_utf8(line),
        line.len() > 0,
        line.last() == NEWLINE,
    ensures
        valid_utf8(line.drop_last()),
        decode_utf8(line) == decode_utf8(line.drop_last()).push('\n'),
{
    let last = line.len() - 1;
    is_char_boundary_iff_not_is_continuation_byte(line, last);
    valid_utf8_split(line, last);
    decode_utf8_split(line, last);
    let end = line.subrange(last, line.len() as int);
    assert(line.subrange(0, last) =~= line.drop_last());
    assert(end =~= seq![NEWLINE]);
    assert(0x0au8 & 0x7f == 0x0a) by (bit_vector);
    reveal_with_fuel(decode_utf8, 2);
    assert(pop_first_scalar(end) =~= Seq::<u8>::empty());
    assert(decode_utf8(end) =~= seq!['\n']);
}

/// The text of one line read from a stream, given without its line feed: a carriage return at
/// its end is dropped, and the rest is decoded with code page `cp`.
pub fn stream_line(raw: &[u8], cp: Option<u16>) -> (r: String)
    requires
        cp is Some ==> raw@.len() <= usize::MAX / 16,
    ensures
        r@ == mixed_text(without_carriage_return(raw@), cp),
        no_decoder(cp) ==> faithful(without_carriage_return(raw@), r@),
{
    let len = raw.len();
    if len > 0 && raw[len - 1] == CARRIAGE_RETURN {
        let line = vstd::slice::slice_subrange(raw, 0, len - 1);
        assert(line@ =~= raw@.drop_last());
        decode_process_output(line, cp)
    } else {
        decode_process_output(raw, cp)
    }
}

/// What becomes of one read from a stream.
pub enum ReadLine {
    /// A line came.
    Line(String),
    /// Nothing comes any more; a failure is to be reported.
    End(Option<String>),
}

/// The notice of a read that failed.
pub open spec fn failure_notice(error: Seq<char>) -> Seq<char> {
    "rtk: stream read error: "@ + error
}

/// What becomes of one read from a stream: the text of the line that was read, given without its
/// line feed, or the end of the lines. A failed read ends them as the end of the stream does,
/// with a notice.
pub fn read_line(read: Result<Option<&[u8]>, &str>, cp: Option<u16>) -> (r: ReadLine)
    requires
        cp is Some ==> (read matches Ok(Some(raw)) ==> raw@.len() <= usize::MAX / 16),
    ensures
        match read {
            Ok(Some(raw)) => r matches ReadLine::Line(text) && {
                &&& text@ == mixed_text(without_carriage_return(raw@), cp)
                &&& no_decoder(cp) ==> faithful(without_carriage_return(raw@), text@)
            },
            Ok(None) => r matches ReadLine::End(notice) && notice is None,
            Err(error) => r matches ReadLine::End(notice) && opt_text(notice) == Some(
                failure_notice(error@),
            ),
        },
{
    match read {
        Ok(Some(raw)) => ReadLine::Line(stream_line(raw, cp)),
        Ok(None) => ReadLine::End(None),
        Err(error) => ReadLine::End(Some(combine("rtk: stream read error: ", error))),
    }
}

/// The part of `bytes` up to their last line feed.
pub open spec fn whole_lines(bytes: Seq<u8>) -> Seq<u8>
    decreases bytes.len(),
{
    if bytes.len() == 0 || bytes.last() == NEWLINE {
        bytes
    } else {
        whole_lines(bytes.drop_last())
    }
}

/// The part of `data` up to its last line feed.
fn trim_to_lines(data: &[u8]) -> (r: &[u8])
    ensures
        r@ == whole_lines(data@),
{
    let mut len: usize = data.len();
    assert(data@.take(len as int) =~= data@);
    while len > 0 && data[len - 1] != NEWLINE
        invariant
            len <= data@.len(),
            whole_lines(data@.take(len as int)) == whole_lines(data@),
        decreases len,
    {
        assert(data@.take(len as int).drop_last() =~= data@.take(len - 1));
        len = len - 1;
    }
    let lines = vstd::slice::slice_subrange(data, 0, len);
    assert(lines@ =~= data@.take(len as int));
    lines
}

/// The lines that were read from a stream, and the notice of a failure.
pub struct ReadLines {
    pub lines: Vec<String>,
    pub notice: Option<String>,
}

/// What a stream gives that yields `data` and then ends, or fails with `failure`: the lines of
/// `data`, decoded, without their line endings.
///
/// A line with bytes that are not UTF-8 still comes out, and so do the lines after it. A failure
/// ends the lines; only a line that it cut short is lost.
pub fn read_lines_lossy(data: &[u8], failure: Option<&str>, cp: Option<u16>) -> (r: ReadLines)
    requires
        cp is Some ==> data@.len() <= usize::MAX / 16,
    ensures
        match failure {
            None => {
                &&& texts(r.lines@) == stream_texts(data@, cp)
                &&& no_decoder(cp) ==> faithful_lines(data@, r.lines@)
                &&& r.notice is None
            },
            Some(error) => {
                &&& texts(r.lines@) == stream_texts(whole_lines(data@), cp)
                &&& no_decoder(cp) ==> faithful_lines(whole_lines(data@), r.lines@)
                &&& opt_text(r.notice) == Some(failure_notice(error@))
            },
        },
{
    match failure {
        None => ReadLines { lines: lines_in(data, cp), notice: None },
        Some(error) => {
            let whole = trim_to_lines(data);
            proof {
                lemma_whole_lines(data@);
            }
            ReadLines {
                lines: lines_in(whole, cp),
                notice: Some(combine("rtk: stream read error: ", error)),
            }
        },
    }
}

/// Whole lines are the start of what was read.
proof fn lemma_whole_lines(bytes: Seq<u8>)
    ensures
        whole_lines(bytes).len() <= bytes.len(),
        bytes.take(whole_lines(bytes).len() as int) == whole_lines(bytes),
        whole_lines(bytes).len() == 0 || whole_lines(bytes).last() == NEWLINE,
        !bytes.skip(whole_lines(bytes).len() as int).contains(NEWLINE),
    decreases bytes.len(),
{
    let whole = whole_lines(bytes);
    if bytes.len() == 0 || bytes.last() == NEWLINE {
        assert(bytes.take(bytes.len() as int) =~= bytes);
        assert(bytes.skip(bytes.len() as int) =~= Seq::<u8>::empty());
    } else {
        let shorter = bytes.drop_last();
        lemma_whole_lines(shorter);
        let n = whole.len() as int;
        assert(shorter.take(n) =~= bytes.take(n));
        let rest = bytes.skip(n);
        if rest.contains(NEWLINE) {
            let i = rest.index_of(NEWLINE);
            assert(shorter.skip(n)[i] == NEWLINE);
            assert(shorter.skip(n).contains(NEWLINE));
        }
    }
}

/// A failure ends the lines as the end of the stream would: behind a line feed the lines are the
/// same, and a line that was cut short is all that is missing otherwise.
pub proof fn law_failure_keeps_the_lines_before_it(data: Seq<u8>, cp: Option<u16>)
    ensures
        data.len() == 0 || data.last() == NEWLINE ==> whole_lines(data) == data,
        data.len() > 0 && data.last() != NEWLINE ==> stream_texts(whole_lines(data), cp)
            == stream_texts(data, cp).drop_last(),
{
    let whole = whole_lines(data);
    let n = whole.len() as int;
    let rest = data.skip(n);
    lemma_whole_lines(data);
    assert(whole + rest =~= data);
    if data.len() > 0 && data.last() != NEWLINE {
        assert(rest.last() == data.last());
        assert forall|i: int| 0 <= i < rest.len() implies rest[i] != NEWLINE by {
            assert(rest.contains(rest[i]));
        }
        lemma_first_line_is(rest, rest.len() as int, NEWLINE);
        assert(after_first_line(rest, NEWLINE) =~= Seq::<u8>::empty());
        assert(stream_texts(after_first_line(rest, NEWLINE), cp) =~= Seq::<Seq<char>>::empty());
        assert(stream_texts(rest, cp).len() == 1);
        if n == 0 {
            assert(rest =~= data);
            assert(whole =~= Seq::<u8>::empty());
            assert(stream_texts(data, cp).drop_last() =~= Seq::<Seq<char>>::empty());
        } else {
            law_no_line_is_lost(whole, rest, cp);
            assert(stream_texts(data, cp).drop_last() =~= stream_texts(whole, cp));
        }
    }
}

/// [`stream_line`], with what is faithful out of sight.
fn read_faithfully(raw: &[u8], cp: Option<u16>) -> (r: String)
    requires
        cp is Some ==> raw@.len() <= usize::MAX / 16,
    ensures
        r@ == mixed_text(without_carriage_return(raw@), cp),
        no_decoder(cp) ==> is_faithful(without_carriage_return(raw@), r@),
{
    let text = stream_line(raw, cp);
    proof {
        reveal(is_faithful);
    }
    text
}

/// The lines of `data`, decoded, without their line endings.
fn lines_in(data: &[u8], cp: Option<u16>) -> (r: Vec<String>)
    requires
        cp is Some ==> data@.len() <= usize::MAX / 16,
    ensures
        texts(r@) == stream_texts(data@, cp),
        no_decoder(cp) ==> faithful_lines(data@, r@),
{
    let mut out: Vec<String> = Vec::new();
    let mut start: usize = 0;
    let ghost mut raws: Seq<Seq<u8>> = Seq::empty();
    assert(data@.skip(0) =~= data@);
    assert(texts(out@) + stream_texts(data@, cp) =~= stream_texts(data@, cp));
    assert(raws + raw_lines(data@) =~= raw_lines(data@));
    while start < data.len()
        invariant
            start <= data@.len(),
            cp is Some ==> data@.len() <= usize::MAX / 16,
            texts(out@) + stream_texts(data@.skip(start as int), cp) == stream_texts(data@, cp),
            raws + raw_lines(data@.skip(start as int)) == raw_lines(data@),
            raws.len() == out@.len(),
            no_decoder(cp) ==> forall|i: int|
                0 <= i < raws.len() ==> is_faithful(raws[i], (#[trigger] out@[i])@),
        decreases data@.len() - start,
    {
        let end = line_end(data, start);
        let ghost rest = data@.skip(start as int);
        let ghost before = texts(out@);
        let stop: usize = if data[end - 1] == NEWLINE {
            end - 1
        } else {
            end
        };
        let line = vstd::slice::slice_subrange(data, start, stop);
        assert(first_line(rest, NEWLINE) =~= data@.subrange(start as int, end as int));
        assert(after_first_line(rest, NEWLINE) =~= data@.skip(end as int));
        assert(line@ =~= without_newline(first_line(rest, NEWLINE)));
        let text = read_faithfully(line, cp);
        out.push(text);
        proof {
            let raw = without_carriage_return(line@);
            let remaining = raw_lines(data@.skip(end as int));
            assert(raws + (seq![raw] + remaining) =~= raws.push(raw) + remaining);
            raws = raws.push(raw);
        }
        assert(texts(out@) =~= before.push(text@));
        assert(before + (seq![text@] + stream_texts(data@.skip(end as int), cp)) =~= before.push(
            text@,
        ) + stream_texts(data@.skip(end as int), cp));
        start = end;
    }
    assert(data@.skip(start as int) =~= Seq::<u8>::empty());
    assert(texts(out@) + Seq::<Seq<char>>::empty() =~= texts(out@));
    proof {
        assert(raws + Seq::<Seq<u8>>::empty() =~= raws);
        reveal(is_faithful);
    }
    out
}

} // verus!
