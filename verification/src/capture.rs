//! The part of an output stream that is captured.
//!
//! Lines are captured whole, each with its line feed, up to a cap on the bytes.

use vstd::prelude::*;
use vstd::utf8::*;
use crate::ansi::{csi_len, osc_len, stripped, without_csi, without_osc};
use crate::decode::{
    law_valid_utf8_is_untouched, lemma_valid_line, lemma_valid_split,
    stream_texts, without_carriage_return, without_newline, CARRIAGE_RETURN, NEWLINE,
};
use crate::lines::{after_first_line, first_line, lemma_first_line_len};

verus! {

/// The most bytes that are captured of one output stream: 10 MiB.
pub const RAW_CAP: usize = 10_485_760;

/// The number of bytes of `text`.
pub open spec fn byte_len(text: Seq<char>) -> nat {
    encode_utf8(text).len()
}

/// Whether one more line, with its line feed, fits behind `text` within the cap.
pub open spec fn fits(text: Seq<char>, line: Seq<char>) -> bool {
    byte_len(text) + byte_len(line) + 1 <= RAW_CAP
}

/// The lines, each ended by a line feed.
pub open spec fn as_lines(lines: Seq<Seq<char>>) -> Seq<char>
    decreases lines.len(),
{
    if lines.len() == 0 {
        Seq::empty()
    } else {
        as_lines(lines.drop_last()) + lines.last().push('\n')
    }
}

/// What is captured of a stream: the text, and whether a line was left out.
pub struct Captured {
    pub text: Seq<char>,
    pub capped: bool,
}

/// Capturing that ends with the first line that does not fit.
pub open spec fn capture_until_full(captured: Captured, line: Seq<char>) -> Captured {
    if captured.capped {
        captured
    } else if fits(captured.text, line) {
        Captured { text: captured.text + line.push('\n'), capped: false }
    } else {
        Captured { text: captured.text, capped: true }
    }
}

/// Capturing that leaves out each line that does not fit.
pub open spec fn capture_if_fitting(captured: Captured, line: Seq<char>) -> Captured {
    if fits(captured.text, line) {
        Captured { text: captured.text + line.push('\n'), capped: captured.capped }
    } else {
        Captured { text: captured.text, capped: true }
    }
}

/// Encoding goes character by character.
proof fn lemma_encode_concat(a: Seq<char>, b: Seq<char>)
    ensures
        encode_utf8(a + b) == encode_utf8(a) + encode_utf8(b),
    decreases a.len(),
{
    if a.len() == 0 {
        assert(a + b =~= b);
        assert(encode_utf8(a) + encode_utf8(b) =~= encode_utf8(b));
    } else {
        assert((a + b).drop_first() =~= a.drop_first() + b);
        lemma_encode_concat(a.drop_first(), b);
        assert(encode_utf8(a + b) =~= encode_utf8(a) + encode_utf8(b));
    }
}

/// A line and its line feed add their bytes.
proof fn lemma_line_bytes(text: Seq<char>, line: Seq<char>)
    ensures
        byte_len(text + line.push('\n')) == byte_len(text) + byte_len(line) + 1,
{
    reveal_with_fuel(encode_utf8, 2);
    lemma_encode_concat(text, line.push('\n'));
    lemma_encode_concat(line, seq!['\n']);
    assert(line.push('\n') =~= line + seq!['\n']);
    assert(encode_utf8(seq!['\n']).len() == 1);
}

/// The captured part of an output stream.
pub struct Capture {
    text: String,
    capped: bool,
}

impl View for Capture {
    type V = Captured;

    closed spec fn view(&self) -> Captured {
        Captured { text: self.text@, capped: self.capped }
    }
}

impl Capture {
    /// No more is captured than the cap allows.
    pub open spec fn wf(&self) -> bool {
        byte_len(self@.text) <= RAW_CAP
    }

    /// Nothing captured yet.
    pub fn new() -> (r: Self)
        ensures
            r.wf(),
            r@ == (Captured { text: Seq::empty(), capped: false }),
    {
        Capture { text: String::new(), capped: false }
    }

    /// Whether one more line fits.
    fn has_room(&self, line: &str) -> (r: bool)
        requires
            self.wf(),
        ensures
            r == fits(self@.text, line@),
    {
        let used = self.text.as_str().as_bytes().len();
        let wanted = line.as_bytes().len();
        wanted < RAW_CAP - used
    }

    /// Adds a line and its line feed.
    fn append_line(&mut self, line: &str)
        requires
            fits(old(self)@.text, line@),
        ensures
            final(self).wf(),
            final(self)@ == (Captured {
                text: old(self)@.text + line@.push('\n'),
                capped: old(self)@.capped,
            }),
    {
        proof {
            lemma_line_bytes(self@.text, line@);
        }
        self.text.append(line);
        self.text.push('\n');
        assert(self.text@ =~= old(self)@.text + line@.push('\n'));
    }

    /// Captures a line unless one was left out before; tells whether this is the first one to be
    /// left out.
    pub fn push_until_full(&mut self, line: &str) -> (r: bool)
        requires
            old(self).wf(),
        ensures
            final(self).wf(),
            final(self)@ == capture_until_full(old(self)@, line@),
            r == (final(self)@.capped && !old(self)@.capped),
    {
        if self.capped {
            return false;
        }
        if self.has_room(line) {
            self.append_line(line);
            false
        } else {
            self.capped = true;
            true
        }
    }

    /// Captures a line if it fits; tells whether this is the first one to be left out.
    pub fn push_if_fitting(&mut self, line: &str) -> (r: bool)
        requires
            old(self).wf(),
        ensures
            final(self).wf(),
            final(self)@ == capture_if_fitting(old(self)@, line@),
            r == (final(self)@.capped && !old(self)@.capped),
    {
        if self.has_room(line) {
            self.append_line(line);
            false
        } else if !self.capped {
            self.capped = true;
            true
        } else {
            false
        }
    }

    /// The captured text.
    pub fn text(&self) -> (r: &str)
        ensures
            r@ == self@.text,
    {
        self.text.as_str()
    }

    /// The captured text.
    pub fn into_text(self) -> (r: String)
        ensures
            r@ == self@.text,
    {
        self.text
    }
}

/// What is captured after all of `lines`, up to the first one that does not fit.
pub open spec fn captured_until_full(start: Captured, lines: Seq<Seq<char>>) -> Captured
    decreases lines.len(),
{
    if lines.len() == 0 {
        start
    } else {
        capture_until_full(captured_until_full(start, lines.drop_last()), lines.last())
    }
}

/// What is captured after all of `lines`, without those that do not fit.
pub open spec fn captured_if_fitting(start: Captured, lines: Seq<Seq<char>>) -> Captured
    decreases lines.len(),
{
    if lines.len() == 0 {
        start
    } else {
        capture_if_fitting(captured_if_fitting(start, lines.drop_last()), lines.last())
    }
}

/// Nothing captured yet.
pub open spec fn nothing_captured() -> Captured {
    Captured { text: Seq::empty(), capped: false }
}

/// Removing sequences never adds bytes.
proof fn lemma_removal_adds_no_bytes(s: Seq<char>)
    ensures
        byte_len(without_csi(s)) <= byte_len(s),
        byte_len(without_osc(s)) <= byte_len(s),
    decreases s.len(),
{
    if s.len() > 0 {
        let first = seq![s[0]];
        let rest = s.drop_first();
        lemma_removal_adds_no_bytes(rest);
        lemma_encode_concat(first, rest);
        lemma_encode_concat(first, without_csi(rest));
        lemma_encode_concat(first, without_osc(rest));
        assert(first + rest =~= s);
        if 0 < csi_len(s) <= s.len() {
            let n = csi_len(s) as int;
            lemma_removal_adds_no_bytes(s.skip(n));
            lemma_encode_concat(s.take(n), s.skip(n));
            assert(s.take(n) + s.skip(n) =~= s);
        }
        if 0 < osc_len(s) <= s.len() {
            let n = osc_len(s) as int;
            lemma_removal_adds_no_bytes(s.skip(n));
            lemma_encode_concat(s.take(n), s.skip(n));
            assert(s.take(n) + s.skip(n) =~= s);
        }
    }
}

/// Stripped text has no more bytes than it had, so what fits within the cap still fits.
pub proof fn law_stripping_adds_no_bytes(s: Seq<char>)
    ensures
        byte_len(stripped(s)) <= byte_len(s),
{
    lemma_removal_adds_no_bytes(s);
    lemma_removal_adds_no_bytes(without_osc(s));
}

/// However much a process writes, no more than the cap is captured of a stream.
pub proof fn law_capture_stays_within_the_cap(lines: Seq<Seq<char>>)
    ensures
        byte_len(captured_until_full(nothing_captured(), lines).text) <= RAW_CAP,
        byte_len(captured_if_fitting(nothing_captured(), lines).text) <= RAW_CAP,
    decreases lines.len(),
{
    if lines.len() > 0 {
        let before = lines.drop_last();
        law_capture_stays_within_the_cap(before);
        lemma_line_bytes(captured_until_full(nothing_captured(), before).text, lines.last());
        lemma_line_bytes(captured_if_fitting(nothing_captured(), before).text, lines.last());
    }
}

/// Fewer lines have no more bytes.
proof fn lemma_as_lines_grows(lines: Seq<Seq<char>>)
    requires
        lines.len() > 0,
    ensures
        byte_len(as_lines(lines)) == byte_len(as_lines(lines.drop_last())) + byte_len(lines.last())
            + 1,
{
    lemma_line_bytes(as_lines(lines.drop_last()), lines.last());
}

/// Output that fits within the cap is captured whole.
pub proof fn law_output_within_the_cap_is_captured_whole(lines: Seq<Seq<char>>)
    requires
        byte_len(as_lines(lines)) <= RAW_CAP,
    ensures
        captured_until_full(nothing_captured(), lines) == (Captured {
            text: as_lines(lines),
            capped: false,
        }),
        captured_if_fitting(nothing_captured(), lines) == (Captured {
            text: as_lines(lines),
            capped: false,
        }),
    decreases lines.len(),
{
    if lines.len() > 0 {
        lemma_as_lines_grows(lines);
        law_output_within_the_cap_is_captured_whole(lines.drop_last());
    }
}

/// Capturing until full keeps the lines before the first one that does not fit, and nothing
/// after it.
pub proof fn law_capture_keeps_the_first_lines(lines: Seq<Seq<char>>) -> (kept: int)
    ensures
        0 <= kept <= lines.len(),
        captured_until_full(nothing_captured(), lines).text == as_lines(lines.take(kept)),
        captured_until_full(nothing_captured(), lines).capped <==> kept < lines.len(),
        kept < lines.len() ==> !fits(as_lines(lines.take(kept)), lines[kept]),
    decreases lines.len(),
{
    if lines.len() == 0 {
        assert(lines.take(0) =~= lines);
        0
    } else {
        let before = lines.drop_last();
        let kept = law_capture_keeps_the_first_lines(before);
        assert(before.take(kept) =~= lines.take(kept));
        let captured = captured_until_full(nothing_captured(), before);
        if !captured.capped && fits(captured.text, lines.last()) {
            assert(before.take(kept) =~= before);
            assert(lines.take(lines.len() as int) =~= lines);
            lines.len() as int
        } else {
            kept
        }
    }
}

/// The first line comes first.
proof fn lemma_as_lines_first(first: Seq<char>, rest: Seq<Seq<char>>)
    ensures
        as_lines(seq![first] + rest) == first.push('\n') + as_lines(rest),
    decreases rest.len(),
{
    let all = seq![first] + rest;
    if rest.len() == 0 {
        assert(all.drop_last() =~= Seq::<Seq<char>>::empty());
        assert(as_lines(all.drop_last()) =~= Seq::<char>::empty());
        assert(all.last() == first);
        assert(as_lines(all) =~= first.push('\n') + as_lines(rest));
    } else {
        assert(all.drop_last() =~= seq![first] + rest.drop_last());
        lemma_as_lines_first(first, rest.drop_last());
        assert(as_lines(all) =~= first.push('\n') + as_lines(rest));
    }
}

/// The lines of valid text, each ended by a line feed, are that text.
proof fn lemma_valid_lines(bytes: Seq<u8>, cp: Option<u16>)
    requires
        valid_utf8(bytes),
        bytes.len() > 0 ==> bytes.last() == NEWLINE,
        !bytes.contains(CARRIAGE_RETURN),
    ensures
        as_lines(stream_texts(bytes, cp)) == decode_utf8(bytes),
    decreases bytes.len(),
{
    if bytes.len() > 0 {
        lemma_first_line_len(bytes, NEWLINE);
        let line = first_line(bytes, NEWLINE);
        let rest = after_first_line(bytes, NEWLINE);
        let n = line.len() as int;
        assert(bytes[n - 1] == NEWLINE);
        lemma_valid_split(bytes, n);
        lemma_valid_line(line);
        let body = without_newline(line);
        assert(without_carriage_return(body) == body) by {
            if body.len() > 0 {
                assert(bytes.contains(bytes[body.len() - 1]));
            }
        }
        law_valid_utf8_is_untouched(body, cp);
        if rest.contains(CARRIAGE_RETURN) {
            let i = rest.index_of(CARRIAGE_RETURN);
            assert(bytes[n + i] == CARRIAGE_RETURN);
        }
        lemma_valid_lines(rest, cp);
        lemma_as_lines_first(decode_utf8(body), stream_texts(rest, cp));
    }
}

/// What a process writes is what is captured: valid UTF-8 in whole lines, within the cap and
/// without carriage returns, comes back byte for byte.
pub proof fn law_text_is_captured_as_written(bytes: Seq<u8>, cp: Option<u16>)
    requires
        valid_utf8(bytes),
        bytes.len() > 0 ==> bytes.last() == NEWLINE,
        !bytes.contains(CARRIAGE_RETURN),
        bytes.len() <= RAW_CAP,
    ensures
        encode_utf8(captured_until_full(nothing_captured(), stream_texts(bytes, cp)).text) == bytes,
        encode_utf8(captured_if_fitting(nothing_captured(), stream_texts(bytes, cp)).text) == bytes,
{
    lemma_valid_lines(bytes, cp);
    decode_utf8_encode_utf8(bytes);
    law_output_within_the_cap_is_captured_whole(stream_texts(bytes, cp));
}

} // verus!
