//! Laws of decoding.

use vstd::prelude::*;
use vstd::utf8::{decode_utf8, valid_utf8};
use crate::chars::{digits, opt_text, texts};
use crate::decode::{
    decode_line, decode_mixed, decode_process_output, law_lines_decode_independently, line_text,
    mixed_text, output_codepage, read_line, read_lines_lossy, stream_line, stream_texts,
    warn_unmapped_codepage, whole_lines, without_newline, CodePages, ReadLine, ReadLines,
};
use crate::laws::text::{is_number, law_digits, value};
use crate::lines::{after_first_line, first_line, lemma_first_line_is};
use crate::outside::{
    encoding_text, has_encoding, has_oem_table, lossy_utf8, oem_char, oem_table, oem_text,
};

verus! {

/// Whether `text` is the lossy reading of `bytes`.
pub open spec fn lossily(bytes: Seq<u8>, text: Seq<char>) -> bool {
    &&& valid_utf8(bytes) ==> text == decode_utf8(bytes)
    &&& !valid_utf8(bytes) ==> text == lossy_utf8(bytes)
}

/// Whether the table of an OEM code page has a character for `byte`.
pub open spec fn in_table(page: u16, byte: u8) -> bool {
    byte < 128 || oem_table(page)[byte - 128] is Some
}

/// Whether `text` is `bytes` read byte by byte: below 128 as ASCII, from there on by the table of
/// the OEM code page.
pub open spec fn by_table(page: u16, bytes: Seq<u8>, text: Seq<char>) -> bool {
    &&& text.len() == bytes.len()
    &&& forall|i: int|
        0 <= i < bytes.len() ==> if #[trigger] bytes[i] < 128 {
            text[i] as int == bytes[i]
        } else {
            Some(text[i]) == oem_table(page)[bytes[i] - 128]
        }
}

/// What the code page decodes cleanly is its text, whatever the line holds: for an encoding, the
/// text without malformed sequences; for an OEM table, the characters of the bytes. A line that
/// it rejects, or for which there is no decoder, is read lossily.
pub proof fn law_decode_line(line: &[u8], cp: Option<u16>, page: u16, r: String)
    requires
        call_ensures(decode_line, (line, cp), r),
    ensures
        cp is None ==> lossily(line@, r@),
        cp == Some(page) && has_encoding(page) && !encoding_text(page, line@).1 ==> r@
            == encoding_text(page, line@).0,
        cp == Some(page) && has_encoding(page) && encoding_text(page, line@).1 ==> lossily(
            line@,
            r@,
        ),
        cp == Some(page) && !has_encoding(page) && has_oem_table(page) && (forall|i: int|
            0 <= i < line@.len() ==> in_table(page, #[trigger] line@[i])) ==> by_table(
            page,
            line@,
            r@,
        ),
        cp == Some(page) && !has_encoding(page) && has_oem_table(page) && (exists|i: int|
            0 <= i < line@.len() && !in_table(page, #[trigger] line@[i])) ==> lossily(line@, r@),
        cp == Some(page) && !has_encoding(page) && !has_oem_table(page) ==> lossily(line@, r@),
{
    if cp == Some(page) && !has_encoding(page) && has_oem_table(page) {
        let table = oem_table(page);
        if forall|i: int| 0 <= i < line@.len() ==> in_table(page, #[trigger] line@[i]) {
            assert forall|i: int| 0 <= i < line@.len() implies #[trigger] oem_char(
                table,
                line@[i],
            ) is Some by {
                assert(in_table(page, line@[i]));
            }
            assert(oem_text(table, line@) is Some);
            let text = oem_text(table, line@)->0;
            assert forall|i: int| 0 <= i < line@.len() implies if #[trigger] line@[i] < 128 {
                text[i] as int == line@[i]
            } else {
                Some(text[i]) == table[line@[i] - 128]
            } by {
                assert(oem_char(table, line@[i]) is Some);
            }
        } else {
            let i = choose|i: int| 0 <= i < line@.len() && !in_table(page, #[trigger] line@[i]);
            assert(oem_char(table, line@[i]) is None);
        }
    }
}

/// Whether `bytes` are one line: no line feed but at the end.
pub open spec fn one_line(bytes: Seq<u8>) -> bool {
    forall|i: int| 0 <= i < bytes.len() - 1 ==> #[trigger] bytes[i] != 0x0a
}

/// One line decodes as itself.
proof fn lemma_one_line(bytes: Seq<u8>, cp: Option<u16>)
    requires
        one_line(bytes),
        bytes.len() > 0,
    ensures
        mixed_text(bytes, cp) == line_text(bytes, cp),
{
    lemma_first_line_is(bytes, bytes.len() as int, 0x0a);
    assert(first_line(bytes, 0x0a) =~= bytes);
    assert(after_first_line(bytes, 0x0a) =~= Seq::<u8>::empty());
    assert(mixed_text(after_first_line(bytes, 0x0a), cp) =~= Seq::<char>::empty());
    assert(line_text(bytes, cp) + Seq::<char>::empty()
        =~= line_text(bytes, cp));
}

/// Valid UTF-8 is its text, whatever the code page. A line that is not valid is what the code page
/// makes of it.
pub proof fn law_decode_one_line(bytes: &[u8], cp: Option<u16>, r: String, by_page: String)
    requires
        call_ensures(decode_process_output, (bytes, cp), r),
        call_ensures(decode_line, (bytes, cp), by_page),
    ensures
        valid_utf8(bytes@) ==> r@ == decode_utf8(bytes@),
        !valid_utf8(bytes@) && one_line(bytes@) ==> r@ == by_page@,
{
    if !valid_utf8(bytes@) && one_line(bytes@) {
        assert(bytes@.len() > 0) by {
            if bytes@.len() == 0 {
                assert(valid_utf8(bytes@));
            }
        }
        lemma_one_line(bytes@, cp);
    }
}

/// Lines decode one after the other: what ends with a line feed decodes apart from what follows.
/// Both ways to decode agree.
pub proof fn law_decode_line_by_line(
    a: &[u8],
    b: &[u8],
    both: &[u8],
    cp: Option<u16>,
    of_a: String,
    of_b: String,
    of_both: String,
    mixed: String,
)
    requires
        call_ensures(decode_process_output, (a, cp), of_a),
        call_ensures(decode_process_output, (b, cp), of_b),
        call_ensures(decode_process_output, (both, cp), of_both),
        call_ensures(decode_mixed, (both, cp), mixed),
        both@ == a@ + b@,
        a@.len() == 0 || a@.last() == 0x0a,
    ensures
        of_both@ == of_a@ + of_b@,
        mixed@ == of_both@,
{
    if a@.len() == 0 {
        assert(both@ =~= b@);
        assert(of_a@ =~= Seq::<char>::empty());
        assert(of_a@ + of_b@ =~= of_b@);
    } else {
        law_lines_decode_independently(a@, b@, cp);
    }
}

/// The code page is that of the console, or the ANSI one without a console; there is none where
/// the platform has none, or none that is a code page.
pub proof fn law_output_codepage(
    console: u32,
    ansi: u32,
    page: u16,
    r: Option<u16>,
    none: Option<u16>,
)
    requires
        call_ensures(output_codepage, (Some(CodePages { console, ansi }),), r),
        call_ensures(output_codepage, (None::<CodePages>,), none),
    ensures
        none is None,
        console == page && page != 0 ==> r == Some(page),
        console == 0 && ansi == page && page != 0 ==> r == Some(page),
        console == 0 && ansi == 0 ==> r is None,
        console > 0xffff ==> r is None,
        console == 0 && ansi > 0xffff ==> r is None,
{
}

/// Output that is not valid UTF-8 is warned of where its code page is unknown, by number.
pub proof fn law_warn_unmapped_codepage(
    bytes: &[u8],
    page: u16,
    r: Option<String>,
    none: Option<String>,
)
    requires
        call_ensures(warn_unmapped_codepage, (bytes, Some(page)), r),
        call_ensures(warn_unmapped_codepage, (bytes, None::<u16>), none),
    ensures
        none is None,
        r is Some <==> !valid_utf8(bytes@) && !has_encoding(page) && !has_oem_table(page),
        r is Some ==> exists|number: Seq<char>|
            {
                &&& #[trigger] is_number(number)
                &&& value(number) == page
                &&& opt_text(r) == Some(
                    "[rtk] warning: no decoder for console code page "@ + number
                        + "; non-UTF-8 output will be shown with replacement characters"@,
                )
            },
{
    law_digits(page as nat);
    assert(is_number(digits(page as nat)));
}

/// A line of a stream is decoded without the one carriage return that it may end with.
pub proof fn law_stream_line(
    raw: &[u8],
    body: &[u8],
    cp: Option<u16>,
    r: String,
    text: String,
)
    requires
        call_ensures(stream_line, (raw, cp), r),
        call_ensures(decode_process_output, (body, cp), text),
    ensures
        raw@ == body@ + seq![0x0du8] ==> r@ == text@,
        raw@ == body@ && (body@.len() == 0 || body@.last() != 0x0d) ==> r@ == text@,
{
    if raw@ == body@ + seq![0x0du8] {
        assert(raw@.drop_last() =~= body@);
    }
}

/// A read gives a line, decoded; the end of the stream and a failure end the lines, and a failure
/// is reported.
pub proof fn law_read_line(
    raw: &[u8],
    error: &str,
    cp: Option<u16>,
    of_line: ReadLine,
    of_end: ReadLine,
    of_failure: ReadLine,
    text: String,
)
    requires
        call_ensures(read_line, (Ok::<Option<&[u8]>, &str>(Some(raw)), cp), of_line),
        call_ensures(read_line, (Ok::<Option<&[u8]>, &str>(None), cp), of_end),
        call_ensures(read_line, (Err::<Option<&[u8]>, &str>(error), cp), of_failure),
        call_ensures(stream_line, (raw, cp), text),
    ensures
        of_line matches ReadLine::Line(line) && line@ == text@,
        of_end matches ReadLine::End(notice) && notice is None,
        of_failure matches ReadLine::End(notice) && opt_text(notice) == Some(
            "rtk: stream read error: "@ + error@,
        ),
{
}

/// The lines of a stream are its first line, up to a line feed, and then the lines of what
/// follows.
pub proof fn law_read_first_line(
    data: &[u8],
    line: &[u8],
    rest: &[u8],
    cp: Option<u16>,
    r: ReadLines,
    text: String,
    others: ReadLines,
)
    requires
        call_ensures(read_lines_lossy, (data, None::<&str>, cp), r),
        call_ensures(stream_line, (line, cp), text),
        call_ensures(read_lines_lossy, (rest, None::<&str>, cp), others),
        forall|i: int| 0 <= i < line@.len() ==> #[trigger] line@[i] != 0x0a,
        data@ == line@ + seq![0x0au8] + rest@,
    ensures
        texts(r.lines@) == seq![text@] + texts(others.lines@),
        r.notice is None,
{
    lemma_first_line_is(data@, line@.len() as int + 1, 0x0a);
    let first = first_line(data@, 0x0a);
    assert(first =~= line@ + seq![0x0au8]);
    assert(after_first_line(data@, 0x0a) =~= rest@);
    assert(without_newline(first) =~= line@);
}

/// What follows the last line feed is a line too, if there is anything.
pub proof fn law_read_last_line(data: &[u8], cp: Option<u16>, r: ReadLines, text: String)
    requires
        call_ensures(read_lines_lossy, (data, None::<&str>, cp), r),
        call_ensures(stream_line, (data, cp), text),
        forall|i: int| 0 <= i < data@.len() ==> #[trigger] data@[i] != 0x0a,
    ensures
        data@.len() == 0 ==> r.lines@.len() == 0,
        data@.len() > 0 ==> texts(r.lines@) == seq![text@],
        r.notice is None,
{
    if data@.len() > 0 {
        lemma_first_line_is(data@, data@.len() as int, 0x0a);
        let rest = after_first_line(data@, 0x0a);
        assert(first_line(data@, 0x0a) =~= data@);
        assert(rest =~= Seq::<u8>::empty());
        assert(stream_texts(rest, cp) =~= Seq::<Seq<char>>::empty());
        assert(texts(r.lines@) =~= seq![text@]);
    } else {
        assert(texts(r.lines@).len() == 0);
    }
}

/// A failure gives the lines that are complete, as if the stream had ended behind them, and a
/// notice of it; the line that it cut short is lost.
pub proof fn law_read_until_failure(
    data: &[u8],
    complete: &[u8],
    cut: Seq<u8>,
    error: &str,
    cp: Option<u16>,
    r: ReadLines,
    clean: ReadLines,
)
    requires
        call_ensures(read_lines_lossy, (data, Some(error), cp), r),
        call_ensures(read_lines_lossy, (complete, None::<&str>, cp), clean),
        complete@.len() == 0 || complete@.last() == 0x0a,
        forall|i: int| 0 <= i < cut.len() ==> #[trigger] cut[i] != 0x0a,
        data@ == complete@ + cut,
    ensures
        texts(r.lines@) == texts(clean.lines@),
        opt_text(r.notice) == Some("rtk: stream read error: "@ + error@),
{
    lemma_whole_is(complete@, cut);
}

/// What is complete ends with the last line feed.
proof fn lemma_whole_is(complete: Seq<u8>, cut: Seq<u8>)
    requires
        complete.len() == 0 || complete.last() == 0x0a,
        forall|i: int| 0 <= i < cut.len() ==> #[trigger] cut[i] != 0x0a,
    ensures
        whole_lines(complete + cut) == complete,
    decreases cut.len(),
{
    if cut.len() == 0 {
        assert(complete + cut =~= complete);
    } else {
        assert(cut[cut.len() - 1] != 0x0a);
        assert((complete + cut).drop_last() =~= complete + cut.drop_last());
        lemma_whole_is(complete, cut.drop_last());
    }
}

} // verus!
