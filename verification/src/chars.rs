//! Text primitives: searching, comparing, trimming, splitting into lines, joining and numbers.
//!
//! Text is modelled as the sequence of its characters.

use vstd::prelude::*;
use vstd::utf8::*;
use crate::lines::{after_first_line, first_line, lemma_first_line_is, lemma_first_line_len};

verus! {

/// The characters of each text in `items`.
pub open spec fn texts(items: Seq<String>) -> Seq<Seq<char>> {
    Seq::new(items.len(), |i: int| items[i]@)
}

/// The characters of an optional text.
pub open spec fn opt_text(text: Option<String>) -> Option<Seq<char>> {
    match text {
        None => None,
        Some(s) => Some(s@),
    }
}

/// Whether `c` occurs in `s`.
pub fn has_char(s: &str, c: char) -> (r: bool)
    ensures
        r == s@.contains(c),
{
    for x in it: s.chars()
        invariant
            it.seq() == s@,
            forall|i: int| 0 <= i < it.index() ==> s@[i] != c,
    {
        if x == c {
            assert(s@[it.index()] == c);
            return true;
        }
    }
    false
}

/// Whether two texts are the same.
pub fn same_text(a: &str, b: &str) -> (r: bool)
    ensures
        r == (a@ == b@),
{
    let x = a.as_bytes();
    let y = b.as_bytes();
    if x.len() != y.len() {
        return false;
    }
    for i in 0..x.len()
        invariant
            x@.len() == y@.len(),
            x@ == encode_utf8(a@),
            y@ == encode_utf8(b@),
            forall|j: int| 0 <= j < i ==> x@[j] == y@[j],
    {
        if x[i] != y[i] {
            return false;
        }
    }
    proof {
        assert(x@ =~= y@);
        encode_utf8_decode_utf8(a@);
        encode_utf8_decode_utf8(b@);
    }
    true
}

/// `a`, then `b`.
pub fn combine(a: &str, b: &str) -> (r: String)
    ensures
        r@ == a@ + b@,
{
    let mut out = a.to_owned();
    out.append(b);
    out
}

/// The characters of `s`.
pub fn chars_of(s: &str) -> (r: Vec<char>)
    ensures
        r@ == s@,
{
    let mut out: Vec<char> = Vec::new();
    for c in it: s.chars()
        invariant
            it.seq() == s@,
            out@ == s@.take(it.index()),
    {
        out.push(c);
        assert(s@.take(it.index() + 1) =~= s@.take(it.index()).push(c));
    }
    assert(s@.take(s@.len() as int) =~= s@);
    out
}

/// The text made of the characters `from..to` of `chars`.
pub fn text_of(chars: &Vec<char>, from: usize, to: usize) -> (r: String)
    requires
        from <= to <= chars@.len(),
    ensures
        r@ == chars@.subrange(from as int, to as int),
{
    let mut out = String::new();
    for i in from..to
        invariant
            from <= to <= chars@.len(),
            out@ == chars@.subrange(from as int, i as int),
    {
        out.push(chars[i]);
        assert(chars@.subrange(from as int, i + 1) =~= chars@.subrange(from as int, i as int).push(
            chars@[i as int],
        ));
    }
    out
}

/// The characters with the Unicode property `White_Space`.
pub open spec fn white_space(c: char) -> bool {
    ||| '\u{9}' <= c <= '\u{d}'
    ||| c == ' '
    ||| c == '\u{85}'
    ||| c == '\u{a0}'
    ||| c == '\u{1680}'
    ||| '\u{2000}' <= c <= '\u{200a}'
    ||| c == '\u{2028}'
    ||| c == '\u{2029}'
    ||| c == '\u{202f}'
    ||| c == '\u{205f}'
    ||| c == '\u{3000}'
}

/// Whether `c` is white space.
pub fn is_white_space(c: char) -> (r: bool)
    ensures
        r == white_space(c),
{
    ('\u{9}' <= c && c <= '\u{d}') || c == ' ' || c == '\u{85}' || c == '\u{a0}' || c == '\u{1680}'
        || ('\u{2000}' <= c && c <= '\u{200a}') || c == '\u{2028}' || c == '\u{2029}' || c
        == '\u{202f}' || c == '\u{205f}' || c == '\u{3000}'
}

/// `s` without its leading white space.
pub open spec fn trim_start(s: Seq<char>) -> Seq<char>
    decreases s.len(),
{
    if s.len() > 0 && white_space(s[0]) {
        trim_start(s.drop_first())
    } else {
        s
    }
}

/// `s` without its trailing white space.
pub open spec fn trim_end(s: Seq<char>) -> Seq<char>
    decreases s.len(),
{
    if s.len() > 0 && white_space(s.last()) {
        trim_end(s.drop_last())
    } else {
        s
    }
}

/// `s` without white space at either end.
pub open spec fn trimmed(s: Seq<char>) -> Seq<char> {
    trim_end(trim_start(s))
}

/// `s` without white space at either end.
pub fn trim(s: &str) -> (r: String)
    ensures
        r@ == trimmed(s@),
{
    let chars = chars_of(s);
    let mut from: usize = 0;
    assert(s@.subrange(0, s@.len() as int) =~= s@);
    while from < chars.len() && is_white_space(chars[from])
        invariant
            from <= chars@.len(),
            chars@ == s@,
            trim_start(s@) == trim_start(s@.subrange(from as int, s@.len() as int)),
        decreases chars@.len() - from,
    {
        assert(s@.subrange(from as int, s@.len() as int).drop_first() =~= s@.subrange(
            from + 1,
            s@.len() as int,
        ));
        from = from + 1;
    }
    let mut to: usize = chars.len();
    while from < to && is_white_space(chars[to - 1])
        invariant
            from <= to <= chars@.len(),
            chars@ == s@,
            trimmed(s@) == trim_end(s@.subrange(from as int, to as int)),
        decreases to,
    {
        assert(s@.subrange(from as int, to as int).drop_last() =~= s@.subrange(
            from as int,
            to - 1,
        ));
        to = to - 1;
    }
    text_of(&chars, from, to)
}

/// `c` with an ASCII capital letter turned into the small one.
pub open spec fn lower_char(c: char) -> char {
    if 'A' <= c <= 'Z' {
        ((c as u8 + 32) as u8) as char
    } else {
        c
    }
}

/// `s` with its ASCII capital letters turned into small ones.
pub open spec fn lower(s: Seq<char>) -> Seq<char> {
    s.map_values(|c: char| lower_char(c))
}

/// `s` with its ASCII capital letters turned into small ones.
pub fn to_ascii_lower(s: &str) -> (r: String)
    ensures
        r@ == lower(s@),
{
    let mut out = String::new();
    for c in it: s.chars()
        invariant
            it.seq() == s@,
            out@ == lower(s@.take(it.index())),
    {
        let small: char = if 'A' <= c && c <= 'Z' {
            ((c as u8) + 32) as char
        } else {
            c
        };
        out.push(small);
        assert(lower(s@.take(it.index() + 1)) =~= lower(s@.take(it.index())).push(lower_char(c)));
    }
    assert(s@.take(s@.len() as int) =~= s@);
    out
}

/// The parts, one after the other, with `sep` between each two.
pub open spec fn joined(parts: Seq<Seq<char>>, sep: Seq<char>) -> Seq<char>
    decreases parts.len(),
{
    if parts.len() == 0 {
        Seq::empty()
    } else if parts.len() == 1 {
        parts[0]
    } else {
        joined(parts.drop_last(), sep) + sep + parts.last()
    }
}

/// The items, one after the other, with `sep` between each two.
pub fn join(items: &[String], sep: &str) -> (r: String)
    ensures
        r@ == joined(texts(items@), sep@),
{
    let mut out = String::new();
    let ghost parts = texts(items@);
    assert(parts.take(0) =~= Seq::empty());
    for i in 0..items.len()
        invariant
            parts == texts(items@),
            out@ == joined(parts.take(i as int), sep@),
    {
        assert(parts.take(i + 1).drop_last() =~= parts.take(i as int));
        if i > 0 {
            out.append(sep);
        } else {
            assert(parts.take(1)[0] == items@[0]@);
            assert(out@ + items@[0]@ =~= items@[0]@);
        }
        out.append(items[i].as_str());
    }
    assert(parts.take(parts.len() as int) =~= parts);
    out
}

/// Whether `s` starts with `prefix`.
pub fn starts_with(s: &str, prefix: &str) -> (r: bool)
    ensures
        r == prefix@.is_prefix_of(s@),
{
    let text = chars_of(s);
    let start = chars_of(prefix);
    if start.len() > text.len() {
        return false;
    }
    for i in 0..start.len()
        invariant
            text@ == s@,
            start@ == prefix@,
            start@.len() <= text@.len(),
            forall|j: int| 0 <= j < i ==> start@[j] == text@[j],
    {
        if start[i] != text[i] {
            assert(s@.subrange(0, prefix@.len() as int)[i as int] != prefix@[i as int]);
            return false;
        }
    }
    assert(prefix@ =~= s@.subrange(0, prefix@.len() as int));
    true
}

/// The decimal digit for `d`.
pub open spec fn digit(d: nat) -> char {
    (('0' as u8 + d) as u8) as char
}

/// `n` in decimal.
pub open spec fn digits(n: nat) -> Seq<char>
    decreases n,
{
    if n < 10 {
        seq![digit(n)]
    } else {
        digits(n / 10).push(digit(n % 10))
    }
}

/// `i` in decimal, with a minus sign if it is negative.
pub open spec fn signed_digits(i: int) -> Seq<char> {
    if i < 0 {
        seq!['-'] + digits((-i) as nat)
    } else {
        digits(i as nat)
    }
}

/// `n` in decimal.
pub fn decimal(n: u64) -> (r: String)
    ensures
        r@ == digits(n as nat),
    decreases n,
{
    let last: char = (48u8 + ((n % 10) as u8)) as char;
    let mut out = if n < 10 {
        String::new()
    } else {
        decimal(n / 10)
    };
    out.push(last);
    assert(out@ =~= digits(n as nat));
    out
}

/// `i` in decimal, with a minus sign if it is negative.
pub fn signed_decimal(i: i32) -> (r: String)
    ensures
        r@ == signed_digits(i as int),
{
    let wide: i64 = i as i64;
    if wide < 0 {
        let mut out = String::new();
        out.push('-');
        out.append(decimal((-wide) as u64).as_str());
        assert(out@ =~= signed_digits(i as int));
        out
    } else {
        decimal(wide as u64)
    }
}

/// A line without its ending: a line feed, and a carriage return before it.
pub open spec fn without_ending(line: Seq<char>) -> Seq<char> {
    if line.len() >= 2 && line.last() == '\n' && line[line.len() - 2] == '\r' {
        line.take(line.len() - 2)
    } else if line.len() >= 1 && line.last() == '\n' {
        line.drop_last()
    } else {
        line
    }
}

/// The lines of `s` without their endings. The ending of the last line is optional.
pub open spec fn lines_of(s: Seq<char>) -> Seq<Seq<char>>
    decreases s.len(),
{
    if s.len() == 0 {
        Seq::empty()
    } else {
        proof {
            lemma_first_line_len(s, '\n');
        }
        seq![without_ending(first_line(s, '\n'))] + lines_of(after_first_line(s, '\n'))
    }
}

/// The lines of `s` without their endings. The ending of the last line is optional.
pub fn split_lines(s: &str) -> (r: Vec<String>)
    ensures
        texts(r@) == lines_of(s@),
{
    let chars = chars_of(s);
    let mut out: Vec<String> = Vec::new();
    let mut start: usize = 0;
    assert(chars@.skip(0) =~= chars@);
    assert(texts(out@) + lines_of(chars@) =~= lines_of(chars@));
    while start < chars.len()
        invariant
            chars@ == s@,
            start <= chars@.len(),
            texts(out@) + lines_of(chars@.skip(start as int)) == lines_of(chars@),
        decreases chars@.len() - start,
    {
        let mut end: usize = start + 1;
        while end < chars.len() && chars[end - 1] != '\n'
            invariant
                start < end <= chars@.len(),
                forall|i: int| start <= i < end - 1 ==> chars@[i] != '\n',
            decreases chars@.len() - end,
        {
            end = end + 1;
        }
        let ghost rest = chars@.skip(start as int);
        let ghost before = texts(out@);
        proof {
            lemma_first_line_is(rest, end - start, '\n');
            assert(first_line(rest, '\n') =~= chars@.subrange(start as int, end as int));
            assert(after_first_line(rest, '\n') =~= chars@.skip(end as int));
        }
        let stop: usize = if chars[end - 1] != '\n' {
            end
        } else if end - start >= 2 && chars[end - 2] == '\r' {
            end - 2
        } else {
            end - 1
        };
        let line = text_of(&chars, start, stop);
        assert(line@ =~= without_ending(first_line(rest, '\n')));
        out.push(line);
        assert(texts(out@) =~= before.push(line@));
        assert(before + (seq![line@] + lines_of(chars@.skip(end as int))) =~= before.push(line@)
            + lines_of(chars@.skip(end as int)));
        start = end;
    }
    assert(chars@.skip(start as int) =~= Seq::<char>::empty());
    assert(texts(out@) + Seq::<Seq<char>>::empty() =~= texts(out@));
    out
}

} // verus!
