//! Short texts for people: truncation, joining, counting and fallbacks.

use vstd::prelude::*;
use vstd::string::*;
use crate::chars::{
    chars_of, decimal, digits, is_white_space, join, joined, lines_of, split_lines, text_of, texts,
    white_space,
};

verus! {

/// What marks a truncated text.
pub const ELLIPSIS: &'static str = "...";

/// `s` cut down to `max_len` characters, the last three of which are the ellipsis. The ellipsis
/// is never cut itself.
pub open spec fn truncated(s: Seq<char>, max_len: nat) -> Seq<char> {
    if s.len() <= max_len {
        s
    } else if max_len < 3 {
        ELLIPSIS@
    } else {
        s.take(max_len - 3) + ELLIPSIS@
    }
}

/// Truncates a string to `max_len` characters, appending `...` if needed.
pub fn truncate(s: &str, max_len: usize) -> (r: String)
    ensures
        r@ == truncated(s@, max_len as nat),
{
    let chars = chars_of(s);
    if chars.len() <= max_len {
        s.to_owned()
    } else if max_len < 3 {
        ELLIPSIS.to_owned()
    } else {
        let mut out = text_of(&chars, 0, max_len - 3);
        out.append(ELLIPSIS);
        assert(s@.take(max_len - 3) =~= chars@.subrange(0, max_len - 3));
        out
    }
}

/// A truncated text keeps within the limit, if the limit leaves room for the ellipsis; without
/// that room it is just the ellipsis.
pub proof fn law_truncation_keeps_the_limit(s: Seq<char>, max_len: nat)
    ensures
        max_len >= 3 ==> truncated(s, max_len).len() <= max_len,
        s.len() > max_len && max_len >= 3 ==> truncated(s, max_len).len() == max_len,
        max_len < 3 ==> truncated(s, max_len).len() <= 3,
{
    reveal_strlit("...");
}

/// Truncating once more changes nothing.
pub proof fn law_truncation_is_idempotent(s: Seq<char>, max_len: nat)
    ensures
        truncated(truncated(s, max_len), max_len) == truncated(s, max_len),
{
    reveal_strlit("...");
    law_truncation_keeps_the_limit(s, max_len);
}

/// What is added to a list of which only a part is shown.
pub open spec fn overflow_hint(total: nat, max: nat, label: Seq<char>) -> Seq<char> {
    if total > max {
        "\n... +"@ + digits((total - max) as nat) + " more "@ + label
    } else {
        Seq::empty()
    }
}

/// Joins items into a newline-separated string, appending an overflow hint when `total > max`.
pub fn join_with_overflow(items: &[String], total: usize, max: usize, label: &str) -> (r: String)
    ensures
        r@ == joined(texts(items@), seq!['\n']) + overflow_hint(total as nat, max as nat, label@),
{
    proof {
        reveal_strlit("\n");
        assert("\n"@ =~= seq!['\n']);
    }
    let mut out = join(items, "\n");
    let ghost list = out@;
    if total > max {
        out.append("\n... +");
        out.append(decimal((total - max) as u64).as_str());
        out.append(" more ");
        out.append(label);
    }
    assert(out@ =~= list + overflow_hint(total as nat, max as nat, label@));
    out
}

/// Truncates an ISO 8601 datetime string to just the date portion: its first 10 characters.
pub fn truncate_iso_date(date: &str) -> (r: &str)
    ensures
        r@ == if date@.len() >= 10 {
            date@.take(10)
        } else {
            date@
        },
{
    if date.unicode_len() >= 10 {
        date.substring_char(0, 10)
    } else {
        date
    }
}

/// Formats a confirmation of a write operation: `ok <action> <detail>`, without a detail where
/// there is none.
pub fn ok_confirmation(action: &str, detail: &str) -> (r: String)
    ensures
        r@ == if detail@.len() == 0 {
            "ok "@ + action@
        } else {
            "ok "@ + action@ + " "@ + detail@
        },
{
    let mut out = "ok ".to_owned();
    out.append(action);
    if detail.unicode_len() != 0 {
        out.append(" ");
        out.append(detail);
    }
    out
}

/// `s` behind the last `c` in it; the whole of `s` where there is none.
pub open spec fn after_last(s: Seq<char>, c: char) -> Seq<char>
    decreases s.len(),
{
    if s.contains(c) {
        if s.last() == c {
            Seq::empty()
        } else {
            after_last(s.drop_last(), c).push(s.last())
        }
    } else {
        s
    }
}

/// The short name in an ARN: what stands behind the last slash, or behind the last colon where
/// there is no slash.
pub open spec fn arn_name(arn: Seq<char>) -> Seq<char> {
    if arn.contains('/') {
        after_last(arn, '/')
    } else {
        after_last(arn, ':')
    }
}

/// `s` ends with `after_last(s, c)`, which stands behind a `c` and holds none.
pub proof fn lemma_after_last(s: Seq<char>, i: int, c: char)
    requires
        0 <= i < s.len(),
        s[i] == c,
        forall|j: int| i < j < s.len() ==> s[j] != c,
    ensures
        s.contains(c),
        after_last(s, c) == s.skip(i + 1),
    decreases s.len(),
{
    if i == s.len() - 1 {
        assert(s.skip(i + 1) =~= Seq::empty());
    } else {
        assert(s.drop_last()[i] == c);
        lemma_after_last(s.drop_last(), i, c);
        assert(s.drop_last().skip(i + 1).push(s.last()) =~= s.skip(i + 1));
    }
}

/// The short name holds no slash; and no colon either, where the ARN has no slash.
pub proof fn law_short_name_has_no_separator(arn: Seq<char>)
    ensures
        !arn_name(arn).contains('/'),
        !arn.contains('/') ==> !arn_name(arn).contains(':'),
        arn_name(arn).is_suffix_of(arn),
{
    lemma_after_last_is_clean(arn, '/');
    lemma_after_last_is_clean(arn, ':');
    if arn_name(arn).contains('/') {
        let i = choose|i: int| 0 <= i < arn_name(arn).len() && arn_name(arn)[i] == '/';
        assert(arn[arn.len() - arn_name(arn).len() + i] == '/');
    }
}

/// What stands behind the last `c` holds none, and ends `s`.
proof fn lemma_after_last_is_clean(s: Seq<char>, c: char)
    ensures
        !after_last(s, c).contains(c),
        after_last(s, c).is_suffix_of(s),
    decreases s.len(),
{
    if s.contains(c) && s.last() != c {
        lemma_after_last_is_clean(s.drop_last(), c);
        let shorter = after_last(s.drop_last(), c);
        assert(s.drop_last().contains(c)) by {
            let i = choose|i: int| 0 <= i < s.len() && s[i] == c;
            assert(s.drop_last()[i] == c);
        }
        assert(shorter =~= s.drop_last().skip(s.len() - 1 - shorter.len()));
        assert(shorter.push(s.last()) =~= s.skip(s.len() - 1 - shorter.len()));
        if shorter.push(s.last()).contains(c) {
            let i = choose|i: int| 0 <= i < shorter.len() + 1 && shorter.push(s.last())[i] == c;
            assert(shorter[i] == c);
        }
    } else if s.contains(c) {
        assert(Seq::<char>::empty() =~= s.skip(s.len() as int));
    } else {
        assert(s =~= s.skip(0));
    }
}

/// Where the text behind the last `c` starts, if there is a `c`.
fn last_position(chars: &Vec<char>, c: char) -> (r: Option<usize>)
    ensures
        match r {
            None => !chars@.contains(c),
            Some(start) => {
                &&& start <= chars@.len()
                &&& chars@.contains(c)
                &&& after_last(chars@, c) == chars@.skip(start as int)
            },
        },
{
    let mut i: usize = chars.len();
    while i > 0
        invariant
            i <= chars@.len(),
            forall|j: int| i <= j < chars@.len() ==> chars@[j] != c,
        decreases i,
    {
        if chars[i - 1] == c {
            proof {
                lemma_after_last(chars@, i - 1, c);
            }
            return Some(i);
        }
        i = i - 1;
    }
    None
}

/// Extracts the short name from an AWS ARN: `arn:aws:ecs:region:acct:service/cluster/name` gives
/// `name`.
pub fn shorten_arn(arn: &str) -> (r: &str)
    ensures
        r@ == arn_name(arn@),
{
    let chars = chars_of(arn);
    let position = match last_position(&chars, '/') {
        Some(start) => Some(start),
        None => last_position(&chars, ':'),
    };
    match position {
        Some(start) => {
            assert(arn@.subrange(start as int, arn@.len() as int) =~= arn@.skip(start as int));
            arn.substring_char(start, chars.len())
        },
        None => arn,
    }
}

/// Whether a token starts at `i`: a character that is not white space, at the start of the text
/// or behind white space.
pub open spec fn starts_token(s: Seq<char>, i: int) -> bool {
    !white_space(s[i]) && (i == 0 || white_space(s[i - 1]))
}

/// The number of tokens in `s`: runs of characters between white space.
pub open spec fn token_count(s: Seq<char>) -> nat
    decreases s.len(),
{
    if s.len() == 0 {
        0
    } else if starts_token(s, s.len() - 1) {
        token_count(s.drop_last()) + 1
    } else {
        token_count(s.drop_last())
    }
}

/// Counts the tokens in `text` that white space delimits.
pub fn count_tokens(text: &str) -> (r: usize)
    ensures
        r == token_count(text@),
{
    let chars = chars_of(text);
    let mut count: usize = 0;
    for i in 0..chars.len()
        invariant
            count <= i,
            count == token_count(chars@.take(i as int)),
    {
        let ghost longer = chars@.take(i + 1);
        assert(longer.drop_last() =~= chars@.take(i as int));
        if !is_white_space(chars[i]) && (i == 0 || is_white_space(chars[i - 1])) {
            count = count + 1;
        }
    }
    assert(chars@.take(chars@.len() as int) =~= chars@);
    count
}

/// Texts apart from each other add up their tokens.
pub proof fn law_tokens_add_up(a: Seq<char>, gap: char, b: Seq<char>)
    requires
        white_space(gap),
    ensures
        token_count(a.push(gap) + b) == token_count(a) + token_count(b),
    decreases b.len(),
{
    if b.len() == 0 {
        assert(a.push(gap) + b =~= a.push(gap));
        assert(a.push(gap).drop_last() =~= a);
    } else {
        law_tokens_add_up(a, gap, b.drop_last());
        let whole = a.push(gap) + b;
        assert(whole.drop_last() =~= a.push(gap) + b.drop_last());
        assert(starts_token(whole, whole.len() - 1) == starts_token(b, b.len() - 1));
    }
}

/// The last `n` of `items`, or all where there are fewer.
pub open spec fn last_n<T>(items: Seq<T>, n: nat) -> Seq<T> {
    if items.len() <= n {
        items
    } else {
        items.skip(items.len() - n)
    }
}

/// What is shown of output that is not understood, and what is said of it.
pub struct Fallback {
    pub notice: String,
    pub text: String,
}

/// The last `n` lines of `output`, for use as a fallback when it could not be parsed, and a
/// notice under `label`.
pub fn fallback_tail(output: &str, label: &str, n: usize) -> (r: Fallback)
    ensures
        r.text@ == joined(last_n(lines_of(output@), n as nat), seq!['\n']),
        r.notice@ == "[rtk] "@ + label@ + ": output format not recognized, showing last "@ + digits(
            n as nat,
        ) + " lines"@,
{
    let mut notice = "[rtk] ".to_owned();
    notice.append(label);
    notice.append(": output format not recognized, showing last ");
    notice.append(decimal(n as u64).as_str());
    notice.append(" lines");
    let lines = split_lines(output);
    let start: usize = if lines.len() > n {
        lines.len() - n
    } else {
        0
    };
    let tail = vstd::slice::slice_subrange(lines.as_slice(), start, lines.len());
    proof {
        reveal_strlit("\n");
        assert("\n"@ =~= seq!['\n']);
        assert(texts(tail@) =~= last_n(texts(lines@), n as nat));
    }
    Fallback { notice, text: join(tail, "\n") }
}

} // verus!
