//! Laws of texts.

use vstd::prelude::*;
use crate::chars::{
    decimal, digit, digits, join, lines_of, lower_char, signed_decimal, split_lines, starts_with,
    texts, to_ascii_lower, trim, trim_end, trim_start, trimmed, white_space, without_ending,
};
use crate::lines::{after_first_line, first_line, lemma_first_line_is};
use crate::text::{
    after_last, count_tokens, fallback_tail, join_with_overflow, last_n, law_tokens_add_up,
    lemma_after_last, ok_confirmation, shorten_arn, token_count, truncate, truncate_iso_date,
    Fallback,
};

verus! {

/// Whether all of `s` is white space.
pub open spec fn blank(s: Seq<char>) -> bool {
    forall|i: int| 0 <= i < s.len() ==> white_space(#[trigger] s[i])
}

/// Whether `s` neither starts nor ends with white space.
pub open spec fn tight(s: Seq<char>) -> bool {
    s.len() > 0 ==> !white_space(s[0]) && !white_space(s.last())
}

/// White space in front goes, and nothing else.
proof fn lemma_trim_start(before: Seq<char>, rest: Seq<char>)
    requires
        blank(before),
        rest.len() > 0 ==> !white_space(rest[0]),
    ensures
        trim_start(before + rest) == rest,
    decreases before.len(),
{
    if before.len() == 0 {
        assert(before + rest =~= rest);
    } else {
        assert(white_space(before[0]));
        let shorter = before.drop_first();
        assert forall|i: int| 0 <= i < shorter.len() implies white_space(#[trigger] shorter[i]) by {
            assert(white_space(before[i + 1]));
        }
        assert((before + rest).drop_first() =~= shorter + rest);
        lemma_trim_start(shorter, rest);
    }
}

/// White space behind goes, and nothing else.
proof fn lemma_trim_end(rest: Seq<char>, after: Seq<char>)
    requires
        blank(after),
        rest.len() > 0 ==> !white_space(rest.last()),
    ensures
        trim_end(rest + after) == rest,
    decreases after.len(),
{
    if after.len() == 0 {
        assert(rest + after =~= rest);
    } else {
        assert(white_space(after[after.len() - 1]));
        let shorter = after.drop_last();
        assert forall|i: int| 0 <= i < shorter.len() implies white_space(#[trigger] shorter[i]) by {
            assert(white_space(after[i]));
        }
        assert((rest + after).drop_last() =~= rest + shorter);
        lemma_trim_end(rest, shorter);
    }
}

/// What is left of a text between white space is the text.
pub proof fn law_trimmed(before: Seq<char>, core: Seq<char>, after: Seq<char>)
    requires
        blank(before),
        tight(core),
        blank(after),
    ensures
        trimmed(before + core + after) == core,
{
    if core.len() == 0 {
        let all = before + core + after;
        assert(all =~= before + after);
        assert forall|i: int| 0 <= i < all.len() implies white_space(#[trigger] all[i]) by {
            if i < before.len() {
                assert(white_space(before[i]));
            } else {
                assert(white_space(after[i - before.len()]));
            }
        }
        assert(all + core =~= all);
        lemma_trim_start(all, core);
        lemma_trim_end(core, core);
        assert(core + core =~= core);
    } else {
        assert(before + core + after =~= before + (core + after));
        lemma_trim_start(before, core + after);
        lemma_trim_end(core, after);
    }
}

/// Trimming takes away the white space around a text, and nothing else.
pub proof fn law_trim(s: &str, before: Seq<char>, core: Seq<char>, after: Seq<char>, r: String)
    requires
        call_ensures(trim, (s,), r),
        s@ == before + core + after,
        blank(before),
        tight(core),
        blank(after),
    ensures
        r@ == core,
{
    law_trimmed(before, core, after);
}

/// The small form of a capital letter of ASCII is 32 places behind it; every other character
/// stays.
pub proof fn law_to_ascii_lower(s: &str, r: String, i: int)
    requires
        call_ensures(to_ascii_lower, (s,), r),
        0 <= i < s@.len(),
    ensures
        r@.len() == s@.len(),
        'A' <= s@[i] <= 'Z' ==> r@[i] as int == s@[i] as int + 32,
        !('A' <= s@[i] <= 'Z') ==> r@[i] == s@[i],
{
    if 'A' <= s@[i] <= 'Z' {
        assert(r@[i] == lower_char(s@[i]));
    }
}

/// The number that a row of decimal digits stands for.
pub open spec fn value(s: Seq<char>) -> nat
    decreases s.len(),
{
    if s.len() == 0 {
        0
    } else {
        (10 * value(s.drop_last()) + (s.last() as u32 - '0' as u32)) as nat
    }
}

/// Whether `s` is a number as people write it: digits, and no needless zero in front.
pub open spec fn is_number(s: Seq<char>) -> bool {
    &&& s.len() > 0
    &&& forall|i: int| 0 <= i < s.len() ==> '0' <= #[trigger] s[i] <= '9'
    &&& s.len() > 1 ==> s[0] != '0'
}

/// The digits of a number stand for it.
pub proof fn law_digits(n: nat)
    ensures
        is_number(digits(n)),
        value(digits(n)) == n,
    decreases n,
{
    reveal_with_fuel(value, 2);
    if n < 10 {
        assert(digits(n).drop_last() =~= Seq::<char>::empty());
    } else {
        law_digits(n / 10);
        let before = digits(n / 10);
        assert(digits(n) == before.push(digit(n % 10)));
        assert(digits(n).drop_last() =~= before);
        assert(digits(n)[0] == before[0]);
        if before.len() == 1 && before[0] == '0' {
            assert(before.drop_last() =~= Seq::<char>::empty());
            assert(value(before) == 0);
        }
    }
}

/// A number is written in digits that stand for it.
pub proof fn law_decimal(n: u64, r: String)
    requires
        call_ensures(decimal, (n,), r),
    ensures
        is_number(r@),
        value(r@) == n,
{
    law_digits(n as nat);
}

/// A negative number is written as the positive one, behind a minus sign.
pub proof fn law_signed_decimal(i: i32, r: String)
    requires
        call_ensures(signed_decimal, (i,), r),
    ensures
        i >= 0 ==> is_number(r@) && value(r@) == i,
        i < 0 ==> r@.len() > 0 && r@[0] == '-' && is_number(r@.drop_first()) && value(
            r@.drop_first(),
        ) == -i,
{
    if i < 0 {
        law_digits((-i) as nat);
        assert(r@.drop_first() =~= digits((-i) as nat));
    } else {
        law_digits(i as nat);
    }
}

/// One more item comes behind one more separator; the first item comes alone.
pub proof fn law_join(items: &[String], more: &[String], sep: &str, r: String, longer: String)
    requires
        call_ensures(join, (items, sep), r),
        call_ensures(join, (more, sep), longer),
        more@.len() == items@.len() + 1,
        more@.drop_last() == items@,
    ensures
        items@.len() == 0 ==> r@ == Seq::<char>::empty() && longer@ == more@.last()@,
        items@.len() > 0 ==> longer@ == r@ + sep@ + more@.last()@,
{
    assert(texts(more@).drop_last() =~= texts(items@));
    assert(texts(more@).last() == more@.last()@);
    if items@.len() == 0 {
        assert(texts(items@).len() == 0);
    }
}

/// A line that ends with a line feed comes first, without its ending; the other lines follow.
proof fn lemma_lines_first(line: Seq<char>, rest: Seq<char>)
    requires
        !line.contains('\n'),
    ensures
        lines_of(line.push('\n') + rest) == seq![
            if line.len() > 0 && line.last() == '\r' {
                line.drop_last()
            } else {
                line
            },
        ] + lines_of(rest),
{
    let all = line.push('\n') + rest;
    let n = line.len() + 1;
    assert forall|i: int| 0 <= i < n - 1 implies all[i] != '\n' by {
        assert(line.contains(line[i]));
    }
    lemma_first_line_is(all, n as int, '\n');
    assert(first_line(all, '\n') =~= line.push('\n'));
    assert(after_first_line(all, '\n') =~= rest);
    let short = without_ending(line.push('\n'));
    if line.len() > 0 && line.last() == '\r' {
        assert(short =~= line.drop_last());
    } else {
        assert(short =~= line);
    }
}

/// Text is split at its line feeds: the first line, without its ending (a carriage return before
/// the line feed belongs to that), and then the lines of what follows.
pub proof fn law_split_lines(
    all: &str,
    line: Seq<char>,
    rest: &str,
    r: Vec<String>,
    others: Vec<String>,
)
    requires
        call_ensures(split_lines, (all,), r),
        call_ensures(split_lines, (rest,), others),
        !line.contains('\n'),
        all@ == line.push('\n') + rest@,
    ensures
        line.len() == 0 || line.last() != '\r' ==> texts(r@) == seq![line] + texts(others@),
        line.len() > 0 && line.last() == '\r' ==> texts(r@) == seq![line.drop_last()] + texts(
            others@,
        ),
{
    lemma_lines_first(line, rest@);
}

/// Text without a line feed is one line, as it is; no text has no lines.
pub proof fn law_split_single_line(line: &str, r: Vec<String>)
    requires
        call_ensures(split_lines, (line,), r),
        !line@.contains('\n'),
    ensures
        line@.len() == 0 ==> r@.len() == 0,
        line@.len() > 0 ==> texts(r@) == seq![line@],
{
    if line@.len() > 0 {
        assert forall|i: int| 0 <= i < line@.len() implies line@[i] != '\n' by {
            assert(line@.contains(line@[i]));
        }
        lemma_first_line_is(line@, line@.len() as int, '\n');
        assert(first_line(line@, '\n') =~= line@);
        assert(after_first_line(line@, '\n') =~= Seq::<char>::empty());
        assert(lines_of(after_first_line(line@, '\n')) =~= Seq::<Seq<char>>::empty());
        assert(texts(r@) =~= seq![line@]);
    } else {
        assert(texts(r@).len() == 0);
    }
}

/// A text starts with a prefix if it is the prefix and something behind it.
pub proof fn law_starts_with(s: &str, prefix: &str, r: bool, rest: Seq<char>)
    requires
        call_ensures(starts_with, (s, prefix), r),
    ensures
        s@ == prefix@ + rest ==> r,
        r ==> s@ == prefix@ + s@.skip(prefix@.len() as int),
{
    if s@ == prefix@ + rest {
        assert(prefix@ =~= s@.subrange(0, prefix@.len() as int));
    }
    if r {
        assert(s@ =~= prefix@ + s@.skip(prefix@.len() as int));
    }
}

/// A text that is short enough stays. Of a longer one the first characters stay, as many as
/// leave room for three dots within the limit; the dots are never cut.
pub proof fn law_truncate(s: &str, max_len: usize, r: String)
    requires
        call_ensures(truncate, (s, max_len), r),
    ensures
        s@.len() <= max_len ==> r@ == s@,
        s@.len() > max_len && max_len >= 3 ==> {
            &&& r@.len() == max_len
            &&& forall|i: int| 0 <= i < max_len - 3 ==> r@[i] == s@[i]
            &&& forall|i: int| max_len - 3 <= i < max_len ==> r@[i] == '.'
        },
        s@.len() > max_len && max_len < 3 ==> r@ == seq!['.', '.', '.'],
{
    reveal_strlit("...");
    assert("..."@ =~= seq!['.', '.', '.']);
}

/// The hint follows what is shown without it: how many more there are, and of what.
pub proof fn law_join_with_overflow(
    items: &[String],
    total: usize,
    max: usize,
    label: &str,
    r: String,
    list: String,
)
    requires
        call_ensures(join_with_overflow, (items, total, max, label), r),
        call_ensures(join, (items, "\n"), list),
    ensures
        total <= max ==> r@ == list@,
        total > max ==> exists|count: Seq<char>|
            {
                &&& #[trigger] is_number(count)
                &&& value(count) == total - max
                &&& r@ == list@ + "\n... +"@ + count + " more "@ + label@
            },
{
    reveal_strlit("\n");
    assert("\n"@ =~= seq!['\n']);
    if total > max {
        let count = digits((total - max) as nat);
        law_digits((total - max) as nat);
        assert(is_number(count));
        assert(r@ =~= list@ + "\n... +"@ + count + " more "@ + label@);
    } else {
        assert(r@ =~= list@);
    }
}

/// A date is the first ten characters; what is shorter stays.
pub proof fn law_truncate_iso_date(date: &str, r: &str)
    requires
        call_ensures(truncate_iso_date, (date,), r),
    ensures
        date@.len() >= 10 ==> r@.len() == 10,
        date@.len() < 10 ==> r@.len() == date@.len(),
        forall|i: int| 0 <= i < r@.len() ==> r@[i] == date@[i],
{
}

/// A confirmation is `ok`, the action, and the detail where there is one.
pub proof fn law_ok_confirmation(action: &str, detail: &str, r: String)
    requires
        call_ensures(ok_confirmation, (action, detail), r),
    ensures
        detail@.len() == 0 ==> r@ == seq!['o', 'k', ' '] + action@,
        detail@.len() > 0 ==> r@ == seq!['o', 'k', ' '] + action@ + seq![' '] + detail@,
{
    reveal_strlit("ok ");
    reveal_strlit(" ");
    assert("ok "@ =~= seq!['o', 'k', ' ']);
    assert(" "@ =~= seq![' ']);
}

/// The short name of an ARN stands behind the last slash; behind the last colon where there is
/// no slash; and is the whole where there is neither.
pub proof fn law_shorten_arn(arn: &str, before: Seq<char>, name: Seq<char>, r: &str)
    requires
        call_ensures(shorten_arn, (arn,), r),
        !name.contains('/'),
    ensures
        arn@ == before.push('/') + name ==> r@ == name,
        arn@ == before.push(':') + name && !before.contains('/') && !name.contains(':') ==> r@
            == name,
        arn@ == name && !name.contains(':') ==> r@ == name,
{
    if arn@ == before.push('/') + name {
        assert(arn@[before.len() as int] == '/');
        assert(arn@.contains('/'));
        lemma_behind_last(before, name, '/');
    } else if arn@ == before.push(':') + name && !before.contains('/') && !name.contains(':') {
        assert(!arn@.contains('/')) by {
            if arn@.contains('/') {
                let i = arn@.index_of('/');
                if i < before.len() {
                    assert(before[i] == '/');
                } else if i > before.len() {
                    assert(name[i - before.len() - 1] == '/');
                }
            }
        }
        lemma_behind_last(before, name, ':');
    }
}

/// What stands behind the last `c`.
proof fn lemma_behind_last(before: Seq<char>, name: Seq<char>, c: char)
    requires
        !name.contains(c),
    ensures
        after_last(before.push(c) + name, c) == name,
{
    let all = before.push(c) + name;
    let i = before.len() as int;
    assert forall|j: int| i < j < all.len() implies all[j] != c by {
        assert(name.contains(name[j - i - 1]));
    }
    lemma_after_last(all, i, c);
    assert(all.skip(i + 1) =~= name);
}

/// White space holds no token, and a text without white space is one; of texts with white space
/// between them the tokens add up.
pub proof fn law_count_tokens(
    a: &str,
    gap: char,
    b: &str,
    both: &str,
    in_a: usize,
    in_b: usize,
    in_both: usize,
)
    requires
        call_ensures(count_tokens, (a,), in_a),
        call_ensures(count_tokens, (b,), in_b),
        call_ensures(count_tokens, (both,), in_both),
        white_space(gap),
        both@ == a@.push(gap) + b@,
    ensures
        in_both == in_a + in_b,
        blank(a@) ==> in_a == 0,
        a@.len() > 0 && (forall|i: int| 0 <= i < a@.len() ==> !white_space(#[trigger] a@[i]))
            ==> in_a == 1,
{
    law_tokens_add_up(a@, gap, b@);
    if blank(a@) {
        lemma_no_token(a@);
    }
    if a@.len() > 0 && (forall|i: int| 0 <= i < a@.len() ==> !white_space(#[trigger] a@[i])) {
        lemma_one_token(a@);
    }
}

/// White space holds no token.
proof fn lemma_no_token(s: Seq<char>)
    requires
        blank(s),
    ensures
        token_count(s) == 0,
    decreases s.len(),
{
    if s.len() > 0 {
        assert(white_space(s[s.len() - 1]));
        let shorter = s.drop_last();
        assert forall|i: int| 0 <= i < shorter.len() implies white_space(#[trigger] shorter[i]) by {
            assert(white_space(s[i]));
        }
        lemma_no_token(shorter);
    }
}

/// Text without white space is one token.
proof fn lemma_one_token(s: Seq<char>)
    requires
        s.len() > 0,
        forall|i: int| 0 <= i < s.len() ==> !white_space(#[trigger] s[i]),
    ensures
        token_count(s) == 1,
    decreases s.len(),
{
    let shorter = s.drop_last();
    assert(!white_space(s[s.len() - 1]));
    if shorter.len() > 0 {
        assert(!white_space(s[s.len() - 2]));
        assert forall|i: int| 0 <= i < shorter.len() implies !white_space(#[trigger] shorter[i]) by {
            assert(!white_space(s[i]));
        }
        lemma_one_token(shorter);
    } else {
        assert(token_count(shorter) == 0);
    }
}

/// The fallback shows the last lines, as many as are wanted or all there are, in their order.
pub proof fn law_fallback_tail(
    output: &str,
    label: &str,
    n: usize,
    r: Fallback,
    lines: Vec<String>,
    shown: &[String],
    list: String,
)
    requires
        call_ensures(fallback_tail, (output, label, n), r),
        call_ensures(split_lines, (output,), lines),
        call_ensures(join, (shown, "\n"), list),
        shown@.len() == if lines@.len() <= n {
            lines@.len() as int
        } else {
            n as int
        },
        forall|i: int|
            0 <= i < shown@.len() ==> (#[trigger] shown@[i])@ == lines@[lines@.len() - shown@.len()
                + i]@,
    ensures
        r.text@ == list@,
        exists|count: Seq<char>|
            {
                &&& #[trigger] is_number(count)
                &&& value(count) == n
                &&& r.notice@ == "[rtk] "@ + label@
                    + ": output format not recognized, showing last "@ + count + " lines"@
            },
{
    reveal_strlit("\n");
    assert("\n"@ =~= seq!['\n']);
    assert(texts(shown@) =~= last_n(texts(lines@), n as nat));
    law_digits(n as nat);
    assert(is_number(digits(n as nat)));
}

} // verus!
