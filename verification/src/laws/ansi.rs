//! Laws of escape sequences.

use std::borrow::Cow;
use vstd::prelude::*;
use crate::ansi::{
    cow_text, csi_len, is_intermediate, is_parameter, is_payload, law_control_sequence_vanishes,
    law_system_command_vanishes, lemma_osc_append, lemma_plain_prefix, osc_len, run_len, strip_ansi,
    strip_ansi_if_present, stripped, without_csi, without_osc,
};

verus! {

/// Whether `s` holds no escape character.
pub open spec fn plain(s: Seq<char>) -> bool {
    forall|i: int| 0 <= i < s.len() ==> #[trigger] s[i] != '\u{1b}'
}

/// Whether no escape character is followed by a bracket of either kind.
pub open spec fn opens_nothing(s: Seq<char>) -> bool {
    forall|i: int|
        0 <= i < s.len() - 1 && #[trigger] s[i] == '\u{1b}' ==> s[i + 1] != '[' && s[i + 1] != ']'
}

/// Whether nothing is opened in `s`, nor by what follows it.
pub open spec fn quiet(s: Seq<char>) -> bool {
    opens_nothing(s) && (s.len() > 0 ==> s.last() != '\u{1b}')
}

/// What opens nothing stays in front.
proof fn lemma_quiet_prefix(a: Seq<char>, s: Seq<char>)
    requires
        quiet(a),
    ensures
        without_csi(a + s) == a + without_csi(s),
        without_osc(a + s) == a + without_osc(s),
    decreases a.len(),
{
    if a.len() == 0 {
        assert(a + s =~= s);
        assert(a + without_csi(s) =~= without_csi(s));
        assert(a + without_osc(s) =~= without_osc(s));
    } else {
        let rest = a.drop_first();
        assert forall|i: int|
            0 <= i < rest.len() - 1 && #[trigger] rest[i] == '\u{1b}' implies rest[i + 1] != '['
            && rest[i + 1] != ']' by {
            assert(a[i + 1] == '\u{1b}');
        }
        lemma_quiet_prefix(rest, s);
        if a[0] == '\u{1b}' {
            assert(a.len() > 1);
            assert((a + s)[1] == a[1]);
        }
        assert((a + s).drop_first() =~= rest + s);
        assert(seq![a[0]] + (rest + without_csi(s)) =~= a + without_csi(s));
        assert(seq![a[0]] + (rest + without_osc(s)) =~= a + without_osc(s));
    }
}

/// What opens nothing stays in front of what is stripped.
proof fn lemma_quiet_start(a: Seq<char>, s: Seq<char>)
    requires
        quiet(a),
    ensures
        stripped(a + s) == a + stripped(s),
{
    lemma_quiet_prefix(a, s);
    lemma_quiet_prefix(a, without_osc(s));
}

/// Whether `s` is a control sequence: `ESC [`, parameters from `0` to `?`, intermediates from the
/// space to `/`, and one final character from `@` to `~`.
pub open spec fn control_sequence(
    s: Seq<char>,
    parameters: Seq<char>,
    intermediates: Seq<char>,
    last: char,
) -> bool {
    &&& s == seq!['\u{1b}', '['] + parameters + intermediates + seq![last]
    &&& forall|i: int| 0 <= i < parameters.len() ==> '0' <= #[trigger] parameters[i] <= '?'
    &&& forall|i: int| 0 <= i < intermediates.len() ==> ' ' <= #[trigger] intermediates[i] <= '/'
    &&& '@' <= last <= '~'
}

/// Whether `s` is an operating system command: `ESC ]`, a payload, and `BEL` or `ESC \`.
pub open spec fn system_command(s: Seq<char>, payload: Seq<char>) -> bool {
    &&& forall|i: int|
        0 <= i < payload.len() ==> #[trigger] payload[i] != '\u{7}' && payload[i] != '\u{1b}'
    &&& s == seq!['\u{1b}', ']'] + payload + seq!['\u{7}'] || s == seq!['\u{1b}', ']'] + payload
        + seq!['\u{1b}', '\\']
}

/// A run goes on as long as the class does.
proof fn lemma_run_is(run: Seq<char>, rest: Seq<char>, class: spec_fn(char) -> bool)
    requires
        forall|i: int| 0 <= i < run.len() ==> class(#[trigger] run[i]),
        rest.len() > 0 ==> !class(rest[0]),
    ensures
        run_len(run + rest, class) == run.len(),
    decreases run.len(),
{
    if run.len() == 0 {
        assert(run + rest =~= rest);
    } else {
        let shorter = run.drop_first();
        assert(class(run[0]));
        assert forall|i: int| 0 <= i < shorter.len() implies class(#[trigger] shorter[i]) by {
            assert(class(run[i + 1]));
        }
        assert((run + rest).drop_first() =~= shorter + rest);
        lemma_run_is(shorter, rest, class);
    }
}

/// Where the parameters and intermediates behind `ESC [` end.
proof fn lemma_csi_runs(parameters: Seq<char>, intermediates: Seq<char>, rest: Seq<char>)
    requires
        forall|i: int| 0 <= i < parameters.len() ==> '0' <= #[trigger] parameters[i] <= '?',
        forall|i: int|
            0 <= i < intermediates.len() ==> ' ' <= #[trigger] intermediates[i] <= '/',
        rest.len() > 0 ==> !(' ' <= rest[0] <= '/'),
        rest.len() > 0 && intermediates.len() == 0 ==> !('0' <= rest[0] <= '?'),
    ensures
        csi_len(seq!['\u{1b}', '['] + parameters + intermediates + rest) == if rest.len() > 0 && '@'
            <= rest[0] <= '~' {
            (2 + parameters.len() + intermediates.len() + 1) as nat
        } else {
            0
        },
{
    let s = seq!['\u{1b}', '['] + parameters + intermediates + rest;
    let parameter = |c: char| is_parameter(c);
    let intermediate = |c: char| is_intermediate(c);
    assert(s[0] == '\u{1b}' && s[1] == '[');
    assert(s.skip(2) =~= parameters + (intermediates + rest));
    assert forall|i: int| 0 <= i < parameters.len() implies parameter(#[trigger] parameters[i]) by {
    }
    if (intermediates + rest).len() > 0 {
        assert(!parameter((intermediates + rest)[0])) by {
            if intermediates.len() > 0 {
                assert((intermediates + rest)[0] == intermediates[0]);
            }
        }
    }
    lemma_run_is(parameters, intermediates + rest, parameter);
    let n = parameters.len() as int;
    assert(s.skip(2 + n) =~= intermediates + rest);
    assert forall|i: int| 0 <= i < intermediates.len() implies intermediate(
        #[trigger] intermediates[i],
    ) by {
    }
    lemma_run_is(intermediates, rest, intermediate);
    if rest.len() > 0 {
        assert(s[2 + n + intermediates.len()] == rest[0]);
    }
}

/// A control sequence is measured in full.
proof fn lemma_control_sequence(
    s: Seq<char>,
    parameters: Seq<char>,
    intermediates: Seq<char>,
    last: char,
)
    requires
        control_sequence(s, parameters, intermediates, last),
    ensures
        csi_len(s) == s.len(),
{
    lemma_csi_runs(parameters, intermediates, seq![last]);
}

/// An operating system command is measured in full.
proof fn lemma_system_command(s: Seq<char>, payload: Seq<char>)
    requires
        system_command(s, payload),
    ensures
        osc_len(s) == s.len(),
{
    let class = |c: char| is_payload(c);
    assert forall|i: int| 0 <= i < payload.len() implies class(#[trigger] payload[i]) by {
    }
    let n = 2 + payload.len() as int;
    let rest = s.skip(n);
    assert(s[0] == '\u{1b}' && s[1] == ']');
    assert(s.skip(2) =~= payload + rest);
    assert(rest[0] == s[n]);
    lemma_run_is(payload, rest, class);
}

/// Every control sequence vanishes; the text before it stays, and so does what is left of
/// the text behind the sequence.
pub proof fn law_strip_control_sequence(
    text: &str,
    before: Seq<char>,
    sequence: Seq<char>,
    parameters: Seq<char>,
    intermediates: Seq<char>,
    last: char,
    after: &str,
    r: String,
    rest: String,
)
    requires
        call_ensures(strip_ansi, (text,), r),
        call_ensures(strip_ansi, (after,), rest),
        quiet(before),
        control_sequence(sequence, parameters, intermediates, last),
        text@ == before + sequence + after@,
    ensures
        r@ == before + rest@,
{
    let none = Seq::<char>::empty();
    lemma_control_sequence(sequence, parameters, intermediates, last);
    law_control_sequence_vanishes(none, sequence, after@);
    assert(none + sequence + after@ =~= sequence + after@);
    assert(none + stripped(after@) =~= stripped(after@));
    lemma_quiet_start(before, sequence + after@);
    assert(before + sequence + after@ =~= before + (sequence + after@));
}

/// Every operating system command vanishes; the text before it stays, and so does what is
/// left of the text behind the command.
pub proof fn law_strip_system_command(
    text: &str,
    before: Seq<char>,
    command: Seq<char>,
    payload: Seq<char>,
    after: &str,
    r: String,
    rest: String,
)
    requires
        call_ensures(strip_ansi, (text,), r),
        call_ensures(strip_ansi, (after,), rest),
        quiet(before),
        system_command(command, payload),
        text@ == before + command + after@,
    ensures
        r@ == before + rest@,
{
    let none = Seq::<char>::empty();
    lemma_system_command(command, payload);
    law_system_command_vanishes(none, command, after@);
    assert(none + command + after@ =~= command + after@);
    assert(none + stripped(after@) =~= stripped(after@));
    lemma_quiet_start(before, command + after@);
    assert(before + command + after@ =~= before + (command + after@));
}

/// Plain text does not contain the escape character.
proof fn lemma_plain(s: Seq<char>)
    requires
        plain(s),
    ensures
        !s.contains('\u{1b}'),
{
    if s.contains('\u{1b}') {
        let i = s.index_of('\u{1b}');
        assert(s[i] == '\u{1b}');
    }
}

/// Without an opening there is nothing to remove.
proof fn lemma_opens_nothing(s: Seq<char>)
    requires
        opens_nothing(s),
    ensures
        without_csi(s) == s,
        without_osc(s) == s,
    decreases s.len(),
{
    if s.len() > 0 {
        let rest = s.drop_first();
        assert forall|i: int|
            0 <= i < rest.len() - 1 && #[trigger] rest[i] == '\u{1b}' implies rest[i + 1] != '['
            && rest[i + 1] != ']' by {
            assert(s[i + 1] == '\u{1b}');
        }
        lemma_opens_nothing(rest);
        if s.len() >= 2 && s[0] == '\u{1b}' {
            assert(s[1] != '[' && s[1] != ']');
        }
        assert(seq![s[0]] + rest =~= s);
    }
}

/// Text in which no sequence is opened stays as it is, escape characters included.
pub proof fn law_strip_only_sequences(text: &str, r: String)
    requires
        call_ensures(strip_ansi, (text,), r),
        opens_nothing(text@),
    ensures
        r@ == text@,
{
    lemma_opens_nothing(text@);
}

/// A control sequence that is not completed stays: behind its parameters and intermediates comes
/// neither more of them nor a final character.
pub proof fn law_strip_keeps_incomplete_sequence(
    text: &str,
    before: Seq<char>,
    parameters: Seq<char>,
    intermediates: Seq<char>,
    after: Seq<char>,
    r: String,
)
    requires
        call_ensures(strip_ansi, (text,), r),
        quiet(before),
        forall|i: int| 0 <= i < parameters.len() ==> '0' <= #[trigger] parameters[i] <= '?',
        forall|i: int|
            0 <= i < intermediates.len() ==> ' ' <= #[trigger] intermediates[i] <= '/',
        plain(after),
        after.len() > 0 ==> !(' ' <= after[0] <= '/') && !('@' <= after[0] <= '~'),
        after.len() > 0 && intermediates.len() == 0 ==> !('0' <= after[0] <= '?'),
        text@ == before + (seq!['\u{1b}', '['] + parameters + intermediates + after),
    ensures
        r@ == text@,
{
    let tail = seq!['\u{1b}', '['] + parameters + intermediates + after;
    lemma_csi_runs(parameters, intermediates, after);
    let rest = tail.drop_first();
    assert(rest =~= seq!['['] + parameters + intermediates + after);
    assert forall|i: int| 0 <= i < rest.len() implies #[trigger] rest[i] != '\u{1b}' by {
        if 1 <= i < 1 + parameters.len() {
            assert(rest[i] == parameters[i - 1]);
        } else if 1 + parameters.len() <= i < 1 + parameters.len() + intermediates.len() {
            assert(rest[i] == intermediates[i - 1 - parameters.len()]);
        } else if i >= 1 + parameters.len() + intermediates.len() {
            assert(rest[i] == after[i - 1 - parameters.len() - intermediates.len()]);
        }
    }
    lemma_unopened(tail);
    lemma_quiet_start(before, tail);
}

/// An operating system command that is not completed stays.
pub proof fn law_strip_keeps_incomplete_command(
    text: &str,
    before: Seq<char>,
    payload: Seq<char>,
    r: String,
)
    requires
        call_ensures(strip_ansi, (text,), r),
        quiet(before),
        forall|i: int|
            0 <= i < payload.len() ==> #[trigger] payload[i] != '\u{7}' && payload[i] != '\u{1b}',
        text@ == before + (seq!['\u{1b}', ']'] + payload),
    ensures
        r@ == text@,
{
    let tail = seq!['\u{1b}', ']'] + payload;
    let class = |c: char| is_payload(c);
    assert forall|i: int| 0 <= i < payload.len() implies class(#[trigger] payload[i]) by {
    }
    let none = Seq::<char>::empty();
    lemma_run_is(payload, none, class);
    assert(tail.skip(2) =~= payload + none);
    assert(osc_len(tail) == 0);
    let rest = tail.drop_first();
    assert forall|i: int| 0 <= i < rest.len() implies #[trigger] rest[i] != '\u{1b}' by {
        if i > 0 {
            assert(rest[i] == payload[i - 1]);
        }
    }
    lemma_unopened(tail);
    lemma_quiet_start(before, tail);
}

/// A control sequence that is interrupted by another character stays, with that character, and
/// what is left of the text behind it.
pub proof fn law_strip_keeps_interrupted_sequence(
    text: &str,
    before: Seq<char>,
    parameters: Seq<char>,
    intermediates: Seq<char>,
    other: char,
    after: &str,
    r: String,
    rest: String,
)
    requires
        call_ensures(strip_ansi, (text,), r),
        call_ensures(strip_ansi, (after,), rest),
        quiet(before),
        forall|i: int| 0 <= i < parameters.len() ==> '0' <= #[trigger] parameters[i] <= '?',
        forall|i: int|
            0 <= i < intermediates.len() ==> ' ' <= #[trigger] intermediates[i] <= '/',
        other != '\u{1b}',
        !(' ' <= other <= '/') && !('@' <= other <= '~'),
        intermediates.len() == 0 ==> !('0' <= other <= '?'),
        text@ == before + ((seq!['\u{1b}', '['] + parameters + intermediates).push(other) + after@),
    ensures
        r@ == before + ((seq!['\u{1b}', '['] + parameters + intermediates).push(other) + rest@),
{
    let head = (seq!['\u{1b}', '['] + parameters + intermediates).push(other);
    let inner = head.drop_first();
    assert forall|i: int| 0 <= i < inner.len() implies #[trigger] inner[i] != '\u{1b}' by {
        if 1 <= i < 1 + parameters.len() {
            assert(inner[i] == parameters[i - 1]);
        } else if 1 + parameters.len() <= i < inner.len() - 1 {
            assert(inner[i] == intermediates[i - 1 - parameters.len()]);
        }
    }
    lemma_csi_runs(parameters, intermediates, seq![other] + after@);
    lemma_csi_runs(parameters, intermediates, seq![other] + without_osc(after@));
    assert(seq!['\u{1b}', '['] + parameters + intermediates + (seq![other] + after@) =~= head
        + after@);
    assert(seq!['\u{1b}', '['] + parameters + intermediates + (seq![other] + without_osc(after@))
        =~= head + without_osc(after@));
    lemma_kept_head(head, after@);
    lemma_quiet_start(before, head + after@);
}

/// An operating system command that is interrupted by an escape character that does not end it
/// stays, with what is left of the text from that character on.
pub proof fn law_strip_keeps_interrupted_command(
    text: &str,
    before: Seq<char>,
    payload: Seq<char>,
    after: &str,
    r: String,
    rest: String,
)
    requires
        call_ensures(strip_ansi, (text,), r),
        call_ensures(strip_ansi, (after,), rest),
        quiet(before),
        forall|i: int|
            0 <= i < payload.len() ==> #[trigger] payload[i] != '\u{7}' && payload[i] != '\u{1b}',
        after@.len() > 0 && after@[0] == '\u{1b}',
        after@.len() > 1 ==> after@[1] != '\\',
        text@ == before + (seq!['\u{1b}', ']'] + payload + after@),
    ensures
        r@ == before + (seq!['\u{1b}', ']'] + payload + rest@),
{
    let head = seq!['\u{1b}', ']'] + payload;
    let inner = head.drop_first();
    let class = |c: char| is_payload(c);
    assert forall|i: int| 0 <= i < payload.len() implies class(#[trigger] payload[i]) by {
    }
    assert forall|i: int| 0 <= i < inner.len() implies #[trigger] inner[i] != '\u{1b}' by {
        if i > 0 {
            assert(inner[i] == payload[i - 1]);
        }
    }
    lemma_run_is(payload, after@, class);
    let whole = head + after@;
    assert(whole.skip(2) =~= payload + after@);
    assert(whole[head.len() as int] == '\u{1b}');
    if after@.len() > 1 {
        assert(whole[head.len() as int + 1] == after@[1]);
    }
    assert(osc_len(whole) == 0);
    lemma_kept_head(head, after@);
    lemma_quiet_start(before, whole);
}

/// Where an escape character comes that opens no operating system command, one is left.
proof fn lemma_escape_is_left(after: Seq<char>)
    requires
        after.len() > 0 && after[0] == '\u{1b}',
        after.len() > 1 ==> after[1] != ']',
    ensures
        without_osc(after).len() > 0 && without_osc(after)[0] == '\u{1b}',
{
}

/// An escape character in front of another one stays, and so does a control sequence that another
/// escape character interrupts; the text from that one on is stripped as if it were alone. (A
/// character that opens an operating system command is another matter: the command goes first.)
pub proof fn law_strip_keeps_what_an_escape_interrupts(
    text: &str,
    before: Seq<char>,
    head: Seq<char>,
    parameters: Seq<char>,
    intermediates: Seq<char>,
    after: &str,
    r: String,
    rest: String,
)
    requires
        call_ensures(strip_ansi, (text,), r),
        call_ensures(strip_ansi, (after,), rest),
        quiet(before),
        forall|i: int| 0 <= i < parameters.len() ==> '0' <= #[trigger] parameters[i] <= '?',
        forall|i: int|
            0 <= i < intermediates.len() ==> ' ' <= #[trigger] intermediates[i] <= '/',
        head == seq!['\u{1b}'] || head == seq!['\u{1b}', '['] + parameters + intermediates,
        after@.len() > 0 && after@[0] == '\u{1b}',
        after@.len() > 1 ==> after@[1] != ']',
        text@ == before + (head + after@),
    ensures
        r@ == before + (head + rest@),
{
    lemma_escape_is_left(after@);
    let left = without_osc(after@);
    let inner = head.drop_first();
    assert(osc_len(head + after@) == 0) by {
        if head == seq!['\u{1b}'] {
            assert((head + after@)[1] == '\u{1b}');
        } else {
            assert((head + after@)[1] == '[');
        }
    }
    if head == seq!['\u{1b}'] {
        assert((head + left)[1] == '\u{1b}');
        assert(inner =~= Seq::<char>::empty());
    } else {
        lemma_csi_runs(parameters, intermediates, left);
        assert forall|i: int| 0 <= i < inner.len() implies #[trigger] inner[i] != '\u{1b}' by {
            if 1 <= i < 1 + parameters.len() {
                assert(inner[i] == parameters[i - 1]);
            } else if i >= 1 + parameters.len() {
                assert(inner[i] == intermediates[i - 1 - parameters.len()]);
            }
        }
    }
    lemma_kept_head(head, after@);
    lemma_quiet_start(before, head + after@);
}

/// Operating system commands go first: what stands around one comes together before control
/// sequences are looked for. So a command behind an escape character, or inside a control
/// sequence, leaves the text that would be there without it.
pub proof fn law_strip_commands_first(
    text: &str,
    before: Seq<char>,
    head: Seq<char>,
    command: Seq<char>,
    payload: Seq<char>,
    after: Seq<char>,
    joined: &str,
    r: String,
    of_joined: String,
)
    requires
        call_ensures(strip_ansi, (text,), r),
        call_ensures(strip_ansi, (joined,), of_joined),
        quiet(before),
        head.len() > 0 && head[0] == '\u{1b}',
        plain(head.drop_first()),
        head.len() > 1 ==> head[1] != ']',
        head.len() == 1 && after.len() > 0 ==> after[0] != ']',
        system_command(command, payload),
        text@ == before + (head + (command + after)),
        joined@ == before + (head + after),
    ensures
        r@ == of_joined@,
{
    lemma_system_command(command, payload);
    let inner = head.drop_first();
    lemma_plain(inner);
    lemma_osc_goes(command, after);
    lemma_plain_prefix(inner, command + after);
    lemma_plain_prefix(inner, after);
    let whole = head + (command + after);
    assert(command[0] == '\u{1b}');
    assert(osc_len(whole) == 0) by {
        if head.len() == 1 {
            assert(whole[1] == command[0]);
        }
    }
    assert(osc_len(head + after) == 0) by {
        if head.len() == 1 && after.len() > 0 {
            assert((head + after)[1] == after[0]);
        }
    }
    assert(whole.drop_first() =~= inner + (command + after));
    assert((head + after).drop_first() =~= inner + after);
    lemma_quiet_prefix(before, whole);
    lemma_quiet_prefix(before, head + after);
}

/// An operating system command in front goes.
proof fn lemma_osc_goes(command: Seq<char>, after: Seq<char>)
    requires
        command.len() > 0,
        osc_len(command) == command.len(),
    ensures
        without_osc(command + after) == without_osc(after),
{
    lemma_osc_append(command, after);
    assert((command + after).skip(command.len() as int) =~= after);
}

/// An escape character that opens no whole sequence stays, with the plain text behind it.
proof fn lemma_kept_head(head: Seq<char>, after: Seq<char>)
    requires
        head.len() > 0,
        plain(head.drop_first()),
        osc_len(head + after) == 0,
        csi_len(head + without_osc(after)) == 0,
    ensures
        stripped(head + after) == head + stripped(after),
{
    let inner = head.drop_first();
    let left = without_osc(after);
    lemma_plain(inner);
    lemma_plain_prefix(inner, after);
    lemma_plain_prefix(inner, left);
    assert((head + after).drop_first() =~= inner + after);
    assert(seq![head[0]] + (inner + left) =~= head + left);
    assert((head + left).drop_first() =~= inner + left);
    assert(seq![head[0]] + (inner + without_csi(left)) =~= head + without_csi(left));
}

/// One escape character that opens no whole sequence stays.
proof fn lemma_unopened(tail: Seq<char>)
    requires
        tail.len() > 0,
        plain(tail.drop_first()),
        csi_len(tail) == 0,
        osc_len(tail) == 0,
    ensures
        stripped(tail) == tail,
{
    let rest = tail.drop_first();
    let none = Seq::<char>::empty();
    lemma_plain(rest);
    lemma_plain_prefix(rest, none);
    assert(rest + none =~= rest);
    assert(without_csi(none) =~= none && without_osc(none) =~= none);
    assert(seq![tail[0]] + rest =~= tail);
}

/// Stripping only where there is something to strip gives the same text, and borrows it where it
/// holds no escape character.
pub proof fn law_strip_ansi_if_present(text: &str, r: Cow<str>, all: String, view: &str)
    requires
        call_ensures(strip_ansi_if_present, (text,), r),
        call_ensures(strip_ansi, (text,), all),
        call_ensures(cow_text, (&r,), view),
    ensures
        view@ == all@,
        plain(text@) ==> r is Borrowed && view@ == text@,
        r is Borrowed ==> plain(text@),
{
    if plain(text@) {
        lemma_plain(text@);
        let none = Seq::<char>::empty();
        lemma_plain_prefix(text@, none);
        assert(text@ + none =~= text@);
        assert(without_csi(none) =~= none && without_osc(none) =~= none);
    }
    if r is Borrowed {
        assert forall|i: int| 0 <= i < text@.len() implies #[trigger] text@[i] != '\u{1b}' by {
            assert(text@.contains(text@[i]));
        }
    }
}

} // verus!
