//! Removal of ANSI escape sequences from terminal text.

use std::borrow::Cow;
use vstd::prelude::*;
use crate::chars::has_char;
use crate::outside::{compile_regex, remove_matches};

verus! {

/// The character that opens every escape sequence.
pub const ESC: char = '\u{1b}';

/// The character that may close an operating system command.
pub const BEL: char = '\u{7}';

/// Pattern of a control sequence: `ESC [`, parameters, intermediates, one final character.
pub const CSI_PATTERN: &'static str = r"\x1B\[[0-?]*[ -/]*[@-~]";

/// Pattern of an operating system command: `ESC ]`, a payload, then `BEL` or `ESC \`.
pub const OSC_PATTERN: &'static str = r"\x1B\][^\x07\x1B]*(?:\x07|\x1B\\)";

/// The number of leading characters of `s` that belong to `class`.
pub open spec fn run_len(s: Seq<char>, class: spec_fn(char) -> bool) -> nat
    decreases s.len(),
{
    if s.len() > 0 && class(s[0]) {
        1 + run_len(s.drop_first(), class)
    } else {
        0
    }
}

/// The parameter characters of a control sequence.
pub open spec fn is_parameter(c: char) -> bool {
    '0' <= c <= '?'
}

/// The intermediate characters of a control sequence.
pub open spec fn is_intermediate(c: char) -> bool {
    ' ' <= c <= '/'
}

/// The characters that end a control sequence.
pub open spec fn is_final_character(c: char) -> bool {
    '@' <= c <= '~'
}

/// The characters that the payload of an operating system command is made of.
pub open spec fn is_payload(c: char) -> bool {
    c != BEL && c != ESC
}

/// The length of the control sequence that `s` starts with, or 0 if it starts with none.
pub open spec fn csi_len(s: Seq<char>) -> nat {
    if s.len() >= 2 && s[0] == ESC && s[1] == '[' {
        let parameters = run_len(s.skip(2), |c: char| is_parameter(c));
        let intermediates = run_len(s.skip(2 + parameters as int), |c: char| is_intermediate(c));
        let end = 2 + parameters + intermediates;
        if end < s.len() && is_final_character(s[end as int]) {
            end + 1
        } else {
            0
        }
    } else {
        0
    }
}

/// The length of the operating system command that `s` starts with, or 0 if it starts with none.
pub open spec fn osc_len(s: Seq<char>) -> nat {
    if s.len() >= 2 && s[0] == ESC && s[1] == ']' {
        let end = 2 + run_len(s.skip(2), |c: char| is_payload(c));
        if end < s.len() && s[end as int] == BEL {
            end + 1
        } else if end + 1 < s.len() && s[end as int] == ESC && s[end as int + 1] == '\\' {
            end + 2
        } else {
            0
        }
    } else {
        0
    }
}

/// `s` without its control sequences, found from left to right.
pub open spec fn without_csi(s: Seq<char>) -> Seq<char>
    decreases s.len(),
{
    if s.len() == 0 {
        s
    } else if 0 < csi_len(s) <= s.len() {
        without_csi(s.skip(csi_len(s) as int))
    } else {
        seq![s[0]] + without_csi(s.drop_first())
    }
}

/// `s` without its operating system commands, found from left to right.
pub open spec fn without_osc(s: Seq<char>) -> Seq<char>
    decreases s.len(),
{
    if s.len() == 0 {
        s
    } else if 0 < osc_len(s) <= s.len() {
        without_osc(s.skip(osc_len(s) as int))
    } else {
        seq![s[0]] + without_osc(s.drop_first())
    }
}

/// `s` without escape sequences: first the operating system commands go, then, in what is left,
/// the control sequences.
pub open spec fn stripped(s: Seq<char>) -> Seq<char> {
    without_csi(without_osc(s))
}

/// Strips ANSI escape sequences (colors, styles, OSC hyperlinks) from `text`.
pub fn strip_ansi(text: &str) -> (r: String)
    ensures
        r@ == stripped(text@),
{
    let osc = match compile_regex(OSC_PATTERN) {
        Ok(re) => re,
        Err(_) => vstd::pervasive::unreached(),
    };
    let csi = match compile_regex(CSI_PATTERN) {
        Ok(re) => re,
        Err(_) => vstd::pervasive::unreached(),
    };
    let without_commands = remove_matches(&osc, text);
    remove_matches(&csi, without_commands.as_str())
}

/// Text without an escape character has no control sequence to remove.
proof fn lemma_plain_has_no_csi(s: Seq<char>)
    requires
        !s.contains(ESC),
    ensures
        without_csi(s) == s,
    decreases s.len(),
{
    if s.len() > 0 {
        assert(s.contains(s[0]));
        let rest = s.drop_first();
        if rest.contains(ESC) {
            let i = rest.index_of(ESC);
            assert(s[i + 1] == ESC);
        }
        lemma_plain_has_no_csi(rest);
        assert(seq![s[0]] + rest =~= s);
    }
}

/// Text without an escape character has no operating system command to remove.
proof fn lemma_plain_has_no_osc(s: Seq<char>)
    requires
        !s.contains(ESC),
    ensures
        without_osc(s) == s,
    decreases s.len(),
{
    if s.len() > 0 {
        assert(s.contains(s[0]));
        let rest = s.drop_first();
        if rest.contains(ESC) {
            let i = rest.index_of(ESC);
            assert(s[i + 1] == ESC);
        }
        lemma_plain_has_no_osc(rest);
        assert(seq![s[0]] + rest =~= s);
    }
}

/// Stripping leaves text without an escape character as it is.
pub proof fn law_plain_text_is_unchanged(s: Seq<char>)
    requires
        !s.contains(ESC),
    ensures
        stripped(s) == s,
{
    lemma_plain_has_no_osc(s);
    lemma_plain_has_no_csi(s);
}

/// A run is no longer than the text, and is made of the class.
proof fn lemma_run(s: Seq<char>, class: spec_fn(char) -> bool)
    ensures
        run_len(s, class) <= s.len(),
        forall|i: int| 0 <= i < run_len(s, class) ==> class(#[trigger] s[i]),
    decreases s.len(),
{
    if s.len() > 0 && class(s[0]) {
        lemma_run(s.drop_first(), class);
        assert forall|i: int| 0 <= i < run_len(s, class) implies class(#[trigger] s[i]) by {
            if i > 0 {
                assert(s.drop_first()[i - 1] == s[i]);
            }
        }
    }
}

/// A run that ends inside `s` ends there whatever follows.
proof fn lemma_run_append(s: Seq<char>, t: Seq<char>, class: spec_fn(char) -> bool)
    requires
        run_len(s, class) < s.len(),
    ensures
        run_len(s + t, class) == run_len(s, class),
    decreases s.len(),
{
    if class(s[0]) {
        assert((s + t).drop_first() =~= s.drop_first() + t);
        lemma_run_append(s.drop_first(), t, class);
    }
}

/// A whole control sequence is found whatever follows, and holds no second escape character.
proof fn lemma_csi_append(q: Seq<char>, t: Seq<char>)
    requires
        q.len() > 0,
        csi_len(q) == q.len(),
    ensures
        csi_len(q + t) == q.len(),
        !q.drop_first().contains(ESC),
{
    let parameter = |c: char| is_parameter(c);
    let intermediate = |c: char| is_intermediate(c);
    let parameters = run_len(q.skip(2), parameter) as int;
    let middle = q.skip(2 + parameters);
    lemma_run(q.skip(2), parameter);
    lemma_run(middle, intermediate);
    assert((q + t).skip(2) =~= q.skip(2) + t);
    lemma_run_append(q.skip(2), t, parameter);
    assert((q + t).skip(2 + parameters) =~= middle + t);
    lemma_run_append(middle, t, intermediate);
    let rest = q.drop_first();
    assert forall|i: int| 0 <= i < rest.len() implies rest[i] != ESC by {
        if 1 <= i < 1 + parameters {
            assert(q.skip(2)[i - 1] == rest[i]);
            assert(parameter(q.skip(2)[i - 1]));
        } else if 1 + parameters <= i < rest.len() - 1 {
            assert(middle[i - 1 - parameters] == rest[i]);
            assert(intermediate(middle[i - 1 - parameters]));
        }
    }
}

/// A whole operating system command is found whatever follows.
pub proof fn lemma_osc_append(q: Seq<char>, t: Seq<char>)
    requires
        q.len() > 0,
        osc_len(q) == q.len(),
    ensures
        osc_len(q + t) == q.len(),
{
    let payload = |c: char| is_payload(c);
    assert((q + t).skip(2) =~= q.skip(2) + t);
    lemma_run(q.skip(2), payload);
    lemma_run_append(q.skip(2), t, payload);
}

/// Plain text in front stays in front.
pub proof fn lemma_plain_prefix(a: Seq<char>, s: Seq<char>)
    requires
        !a.contains(ESC),
    ensures
        without_csi(a + s) == a + without_csi(s),
        without_osc(a + s) == a + without_osc(s),
    decreases a.len(),
{
    if a.len() == 0 {
        assert(a + s =~= s);
        assert(a + without_csi(s) =~= without_csi(s));
        assert(a + without_osc(s) =~= without_osc(s));
    } else {
        assert(a.contains(a[0]));
        let rest = a.drop_first();
        if rest.contains(ESC) {
            let i = rest.index_of(ESC);
            assert(a[i + 1] == ESC);
        }
        lemma_plain_prefix(rest, s);
        assert((a + s).drop_first() =~= rest + s);
        assert(seq![a[0]] + (rest + without_csi(s)) =~= a + without_csi(s));
        assert(seq![a[0]] + (rest + without_osc(s)) =~= a + without_osc(s));
    }
}

/// A control sequence behind plain text vanishes, and the text around it stays.
pub proof fn law_control_sequence_vanishes(before: Seq<char>, sequence: Seq<char>, after: Seq<char>)
    requires
        !before.contains(ESC),
        sequence.len() > 0,
        csi_len(sequence) == sequence.len(),
    ensures
        stripped(before + sequence + after) == before + stripped(after),
{
    let whole = sequence + after;
    assert(before + sequence + after =~= before + whole);
    lemma_plain_prefix(before, whole);
    lemma_csi_append(sequence, after);
    let rest = sequence.drop_first();
    assert(osc_len(whole) == 0);
    assert(whole.drop_first() =~= rest + after);
    lemma_plain_prefix(rest, after);
    let left = without_osc(after);
    assert(seq![whole[0]] + (rest + left) =~= sequence + left);
    lemma_plain_prefix(before, sequence + left);
    lemma_csi_append(sequence, left);
    assert((sequence + left).skip(sequence.len() as int) =~= left);
}

/// An operating system command behind plain text vanishes, and the text around it stays.
pub proof fn law_system_command_vanishes(before: Seq<char>, command: Seq<char>, after: Seq<char>)
    requires
        !before.contains(ESC),
        command.len() > 0,
        osc_len(command) == command.len(),
    ensures
        stripped(before + command + after) == before + stripped(after),
{
    let whole = command + after;
    assert(before + command + after =~= before + whole);
    lemma_plain_prefix(before, whole);
    lemma_osc_append(command, after);
    assert(whole.skip(command.len() as int) =~= after);
    lemma_plain_prefix(before, without_osc(after));
}

/// Removing sequences never makes text longer.
proof fn lemma_removal_shortens(s: Seq<char>)
    ensures
        without_csi(s).len() <= s.len(),
        without_osc(s).len() <= s.len(),
    decreases s.len(),
{
    if s.len() > 0 {
        if 0 < csi_len(s) <= s.len() {
            lemma_removal_shortens(s.skip(csi_len(s) as int));
        }
        if 0 < osc_len(s) <= s.len() {
            lemma_removal_shortens(s.skip(osc_len(s) as int));
        }
        lemma_removal_shortens(s.drop_first());
    }
}

/// Stripped text is no longer than it was.
pub proof fn law_stripping_never_lengthens(s: Seq<char>)
    ensures
        stripped(s).len() <= s.len(),
{
    lemma_removal_shortens(s);
    lemma_removal_shortens(without_osc(s));
}

/// Strips ANSI escape sequences only when there may be some, and borrows plain text.
pub fn strip_ansi_if_present<'a>(text: &'a str) -> (r: Cow<'a, str>)
    ensures
        r@ == stripped(text@),
        r is Owned <==> text@.contains(ESC),
{
    if has_char(text, ESC) {
        Cow::Owned(strip_ansi(text))
    } else {
        proof {
            law_plain_text_is_unchanged(text@);
        }
        Cow::Borrowed(text)
    }
}

/// The text that `text` holds.
pub fn cow_text<'a>(text: &'a Cow<'a, str>) -> (r: &'a str)
    ensures
        r@ == text@,
{
    match text {
        Cow::Borrowed(borrowed) => *borrowed,
        Cow::Owned(owned) => owned.as_str(),
    }
}

} // verus!
