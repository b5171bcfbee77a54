//! What is captured of a child process, and what is passed on of it.

use vstd::prelude::*;
use crate::ansi::{cow_text, strip_ansi_if_present};
use crate::capture::{
    byte_len, capture_if_fitting, law_stripping_adds_no_bytes, Capture, RAW_CAP,
};
use crate::chars::{combine, opt_text};
use crate::decode::{decode_process_output, mixed_text};
use crate::exit::{exit_code, exit_code_from_output, exit_notice, Output};
use crate::filter::{StdinFilter, StreamFilter};
use crate::session::capture_form;

verus! {

/// What becomes of the standard output of a child process.
pub enum FilterMode<'a, B> {
    /// Each line goes through the filter and out.
    Streaming(Box<dyn StreamFilter + 'a>),
    /// All of the output goes through the filter at the end.
    Buffered(B),
    /// The output is only captured.
    CaptureOnly,
    /// The child writes to the terminal itself.
    Passthrough,
}

/// Where the standard input of a child process comes from.
pub enum StdinMode {
    Inherit,
    Filter(Box<dyn StdinFilter>),
    Null,
}

/// How the standard input of a child process is set up.
#[derive(Clone, Copy, Debug, PartialEq, Eq, Structural)]
pub enum ChildStdin {
    Inherit,
    Null,
    Piped,
}

/// How the standard input is set up for `mode`. A pipe is closed at once unless a filter feeds
/// it.
pub fn child_stdin(passthrough: bool, mode: &StdinMode) -> (r: ChildStdin)
    ensures
        r == match (*mode, passthrough) {
            (StdinMode::Inherit, _) => ChildStdin::Inherit,
            (_, true) => ChildStdin::Null,
            (_, false) => ChildStdin::Piped,
        },
{
    match mode {
        StdinMode::Inherit => ChildStdin::Inherit,
        _ => if passthrough {
            ChildStdin::Null
        } else {
            ChildStdin::Piped
        },
    }
}

/// What a child process was run for.
pub struct StreamResult {
    pub exit_code: i32,
    pub raw: String,
    pub raw_stdout: String,
    pub raw_stderr: String,
    pub filtered: String,
}

impl StreamResult {
    /// Whether the process reported success.
    pub fn success(&self) -> (r: bool)
        ensures
            r == (self.exit_code == 0),
    {
        self.exit_code == 0
    }
}

/// The output of a process that ran to completion.
pub struct CaptureResult {
    pub stdout: String,
    pub stderr: String,
    pub exit_code: i32,
}

impl CaptureResult {
    /// Whether the process reported success.
    pub fn success(&self) -> (r: bool)
        ensures
            r == (self.exit_code == 0),
    {
        self.exit_code == 0
    }

    /// The standard output, then the error output.
    pub fn combined(&self) -> (r: String)
        ensures
            r@ == self.stdout@ + self.stderr@,
    {
        let mut out = self.stdout.clone();
        out.append(self.stderr.as_str());
        out
    }
}

/// Captures a line of a run whose output is filtered at its end or not at all; tells whether it
/// is the first one to be left out.
pub fn take_buffered_line(capture: &mut Capture, line: &str, disable_color: bool) -> (r: bool)
    requires
        old(capture).wf(),
    ensures
        final(capture).wf(),
        final(capture)@ == capture_if_fitting(old(capture)@, capture_form(disable_color, line@)),
        r == (final(capture)@.capped && !old(capture)@.capped),
{
    if disable_color {
        let clean = strip_ansi_if_present(line);
        capture.push_if_fitting(cow_text(&clean))
    } else {
        capture.push_if_fitting(line)
    }
}

/// The warning for the first line of such a run that is left out of its standard output.
pub fn buffered_cap_warning() -> (r: &'static str)
    ensures
        r@ == "[rtk] warning: output exceeds 10 MiB — filter input truncated"@,
{
    "[rtk] warning: output exceeds 10 MiB — filter input truncated"
}

/// What a filter made of the whole output, and what is to be warned of.
pub struct Filtered {
    pub text: String,
    pub warning: Option<String>,
}

/// What is written of a run that is filtered at its end: what the filter returned, or the output
/// as it is where the filter panicked.
pub fn buffered_output(returned: Option<String>, raw_stdout: &str) -> (r: Filtered)
    ensures
        returned matches Some(text) ==> r.text@ == text@ && r.warning is None,
        returned is None ==> {
            &&& r.text@ == raw_stdout@
            &&& opt_text(r.warning) == Some(
                "[rtk] warning: filter panicked — passing through raw output"@,
            )
        },
{
    match returned {
        Some(text) => Filtered { text, warning: None },
        None => Filtered {
            text: raw_stdout.to_owned(),
            warning: Some("[rtk] warning: filter panicked — passing through raw output".to_owned()),
        },
    }
}

/// The result of a run whose output was filtered at its end (`filtered`), or only captured
/// (`None`). Escape sequences that reach over several lines are removed now, if color is
/// disabled.
pub fn buffered_result(
    stdout: Capture,
    stderr: Capture,
    filtered: Option<String>,
    disable_color: bool,
    exit_code: i32,
) -> (r: StreamResult)
    ensures
        r.exit_code == exit_code,
        r.raw_stdout@ == capture_form(disable_color, stdout@.text),
        r.raw_stderr@ == capture_form(disable_color, stderr@.text),
        r.raw@ == r.raw_stdout@ + r.raw_stderr@,
        r.filtered@ == match filtered {
            Some(text) => text@,
            None => r.raw_stdout@,
        },
        stdout.wf() ==> byte_len(r.raw_stdout@) <= RAW_CAP,
        stderr.wf() ==> byte_len(r.raw_stderr@) <= RAW_CAP,
{
    proof {
        law_stripping_adds_no_bytes(stdout@.text);
        law_stripping_adds_no_bytes(stderr@.text);
    }
    let raw_stdout = in_capture_form(stdout.into_text(), disable_color);
    let raw_stderr = in_capture_form(stderr.into_text(), disable_color);
    let filtered = match filtered {
        Some(text) => text,
        None => raw_stdout.clone(),
    };
    let raw = combine(raw_stdout.as_str(), raw_stderr.as_str());
    StreamResult { exit_code, raw, raw_stdout, raw_stderr, filtered }
}

/// `text`, without escape sequences if color is disabled.
fn in_capture_form(text: String, disable_color: bool) -> (r: String)
    ensures
        r@ == capture_form(disable_color, text@),
{
    if disable_color {
        let clean = strip_ansi_if_present(text.as_str());
        cow_text(&clean).to_owned()
    } else {
        text
    }
}

/// The result of a run that wrote to the terminal itself: nothing is captured.
pub fn passthrough_result(exit_code: i32) -> (r: StreamResult)
    ensures
        r.exit_code == exit_code,
        r.raw@ == Seq::<char>::empty(),
        r.raw_stdout@ == Seq::<char>::empty(),
        r.raw_stderr@ == Seq::<char>::empty(),
        r.filtered@ == Seq::<char>::empty(),
{
    StreamResult {
        exit_code,
        raw: String::new(),
        raw_stdout: String::new(),
        raw_stderr: String::new(),
        filtered: String::new(),
    }
}

/// What the child process reads of a line that the user typed: what the filter gives out, ended
/// by a line feed.
pub fn feed_stdin<F: StdinFilter>(filter: &mut F, line: &str) -> (r: Option<String>)
    ensures
        exists|fed: &mut F, output: Option<String>|
            {
                &&& *fed == *old(filter)
                &&& *final(fed) == *final(filter)
                &&& #[trigger] call_ensures(F::feed_line, (fed, line), output)
                &&& opt_text(r) == match output {
                    None => None,
                    Some(text) => Some(text@.push('\n')),
                }
            },
{
    let output = filter.feed_line(line);
    match output {
        None => None,
        Some(text) => {
            let mut written = text.clone();
            written.push('\n');
            Some(written)
        },
    }
}

/// What the child process reads when the user ends the input, if anything.
pub fn finish_stdin<F: StdinFilter>(filter: &mut F) -> (r: Option<String>)
    ensures
        exists|fed: &mut F, tail: String|
            {
                &&& *fed == *old(filter)
                &&& *final(fed) == *final(filter)
                &&& #[trigger] call_ensures(F::flush, (fed,), tail)
                &&& opt_text(r) == if tail@.len() == 0 {
                    None
                } else {
                    Some(tail@)
                }
            },
{
    let tail = filter.flush();
    if tail.as_str().as_bytes().len() == 0 {
        None
    } else {
        Some(tail)
    }
}

/// What a process that ran to completion left behind, and what is to be said of its end.
pub struct CaptureReport {
    pub result: CaptureResult,
    pub notice: Option<String>,
}

/// Decodes what a process wrote, and reports its exit code.
///
/// A process killed by a signal has no exit code of its own; the notice tells why it died, under
/// the name of the program.
pub fn capture(
    output: &Output,
    program: &str,
    disable_color: bool,
    cp: Option<u16>,
) -> (r: CaptureReport)
    requires
        output.status.wf(),
        cp is Some ==> output.stdout@.len() <= usize::MAX / 16,
        cp is Some ==> output.stderr@.len() <= usize::MAX / 16,
    ensures
        r.result.exit_code == exit_code(output.status),
        r.result.stdout@ == capture_form(disable_color, mixed_text(output.stdout@, cp)),
        r.result.stderr@ == capture_form(disable_color, mixed_text(output.stderr@, cp)),
        opt_text(r.notice) == exit_notice(output.status, program@),
{
    let report = exit_code_from_output(output, program);
    let stdout = decode_process_output(output.stdout.as_slice(), cp);
    let stdout = in_capture_form(stdout, disable_color);
    let stderr = decode_process_output(output.stderr.as_slice(), cp);
    let stderr = in_capture_form(stderr, disable_color);
    CaptureReport {
        result: CaptureResult { stdout, stderr, exit_code: report.code },
        notice: report.notice,
    }
}

} // verus!
