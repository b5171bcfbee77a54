//! Laws of runs and their results.

use vstd::prelude::*;
use crate::ansi::strip_ansi;
use crate::capture::Capture;
use crate::chars::opt_text;
use crate::decode::decode_process_output;
use crate::exit::{exit_code_from_output, ExitReport, Output};
use crate::filter::StdinFilter;
use crate::laws::session::adds_if_fitting;
use crate::stream::{
    buffered_output, buffered_result, capture, child_stdin, feed_stdin, finish_stdin,
    passthrough_result, take_buffered_line, CaptureReport, CaptureResult, ChildStdin, Filtered,
    StdinMode, StreamResult,
};

verus! {

/// The input is inherited if it is meant to be. Otherwise a child that writes to the terminal
/// itself gets none, and every other child gets a pipe.
pub proof fn law_child_stdin(passthrough: bool, mode: &StdinMode, r: ChildStdin)
    requires
        call_ensures(child_stdin, (passthrough, mode), r),
    ensures
        *mode is Inherit ==> r == ChildStdin::Inherit,
        *mode !is Inherit && passthrough ==> r == ChildStdin::Null,
        *mode !is Inherit && !passthrough ==> r == ChildStdin::Piped,
{
}

/// Success is the exit code 0, and nothing else.
pub proof fn law_success(a: &StreamResult, b: &CaptureResult, of_a: bool, of_b: bool)
    requires
        call_ensures(StreamResult::success, (a,), of_a),
        call_ensures(CaptureResult::success, (b,), of_b),
    ensures
        of_a <==> a.exit_code == 0,
        of_b <==> b.exit_code == 0,
{
}

/// Combined output is the standard output and then the error output.
pub proof fn law_combined(result: &CaptureResult, r: String)
    requires
        call_ensures(CaptureResult::combined, (result,), r),
    ensures
        r@.len() == result.stdout@.len() + result.stderr@.len(),
        r@.take(result.stdout@.len() as int) == result.stdout@,
        r@.skip(result.stdout@.len() as int) == result.stderr@,
{
    assert(r@.take(result.stdout@.len() as int) =~= result.stdout@);
    assert(r@.skip(result.stdout@.len() as int) =~= result.stderr@);
}

/// A line of a run that is filtered at its end is captured as it is, or stripped where color is
/// disabled, unless it does not fit; the first that does not is told of.
pub proof fn law_take_buffered_line(
    captured: &mut Capture,
    line: &str,
    disable_color: bool,
    clean: String,
    r: bool,
)
    requires
        call_ensures(take_buffered_line, (captured, line, disable_color), r),
        call_ensures(strip_ansi, (line,), clean),
    ensures
        disable_color ==> adds_if_fitting(old(captured)@, clean@, final(captured)@),
        !disable_color ==> adds_if_fitting(old(captured)@, line@, final(captured)@),
        r <==> final(captured)@.capped && !old(captured)@.capped,
{
    let text = old(captured)@.text;
    assert(text + clean@.push('\n') =~= text + clean@ + seq!['\n']);
    assert(text + line@.push('\n') =~= text + line@ + seq!['\n']);
}

/// What the filter returned is written; where it panicked the output is, with a warning.
pub proof fn law_buffered_output(returned: Option<String>, raw_stdout: &str, r: Filtered)
    requires
        call_ensures(buffered_output, (returned, raw_stdout), r),
    ensures
        returned matches Some(text) ==> r.text@ == text@ && r.warning is None,
        returned is None ==> r.text@ == raw_stdout@ && opt_text(r.warning) == Some(
            "[rtk] warning: filter panicked — passing through raw output"@,
        ),
{
}

/// The result of a buffered run holds what was captured, stripped once more where color is
/// disabled, apart and together; what its filter returned, or the output where it had none; and
/// the exit code.
pub proof fn law_buffered_result(
    stdout: Capture,
    stderr: Capture,
    filtered: Option<String>,
    disable_color: bool,
    exit_code: i32,
    out_text: &str,
    err_text: &str,
    clean_out: String,
    clean_err: String,
    r: StreamResult,
)
    requires
        call_ensures(buffered_result, (stdout, stderr, filtered, disable_color, exit_code), r),
        out_text@ == stdout@.text,
        err_text@ == stderr@.text,
        call_ensures(strip_ansi, (out_text,), clean_out),
        call_ensures(strip_ansi, (err_text,), clean_err),
    ensures
        r.exit_code == exit_code,
        disable_color ==> r.raw_stdout@ == clean_out@ && r.raw_stderr@ == clean_err@,
        !disable_color ==> r.raw_stdout@ == out_text@ && r.raw_stderr@ == err_text@,
        r.raw@ == r.raw_stdout@ + r.raw_stderr@,
        filtered matches Some(text) ==> r.filtered@ == text@,
        filtered is None ==> r.filtered@ == r.raw_stdout@,
{
}

/// A run that writes to the terminal itself has an exit code and nothing else.
pub proof fn law_passthrough_result(exit_code: i32, r: StreamResult)
    requires
        call_ensures(passthrough_result, (exit_code,), r),
    ensures
        r.exit_code == exit_code,
        r.raw@.len() == 0 && r.raw_stdout@.len() == 0 && r.raw_stderr@.len() == 0,
        r.filtered@.len() == 0,
{
}

/// The child reads what the filter makes of each line, with a line feed; where the filter makes
/// nothing of it, the child reads nothing.
pub proof fn law_feed_stdin<F: StdinFilter>(filter: &mut F, line: &str, r: Option<String>)
    requires
        call_ensures(feed_stdin::<F>, (filter, line), r),
    ensures
        exists|fed: &mut F, output: Option<String>|
            {
                &&& *fed == *old(filter)
                &&& *final(fed) == *final(filter)
                &&& #[trigger] call_ensures(F::feed_line, (fed, line), output)
                &&& output is None ==> r is None
                &&& output matches Some(text) ==> opt_text(r) == Some(text@ + seq!['\n'])
            },
{
    let (fed, output) = choose|fed: &mut F, output: Option<String>|
        {
            &&& *fed == *old(filter)
            &&& *final(fed) == *final(filter)
            &&& #[trigger] call_ensures(F::feed_line, (fed, line), output)
            &&& opt_text(r) == match output {
                None => None,
                Some(text) => Some(text@.push('\n')),
            }
        };
    assert(call_ensures(F::feed_line, (fed, line), output));
    if let Some(text) = output {
        assert(text@.push('\n') =~= text@ + seq!['\n']);
    }
}

/// At the end the child reads what the filter held back, if it held anything back.
pub proof fn law_finish_stdin<F: StdinFilter>(filter: &mut F, r: Option<String>)
    requires
        call_ensures(finish_stdin::<F>, (filter,), r),
    ensures
        exists|fed: &mut F, tail: String|
            {
                &&& *fed == *old(filter)
                &&& *final(fed) == *final(filter)
                &&& #[trigger] call_ensures(F::flush, (fed,), tail)
                &&& tail@.len() == 0 ==> r is None
                &&& tail@.len() > 0 ==> opt_text(r) == Some(tail@)
            },
{
}

/// What a process wrote is decoded, and stripped where color is disabled; its end is reported as
/// `exit_code_from_output` reports it.
pub proof fn law_capture(
    output: &Output,
    program: &str,
    disable_color: bool,
    cp: Option<u16>,
    stdout: &[u8],
    stderr: &[u8],
    out_text: String,
    err_text: String,
    out_view: &str,
    err_view: &str,
    clean_out: String,
    clean_err: String,
    end: ExitReport,
    r: CaptureReport,
)
    requires
        call_ensures(capture, (output, program, disable_color, cp), r),
        stdout@ == output.stdout@,
        stderr@ == output.stderr@,
        call_ensures(decode_process_output, (stdout, cp), out_text),
        call_ensures(decode_process_output, (stderr, cp), err_text),
        out_view@ == out_text@,
        err_view@ == err_text@,
        call_ensures(strip_ansi, (out_view,), clean_out),
        call_ensures(strip_ansi, (err_view,), clean_err),
        call_ensures(exit_code_from_output, (output, program), end),
    ensures
        !disable_color ==> r.result.stdout@ == out_text@ && r.result.stderr@ == err_text@,
        disable_color ==> r.result.stdout@ == clean_out@ && r.result.stderr@ == clean_err@,
        r.result.exit_code == end.code,
        opt_text(r.notice) == opt_text(end.notice),
{
}

} // verus!
