//! Laws of a run through a filter.

use vstd::prelude::*;
use vstd::utf8::encode_utf8;
use crate::ansi::stripped;
use crate::capture::{Capture, Captured};
use crate::chars::opt_text;
use crate::filter::StreamFilter;
use crate::session::{
    end_step, exit_step, goes_on_after_write, line_step, written_step, Action, Phase, RunState,
    Source, StreamRun, WriteOutcome,
};
use crate::stream::StreamResult;

verus! {

/// Whether `after` is what is captured once `line` came, up to the first line that does not fit:
/// the line and its line feed are added as long as all of it is within 10 MiB.
pub open spec fn adds_until_full(before: Captured, line: Seq<char>, after: Captured) -> bool {
    let bytes = encode_utf8(before.text).len() + encode_utf8(line).len() + 1;
    &&& before.capped ==> after == before
    &&& !before.capped && bytes <= 10 * 1024 * 1024 ==> {
        &&& after.text == before.text + line + seq!['\n']
        &&& !after.capped
    }
    &&& !before.capped && bytes > 10 * 1024 * 1024 ==> after.text == before.text && after.capped
}

/// Whether `after` is what is captured once `line` came, without lines that do not fit.
pub open spec fn adds_if_fitting(before: Captured, line: Seq<char>, after: Captured) -> bool {
    let bytes = encode_utf8(before.text).len() + encode_utf8(line).len() + 1;
    &&& bytes <= 10 * 1024 * 1024 ==> {
        &&& after.text == before.text + line + seq!['\n']
        &&& after.capped == before.capped
    }
    &&& bytes > 10 * 1024 * 1024 ==> after.text == before.text && after.capped
}

/// Nothing is captured at first.
pub proof fn law_new_capture(r: Capture)
    requires
        call_ensures(Capture::new, (), r),
    ensures
        r@.text.len() == 0,
        !r@.capped,
{
}

/// Lines are captured until one does not fit; that one is told of.
pub proof fn law_push_until_full(capture: &mut Capture, line: &str, r: bool)
    requires
        call_ensures(Capture::push_until_full, (capture, line), r),
    ensures
        adds_until_full(old(capture)@, line@, final(capture)@),
        r <==> final(capture)@.capped && !old(capture)@.capped,
{
    assert(old(capture)@.text + line@.push('\n') =~= old(capture)@.text + line@ + seq!['\n']);
}

/// Lines are captured unless they do not fit; the first of those is told of.
pub proof fn law_push_if_fitting(capture: &mut Capture, line: &str, r: bool)
    requires
        call_ensures(Capture::push_if_fitting, (capture, line), r),
    ensures
        adds_if_fitting(old(capture)@, line@, final(capture)@),
        r <==> final(capture)@.capped && !old(capture)@.capped,
{
    assert(old(capture)@.text + line@.push('\n') =~= old(capture)@.text + line@ + seq!['\n']);
}

/// The text of a capture is what was captured.
pub proof fn law_captured_text(capture: Capture, borrowed: &str, owned: String)
    requires
        call_ensures(Capture::text, (&capture,), borrowed),
        call_ensures(Capture::into_text, (capture,), owned),
    ensures
        borrowed@ == capture@.text,
        owned@ == capture@.text,
{
}

/// A run starts with nothing captured and nothing filtered, and reads.
pub proof fn law_new_run<F: StreamFilter>(filter: F, disable_color: bool, r: StreamRun<F>)
    requires
        call_ensures(StreamRun::<F>::new, (filter, disable_color), r),
    ensures
        r.filter() == filter,
        r.state().phase == Phase::Reading,
        r.state().session.disable_color == disable_color,
        r.state().session.stdout.text.len() == 0 && !r.state().session.stdout.capped,
        r.state().session.stderr.text.len() == 0 && !r.state().session.stderr.capped,
        r.state().session.filtered.len() == 0,
        r.state().session.last == Source::Stdout,
{
}

/// A run tells where it stands.
pub proof fn law_phase<F: StreamFilter>(run: &StreamRun<F>, r: Phase)
    requires
        call_ensures(StreamRun::<F>::phase, (run,), r),
    ensures
        r == run.state().phase,
{
}

/// What is captured of a stream.
pub open spec fn captured_of(state: RunState, source: Source) -> Captured {
    match source {
        Source::Stdout => state.session.stdout,
        Source::Stderr => state.session.stderr,
    }
}

/// A line is captured with the stream that it came from, as it is or, where color is disabled,
/// without escape sequences. The first line of a stream that is left out is warned of.
pub proof fn law_line_is_captured<F: StreamFilter>(
    run: &mut StreamRun<F>,
    source: Source,
    line: &str,
    r: (Option<String>, Action),
)
    requires
        call_ensures(StreamRun::<F>::on_line, (run, source, line), r),
    ensures
        ({
            let before = old(run).state();
            let after = final(run).state();
            let form = if before.session.disable_color {
                stripped(line@)
            } else {
                line@
            };
            &&& adds_until_full(captured_of(before, source), form, captured_of(after, source))
            &&& source == Source::Stdout ==> after.session.stderr == before.session.stderr
            &&& source == Source::Stderr ==> after.session.stdout == before.session.stdout
            &&& after.session.last == source
            &&& after.session.disable_color == before.session.disable_color
            &&& r.0 is Some <==> captured_of(after, source).capped && !captured_of(
                before,
                source,
            ).capped
            &&& r.0 is Some && source == Source::Stdout ==> opt_text(r.0) == Some(
                "[rtk] warning: stdout exceeds 10 MiB — filter input truncated"@,
            )
            &&& r.0 is Some && source == Source::Stderr ==> opt_text(r.0) == Some(
                "[rtk] warning: stderr exceeds 10 MiB — capture truncated"@,
            )
        }),
{
    let before = old(run).state();
    let form = if before.session.disable_color {
        stripped(line@)
    } else {
        line@
    };
    let text = captured_of(before, source).text;
    assert(text + form.push('\n') =~= text + form + seq!['\n']);
}

/// The filter sees each line once, without escape sequences. What it gives out on the line is
/// recorded, and written to the stream that the line came from; nothing is written otherwise,
/// and the next line is read.
pub proof fn law_line_is_filtered<F: StreamFilter>(
    run: &mut StreamRun<F>,
    source: Source,
    line: &str,
    r: (Option<String>, Action),
)
    requires
        call_ensures(StreamRun::<F>::on_line, (run, source, line), r),
    ensures
        exists|clean: &str, fed: &mut F, output: Option<String>|
            {
                &&& clean@ == stripped(line@)
                &&& *fed == old(run).filter()
                &&& *final(fed) == final(run).filter()
                &&& #[trigger] call_ensures(F::feed_line, (fed, clean), output)
                &&& match output {
                    None => {
                        &&& r.1 is Read
                        &&& final(run).state().phase == Phase::Reading
                        &&& final(run).state().session.filtered
                            == old(run).state().session.filtered
                    },
                    Some(text) => {
                        &&& r.1 matches Action::Write { to, text: written } && to == source
                            && written@ == text@
                        &&& final(run).state().phase == Phase::WritingLine
                        &&& final(run).state().session.filtered
                            == old(run).state().session.filtered + text@
                    },
                }
            },
{
    let (clean, fed, output) = choose|clean: &str, fed: &mut F, output: Option<String>|
        {
            &&& clean@ == stripped(line@)
            &&& *fed == old(run).filter()
            &&& *final(fed) == final(run).filter()
            &&& #[trigger] call_ensures(F::feed_line, (fed, clean), output)
            &&& (final(run).state(), r.1@) == line_step(
                old(run).state(),
                source,
                line@,
                opt_text(output),
            )
        };
    assert(call_ensures(F::feed_line, (fed, clean), output));
}

/// When the lines end, what the filter still held is recorded, and written where the last line
/// came from. What was captured stays.
pub proof fn law_end_of_lines<F: StreamFilter>(run: &mut StreamRun<F>, r: Action)
    requires
        call_ensures(StreamRun::<F>::on_end, (run,), r),
    ensures
        exists|fed: &mut F, tail: String|
            {
                &&& *fed == old(run).filter()
                &&& *final(fed) == final(run).filter()
                &&& #[trigger] call_ensures(F::flush, (fed,), tail)
                &&& r matches Action::Write { to, text } && to == old(run).state().session.last
                    && text@ == tail@
                &&& final(run).state().session.filtered == old(run).state().session.filtered
                    + tail@
            },
        final(run).state().phase == Phase::WritingTail,
        final(run).state().session.stdout == old(run).state().session.stdout,
        final(run).state().session.stderr == old(run).state().session.stderr,
        final(run).state().session.last == old(run).state().session.last,
{
    let (fed, tail) = choose|fed: &mut F, tail: String|
        {
            &&& *fed == old(run).filter()
            &&& *final(fed) == final(run).filter()
            &&& #[trigger] call_ensures(F::flush, (fed,), tail)
            &&& (final(run).state(), r@) == end_step(old(run).state(), tail@)
        };
    assert(call_ensures(F::flush, (fed,), tail));
}

/// A failed writing ends the run. Otherwise it goes on: with the next line, by waiting once the
/// lines have ended, and with the result once the closing text is out. A broken pipe ends the
/// lines, as their end would, and is ignored after that.
pub proof fn law_after_writing<F: StreamFilter>(
    run: &mut StreamRun<F>,
    outcome: WriteOutcome,
    r: Action,
)
    requires
        call_ensures(StreamRun::<F>::on_written, (run, outcome), r),
    ensures
        outcome == WriteOutcome::Failed ==> r is Fail && final(run).state().phase == Phase::Failed,
        old(run).state().phase == Phase::WritingLine && outcome == WriteOutcome::Written
            ==> r is Read && final(run).state().phase == Phase::Reading,
        old(run).state().phase == Phase::WritingLine && outcome == WriteOutcome::BrokenPipe ==> {
            &&& final(run).state().phase == Phase::WritingTail
            &&& exists|fed: &mut F, tail: String|
                {
                    &&& *fed == old(run).filter()
                    &&& *final(fed) == final(run).filter()
                    &&& #[trigger] call_ensures(F::flush, (fed,), tail)
                    &&& r matches Action::Write { to, text } && to
                        == old(run).state().session.last && text@ == tail@
                    &&& final(run).state().session.filtered
                        == old(run).state().session.filtered + tail@
                }
        },
        old(run).state().phase == Phase::WritingTail && outcome != WriteOutcome::Failed
            ==> r is Wait && final(run).state().phase == Phase::Waiting,
        outcome != WriteOutcome::Failed ==> (old(run).state().phase matches Phase::WritingSummary(
            code,
        ) ==> r is Finish && final(run).state().phase == Phase::Finished(code)),
        final(run).state().session.stdout == old(run).state().session.stdout,
        final(run).state().session.stderr == old(run).state().session.stderr,
        final(run).state().session.last == old(run).state().session.last,
        !(old(run).state().phase == Phase::WritingLine && outcome == WriteOutcome::BrokenPipe) ==> {
            &&& final(run).filter() == old(run).filter()
            &&& final(run).state().session.filtered == old(run).state().session.filtered
        },
{
    if old(run).state().phase == Phase::WritingLine && outcome == WriteOutcome::BrokenPipe {
        let (fed, tail) = choose|fed: &mut F, tail: String|
            {
                &&& *fed == old(run).filter()
                &&& *final(fed) == final(run).filter()
                &&& #[trigger] call_ensures(F::flush, (fed,), tail)
                &&& (final(run).state(), r@) == written_step(
                    old(run).state(),
                    outcome,
                    tail@,
                )
            };
        assert(call_ensures(F::flush, (fed,), tail));
    }
}

/// When the process has ended, the filter sees its exit code and what was captured, standard
/// output first, without escape sequences. What it adds is recorded, and written where the last
/// line came from; either way the exit code is kept.
pub proof fn law_end_of_process<F: StreamFilter>(run: &mut StreamRun<F>, exit_code: i32, r: Action)
    requires
        call_ensures(StreamRun::<F>::on_exit, (run, exit_code), r),
    ensures
        exists|raw: &str, fed: &mut F, summary: Option<String>|
            {
                &&& raw@ == stripped(
                    old(run).state().session.stdout.text + old(run).state().session.stderr.text,
                )
                &&& *fed == old(run).filter()
                &&& *final(fed) == final(run).filter()
                &&& #[trigger] call_ensures(F::on_exit, (fed, exit_code, raw), summary)
                &&& match summary {
                    None => {
                        &&& r is Finish
                        &&& final(run).state().phase == Phase::Finished(exit_code)
                        &&& final(run).state().session.filtered
                            == old(run).state().session.filtered
                    },
                    Some(added) => {
                        &&& r matches Action::Write { to, text } && to
                            == old(run).state().session.last && text@ == added@
                        &&& final(run).state().phase == Phase::WritingSummary(exit_code)
                        &&& final(run).state().session.filtered
                            == old(run).state().session.filtered + added@
                    },
                }
            },
        final(run).state().session.stdout == old(run).state().session.stdout,
        final(run).state().session.stderr == old(run).state().session.stderr,
{
    let (raw, fed, summary) = choose|raw: &str, fed: &mut F, summary: Option<String>|
        {
            &&& raw@ == stripped(
                old(run).state().session.stdout.text + old(run).state().session.stderr.text,
            )
            &&& *fed == old(run).filter()
            &&& *final(fed) == final(run).filter()
            &&& #[trigger] call_ensures(F::on_exit, (fed, exit_code, raw), summary)
            &&& (final(run).state(), r@) == exit_step(
                old(run).state(),
                exit_code,
                opt_text(summary),
            )
        };
    assert(call_ensures(F::on_exit, (fed, exit_code, raw), summary));
}

/// The result holds what was captured, apart and together, what was filtered, and the exit code;
/// there is none before the run has finished.
pub proof fn law_result<F: StreamFilter>(run: StreamRun<F>, r: Option<StreamResult>)
    requires
        call_ensures(StreamRun::<F>::into_result, (run,), r),
    ensures
        r is Some <==> run.state().phase is Finished,
        r matches Some(result) ==> {
            &&& run.state().phase == Phase::Finished(result.exit_code)
            &&& result.raw_stdout@ == run.state().session.stdout.text
            &&& result.raw_stderr@ == run.state().session.stderr.text
            &&& result.raw@ == result.raw_stdout@ + result.raw_stderr@
            &&& result.filtered@ == run.state().session.filtered
        },
{
}

/// The exit code of the process is that of the result, whether the filter adds a closing text
/// (`written` is then what became of writing it) or not. What was captured before is in the
/// result, and so is what was filtered, with the closing text behind it.
pub proof fn law_exit_code_reaches_the_result<F: StreamFilter>(
    run: &mut StreamRun<F>,
    exit_code: i32,
    first: Action,
    ended: &mut StreamRun<F>,
    written: WriteOutcome,
    second: Action,
    r: Option<StreamResult>,
)
    requires
        call_ensures(StreamRun::<F>::on_exit, (run, exit_code), first),
        first is Finish ==> call_ensures(StreamRun::<F>::into_result, (*final(run),), r),
        first is Write ==> {
            &&& *ended == *final(run)
            &&& written != WriteOutcome::Failed
            &&& call_ensures(StreamRun::<F>::on_written, (ended, written), second)
            &&& call_ensures(StreamRun::<F>::into_result, (*final(ended),), r)
        },
    ensures
        first is Finish || first is Write,
        r matches Some(result) && {
            &&& result.exit_code == exit_code
            &&& result.raw_stdout@ == old(run).state().session.stdout.text
            &&& result.raw_stderr@ == old(run).state().session.stderr.text
            &&& first is Finish ==> result.filtered@ == old(run).state().session.filtered
            &&& first matches Action::Write { to, text } ==> result.filtered@
                == old(run).state().session.filtered + text@
        },
{
    law_end_of_process(run, exit_code, first);
    if first is Write {
        law_after_writing(ended, written, second);
    }
}

/// Only a failure stops a run that writes at its end.
pub proof fn law_goes_on_after_write(outcome: WriteOutcome, r: bool)
    requires
        call_ensures(goes_on_after_write, (outcome,), r),
    ensures
        outcome == WriteOutcome::Written ==> r,
        outcome == WriteOutcome::BrokenPipe ==> r,
        outcome == WriteOutcome::Failed ==> !r,
{
}

} // verus!
