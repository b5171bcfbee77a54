//! A run of a child process whose lines go through a filter.
//!
//! The run itself does no input or output: it is told what happened, and tells what to do next.

use vstd::prelude::*;
use crate::ansi::{cow_text, strip_ansi_if_present, stripped};
use crate::capture::{
    byte_len, capture_until_full, captured_until_full, nothing_captured, Capture, Captured, RAW_CAP,
};
use crate::chars::{combine, opt_text};
use crate::filter::StreamFilter;
use crate::stream::StreamResult;

verus! {

/// An output stream of a child process.
#[derive(Clone, Copy, Debug, PartialEq, Eq, Structural)]
pub enum Source {
    Stdout,
    Stderr,
}

/// The state of a run whose lines go through a filter.
pub struct SessionState {
    pub disable_color: bool,
    pub stdout: Captured,
    pub stderr: Captured,
    /// What the filter gave out.
    pub filtered: Seq<char>,
    /// Where the last line came from.
    pub last: Source,
}

/// The state before the first line.
pub open spec fn new_session(disable_color: bool) -> SessionState {
    SessionState {
        disable_color,
        stdout: nothing_captured(),
        stderr: nothing_captured(),
        filtered: Seq::empty(),
        last: Source::Stdout,
    }
}

/// The form in which a line is captured: without escape sequences if color is disabled.
pub open spec fn capture_form(disable_color: bool, line: Seq<char>) -> Seq<char> {
    if disable_color {
        stripped(line)
    } else {
        line
    }
}

/// The state once a line is captured.
pub open spec fn session_receive(
    state: SessionState,
    source: Source,
    line: Seq<char>,
) -> SessionState {
    let form = capture_form(state.disable_color, line);
    match source {
        Source::Stdout => SessionState {
            stdout: capture_until_full(state.stdout, form),
            last: source,
            ..state
        },
        Source::Stderr => SessionState {
            stderr: capture_until_full(state.stderr, form),
            last: source,
            ..state
        },
    }
}

/// The state once the filter gave out `output`.
pub open spec fn session_emit(state: SessionState, output: Option<Seq<char>>) -> SessionState {
    match output {
        None => state,
        Some(text) => SessionState { filtered: state.filtered + text, ..state },
    }
}

/// The warning for the first line of a stream that is not captured.
pub open spec fn cap_warning(source: Source) -> Seq<char> {
    match source {
        Source::Stdout => "[rtk] warning: stdout exceeds 10 MiB — filter input truncated"@,
        Source::Stderr => "[rtk] warning: stderr exceeds 10 MiB — capture truncated"@,
    }
}

/// Whether capturing `line` is what caps its stream.
pub open spec fn gets_capped(state: SessionState, source: Source, line: Seq<char>) -> bool {
    let after = session_receive(state, source, line);
    match source {
        Source::Stdout => after.stdout.capped && !state.stdout.capped,
        Source::Stderr => after.stderr.capped && !state.stderr.capped,
    }
}

/// What is to be done after a line: warn, and write what the filter gave out to the stream that
/// the line came from.
pub struct Fed {
    pub warning: Option<String>,
    pub output: Option<String>,
}

/// A run of a child process whose lines go through a filter.
pub struct StreamSession {
    disable_color: bool,
    stdout: Capture,
    stderr: Capture,
    filtered: String,
    last: Source,
}

impl View for StreamSession {
    type V = SessionState;

    closed spec fn view(&self) -> SessionState {
        SessionState {
            disable_color: self.disable_color,
            stdout: self.stdout@,
            stderr: self.stderr@,
            filtered: self.filtered@,
            last: self.last,
        }
    }
}

impl StreamSession {
    /// No more is captured of either stream than the cap allows.
    pub open spec fn wf(&self) -> bool {
        &&& byte_len(self@.stdout.text) <= RAW_CAP
        &&& byte_len(self@.stderr.text) <= RAW_CAP
    }

    /// A run before its first line.
    pub fn new(disable_color: bool) -> (r: Self)
        ensures
            r.wf(),
            r@ == new_session(disable_color),
    {
        StreamSession {
            disable_color,
            stdout: Capture::new(),
            stderr: Capture::new(),
            filtered: String::new(),
            last: Source::Stdout,
        }
    }

    /// Captures a line, given in full and without escape sequences.
    fn receive(&mut self, source: Source, line: &str, clean: &str) -> (r: Option<String>)
        requires
            old(self).wf(),
            clean@ == stripped(line@),
        ensures
            final(self).wf(),
            final(self)@ == session_receive(old(self)@, source, line@),
            opt_text(r) == if gets_capped(old(self)@, source, line@) {
                Some(cap_warning(source))
            } else {
                None
            },
    {
        let form: &str = if self.disable_color {
            clean
        } else {
            line
        };
        self.last = source;
        match source {
            Source::Stdout => if self.stdout.push_until_full(form) {
                Some("[rtk] warning: stdout exceeds 10 MiB — filter input truncated".to_owned())
            } else {
                None
            },
            Source::Stderr => if self.stderr.push_until_full(form) {
                Some("[rtk] warning: stderr exceeds 10 MiB — capture truncated".to_owned())
            } else {
                None
            },
        }
    }

    /// Takes what the filter gave out.
    pub fn emit(&mut self, output: &Option<String>)
        ensures
            final(self)@ == session_emit(old(self)@, opt_text(*output)),
            old(self).wf() ==> final(self).wf(),
    {
        if let Some(text) = output {
            self.filtered.append(text.as_str());
        }
    }

    /// Takes a line of the child process: captures it, and passes it to the filter without
    /// escape sequences.
    pub fn feed<F: StreamFilter>(&mut self, filter: &mut F, source: Source, line: &str) -> (r: Fed)
        requires
            old(self).wf(),
        ensures
            final(self).wf(),
            opt_text(r.warning) == if gets_capped(old(self)@, source, line@) {
                Some(cap_warning(source))
            } else {
                None
            },
            final(self)@ == session_emit(
                session_receive(old(self)@, source, line@),
                opt_text(r.output),
            ),
            exists|clean: &str, fed: &mut F|
                {
                    &&& clean@ == stripped(line@)
                    &&& *fed == *old(filter)
                    &&& *final(fed) == *final(filter)
                    &&& #[trigger] call_ensures(F::feed_line, (fed, clean), r.output)
                },
    {
        let clean_line = strip_ansi_if_present(line);
        let clean = cow_text(&clean_line);
        let warning = self.receive(source, line, clean);
        let output = filter.feed_line(clean);
        self.emit(&output);
        Fed { warning, output }
    }

    /// Ends the input of the filter; the text is to be written where the last line came from.
    pub fn finish_input<F: StreamFilter>(&mut self, filter: &mut F) -> (r: String)
        ensures
            old(self).wf() ==> final(self).wf(),
            final(self)@ == session_emit(old(self)@, Some(r@)),
            exists|fed: &mut F|
                {
                    &&& *fed == *old(filter)
                    &&& *final(fed) == *final(filter)
                    &&& #[trigger] call_ensures(F::flush, (fed,), r)
                },
    {
        let tail = filter.flush();
        self.filtered.append(tail.as_str());
        tail
    }

    /// Asks the filter for its closing text, once the process has ended; it is to be written
    /// where the last line came from.
    pub fn close<F: StreamFilter>(&mut self, filter: &mut F, exit_code: i32) -> (r: Option<String>)
        ensures
            old(self).wf() ==> final(self).wf(),
            final(self)@ == session_emit(old(self)@, opt_text(r)),
            exists|raw: &str, fed: &mut F|
                {
                    &&& raw@ == stripped(old(self)@.stdout.text + old(self)@.stderr.text)
                    &&& *fed == *old(filter)
                    &&& *final(fed) == *final(filter)
                    &&& #[trigger] call_ensures(F::on_exit, (fed, exit_code, raw), r)
                },
    {
        let raw = combine(self.stdout.text(), self.stderr.text());
        let clean_raw = strip_ansi_if_present(raw.as_str());
        let post = filter.on_exit(exit_code, cow_text(&clean_raw));
        self.emit(&post);
        post
    }

    /// Where the last line came from.
    pub fn last_source(&self) -> (r: Source)
        ensures
            r == self@.last,
    {
        self.last
    }

    /// The result of the run.
    pub fn into_result(self, exit_code: i32) -> (r: StreamResult)
        ensures
            r.exit_code == exit_code,
            r.raw_stdout@ == self@.stdout.text,
            r.raw_stderr@ == self@.stderr.text,
            r.raw@ == self@.stdout.text + self@.stderr.text,
            r.filtered@ == self@.filtered,
    {
        let raw = combine(self.stdout.text(), self.stderr.text());
        StreamResult {
            exit_code,
            raw,
            raw_stdout: self.stdout.into_text(),
            raw_stderr: self.stderr.into_text(),
            filtered: self.filtered,
        }
    }
}

/// A line of a child process, and what the filter gave out on it.
pub struct SessionLine {
    pub source: Source,
    pub line: Seq<char>,
    pub output: Option<Seq<char>>,
}

/// The state after all of `lines`.
pub open spec fn session_run(state: SessionState, lines: Seq<SessionLine>) -> SessionState
    decreases lines.len(),
{
    if lines.len() == 0 {
        state
    } else {
        let before = session_run(state, lines.drop_last());
        let last = lines.last();
        session_emit(session_receive(before, last.source, last.line), last.output)
    }
}

/// The lines that came from `source`, in the form in which they are captured.
pub open spec fn lines_from(source: Source, disable_color: bool, lines: Seq<SessionLine>) -> Seq<
    Seq<char>,
>
    decreases lines.len(),
{
    if lines.len() == 0 {
        Seq::empty()
    } else {
        let before = lines_from(source, disable_color, lines.drop_last());
        if lines.last().source == source {
            before.push(capture_form(disable_color, lines.last().line))
        } else {
            before
        }
    }
}

/// All that the filter gave out.
pub open spec fn outputs(lines: Seq<SessionLine>) -> Seq<char>
    decreases lines.len(),
{
    if lines.len() == 0 {
        Seq::empty()
    } else {
        let before = outputs(lines.drop_last());
        match lines.last().output {
            None => before,
            Some(text) => before + text,
        }
    }
}

/// However the lines of the two streams are interleaved, each stream is captured as if it were
/// alone, and the filtered text is what the filter gave out, in order.
pub proof fn law_streams_are_captured_apart(state: SessionState, lines: Seq<SessionLine>)
    ensures
        session_run(state, lines).stdout == captured_until_full(
            state.stdout,
            lines_from(Source::Stdout, state.disable_color, lines),
        ),
        session_run(state, lines).stderr == captured_until_full(
            state.stderr,
            lines_from(Source::Stderr, state.disable_color, lines),
        ),
        session_run(state, lines).filtered == state.filtered + outputs(lines),
        session_run(state, lines).disable_color == state.disable_color,
        lines.len() > 0 ==> session_run(state, lines).last == lines.last().source,
    decreases lines.len(),
{
    if lines.len() == 0 {
        assert(state.filtered + Seq::<char>::empty() =~= state.filtered);
    } else {
        let before = lines.drop_last();
        law_streams_are_captured_apart(state, before);
        let last = lines.last();
        let form = capture_form(state.disable_color, last.line);
        let alone = lines_from(last.source, state.disable_color, before);
        assert(alone.push(form).drop_last() =~= alone);
        match last.output {
            None => {},
            Some(text) => {
                assert(state.filtered + outputs(before) + text =~= state.filtered + (outputs(before)
                    + text));
            },
        }
    }
}

/// Once a line was left out, nothing more is captured.
proof fn lemma_capped_stays(captured: Captured, lines: Seq<Seq<char>>)
    requires
        captured.capped,
    ensures
        captured_until_full(captured, lines) == captured,
    decreases lines.len(),
{
    if lines.len() > 0 {
        lemma_capped_stays(captured, lines.drop_last());
    }
}

/// The cap of a stream is warned of once, whatever lines follow.
pub proof fn law_cap_is_warned_of_once(
    state: SessionState,
    source: Source,
    line: Seq<char>,
    lines: Seq<SessionLine>,
    next: Seq<char>,
)
    requires
        gets_capped(state, source, line),
    ensures
        !gets_capped(session_run(session_receive(state, source, line), lines), source, next),
{
    let after = session_receive(state, source, line);
    law_streams_are_captured_apart(after, lines);
    let captured = match source {
        Source::Stdout => after.stdout,
        Source::Stderr => after.stderr,
    };
    lemma_capped_stays(captured, lines_from(source, after.disable_color, lines));
}

/// How writing to the terminal went.
#[derive(Clone, Copy, Debug, PartialEq, Eq, Structural)]
pub enum WriteOutcome {
    Written,
    /// Nobody reads any more.
    BrokenPipe,
    Failed,
}

/// Whether a run goes on after writing what it has to write at its end: a broken pipe is
/// ignored there, and any other failure ends the run.
pub fn goes_on_after_write(outcome: WriteOutcome) -> (r: bool)
    ensures
        r == (outcome != WriteOutcome::Failed),
{
    match outcome {
        WriteOutcome::Failed => false,
        _ => true,
    }
}

/// Where a run through a filter stands.
#[derive(Clone, Copy, Debug, PartialEq, Eq, Structural)]
pub enum Phase {
    /// Lines are read.
    Reading,
    /// What the filter gave out on a line is written.
    WritingLine,
    /// What the filter held back is written.
    WritingTail,
    /// The process is waited for.
    Waiting,
    /// The closing text is written; the process ended with the exit code.
    WritingSummary(i32),
    /// All is done; the process ended with the exit code.
    Finished(i32),
    /// Writing failed.
    Failed,
}

/// What a run is to do next.
pub enum Action {
    /// Read a line, from either stream.
    Read,
    /// Write the text to the stream.
    Write { to: Source, text: String },
    /// Wait for the process to end.
    Wait,
    /// Take the result.
    Finish,
    /// Give up with the error of the last writing.
    Fail,
}

/// What a run is to do next.
pub enum ActionView {
    Read,
    Write { to: Source, text: Seq<char> },
    Wait,
    Finish,
    Fail,
}

impl View for Action {
    type V = ActionView;

    open spec fn view(&self) -> ActionView {
        match *self {
            Action::Read => ActionView::Read,
            Action::Write { to, text } => ActionView::Write { to, text: text@ },
            Action::Wait => ActionView::Wait,
            Action::Finish => ActionView::Finish,
            Action::Fail => ActionView::Fail,
        }
    }
}

/// The state of a run through a filter.
pub struct RunState {
    pub session: SessionState,
    pub phase: Phase,
}

/// A line came, and the filter gave out `output`: it is written where the line came from.
pub open spec fn line_step(
    state: RunState,
    source: Source,
    line: Seq<char>,
    output: Option<Seq<char>>,
) -> (RunState, ActionView) {
    let session = session_emit(session_receive(state.session, source, line), output);
    match output {
        None => ((RunState { session, phase: Phase::Reading }), ActionView::Read),
        Some(text) => (
            (RunState { session, phase: Phase::WritingLine }),
            ActionView::Write { to: source, text },
        ),
    }
}

/// There are no more lines, and the filter held back `tail`: it is written where the last line
/// came from.
pub open spec fn end_step(state: RunState, tail: Seq<char>) -> (RunState, ActionView) {
    (
        (RunState {
            session: session_emit(state.session, Some(tail)),
            phase: Phase::WritingTail,
        }),
        ActionView::Write { to: state.session.last, text: tail },
    )
}

/// Text was written. A broken pipe ends the reading of lines (the filter then held back `tail`),
/// and is ignored afterwards; any other failure ends the run.
pub open spec fn written_step(state: RunState, outcome: WriteOutcome, tail: Seq<char>) -> (
    RunState,
    ActionView,
) {
    match (outcome, state.phase) {
        (WriteOutcome::Failed, _) => (
            (RunState { phase: Phase::Failed, ..state }),
            ActionView::Fail,
        ),
        (WriteOutcome::Written, Phase::WritingLine) => (
            (RunState { phase: Phase::Reading, ..state }),
            ActionView::Read,
        ),
        (WriteOutcome::BrokenPipe, Phase::WritingLine) => end_step(state, tail),
        (_, Phase::WritingSummary(code)) => (
            (RunState { phase: Phase::Finished(code), ..state }),
            ActionView::Finish,
        ),
        _ => ((RunState { phase: Phase::Waiting, ..state }), ActionView::Wait),
    }
}

/// The process ended, and the filter added `summary`: it is written where the last line came
/// from.
pub open spec fn exit_step(state: RunState, exit_code: i32, summary: Option<Seq<char>>) -> (
    RunState,
    ActionView,
) {
    let session = session_emit(state.session, summary);
    match summary {
        None => ((RunState { session, phase: Phase::Finished(exit_code) }), ActionView::Finish),
        Some(text) => (
            (RunState { session, phase: Phase::WritingSummary(exit_code) }),
            ActionView::Write { to: session.last, text },
        ),
    }
}

/// The text that an action writes.
pub open spec fn text_written(action: ActionView) -> Seq<char> {
    match action {
        ActionView::Write { text, .. } => text,
        _ => Seq::empty(),
    }
}

/// What is recorded as filtered is what is written: with every step the same text is added to
/// both.
pub proof fn law_filtered_is_what_is_written(
    state: RunState,
    source: Source,
    line: Seq<char>,
    output: Option<Seq<char>>,
    outcome: WriteOutcome,
    tail: Seq<char>,
    exit_code: i32,
)
    ensures
        ({
            let (after, action) = line_step(state, source, line, output);
            after.session.filtered == state.session.filtered + text_written(action)
        }),
        ({
            let (after, action) = end_step(state, tail);
            after.session.filtered == state.session.filtered + text_written(action)
        }),
        ({
            let (after, action) = written_step(state, outcome, tail);
            after.session.filtered == state.session.filtered + text_written(action)
        }),
        ({
            let (after, action) = exit_step(state, exit_code, output);
            after.session.filtered == state.session.filtered + text_written(action)
        }),
{
    assert(state.session.filtered + Seq::<char>::empty() =~= state.session.filtered);
}

/// A run of a child process through a filter: it is told what happened, and tells what to do
/// next.
pub struct StreamRun<F: StreamFilter> {
    session: StreamSession,
    filter: F,
    phase: Phase,
}

impl<F: StreamFilter> StreamRun<F> {
    /// Where the run stands.
    pub closed spec fn state(self) -> RunState {
        RunState { session: self.session@, phase: self.phase }
    }

    /// The filter.
    pub closed spec fn filter(self) -> F {
        self.filter
    }

    /// No more is captured of either stream than the cap allows.
    pub open spec fn wf(self) -> bool {
        &&& byte_len(self.state().session.stdout.text) <= RAW_CAP
        &&& byte_len(self.state().session.stderr.text) <= RAW_CAP
    }

    /// A run before its first line.
    pub fn new(filter: F, disable_color: bool) -> (r: Self)
        ensures
            r.wf(),
            r.filter() == filter,
            r.state() == (RunState {
                session: new_session(disable_color),
                phase: Phase::Reading,
            }),
    {
        StreamRun { session: StreamSession::new(disable_color), filter, phase: Phase::Reading }
    }

    /// Where the run stands.
    pub fn phase(&self) -> (r: Phase)
        ensures
            r == self.state().phase,
    {
        self.phase
    }

    /// A line came: it is captured, and goes through the filter without escape sequences. The
    /// warning, if there is one, is to be given before the action.
    pub fn on_line(&mut self, source: Source, line: &str) -> (r: (Option<String>, Action))
        requires
            old(self).wf(),
            old(self).state().phase == Phase::Reading,
        ensures
            final(self).wf(),
            opt_text(r.0) == if gets_capped(old(self).state().session, source, line@) {
                Some(cap_warning(source))
            } else {
                None
            },
            exists|clean: &str, fed: &mut F, output: Option<String>|
                {
                    &&& clean@ == stripped(line@)
                    &&& *fed == old(self).filter()
                    &&& *final(fed) == final(self).filter()
                    &&& #[trigger] call_ensures(F::feed_line, (fed, clean), output)
                    &&& (final(self).state(), r.1@) == line_step(
                        old(self).state(),
                        source,
                        line@,
                        opt_text(output),
                    )
                },
    {
        let fed = self.session.feed(&mut self.filter, source, line);
        let action = match fed.output {
            None => Action::Read,
            Some(text) => {
                self.phase = Phase::WritingLine;
                Action::Write { to: source, text }
            },
        };
        (fed.warning, action)
    }

    /// There are no more lines.
    pub fn on_end(&mut self) -> (r: Action)
        requires
            old(self).wf(),
            old(self).state().phase == Phase::Reading || old(self).state().phase
                == Phase::WritingLine,
        ensures
            final(self).wf(),
            exists|fed: &mut F, tail: String|
                {
                    &&& *fed == old(self).filter()
                    &&& *final(fed) == final(self).filter()
                    &&& #[trigger] call_ensures(F::flush, (fed,), tail)
                    &&& (final(self).state(), r@) == end_step(old(self).state(), tail@)
                },
    {
        let tail = self.session.finish_input(&mut self.filter);
        self.phase = Phase::WritingTail;
        Action::Write { to: self.session.last_source(), text: tail }
    }

    /// The text that was to be written is written, or could not be.
    pub fn on_written(&mut self, outcome: WriteOutcome) -> (r: Action)
        requires
            old(self).wf(),
            old(self).state().phase == Phase::WritingLine || old(self).state().phase
                == Phase::WritingTail || old(self).state().phase is WritingSummary,
        ensures
            final(self).wf(),
            outcome == WriteOutcome::BrokenPipe && old(self).state().phase == Phase::WritingLine
                ==> exists|fed: &mut F, tail: String|
                {
                    &&& *fed == old(self).filter()
                    &&& *final(fed) == final(self).filter()
                    &&& #[trigger] call_ensures(F::flush, (fed,), tail)
                    &&& (final(self).state(), r@) == written_step(
                        old(self).state(),
                        outcome,
                        tail@,
                    )
                },
            !(outcome == WriteOutcome::BrokenPipe && old(self).state().phase == Phase::WritingLine)
                ==> {
                &&& final(self).filter() == old(self).filter()
                &&& (final(self).state(), r@) == written_step(
                    old(self).state(),
                    outcome,
                    Seq::empty(),
                )
            },
    {
        match outcome {
            WriteOutcome::Failed => {
                self.phase = Phase::Failed;
                Action::Fail
            },
            _ => match self.phase {
                Phase::WritingLine => if outcome == WriteOutcome::BrokenPipe {
                    self.on_end()
                } else {
                    self.phase = Phase::Reading;
                    Action::Read
                },
                Phase::WritingSummary(code) => {
                    self.phase = Phase::Finished(code);
                    Action::Finish
                },
                _ => {
                    self.phase = Phase::Waiting;
                    Action::Wait
                },
            },
        }
    }

    /// The process ended with the exit code. The filter sees what was captured of both streams,
    /// without escape sequences.
    pub fn on_exit(&mut self, exit_code: i32) -> (r: Action)
        requires
            old(self).wf(),
            old(self).state().phase == Phase::Waiting,
        ensures
            final(self).wf(),
            exists|raw: &str, fed: &mut F, summary: Option<String>|
                {
                    &&& raw@ == stripped(
                        old(self).state().session.stdout.text
                            + old(self).state().session.stderr.text,
                    )
                    &&& *fed == old(self).filter()
                    &&& *final(fed) == final(self).filter()
                    &&& #[trigger] call_ensures(F::on_exit, (fed, exit_code, raw), summary)
                    &&& (final(self).state(), r@) == exit_step(
                        old(self).state(),
                        exit_code,
                        opt_text(summary),
                    )
                },
    {
        let summary = self.session.close(&mut self.filter, exit_code);
        match summary {
            None => {
                self.phase = Phase::Finished(exit_code);
                Action::Finish
            },
            Some(text) => {
                self.phase = Phase::WritingSummary(exit_code);
                Action::Write { to: self.session.last_source(), text }
            },
        }
    }

    /// The result of a run that is finished.
    pub fn into_result(self) -> (r: Option<StreamResult>)
        ensures
            match self.state().phase {
                Phase::Finished(code) => r matches Some(result) && {
                    &&& result.exit_code == code
                    &&& result.raw_stdout@ == self.state().session.stdout.text
                    &&& result.raw_stderr@ == self.state().session.stderr.text
                    &&& result.raw@ == self.state().session.stdout.text
                        + self.state().session.stderr.text
                    &&& result.filtered@ == self.state().session.filtered
                },
                _ => r is None,
            },
    {
        match self.phase {
            Phase::Finished(code) => Some(self.session.into_result(code)),
            _ => None,
        }
    }
}

} // verus!
