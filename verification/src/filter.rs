//! Filters over the lines of a child process.

use vstd::prelude::*;
use crate::ansi::{cow_text, strip_ansi_if_present, stripped};
use crate::chars::{join, joined, opt_text, texts};

verus! {

/// A filter that sees the output of a process line by line.
pub trait StreamFilter {
    /// Takes one line; what it returns is written out.
    fn feed_line(&mut self, line: &str) -> Option<String>;

    /// Gives out what is still held back when the output ends.
    fn flush(&mut self) -> String;

    /// Adds a closing text once the process has ended.
    fn on_exit(&mut self, _exit_code: i32, _raw: &str) -> (r: Option<String>)
        default_ensures
            r is None,
    {
        None
    }
}

/// A filter for what the user types.
pub trait StdinFilter: Send {
    fn feed_line(&mut self, line: &str) -> Option<String>;

    fn flush(&mut self) -> String;
}

/// The decisions of a filter that keeps blocks of lines.
pub trait BlockHandler {
    fn should_skip(&mut self, line: &str) -> bool;

    fn is_block_start(&mut self, line: &str) -> bool;

    fn is_block_continuation(&mut self, line: &str, block: &[String]) -> bool;

    fn format_summary(&self, exit_code: i32, raw: &str) -> Option<String>;
}

/// The state of a block filter: whether it is inside a block, and the lines of the block that
/// have not been given out.
pub struct BlockState {
    pub in_block: bool,
    pub block: Seq<Seq<char>>,
}

/// The text of a finished block: its lines, each ended by a line feed; nothing for no lines.
pub open spec fn block_text(block: Seq<Seq<char>>) -> Option<Seq<char>> {
    if block.len() == 0 {
        None
    } else {
        Some(joined(block, seq!['\n']).push('\n'))
    }
}

/// The text that a block filter still holds back.
pub open spec fn held_text(state: BlockState) -> Seq<char> {
    match block_text(state.block) {
        None => Seq::empty(),
        Some(text) => text,
    }
}

/// What a block filter does with `line`, given what its handler answers: the next state, and the
/// block that is given out.
pub open spec fn block_step(
    state: BlockState,
    line: Seq<char>,
    skip: bool,
    start: bool,
    continues: bool,
) -> (BlockState, Option<Seq<char>>) {
    if skip {
        (state, None)
    } else if start {
        ((BlockState { in_block: true, block: seq![line] }), block_text(state.block))
    } else if state.in_block {
        if continues {
            ((BlockState { in_block: true, block: state.block.push(line) }), None)
        } else {
            ((BlockState { in_block: false, block: Seq::empty() }), block_text(state.block))
        }
    } else {
        (state, None)
    }
}

/// A line and what the handler of a block filter answered on it.
pub struct AnsweredLine {
    pub line: Seq<char>,
    pub skip: bool,
    pub start: bool,
    pub continues: bool,
}

/// The state of a block filter that has taken `lines`, and all that it gave out on the way.
pub open spec fn block_run(state: BlockState, lines: Seq<AnsweredLine>) -> (BlockState, Seq<char>)
    decreases lines.len(),
{
    if lines.len() == 0 {
        (state, Seq::empty())
    } else {
        let (before, given) = block_run(state, lines.drop_last());
        let last = lines.last();
        let (after, output) = block_step(before, last.line, last.skip, last.start, last.continues);
        (
            after,
            match output {
                None => given,
                Some(text) => given + text,
            },
        )
    }
}

/// Whether a block filter in `state` keeps the line.
pub open spec fn keeps(state: BlockState, answered: AnsweredLine) -> bool {
    !answered.skip && (answered.start || (state.in_block && answered.continues))
}

/// The lines that a block filter keeps of `lines`, each ended by a line feed.
pub open spec fn kept_text(state: BlockState, lines: Seq<AnsweredLine>) -> Seq<char>
    decreases lines.len(),
{
    if lines.len() == 0 {
        Seq::empty()
    } else {
        let before = kept_text(state, lines.drop_last());
        if keeps(block_run(state, lines.drop_last()).0, lines.last()) {
            before + lines.last().line.push('\n')
        } else {
            before
        }
    }
}

/// One more line in a block is one more line in its text.
proof fn lemma_held_text_push(state: BlockState, line: Seq<char>)
    ensures
        held_text((BlockState { in_block: true, block: state.block.push(line) })) == held_text(
            state,
        ) + line.push('\n'),
{
    let longer = state.block.push(line);
    assert(longer.drop_last() =~= state.block);
    assert(held_text((BlockState { in_block: true, block: longer })) =~= held_text(state)
        + line.push('\n'));
}

/// A block filter gives out exactly the lines that it keeps, in their order, each ended by a
/// line feed: what it gave out and what it still holds back are what it held back at first and
/// the kept lines.
pub proof fn law_kept_lines_come_out(state: BlockState, lines: Seq<AnsweredLine>)
    ensures
        block_run(state, lines).1 + held_text(block_run(state, lines).0) == held_text(state)
            + kept_text(state, lines),
    decreases lines.len(),
{
    if lines.len() == 0 {
        assert(Seq::<char>::empty() + held_text(state) =~= held_text(state)
            + Seq::<char>::empty());
    } else {
        law_kept_lines_come_out(state, lines.drop_last());
        let (before, given) = block_run(state, lines.drop_last());
        let last = lines.last();
        lemma_held_text_push(before, last.line);
        lemma_held_text_push((BlockState { in_block: true, block: Seq::empty() }), last.line);
        assert(Seq::<Seq<char>>::empty().push(last.line) =~= seq![last.line]);
        let (after, output) = block_step(before, last.line, last.skip, last.start, last.continues);
        let tail = if keeps(before, last) {
            last.line.push('\n')
        } else {
            Seq::empty()
        };
        let given_now = block_run(state, lines).1;
        assert(given_now + held_text(after) =~= (given + held_text(before)) + tail);
        assert((held_text(state) + kept_text(state, lines.drop_last())) + tail =~= held_text(state)
            + kept_text(state, lines));
    }
}

/// Outside a block nothing is held back: it is so in a new filter, and stays so with every line.
pub proof fn law_nothing_is_held_outside_a_block(state: BlockState, lines: Seq<AnsweredLine>)
    requires
        !state.in_block ==> state.block.len() == 0,
    ensures
        !block_run(state, lines).0.in_block ==> block_run(state, lines).0.block.len() == 0,
    decreases lines.len(),
{
    if lines.len() > 0 {
        law_nothing_is_held_outside_a_block(state, lines.drop_last());
    }
}

/// A skipped line has no effect.
pub proof fn law_skipped_line_has_no_effect(
    state: BlockState,
    line: Seq<char>,
    start: bool,
    continues: bool,
)
    ensures
        block_step(state, line, true, start, continues) == (state, None::<Seq<char>>),
{
}

/// A filter that gives out only the blocks of lines that its handler recognises.
pub struct BlockStreamFilter<H: BlockHandler> {
    handler: H,
    in_block: bool,
    current_block: Vec<String>,
}

impl<H: BlockHandler> BlockStreamFilter<H> {
    /// The handler that decides.
    pub closed spec fn handler(self) -> H {
        self.handler
    }

    /// Where the filter stands.
    pub closed spec fn state(self) -> BlockState {
        BlockState { in_block: self.in_block, block: texts(self.current_block@) }
    }

    /// A filter outside any block.
    pub fn new(handler: H) -> (r: Self)
        ensures
            r.handler() == handler,
            r.state() == (BlockState { in_block: false, block: Seq::empty() }),
    {
        let r = BlockStreamFilter { handler, in_block: false, current_block: Vec::new() };
        assert(texts(r.current_block@) =~= Seq::empty());
        r
    }

    /// Gives out the block held back, if there is one.
    fn emit_block(&mut self) -> (r: Option<String>)
        ensures
            final(self).handler() == old(self).handler(),
            final(self).state() == (BlockState { block: Seq::empty(), ..old(self).state() }),
            opt_text(r) == block_text(old(self).state().block),
    {
        if self.current_block.is_empty() {
            assert(texts(self.current_block@) =~= Seq::empty());
            return None;
        }
        let mut block = join(self.current_block.as_slice(), "\n");
        proof {
            reveal_strlit("\n");
            assert("\n"@ =~= seq!['\n']);
        }
        self.current_block.clear();
        assert(texts(self.current_block@) =~= Seq::empty());
        block.push('\n');
        Some(block)
    }

    /// Takes a line on which the handler has answered.
    ///
    /// `continues` counts only inside a block, on a line that is neither skipped nor a start.
    pub fn take_line(&mut self, line: &str, skip: bool, start: bool, continues: bool) -> (r: Option<
        String,
    >)
        ensures
            final(self).handler() == old(self).handler(),
            (final(self).state(), opt_text(r)) == block_step(
                old(self).state(),
                line@,
                skip,
                start,
                continues,
            ),
    {
        if skip {
            return None;
        }
        if start {
            let prev = self.emit_block();
            self.current_block.push(line.to_owned());
            assert(texts(self.current_block@) =~= seq![line@]);
            self.in_block = true;
            prev
        } else if self.in_block {
            if continues {
                let ghost before = texts(self.current_block@);
                self.current_block.push(line.to_owned());
                assert(texts(self.current_block@) =~= before.push(line@));
                None
            } else {
                self.in_block = false;
                self.emit_block()
            }
        } else {
            None
        }
    }
}

impl<H: BlockHandler> StreamFilter for BlockStreamFilter<H> {
    fn feed_line(&mut self, line: &str) -> (r: Option<String>)
        ensures
            ({
                // the line is skipped
                ||| exists|clean: &str, skipper: &mut H|
                    {
                        &&& clean@ == stripped(line@)
                        &&& *skipper == old(self).handler()
                        &&& #[trigger] call_ensures(H::should_skip, (skipper, clean), true)
                        &&& final(self).handler() == *final(skipper)
                        &&& (final(self).state(), opt_text(r)) == block_step(
                            old(self).state(),
                            clean@,
                            true,
                            false,
                            false,
                        )
                    }
                // the line starts a block, or stands outside of any
                ||| exists|clean: &str, skipper: &mut H, starter: &mut H, start: bool|
                    {
                        &&& clean@ == stripped(line@)
                        &&& *skipper == old(self).handler()
                        &&& #[trigger] call_ensures(H::should_skip, (skipper, clean), false)
                        &&& *starter == *final(skipper)
                        &&& #[trigger] call_ensures(H::is_block_start, (starter, clean), start)
                        &&& start || !old(self).state().in_block
                        &&& final(self).handler() == *final(starter)
                        &&& (final(self).state(), opt_text(r)) == block_step(
                            old(self).state(),
                            clean@,
                            false,
                            start,
                            false,
                        )
                    }
                // the line continues the block, or ends it
                ||| exists|
                    clean: &str,
                    skipper: &mut H,
                    starter: &mut H,
                    keeper: &mut H,
                    block: &[String],
                    continues: bool,
                |
                    {
                        &&& clean@ == stripped(line@)
                        &&& *skipper == old(self).handler()
                        &&& #[trigger] call_ensures(H::should_skip, (skipper, clean), false)
                        &&& *starter == *final(skipper)
                        &&& #[trigger] call_ensures(H::is_block_start, (starter, clean), false)
                        &&& *keeper == *final(starter)
                        &&& texts(block@) == old(self).state().block
                        &&& #[trigger] call_ensures(
                            H::is_block_continuation,
                            (keeper, clean, block),
                            continues,
                        )
                        &&& old(self).state().in_block
                        &&& final(self).handler() == *final(keeper)
                        &&& (final(self).state(), opt_text(r)) == block_step(
                            old(self).state(),
                            clean@,
                            false,
                            false,
                            continues,
                        )
                    }
            }),
    {
        let clean_line = strip_ansi_if_present(line);
        let clean = cow_text(&clean_line);
        let skip = self.handler.should_skip(clean);
        if skip {
            return self.take_line(clean, true, false, false);
        }
        let start = self.handler.is_block_start(clean);
        if start || !self.in_block {
            return self.take_line(clean, false, start, false);
        }
        let continues = self.handler.is_block_continuation(clean, self.current_block.as_slice());
        self.take_line(clean, false, false, continues)
    }

    fn flush(&mut self) -> (r: String)
        ensures
            final(self).handler() == old(self).handler(),
            final(self).state() == (BlockState { block: Seq::empty(), ..old(self).state() }),
            r@ == held_text(old(self).state()),
    {
        match self.emit_block() {
            Some(block) => block,
            None => String::new(),
        }
    }

    fn on_exit(&mut self, exit_code: i32, raw: &str) -> (r: Option<String>)
        ensures
            final(self).handler() == old(self).handler(),
            final(self).state() == old(self).state(),
            call_ensures(H::format_summary, (&old(self).handler(), exit_code, raw), r),
    {
        self.handler.format_summary(exit_code, raw)
    }
}

/// Counterpart to [`BlockHandler`] for line-oriented streams.
///
/// Every line is kept by default. An implementor may drop noise in `should_skip`, and may look at
/// the kept lines in `observe_line`.
pub trait LineHandler {
    fn should_skip(&mut self, _line: &str) -> (r: bool)
        default_ensures
            r == false,
    {
        false
    }

    fn observe_line(&mut self, _line: &str) {
    }

    fn format_summary(&self, exit_code: i32, raw: &str) -> Option<String>;
}

/// A filter that gives out each line that its handler does not skip.
pub struct LineStreamFilter<H: LineHandler> {
    handler: H,
}

impl<H: LineHandler> LineStreamFilter<H> {
    /// The handler that decides.
    pub closed spec fn handler(self) -> H {
        self.handler
    }

    /// A filter with the decisions of `handler`.
    pub fn new(handler: H) -> (r: Self)
        ensures
            r.handler() == handler,
    {
        LineStreamFilter { handler }
    }
}

impl<H: LineHandler> StreamFilter for LineStreamFilter<H> {
    fn feed_line(&mut self, line: &str) -> (r: Option<String>)
        ensures
            ({
                // the line is skipped, and not observed
                ||| exists|skipper: &mut H|
                    {
                        &&& *skipper == old(self).handler()
                        &&& #[trigger] call_ensures(H::should_skip, (skipper, line), true)
                        &&& final(self).handler() == *final(skipper)
                        &&& r is None
                    }
                // the line is observed, and given out unchanged
                ||| exists|skipper: &mut H, observer: &mut H|
                    {
                        &&& *skipper == old(self).handler()
                        &&& #[trigger] call_ensures(H::should_skip, (skipper, line), false)
                        &&& *observer == *final(skipper)
                        &&& #[trigger] call_ensures(H::observe_line, (observer, line), ())
                        &&& final(self).handler() == *final(observer)
                        &&& opt_text(r) == Some(line@.push('\n'))
                    }
            }),
    {
        if self.handler.should_skip(line) {
            return None;
        }
        self.handler.observe_line(line);
        let mut out = line.to_owned();
        out.push('\n');
        Some(out)
    }

    fn flush(&mut self) -> (r: String)
        ensures
            *final(self) == *old(self),
            r@ == Seq::<char>::empty(),
    {
        String::new()
    }

    fn on_exit(&mut self, exit_code: i32, raw: &str) -> (r: Option<String>)
        ensures
            *final(self) == *old(self),
            call_ensures(H::format_summary, (&old(self).handler(), exit_code, raw), r),
    {
        self.handler.format_summary(exit_code, raw)
    }
}

} // verus!
