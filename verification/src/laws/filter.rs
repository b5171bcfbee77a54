//! Laws of filters.

use vstd::prelude::*;
use crate::ansi::stripped;
use crate::chars::{digits, joined, opt_text, texts};
use crate::filter::{
    block_text, AnsweredLine, BlockHandler, BlockState, BlockStreamFilter, LineHandler,
    LineStreamFilter, StreamFilter,
};
use crate::laws::text::{is_number, law_digits, value};
use crate::outside::{regex_compiles, regex_finds};
use crate::regex_filter::{has_prefix_in, RegexBlockFilter};

verus! {

/// The lines, each with its line feed.
pub open spec fn with_line_feeds(lines: Seq<Seq<char>>) -> Seq<char>
    decreases lines.len(),
{
    if lines.len() == 0 {
        Seq::empty()
    } else {
        with_line_feeds(lines.drop_last()) + lines.last() + seq!['\n']
    }
}

/// Whether `out` gives out the held lines: nothing where there are none.
pub open spec fn gives_out(out: Option<Seq<char>>, held: Seq<Seq<char>>) -> bool {
    &&& held.len() == 0 ==> out is None
    &&& held.len() > 0 ==> out == Some(with_line_feeds(held))
}

/// Whether a block filter goes from `before` to `after` and gives out `out` on `line`, on which
/// its handler answered: a skipped line does nothing; a start gives out what was held and holds
/// the line; inside a block a continuation is held too, and any other line ends the block and
/// gives it out; outside of a block nothing happens.
pub open spec fn goes(
    before: BlockState,
    line: AnsweredLine,
    after: BlockState,
    out: Option<Seq<char>>,
) -> bool {
    &&& line.skip ==> after == before && out is None
    &&& !line.skip && line.start ==> {
        &&& after.in_block
        &&& after.block == seq![line.line]
        &&& gives_out(out, before.block)
    }
    &&& !line.skip && !line.start && before.in_block && line.continues ==> {
        &&& after.in_block
        &&& after.block == before.block.push(line.line)
        &&& out is None
    }
    &&& !line.skip && !line.start && before.in_block && !line.continues ==> {
        &&& !after.in_block
        &&& after.block.len() == 0
        &&& gives_out(out, before.block)
    }
    &&& !line.skip && !line.start && !before.in_block ==> after == before && out is None
}

/// A block is its lines, each with its line feed.
proof fn lemma_block_text(block: Seq<Seq<char>>)
    ensures
        gives_out(block_text(block), block),
    decreases block.len(),
{
    if block.len() == 1 {
        assert(block.drop_last() =~= Seq::<Seq<char>>::empty());
        assert(with_line_feeds(block.drop_last()) =~= Seq::<char>::empty());
        assert(with_line_feeds(block) =~= joined(block, seq!['\n']).push('\n'));
    } else if block.len() > 1 {
        lemma_block_text(block.drop_last());
        let before = joined(block.drop_last(), seq!['\n']);
        assert(with_line_feeds(block.drop_last()) == before.push('\n'));
        assert(with_line_feeds(block) =~= joined(block, seq!['\n']).push('\n'));
    }
}

/// What a block filter does with a line follows from what its handler answered, whatever the text
/// of the line.
pub proof fn law_take_line<H: BlockHandler>(
    filter: &mut BlockStreamFilter<H>,
    line: &str,
    skip: bool,
    start: bool,
    continues: bool,
    r: Option<String>,
)
    requires
        call_ensures(
            BlockStreamFilter::<H>::take_line,
            (filter, line, skip, start, continues),
            r,
        ),
    ensures
        goes(
            old(filter).state(),
            (AnsweredLine { line: line@, skip, start, continues }),
            final(filter).state(),
            opt_text(r),
        ),
        final(filter).handler() == old(filter).handler(),
{
    lemma_block_text(old(filter).state().block);
}

/// A block filter starts outside of any block.
pub proof fn law_new_block_filter<H: BlockHandler>(handler: H, r: BlockStreamFilter<H>)
    requires
        call_ensures(BlockStreamFilter::<H>::new, (handler,), r),
    ensures
        r.handler() == handler,
        !r.state().in_block,
        r.state().block.len() == 0,
{
}

/// The handler is asked about each line without its escape sequences: whether to skip it; if not,
/// whether it starts a block; and if not, inside a block, whether it continues the block that is
/// held. The filter does what the answers say.
pub proof fn law_feed_block_line<H: BlockHandler>(
    filter: &mut BlockStreamFilter<H>,
    line: &str,
    r: Option<String>,
)
    requires
        call_ensures(<BlockStreamFilter<H> as StreamFilter>::feed_line, (filter, line), r),
    ensures
        ({
            let before = old(filter).state();
            let after = final(filter).state();
            ||| exists|clean: &str, skipper: &mut H|
                {
                    &&& clean@ == stripped(line@)
                    &&& *skipper == old(filter).handler()
                    &&& #[trigger] call_ensures(H::should_skip, (skipper, clean), true)
                    &&& *final(skipper) == final(filter).handler()
                    &&& after == before
                    &&& r is None
                }
            ||| exists|clean: &str, skipper: &mut H, starter: &mut H|
                {
                    &&& clean@ == stripped(line@)
                    &&& *skipper == old(filter).handler()
                    &&& #[trigger] call_ensures(H::should_skip, (skipper, clean), false)
                    &&& *starter == *final(skipper)
                    &&& #[trigger] call_ensures(H::is_block_start, (starter, clean), true)
                    &&& *final(starter) == final(filter).handler()
                    &&& after.in_block
                    &&& after.block == seq![clean@]
                    &&& gives_out(opt_text(r), before.block)
                }
            ||| exists|clean: &str, skipper: &mut H, starter: &mut H|
                {
                    &&& clean@ == stripped(line@)
                    &&& *skipper == old(filter).handler()
                    &&& #[trigger] call_ensures(H::should_skip, (skipper, clean), false)
                    &&& *starter == *final(skipper)
                    &&& #[trigger] call_ensures(H::is_block_start, (starter, clean), false)
                    &&& *final(starter) == final(filter).handler()
                    &&& !before.in_block
                    &&& after == before
                    &&& r is None
                }
            ||| exists|
                clean: &str,
                skipper: &mut H,
                starter: &mut H,
                keeper: &mut H,
                block: &[String],
                continues: bool,
            |
                {
                    &&& clean@ == stripped(line@)
                    &&& *skipper == old(filter).handler()
                    &&& #[trigger] call_ensures(H::should_skip, (skipper, clean), false)
                    &&& *starter == *final(skipper)
                    &&& #[trigger] call_ensures(H::is_block_start, (starter, clean), false)
                    &&& *keeper == *final(starter)
                    &&& texts(block@) == before.block
                    &&& #[trigger] call_ensures(
                        H::is_block_continuation,
                        (keeper, clean, block),
                        continues,
                    )
                    &&& *final(keeper) == final(filter).handler()
                    &&& before.in_block
                    &&& continues ==> {
                        &&& after.in_block
                        &&& after.block == before.block.push(clean@)
                        &&& r is None
                    }
                    &&& !continues ==> {
                        &&& !after.in_block
                        &&& after.block.len() == 0
                        &&& gives_out(opt_text(r), before.block)
                    }
                }
        }),
{
    lemma_block_text(old(filter).state().block);
}

/// At the end a block filter gives out what it holds, and holds it no more.
pub proof fn law_flush_blocks<H: BlockHandler>(filter: &mut BlockStreamFilter<H>, r: String)
    requires
        call_ensures(<BlockStreamFilter<H> as StreamFilter>::flush, (filter,), r),
    ensures
        r@ == with_line_feeds(old(filter).state().block),
        final(filter).state().block.len() == 0,
        final(filter).state().in_block == old(filter).state().in_block,
        final(filter).handler() == old(filter).handler(),
{
    lemma_block_text(old(filter).state().block);
}

/// The closing text is the handler's summary.
pub proof fn law_close_blocks<H: BlockHandler>(
    filter: &mut BlockStreamFilter<H>,
    exit_code: i32,
    raw: &str,
    r: Option<String>,
)
    requires
        call_ensures(
            <BlockStreamFilter<H> as StreamFilter>::on_exit,
            (filter, exit_code, raw),
            r,
        ),
    ensures
        call_ensures(H::format_summary, (&old(filter).handler(), exit_code, raw), r),
        final(filter).state() == old(filter).state(),
{
}

/// Whether a block is open behind the first `n` lines: somewhere among them one was started, and
/// no line since then ended it.
pub open spec fn is_open(lines: Seq<AnsweredLine>, n: int) -> bool {
    exists|s: int|
        {
            &&& 0 <= s < n
            &&& !(#[trigger] lines[s]).skip && lines[s].start
            &&& forall|j: int|
                s < j < n ==> (#[trigger] lines[j]).skip || lines[j].start || lines[j].continues
        }
}

/// Whether line `i` is kept: it is not skipped, and it starts a block or continues one that is
/// open.
pub open spec fn is_kept(lines: Seq<AnsweredLine>, i: int) -> bool {
    !lines[i].skip && (lines[i].start || (lines[i].continues && is_open(lines, i)))
}

/// The first `n` lines without those that are not kept, each with its line feed.
pub open spec fn kept(lines: Seq<AnsweredLine>, n: int) -> Seq<char>
    decreases n,
{
    if n <= 0 {
        Seq::empty()
    } else if is_kept(lines, n - 1) {
        kept(lines, n - 1) + lines[n - 1].line + seq!['\n']
    } else {
        kept(lines, n - 1)
    }
}

/// The first `n` texts, one after the other.
pub open spec fn given(outs: Seq<Option<Seq<char>>>, n: int) -> Seq<char>
    decreases n,
{
    if n <= 0 {
        Seq::empty()
    } else {
        match outs[n - 1] {
            None => given(outs, n - 1),
            Some(text) => given(outs, n - 1) + text,
        }
    }
}

/// A block that is open stays so with a line that does not end it, and only then.
proof fn lemma_open(lines: Seq<AnsweredLine>, n: int)
    requires
        0 <= n < lines.len(),
    ensures
        is_open(lines, n + 1) <==> if lines[n].skip {
            is_open(lines, n)
        } else {
            lines[n].start || (lines[n].continues && is_open(lines, n))
        },
{
    if is_open(lines, n) {
        let s = choose|s: int|
            {
                &&& 0 <= s < n
                &&& !(#[trigger] lines[s]).skip && lines[s].start
                &&& forall|j: int|
                    s < j < n ==> (#[trigger] lines[j]).skip || lines[j].start
                        || lines[j].continues
            };
        if lines[n].skip || lines[n].start || lines[n].continues {
            assert(is_open(lines, n + 1)) by {
                assert(!lines[s].skip && lines[s].start);
            }
        }
    }
    if !lines[n].skip && lines[n].start {
        assert(is_open(lines, n + 1));
    }
    if is_open(lines, n + 1) {
        let s = choose|s: int|
            {
                &&& 0 <= s < n + 1
                &&& !(#[trigger] lines[s]).skip && lines[s].start
                &&& forall|j: int|
                    s < j < n + 1 ==> (#[trigger] lines[j]).skip || lines[j].start
                        || lines[j].continues
            };
        if s < n {
            assert(!lines[s].skip && lines[s].start);
            assert(is_open(lines, n));
            assert(lines[n].skip || lines[n].start || lines[n].continues);
        }
    }
}

/// A block filter that starts outside of any block gives out, with what it still holds, exactly
/// the lines that are kept, in their order: those that start a block, and those that continue one
/// without any other line in between. It holds nothing unless a block is open.
pub proof fn law_blocks_are_kept(
    states: Seq<BlockState>,
    lines: Seq<AnsweredLine>,
    outs: Seq<Option<Seq<char>>>,
    n: int,
)
    requires
        0 <= n <= lines.len(),
        states.len() == lines.len() + 1,
        outs.len() == lines.len(),
        !states[0].in_block,
        states[0].block.len() == 0,
        forall|i: int|
            0 <= i < lines.len() ==> goes(
                states[i],
                #[trigger] lines[i],
                states[i + 1],
                outs[i],
            ),
    ensures
        given(outs, n) + with_line_feeds(states[n].block) == kept(lines, n),
        states[n].in_block <==> is_open(lines, n),
        !states[n].in_block ==> states[n].block.len() == 0,
    decreases n,
{
    if n == 0 {
        assert(given(outs, 0) + with_line_feeds(states[0].block) =~= kept(lines, 0));
    } else {
        let i = n - 1;
        law_blocks_are_kept(states, lines, outs, i);
        lemma_open(lines, i);
        assert(goes(states[i], lines[i], states[i + 1], outs[i]));
        let before = states[i].block;
        let line = lines[i].line;
        assert(before.push(line).drop_last() =~= before);
        assert(seq![line].drop_last() =~= Seq::<Seq<char>>::empty());
        assert(with_line_feeds(seq![line].drop_last()) =~= Seq::<char>::empty());
        assert(with_line_feeds(seq![line]) =~= line + seq!['\n']);
        assert(with_line_feeds(before.push(line)) == with_line_feeds(before) + line + seq!['\n']);
        let all = given(outs, n) + with_line_feeds(states[n].block);
        if is_kept(lines, i) {
            assert(all =~= (given(outs, i) + with_line_feeds(before)) + line + seq!['\n']);
        } else {
            assert(all =~= given(outs, i) + with_line_feeds(before));
        }
    }
}

/// A line filter asks about each line as it is: a skipped one is dropped, and every other one is
/// shown to the handler and given out unchanged, with its line feed.
pub proof fn law_feed_line<H: LineHandler>(
    filter: &mut LineStreamFilter<H>,
    line: &str,
    r: Option<String>,
)
    requires
        call_ensures(<LineStreamFilter<H> as StreamFilter>::feed_line, (filter, line), r),
    ensures
        ({
            ||| exists|skipper: &mut H|
                {
                    &&& *skipper == old(filter).handler()
                    &&& #[trigger] call_ensures(H::should_skip, (skipper, line), true)
                    &&& *final(skipper) == final(filter).handler()
                    &&& r is None
                }
            ||| exists|skipper: &mut H, observer: &mut H|
                {
                    &&& *skipper == old(filter).handler()
                    &&& #[trigger] call_ensures(H::should_skip, (skipper, line), false)
                    &&& *observer == *final(skipper)
                    &&& #[trigger] call_ensures(H::observe_line, (observer, line), ())
                    &&& *final(observer) == final(filter).handler()
                    &&& opt_text(r) == Some(line@ + seq!['\n'])
                }
        }),
{
    assert(line@.push('\n') =~= line@ + seq!['\n']);
}

/// A line filter holds nothing back, and closes with its handler's summary.
pub proof fn law_close_lines<H: LineHandler>(
    filter: &mut LineStreamFilter<H>,
    tail: String,
    closing: &mut LineStreamFilter<H>,
    exit_code: i32,
    raw: &str,
    r: Option<String>,
)
    requires
        call_ensures(<LineStreamFilter<H> as StreamFilter>::flush, (filter,), tail),
        call_ensures(
            <LineStreamFilter<H> as StreamFilter>::on_exit,
            (closing, exit_code, raw),
            r,
        ),
    ensures
        tail@.len() == 0,
        *final(filter) == *old(filter),
        call_ensures(H::format_summary, (&old(closing).handler(), exit_code, raw), r),
        *final(closing) == *old(closing),
{
}

/// Whether `line` starts with one of the prefixes.
pub open spec fn starts_with_one(line: Seq<char>, prefixes: Seq<Seq<char>>) -> bool {
    exists|i: int|
        0 <= i < prefixes.len() && (#[trigger] prefixes[i]).len() <= line.len() && line.take(
            prefixes[i].len() as int,
        ) == prefixes[i]
}

/// A prefix is what a text starts with.
proof fn lemma_starts_with_one(line: Seq<char>, prefixes: Seq<Seq<char>>)
    ensures
        starts_with_one(line, prefixes) <==> has_prefix_in(line, prefixes),
{
    if starts_with_one(line, prefixes) {
        let i = choose|i: int|
            0 <= i < prefixes.len() && (#[trigger] prefixes[i]).len() <= line.len() && line.take(
                prefixes[i].len() as int,
            ) == prefixes[i];
        assert(line.take(prefixes[i].len() as int) =~= line.subrange(
            0,
            prefixes[i].len() as int,
        ));
        assert(prefixes[i].is_prefix_of(line));
    }
    if has_prefix_in(line, prefixes) {
        let i = choose|i: int|
            0 <= i < prefixes.len() && #[trigger] prefixes[i].is_prefix_of(line);
        assert(line.take(prefixes[i].len() as int) =~= prefixes[i]);
    }
}

/// The answers of a regex block filter: lines with one of its prefixes are skipped; a block starts
/// where the pattern matches, and is counted; and a line continues it if a space or a tab stands
/// in front, whatever follows.
pub proof fn law_regex_answers(
    skipper: &mut RegexBlockFilter,
    starter: &mut RegexBlockFilter,
    keeper: &mut RegexBlockFilter,
    line: &str,
    block: &[String],
    skip: bool,
    start: bool,
    continues: bool,
)
    requires
        call_ensures(<RegexBlockFilter as BlockHandler>::should_skip, (skipper, line), skip),
        call_ensures(<RegexBlockFilter as BlockHandler>::is_block_start, (starter, line), start),
        call_ensures(
            <RegexBlockFilter as BlockHandler>::is_block_continuation,
            (keeper, line, block),
            continues,
        ),
    ensures
        skip <==> starts_with_one(line@, old(skipper).prefixes()),
        *final(skipper) == *old(skipper),
        start <==> regex_finds(old(starter).pattern(), line@),
        final(starter).pattern() == old(starter).pattern(),
        final(starter).prefixes() == old(starter).prefixes(),
        final(starter).tool() == old(starter).tool(),
        start && old(starter).blocks() < usize::MAX ==> final(starter).blocks()
            == old(starter).blocks() + 1,
        !start ==> final(starter).blocks() == old(starter).blocks(),
        line@.len() == 0 ==> !continues,
        line@.len() > 0 ==> (continues <==> line@[0] == ' ' || line@[0] == '\t'),
        *final(keeper) == *old(keeper),
{
    lemma_starts_with_one(line@, old(skipper).prefixes());
}

/// The summary counts the blocks, or says that there were none.
pub proof fn law_regex_summary(
    filter: &RegexBlockFilter,
    exit_code: i32,
    raw: &str,
    r: Option<String>,
)
    requires
        call_ensures(
            <RegexBlockFilter as BlockHandler>::format_summary,
            (filter, exit_code, raw),
            r,
        ),
    ensures
        filter.blocks() == 0 ==> opt_text(r) == Some(filter.tool() + ": no errors found\n"@),
        filter.blocks() > 0 ==> exists|count: Seq<char>|
            {
                &&& #[trigger] is_number(count)
                &&& value(count) == filter.blocks()
                &&& opt_text(r) == Some(
                    filter.tool() + ": "@ + count + " blocks in output\n"@,
                )
            },
{
    law_digits(filter.blocks() as nat);
    assert(is_number(digits(filter.blocks() as nat)));
}

/// A regex block filter is made for a pattern that compiles, with no prefixes at first; prefixes
/// are added behind those that it has.
pub proof fn law_regex_filter(
    tool: &str,
    pattern: &str,
    made: Option<RegexBlockFilter>,
    filter: RegexBlockFilter,
    prefix: &str,
    with_one: RegexBlockFilter,
    prefixes: &[&str],
    with_more: RegexBlockFilter,
    i: int,
)
    requires
        call_ensures(RegexBlockFilter::try_new, (tool, pattern), made),
        call_ensures(RegexBlockFilter::skip_prefix, (filter, prefix), with_one),
        call_ensures(RegexBlockFilter::skip_prefixes, (filter, prefixes), with_more),
    ensures
        made is Some <==> regex_compiles(pattern@),
        made matches Some(new) ==> {
            &&& new.pattern() == pattern@
            &&& new.tool() == tool@
            &&& new.prefixes().len() == 0
            &&& new.blocks() == 0
        },
        with_one.prefixes() == filter.prefixes() + seq![prefix@],
        with_more.prefixes().len() == filter.prefixes().len() + prefixes@.len(),
        0 <= i < filter.prefixes().len() ==> with_more.prefixes()[i] == filter.prefixes()[i],
        0 <= i < prefixes@.len() ==> with_more.prefixes()[filter.prefixes().len() + i]
            == prefixes@[i]@,
        with_one.pattern() == filter.pattern() && with_more.pattern() == filter.pattern(),
        with_one.tool() == filter.tool() && with_more.tool() == filter.tool(),
        with_one.blocks() == filter.blocks() && with_more.blocks() == filter.blocks(),
{
    assert(filter.prefixes().push(prefix@) =~= filter.prefixes() + seq![prefix@]);
}

/// A regex block filter for a pattern that compiles counts nothing and skips nothing at first.
pub proof fn law_new_regex_filter(tool: &str, pattern: &str, r: RegexBlockFilter)
    requires
        call_ensures(RegexBlockFilter::new, (tool, pattern), r),
    ensures
        r.pattern() == pattern@,
        r.tool() == tool@,
        r.prefixes().len() == 0,
        r.blocks() == 0,
{
}

/// A block filter over a regular expression: a line with a prefix does nothing; one that the
/// pattern matches starts a block; inside a block a line with a space or a tab in front is held
/// too, and every other line, an empty one among them, ends the block and gives it out.
pub proof fn law_regex_blocks(
    filter: &mut BlockStreamFilter<RegexBlockFilter>,
    line: &str,
    r: Option<String>,
)
    requires
        call_ensures(
            <BlockStreamFilter<RegexBlockFilter> as StreamFilter>::feed_line,
            (filter, line),
            r,
        ),
    ensures
        ({
            let clean = stripped(line@);
            let handler = old(filter).handler();
            goes(
                old(filter).state(),
                (AnsweredLine {
                    line: clean,
                    skip: starts_with_one(clean, handler.prefixes()),
                    start: regex_finds(handler.pattern(), clean),
                    continues: clean.len() > 0 && (clean[0] == ' ' || clean[0] == '\t'),
                }),
                final(filter).state(),
                opt_text(r),
            )
        }),
        final(filter).handler().pattern() == old(filter).handler().pattern(),
        final(filter).handler().prefixes() == old(filter).handler().prefixes(),
        final(filter).handler().tool() == old(filter).handler().tool(),
{
    lemma_block_text(old(filter).state().block);
    lemma_starts_with_one(stripped(line@), old(filter).handler().prefixes());
}

} // verus!
