//! A block filter whose blocks start where a regular expression matches.

use vstd::prelude::*;
use crate::chars::{decimal, digits, opt_text, starts_with, texts};
use crate::filter::BlockHandler;
use crate::outside::{compile_regex, regex_compiles, regex_finds, regex_is_match, regex_source};

verus! {

/// Keeps the blocks that start with a line that matches a pattern and go on with indented lines.
pub struct RegexBlockFilter {
    start_re: regex::Regex,
    skip_prefixes: Vec<String>,
    tool_name: String,
    block_count: usize,
}

impl RegexBlockFilter {
    /// The pattern of the lines that start a block.
    pub closed spec fn pattern(self) -> Seq<char> {
        regex_source(self.start_re)
    }

    /// The prefixes of the lines that are skipped.
    pub closed spec fn prefixes(self) -> Seq<Seq<char>> {
        texts(self.skip_prefixes@)
    }

    /// The name that the summary starts with.
    pub closed spec fn tool(self) -> Seq<char> {
        self.tool_name@
    }

    /// The number of blocks that were started.
    pub closed spec fn blocks(self) -> usize {
        self.block_count
    }

    /// A filter for the blocks of `tool_name` that start where `start_pattern` matches.
    pub fn new(tool_name: &str, start_pattern: &str) -> (r: Self)
        requires
            regex_compiles(start_pattern@),
        ensures
            r.pattern() == start_pattern@,
            r.prefixes() == Seq::<Seq<char>>::empty(),
            r.tool() == tool_name@,
            r.blocks() == 0,
    {
        let start_re = match compile_regex(start_pattern) {
            Ok(re) => re,
            Err(_) => vstd::pervasive::unreached(),
        };
        let r = RegexBlockFilter {
            start_re,
            skip_prefixes: Vec::new(),
            tool_name: tool_name.to_owned(),
            block_count: 0,
        };
        assert(texts(r.skip_prefixes@) =~= Seq::empty());
        r
    }

    /// A filter as [`RegexBlockFilter::new`] makes it, or `None` where the pattern is no regular
    /// expression.
    pub fn try_new(tool_name: &str, start_pattern: &str) -> (r: Option<Self>)
        ensures
            r is Some <==> regex_compiles(start_pattern@),
            r matches Some(filter) ==> {
                &&& filter.pattern() == start_pattern@
                &&& filter.prefixes() == Seq::<Seq<char>>::empty()
                &&& filter.tool() == tool_name@
                &&& filter.blocks() == 0
            },
    {
        match compile_regex(start_pattern) {
            Ok(_) => Some(RegexBlockFilter::new(tool_name, start_pattern)),
            Err(_) => None,
        }
    }

    /// The filter, with one more prefix of lines to skip.
    pub fn skip_prefix(self, prefix: &str) -> (r: Self)
        ensures
            r.pattern() == self.pattern(),
            r.prefixes() == self.prefixes().push(prefix@),
            r.tool() == self.tool(),
            r.blocks() == self.blocks(),
    {
        let mut this = self;
        this.skip_prefixes.push(prefix.to_owned());
        assert(texts(this.skip_prefixes@) =~= self.prefixes().push(prefix@));
        this
    }

    /// The filter, with more prefixes of lines to skip.
    pub fn skip_prefixes(self, prefixes: &[&str]) -> (r: Self)
        ensures
            r.pattern() == self.pattern(),
            r.prefixes() == self.prefixes() + Seq::new(prefixes@.len(), |i: int| prefixes@[i]@),
            r.tool() == self.tool(),
            r.blocks() == self.blocks(),
    {
        let mut this = self;
        let ghost given = Seq::new(prefixes@.len(), |i: int| prefixes@[i]@);
        assert(self.prefixes() + given.take(0) =~= self.prefixes());
        for i in 0..prefixes.len()
            invariant
                given == Seq::new(prefixes@.len(), |i: int| prefixes@[i]@),
                this.pattern() == self.pattern(),
                this.prefixes() == self.prefixes() + given.take(i as int),
                this.tool() == self.tool(),
                this.blocks() == self.blocks(),
        {
            let prefix: &str = prefixes[i];
            this = this.skip_prefix(prefix);
            assert(given.take(i + 1) =~= given.take(i as int).push(prefix@));
            assert((self.prefixes() + given.take(i as int)).push(prefix@) =~= self.prefixes()
                + given.take(i + 1));
        }
        assert(given.take(given.len() as int) =~= given);
        this
    }
}

/// Whether one of `prefixes` starts `line`.
pub open spec fn has_prefix_in(line: Seq<char>, prefixes: Seq<Seq<char>>) -> bool {
    exists|i: int| 0 <= i < prefixes.len() && #[trigger] prefixes[i].is_prefix_of(line)
}

impl BlockHandler for RegexBlockFilter {
    fn should_skip(&mut self, line: &str) -> (r: bool)
        ensures
            *final(self) == *old(self),
            r == has_prefix_in(line@, old(self).prefixes()),
    {
        for i in 0..self.skip_prefixes.len()
            invariant
                *self == *old(self),
                forall|j: int|
                    0 <= j < i ==> !(#[trigger] self.prefixes()[j]).is_prefix_of(line@),
        {
            if starts_with(line, self.skip_prefixes[i].as_str()) {
                assert(self.prefixes()[i as int].is_prefix_of(line@));
                return true;
            }
        }
        false
    }

    fn is_block_start(&mut self, line: &str) -> (r: bool)
        ensures
            r == regex_finds(old(self).pattern(), line@),
            final(self).pattern() == old(self).pattern(),
            final(self).prefixes() == old(self).prefixes(),
            final(self).tool() == old(self).tool(),
            !r ==> final(self).blocks() == old(self).blocks(),
            r && old(self).blocks() < usize::MAX ==> final(self).blocks() == old(self).blocks() + 1,
            r && old(self).blocks() == usize::MAX ==> final(self).blocks() == 0,
    {
        if regex_is_match(&self.start_re, line) {
            self.block_count = self.block_count.wrapping_add(1);
            true
        } else {
            false
        }
    }

    fn is_block_continuation(&mut self, line: &str, _block: &[String]) -> (r: bool)
        ensures
            *final(self) == *old(self),
            r == (line@.len() > 0 && (line@[0] == ' ' || line@[0] == '\t')),
    {
        let mut chars = line.chars();
        match chars.next() {
            Some(c) => c == ' ' || c == '\t',
            None => false,
        }
    }

    fn format_summary(&self, _exit_code: i32, _raw: &str) -> (r: Option<String>)
        ensures
            opt_text(r) == Some(
                if self.blocks() == 0 {
                    self.tool() + ": no errors found\n"@
                } else {
                    self.tool() + ": "@ + digits(self.blocks() as nat) + " blocks in output\n"@
                },
            ),
    {
        let mut out = self.tool_name.clone();
        if self.block_count == 0 {
            out.append(": no errors found\n");
        } else {
            out.append(": ");
            out.append(decimal(self.block_count as u64).as_str());
            out.append(" blocks in output\n");
        }
        Some(out)
    }
}

} // verus!
