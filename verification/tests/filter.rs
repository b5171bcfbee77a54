use rtk_core::ansi::strip_ansi_if_present;
use rtk_core::filter::{
    BlockHandler, BlockStreamFilter, LineHandler, LineStreamFilter, StreamFilter,
};
use rtk_core::regex_filter::RegexBlockFilter;

struct LineFilter<F: FnMut(&str) -> Option<String>> {
    f: F,
}

impl<F: FnMut(&str) -> Option<String>> LineFilter<F> {
    pub fn new(f: F) -> Self {
        Self { f }
    }
}

impl<F: FnMut(&str) -> Option<String>> StreamFilter for LineFilter<F> {
    fn feed_line(&mut self, line: &str) -> Option<String> {
        (self.f)(line)
    }

    fn flush(&mut self) -> String {
        String::new()
    }
}

fn run_block_filter(filter: &mut dyn StreamFilter, input: &str, exit_code: i32) -> String {
    let mut output = String::new();
    for line in input.lines() {
        if let Some(s) = filter.feed_line(line) {
            output.push_str(&s);
        }
    }
    output.push_str(&filter.flush());
    let raw_for_summary = strip_ansi_if_present(input);
    if let Some(post) = filter.on_exit(exit_code, raw_for_summary.as_ref()) {
        output.push_str(&post);
    }
    output
}

struct TestHandler;

impl BlockHandler for TestHandler {
    fn should_skip(&mut self, line: &str) -> bool {
        line.starts_with("SKIP")
    }
    fn is_block_start(&mut self, line: &str) -> bool {
        line.starts_with("ERROR")
    }
    fn is_block_continuation(&mut self, line: &str, _block: &[String]) -> bool {
        line.starts_with("  ")
    }
    fn format_summary(&self, _exit_code: i32, _raw: &str) -> Option<String> {
        Some("DONE\n".to_string())
    }
}

struct CountingLineHandler {
    observed: Vec<String>,
    skip_prefixes: Vec<String>,
    summary_tag: &'static str,
}

impl LineHandler for CountingLineHandler {
    fn should_skip(&mut self, line: &str) -> bool {
        self.skip_prefixes.iter().any(|p| line.starts_with(p))
    }

    fn observe_line(&mut self, line: &str) {
        self.observed.push(line.to_string());
    }

    fn format_summary(&self, exit_code: i32, _raw: &str) -> Option<String> {
        Some(format!(
            "{}: {} kept, exit={}\n",
            self.summary_tag,
            self.observed.len(),
            exit_code
        ))
    }
}

fn run_line_filter(filter: &mut dyn StreamFilter, input: &str, exit_code: i32) -> String {
    let mut out = String::new();
    for line in input.lines() {
        if let Some(s) = filter.feed_line(line) {
            out.push_str(&s);
        }
    }
    out.push_str(&filter.flush());
    if let Some(post) = filter.on_exit(exit_code, input) {
        out.push_str(&post);
    }
    out
}

#[test]
fn test_line_filter_passes_lines() {
    let mut f = LineFilter::new(|l| Some(format!("{}\n", l.to_uppercase())));
    assert_eq!(f.feed_line("hello"), Some("HELLO\n".to_string()));
}

#[test]
fn test_line_filter_drops_lines() {
    let mut f = LineFilter::new(|l| {
        if l.starts_with('#') {
            None
        } else {
            Some(l.to_string())
        }
    });
    assert_eq!(f.feed_line("# comment"), None);
    assert_eq!(f.feed_line("code"), Some("code".to_string()));
}

#[test]
fn test_line_filter_flush_empty() {
    let mut f = LineFilter::new(|l| Some(l.to_string()));
    assert_eq!(f.flush(), String::new());
}

#[test]
fn test_line_filter_defaults_keep_all() {
    struct DefaultHandler;
    impl LineHandler for DefaultHandler {
        fn format_summary(&self, _: i32, _: &str) -> Option<String> {
            None
        }
    }
    let mut f = LineStreamFilter::new(DefaultHandler);
    let result = run_line_filter(&mut f, "a\nb\nc\n", 0);
    assert_eq!(result, "a\nb\nc\n");
}

#[test]
fn test_line_filter_skip_drops_matching_lines() {
    let handler = CountingLineHandler {
        observed: Vec::new(),
        skip_prefixes: vec!["NOISE:".to_string()],
        summary_tag: "demo",
    };
    let mut f = LineStreamFilter::new(handler);
    let input = "NOISE: progress 10%\nkeep me\nNOISE: progress 90%\nalso keep\n";
    let result = run_line_filter(&mut f, input, 0);
    assert!(!result.contains("NOISE:"), "got: {}", result);
    assert!(result.contains("keep me\n"));
    assert!(result.contains("also keep\n"));
    assert!(result.contains("demo: 2 kept, exit=0\n"));
}

#[test]
fn test_line_filter_summary_propagates_exit_code() {
    let handler = CountingLineHandler {
        observed: Vec::new(),
        skip_prefixes: Vec::new(),
        summary_tag: "demo",
    };
    let mut f = LineStreamFilter::new(handler);
    let result = run_line_filter(&mut f, "one\n", 42);
    assert!(result.contains("exit=42"), "got: {}", result);
}

#[test]
fn test_line_filter_observe_only_called_for_kept_lines() {
    let handler = CountingLineHandler {
        observed: Vec::new(),
        skip_prefixes: vec!["DROP".to_string()],
        summary_tag: "demo",
    };
    let mut f = LineStreamFilter::new(handler);
    let result = run_line_filter(&mut f, "DROP a\nDROP b\nkeep\n", 0);
    // Only "keep" was observed, so summary says "1 kept"
    assert!(result.contains("demo: 1 kept"), "got: {}", result);
}

#[test]
fn test_block_filter_emits_blocks() {
    let mut f = BlockStreamFilter::new(TestHandler);
    let input = "SKIP noise\nERROR first\n  detail1\nnon-block\nERROR second\n  detail2\n";
    let result = run_block_filter(&mut f, input, 0);
    assert!(result.contains("ERROR first\n  detail1"), "got: {}", result);
    assert!(
        result.contains("ERROR second\n  detail2"),
        "got: {}",
        result
    );
    assert!(!result.contains("SKIP"), "got: {}", result);
    assert!(result.ends_with("DONE\n"), "got: {}", result);
}

#[test]
fn test_block_filter_no_blocks() {
    let mut f = BlockStreamFilter::new(TestHandler);
    let result = run_block_filter(&mut f, "nothing here\njust text\n", 0);
    assert_eq!(result, "DONE\n");
}

#[test]
fn test_regex_block_filter_emits_blocks() {
    let handler = RegexBlockFilter::new("test", r"^error\[");
    let mut f = BlockStreamFilter::new(handler);
    let input = "ok line\nerror[E0308]: mismatched types\n  expected `u32`\nok again\nerror[E0599]: no method\n  help: try\n";
    let result = run_block_filter(&mut f, input, 1);
    assert!(
        result.contains("error[E0308]: mismatched types\n  expected `u32`"),
        "got: {}",
        result
    );
    assert!(
        result.contains("error[E0599]: no method\n  help: try"),
        "got: {}",
        result
    );
    assert!(
        result.contains("test: 2 blocks in output"),
        "got: {}",
        result
    );
}

#[test]
fn test_regex_block_filter_skip_prefix() {
    let handler = RegexBlockFilter::new("test", r"^error").skip_prefix("warning:");
    let mut f = BlockStreamFilter::new(handler);
    let input = "warning: unused var\nerror: bad type\n  detail\nwarning: dead code\n";
    let result = run_block_filter(&mut f, input, 1);
    assert!(result.contains("error: bad type"), "got: {}", result);
    assert!(!result.contains("warning:"), "got: {}", result);
}

#[test]
fn test_regex_block_filter_no_blocks() {
    let handler = RegexBlockFilter::new("mytest", r"^FAIL");
    let mut f = BlockStreamFilter::new(handler);
    let result = run_block_filter(&mut f, "all passed\nok\n", 0);
    assert_eq!(result, "mytest: no errors found\n");
}

#[test]
fn test_regex_block_filter_indent_continuation() {
    let handler = RegexBlockFilter::new("test", r"^ERR");
    let mut f = BlockStreamFilter::new(handler);
    let input = "ERR space indent\n  two spaces\n\ttab indent\nnon-indent\n";
    let result = run_block_filter(&mut f, input, 1);
    assert!(
        result.contains("ERR space indent\n  two spaces\n\ttab indent"),
        "got: {}",
        result
    );
    assert!(!result.contains("non-indent"), "got: {}", result);
}

#[test]
fn test_regex_block_filter_multiple_skip_prefixes() {
    let handler =
        RegexBlockFilter::new("test", r"^error").skip_prefixes(&["note:", "warning:", "help:"]);
    let mut f = BlockStreamFilter::new(handler);
    let input = "note: see docs\nwarning: unused\nhelp: try this\nerror: fatal\n  details\n";
    let result = run_block_filter(&mut f, input, 1);
    assert!(!result.contains("note:"), "got: {}", result);
    assert!(!result.contains("warning:"), "got: {}", result);
    assert!(!result.contains("help:"), "got: {}", result);
    assert!(
        result.contains("error: fatal\n  details"),
        "got: {}",
        result
    );
}

#[test]
fn kept_lines_come_out_in_order() {
    let mut f = BlockStreamFilter::new(TestHandler);
    assert_eq!(f.feed_line("  stray"), None);
    assert_eq!(f.feed_line("ERROR 1"), None);
    assert_eq!(f.feed_line("SKIP this"), None);
    assert_eq!(f.feed_line("  more"), None);
    assert_eq!(f.feed_line("ERROR 2").as_deref(), Some("ERROR 1\n  more\n"));
    assert_eq!(f.feed_line("end").as_deref(), Some("ERROR 2\n"));
    assert_eq!(f.feed_line("  outside"), None);
    assert_eq!(f.flush(), "");
    assert_eq!(f.feed_line("\u{1b}[31mERROR\u{1b}[0m 3"), None);
    assert_eq!(f.flush(), "ERROR 3\n");
    assert_eq!(f.flush(), "");
}

#[test]
fn a_block_goes_on_after_a_flush() {
    let mut f = BlockStreamFilter::new(TestHandler);
    f.feed_line("ERROR 1");
    assert_eq!(f.flush(), "ERROR 1\n");
    assert_eq!(f.feed_line("  more"), None);
    assert_eq!(f.flush(), "  more\n");
}

#[test]
fn answers_decide_what_a_block_filter_does() {
    let mut f = BlockStreamFilter::new(TestHandler);
    assert_eq!(f.take_line("a", false, false, true), None);
    assert_eq!(f.take_line("b", false, true, false), None);
    assert_eq!(f.take_line("c", true, true, true), None);
    assert_eq!(f.take_line("d", false, false, true), None);
    assert_eq!(f.take_line("e", false, false, false).as_deref(), Some("b\nd\n"));
}

#[test]
fn a_pattern_that_does_not_compile_gives_no_filter() {
    assert!(RegexBlockFilter::try_new("t", "(").is_none());
    let handler = RegexBlockFilter::try_new("t", "^E").unwrap();
    let mut f = BlockStreamFilter::new(handler);
    assert_eq!(run_block_filter(&mut f, "E1\nE2\n x\n", 0), "E1\nE2\n x\nt: 2 blocks in output\n");
}
