use rtk_core::capture::{Capture, RAW_CAP};
use rtk_core::decode::read_lines_lossy;
use rtk_core::filter::StreamFilter;
use rtk_core::session::{
    goes_on_after_write, Action, Phase, Source, StreamRun, WriteOutcome,
};

/// Drops lines with a hash, holds nothing back but a last word, and tells what it saw.
struct Probe {
    seen: Vec<String>,
}

impl StreamFilter for Probe {
    fn feed_line(&mut self, line: &str) -> Option<String> {
        self.seen.push(line.to_string());
        if line.starts_with('#') {
            None
        } else {
            Some(format!("{}!\n", line))
        }
    }

    fn flush(&mut self) -> String {
        "tail\n".to_string()
    }

    fn on_exit(&mut self, exit_code: i32, raw: &str) -> Option<String> {
        if exit_code == 0 {
            None
        } else {
            Some(format!("exit {} of {:?} after {:?}\n", exit_code, raw, self.seen))
        }
    }
}

/// What an action asks for, in short.
fn shown(action: &Action) -> String {
    match action {
        Action::Read => "read".to_string(),
        Action::Write { to: Source::Stdout, text } => format!("out {}", text),
        Action::Write { to: Source::Stderr, text } => format!("err {}", text),
        Action::Wait => "wait".to_string(),
        Action::Finish => "finish".to_string(),
        Action::Fail => "fail".to_string(),
    }
}

#[test]
fn a_run_goes_from_lines_to_a_result() {
    let mut run = StreamRun::new(Probe { seen: Vec::new() }, false);
    let (warning, action) = run.on_line(Source::Stdout, "\u{1b}[1ma");
    assert!(warning.is_none());
    assert_eq!(shown(&action), "out a!\n");
    assert_eq!(shown(&run.on_written(WriteOutcome::Written)), "read");
    assert_eq!(shown(&run.on_line(Source::Stdout, "# b").1), "read");
    assert_eq!(shown(&run.on_line(Source::Stderr, "c").1), "err c!\n");
    assert_eq!(shown(&run.on_written(WriteOutcome::Written)), "read");
    assert_eq!(shown(&run.on_end()), "err tail\n");
    assert_eq!(shown(&run.on_written(WriteOutcome::Written)), "wait");
    let summary = "exit 3 of \"a\\n# b\\nc\\n\" after [\"a\", \"# b\", \"c\"]\n";
    assert_eq!(shown(&run.on_exit(3)), format!("err {}", summary));
    assert_eq!(shown(&run.on_written(WriteOutcome::BrokenPipe)), "finish");
    let result = run.into_result().unwrap();
    assert_eq!(result.exit_code, 3);
    assert_eq!(result.raw_stdout, "\u{1b}[1ma\n# b\n");
    assert_eq!(result.raw_stderr, "c\n");
    assert_eq!(result.raw, "\u{1b}[1ma\n# b\nc\n");
    assert_eq!(result.filtered, format!("a!\nc!\ntail\n{}", summary));
}

#[test]
fn without_color_the_capture_holds_no_sequences() {
    let mut run = StreamRun::new(Probe { seen: Vec::new() }, true);
    run.on_line(Source::Stdout, "# \u{1b}[1ma");
    run.on_end();
    run.on_written(WriteOutcome::Written);
    assert_eq!(shown(&run.on_exit(0)), "finish");
    let result = run.into_result().unwrap();
    assert_eq!(result.raw_stdout, "# a\n");
    assert_eq!(result.filtered, "tail\n");
}

#[test]
fn a_broken_pipe_ends_the_reading() {
    let mut run = StreamRun::new(Probe { seen: Vec::new() }, false);
    run.on_line(Source::Stdout, "a");
    assert_eq!(shown(&run.on_written(WriteOutcome::BrokenPipe)), "out tail\n");
    assert_eq!(shown(&run.on_written(WriteOutcome::BrokenPipe)), "wait");
    assert_eq!(shown(&run.on_exit(0)), "finish");
    assert_eq!(run.phase(), Phase::Finished(0));
    assert_eq!(run.into_result().unwrap().filtered, "a!\ntail\n");
}

#[test]
fn any_other_failure_ends_the_run() {
    let mut run = StreamRun::new(Probe { seen: Vec::new() }, false);
    run.on_line(Source::Stdout, "a");
    assert_eq!(shown(&run.on_written(WriteOutcome::Failed)), "fail");
    assert_eq!(run.phase(), Phase::Failed);
    assert!(run.into_result().is_none());
}

#[test]
fn streams_are_captured_apart_and_warned_of_once() {
    let line = "x".repeat(RAW_CAP / 2);
    let mut run = StreamRun::new(Probe { seen: Vec::new() }, false);
    let mut warnings = Vec::new();
    for source in [Source::Stdout, Source::Stdout, Source::Stderr, Source::Stdout, Source::Stderr] {
        let (warning, _) = run.on_line(source, &format!("#{}", line));
        warnings.push(warning);
    }
    let (warning, _) = run.on_line(Source::Stdout, "#short");
    assert!(warning.is_none());
    assert_eq!(
        warnings,
        vec![
            None,
            Some("[rtk] warning: stdout exceeds 10 MiB — filter input truncated".to_string()),
            None,
            None,
            Some("[rtk] warning: stderr exceeds 10 MiB — capture truncated".to_string()),
        ]
    );
    run.on_end();
    run.on_written(WriteOutcome::Written);
    run.on_exit(0);
    let result = run.into_result().unwrap();
    assert_eq!(result.raw_stdout.len(), line.len() + 2);
    assert_eq!(result.raw_stderr.len(), line.len() + 2);
}

#[test]
fn the_cap_counts_bytes_with_line_feeds() {
    let mut capture = Capture::new();
    let line = "é".repeat((RAW_CAP - 2) / 4);
    assert!(!capture.push_until_full(&line));
    assert!(!capture.push_until_full(&line));
    assert_eq!(capture.text().len(), RAW_CAP - 2 + 2 - (RAW_CAP - 2) % 4);
    let room = RAW_CAP - capture.text().len();
    assert!(capture.push_until_full(&"y".repeat(room)));
    assert!(!capture.push_until_full(""));
    assert!(capture.text().len() <= RAW_CAP);
}

#[test]
fn short_lines_still_fit_behind_a_long_one_that_does_not() {
    let mut capture = Capture::new();
    assert!(!capture.push_if_fitting("a"));
    assert!(capture.push_if_fitting(&"b".repeat(RAW_CAP)));
    assert!(!capture.push_if_fitting(&"b".repeat(RAW_CAP)));
    assert!(!capture.push_if_fitting("c"));
    assert_eq!(capture.into_text(), "a\nc\n");
}

#[test]
fn output_within_the_cap_is_captured_whole() {
    let mut until_full = Capture::new();
    let mut if_fitting = Capture::new();
    for line in ["a", "", "c"] {
        assert!(!until_full.push_until_full(line) && !if_fitting.push_if_fitting(line));
    }
    assert_eq!(until_full.text(), "a\n\nc\n");
    assert_eq!(if_fitting.text(), "a\n\nc\n");
}

#[test]
fn text_is_captured_as_written() {
    let written = "first\n\nünï – 日本\nlast\n";
    let mut until_full = Capture::new();
    let mut if_fitting = Capture::new();
    for line in read_lines_lossy(written.as_bytes(), None, None).lines {
        until_full.push_until_full(&line);
        if_fitting.push_if_fitting(&line);
    }
    assert_eq!(until_full.text(), written);
    assert_eq!(if_fitting.text(), written);
}

#[test]
fn only_a_failure_stops_a_run_that_writes_at_its_end() {
    assert!(goes_on_after_write(WriteOutcome::Written));
    assert!(goes_on_after_write(WriteOutcome::BrokenPipe));
    assert!(!goes_on_after_write(WriteOutcome::Failed));
}
