use rtk_core::capture::{Capture, RAW_CAP};
use rtk_core::exit::{ExitStatus, Output};
use rtk_core::filter::StdinFilter;
use rtk_core::stream::{
    buffered_cap_warning, buffered_output, buffered_result, capture, child_stdin, feed_stdin,
    finish_stdin, passthrough_result, take_buffered_line, CaptureResult, ChildStdin, StdinMode,
    StreamResult,
};

#[test]
fn test_stream_result_success() {
    let r = StreamResult {
        exit_code: 0,
        raw: String::new(),
        raw_stdout: String::new(),
        raw_stderr: String::new(),
        filtered: String::new(),
    };
    assert!(r.success());
}

#[test]
fn test_stream_result_failure() {
    let r = StreamResult {
        exit_code: 1,
        raw: String::new(),
        raw_stdout: String::new(),
        raw_stderr: String::new(),
        filtered: String::new(),
    };
    assert!(!r.success());
}

#[test]
fn test_stream_result_signal_not_success() {
    let r = StreamResult {
        exit_code: 137,
        raw: String::new(),
        raw_stdout: String::new(),
        raw_stderr: String::new(),
        filtered: String::new(),
    };
    assert!(!r.success());
}

#[test]
fn test_capture_result_combined_empty() {
    let r = CaptureResult {
        stdout: String::new(),
        stderr: String::new(),
        exit_code: 0,
    };
    assert_eq!(r.combined(), "");
}

struct Shout {
    tail: &'static str,
}

impl StdinFilter for Shout {
    fn feed_line(&mut self, line: &str) -> Option<String> {
        if line.is_empty() {
            None
        } else {
            Some(line.to_uppercase())
        }
    }

    fn flush(&mut self) -> String {
        self.tail.to_string()
    }
}

#[test]
fn input_goes_through_its_filter_line_by_line() {
    let mut filter = Shout { tail: "" };
    assert_eq!(feed_stdin(&mut filter, "yes").as_deref(), Some("YES\n"));
    assert_eq!(feed_stdin(&mut filter, ""), None);
    assert_eq!(finish_stdin(&mut filter), None);
    assert_eq!(finish_stdin(&mut Shout { tail: "end" }).as_deref(), Some("end"));
}

#[test]
fn standard_input_is_set_up_by_mode() {
    let filter = StdinMode::Filter(Box::new(Shout { tail: "" }));
    for passthrough in [false, true] {
        assert_eq!(child_stdin(passthrough, &StdinMode::Inherit), ChildStdin::Inherit);
    }
    assert_eq!(child_stdin(true, &StdinMode::Null), ChildStdin::Null);
    assert_eq!(child_stdin(true, &filter), ChildStdin::Null);
    assert_eq!(child_stdin(false, &StdinMode::Null), ChildStdin::Piped);
    assert_eq!(child_stdin(false, &filter), ChildStdin::Piped);
}

#[test]
fn combined_output_is_stdout_then_stderr() {
    let result =
        CaptureResult { stdout: "out\n".to_string(), stderr: "err\n".to_string(), exit_code: 2 };
    assert_eq!(result.combined(), "out\nerr\n");
    assert!(!result.success());
}

#[test]
fn a_buffered_run_strips_lines_and_then_the_whole() {
    for disable_color in [false, true] {
        let mut stdout = Capture::new();
        let stderr = Capture::new();
        for line in ["\u{1b}[1ma", "\u{1b}]0;x", "y\u{7}b"] {
            assert!(!take_buffered_line(&mut stdout, line, disable_color));
        }
        let result = buffered_result(stdout, stderr, None, disable_color, 0);
        if disable_color {
            assert_eq!(result.raw_stdout, "a\nb\n");
        } else {
            assert_eq!(result.raw_stdout, "\u{1b}[1ma\n\u{1b}]0;x\ny\u{7}b\n");
        }
        assert_eq!(result.filtered, result.raw_stdout);
        assert_eq!(result.raw, result.raw_stdout);
    }
}

#[test]
fn a_buffered_run_keeps_what_its_filter_returned() {
    let mut stdout = Capture::new();
    let mut stderr = Capture::new();
    take_buffered_line(&mut stdout, "a", false);
    take_buffered_line(&mut stderr, "e", false);
    let made = buffered_output(Some("A".to_string()), stdout.text());
    assert!(made.warning.is_none());
    let result = buffered_result(stdout, stderr, Some(made.text), false, 7);
    assert_eq!(result.filtered, "A");
    assert_eq!(result.raw, "a\ne\n");
    assert_eq!(result.exit_code, 7);
}

#[test]
fn raw_output_passes_where_the_filter_panicked() {
    let made = buffered_output(None, "raw\n");
    assert_eq!(made.text, "raw\n");
    assert_eq!(
        made.warning.as_deref(),
        Some("[rtk] warning: filter panicked — passing through raw output")
    );
}

#[test]
fn a_buffered_run_warns_of_the_first_line_left_out() {
    let mut stdout = Capture::new();
    assert!(take_buffered_line(&mut stdout, &"x".repeat(RAW_CAP), false));
    assert!(!take_buffered_line(&mut stdout, &"x".repeat(RAW_CAP), false));
    assert!(!take_buffered_line(&mut stdout, "y", false));
    assert_eq!(stdout.text(), "y\n");
    assert_eq!(
        buffered_cap_warning(),
        "[rtk] warning: output exceeds 10 MiB — filter input truncated"
    );
}

#[test]
fn a_passthrough_run_captures_nothing() {
    let result = passthrough_result(42);
    assert_eq!(result.exit_code, 42);
    assert!(result.raw.is_empty() && result.filtered.is_empty());
    assert!(result.raw_stdout.is_empty() && result.raw_stderr.is_empty());
}

#[test]
fn captured_output_is_decoded_and_its_end_reported() {
    let output = Output {
        status: ExitStatus { code: None, signal: Some(15) },
        stdout: b"\x1b[1mok\x1b[0m\r\n".to_vec(),
        stderr: vec![0xB2, 0xE2],
    };
    let report = capture(&output, "sh", false, None);
    assert_eq!(report.result.exit_code, 143);
    assert_eq!(report.result.stdout, "\u{1b}[1mok\u{1b}[0m\r\n");
    assert_eq!(report.result.stderr, "\u{fffd}\u{fffd}");
    assert_eq!(report.notice.as_deref(), Some("[rtk] sh: process terminated by signal 15"));
    let report = capture(&output, "sh", true, Some(936));
    assert_eq!(report.result.stdout, "ok\r\n");
    assert_eq!(report.result.stderr, "测");
}

#[test]
fn a_colorless_result_stays_within_the_cap() {
    let mut stdout = Capture::new();
    let mut stderr = Capture::new();
    let line = "\u{1b}]0;é".repeat(RAW_CAP / 100);
    while !take_buffered_line(&mut stdout, &line, true) {}
    while !take_buffered_line(&mut stderr, &line, true) {}
    let result = buffered_result(stdout, stderr, None, true, 0);
    assert!(result.raw_stdout.len() <= RAW_CAP && result.raw_stderr.len() <= RAW_CAP);
}
