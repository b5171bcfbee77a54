use rtk_core::exit::{
    exit_code_from_output, exit_code_from_status, status_to_exit_code, ExitStatus, Output,
};

#[test]
fn a_process_reports_its_own_code() {
    for code in [0, 1, 42, -1, i32::MAX] {
        let status = ExitStatus { code: Some(code), signal: None };
        assert_eq!(status_to_exit_code(status), code);
        let report = exit_code_from_status(&status, "tool");
        assert_eq!((report.code, report.notice), (code, None));
    }
}

#[test]
fn a_signal_is_no_success() {
    let killed = ExitStatus { code: None, signal: Some(9) };
    assert_eq!(status_to_exit_code(killed), 137);
    let report = exit_code_from_status(&killed, "tool");
    assert_eq!(report.code, 137);
    assert_eq!(report.notice.unwrap(), "[rtk] tool: process terminated by signal 9");
}

#[test]
fn without_code_and_signal_it_is_one() {
    let status = ExitStatus { code: None, signal: None };
    assert_eq!(status_to_exit_code(status), 1);
    let output = Output { status, stdout: Vec::new(), stderr: Vec::new() };
    let report = exit_code_from_output(&output, "x y");
    assert_eq!(report.code, 1);
    assert_eq!(report.notice.unwrap(), "[rtk] x y: process terminated by signal");
}
