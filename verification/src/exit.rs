//! How a process ended.

use vstd::prelude::*;
use crate::chars::{opt_text, signed_decimal, signed_digits};

verus! {

/// How a process ended: with an exit code, or by a signal where the platform has them.
#[derive(Clone, Copy, Debug, PartialEq, Eq, Structural)]
pub struct ExitStatus {
    pub code: Option<i32>,
    pub signal: Option<i32>,
}

impl ExitStatus {
    /// The signal is small enough to make an exit code of it.
    pub open spec fn wf(&self) -> bool {
        self.signal matches Some(signal) ==> signal <= i32::MAX - 128
    }
}

/// What a process that ran to completion wrote, and how it ended.
pub struct Output {
    pub status: ExitStatus,
    pub stdout: Vec<u8>,
    pub stderr: Vec<u8>,
}

/// An exit code, and what is to be said of it.
pub struct ExitReport {
    pub code: i32,
    pub notice: Option<String>,
}

/// The exit code of a process: its own, `128 + signal` by Unix convention if a signal ended it,
/// and 1 otherwise.
pub open spec fn exit_code(status: ExitStatus) -> int {
    match (status.code, status.signal) {
        (Some(code), _) => code as int,
        (None, Some(signal)) => 128 + signal,
        (None, None) => 1,
    }
}

/// What is said of a process without an exit code.
pub open spec fn exit_notice(status: ExitStatus, label: Seq<char>) -> Option<Seq<char>> {
    match (status.code, status.signal) {
        (Some(_), _) => None,
        (None, Some(signal)) => Some(
            "[rtk] "@ + label + ": process terminated by signal "@ + signed_digits(signal as int),
        ),
        (None, None) => Some("[rtk] "@ + label + ": process terminated by signal"@),
    }
}

/// A process that a signal ended is never taken for a successful one.
pub proof fn law_signal_is_no_success(status: ExitStatus)
    requires
        status.code is None,
        status.signal matches Some(signal) ==> signal > 0,
    ensures
        exit_code(status) != 0,
{
}

/// The exit code of a process that ended with `status`.
pub fn status_to_exit_code(status: ExitStatus) -> (r: i32)
    requires
        status.wf(),
    ensures
        r == exit_code(status),
{
    if let Some(code) = status.code {
        return code;
    }
    if let Some(signal) = status.signal {
        return 128 + signal;
    }
    1
}

/// The exit code of a process that ended with `status`, and a notice if it has none of its own.
pub fn exit_code_from_status(status: &ExitStatus, label: &str) -> (r: ExitReport)
    requires
        status.wf(),
    ensures
        r.code == exit_code(*status),
        opt_text(r.notice) == exit_notice(*status, label@),
{
    if let Some(code) = status.code {
        return ExitReport { code, notice: None };
    }
    let mut notice = "[rtk] ".to_owned();
    notice.append(label);
    if let Some(signal) = status.signal {
        notice.append(": process terminated by signal ");
        notice.append(signed_decimal(signal).as_str());
        return ExitReport { code: 128 + signal, notice: Some(notice) };
    }
    notice.append(": process terminated by signal");
    ExitReport { code: 1, notice: Some(notice) }
}

/// The exit code of a process that ran to completion, and a notice if it has none of its own.
pub fn exit_code_from_output(output: &Output, label: &str) -> (r: ExitReport)
    requires
        output.status.wf(),
    ensures
        r.code == exit_code(output.status),
        opt_text(r.notice) == exit_notice(output.status, label@),
{
    exit_code_from_status(&output.status, label)
}

} // verus!
