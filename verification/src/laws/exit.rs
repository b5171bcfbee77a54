//! Laws of how a process ended.

use vstd::prelude::*;
use crate::chars::{opt_text, signed_decimal};
use crate::exit::{
    exit_code_from_output, exit_code_from_status, status_to_exit_code, ExitReport, ExitStatus,
    Output,
};

verus! {

/// A process reports its own code, else 128 and its signal, else 1.
pub proof fn law_status_to_exit_code(status: ExitStatus, r: i32)
    requires
        call_ensures(status_to_exit_code, (status,), r),
    ensures
        status.code matches Some(code) ==> r == code,
        status.code is None ==> (status.signal matches Some(signal) ==> r == 128 + signal),
        status.code is None && status.signal is None ==> r == 1,
{
}

/// Every way to ask for an exit code gives the same one. A process without a code of its own is
/// announced under its label, with the signal where there is one; others are not announced.
pub proof fn law_exit_reports(
    output: &Output,
    label: &str,
    code: i32,
    by_status: ExitReport,
    by_output: ExitReport,
    number: i32,
    digits: String,
)
    requires
        call_ensures(status_to_exit_code, (output.status,), code),
        call_ensures(exit_code_from_status, (&output.status, label), by_status),
        call_ensures(exit_code_from_output, (output, label), by_output),
        call_ensures(signed_decimal, (number,), digits),
    ensures
        by_status.code == code,
        by_output.code == code,
        output.status.code is Some ==> by_status.notice is None,
        output.status.code is None && output.status.signal == Some(number) ==> opt_text(
            by_status.notice,
        ) == Some("[rtk] "@ + label@ + ": process terminated by signal "@ + digits@),
        output.status.code is None && output.status.signal is None ==> opt_text(by_status.notice)
            == Some("[rtk] "@ + label@ + ": process terminated by signal"@),
        opt_text(by_output.notice) == opt_text(by_status.notice),
{
}

} // verus!
