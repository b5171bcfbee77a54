//! Laws of the fixed names.

use vstd::prelude::*;
use crate::color::COLOR_VARIABLES;
use crate::constants::RTK_META_COMMANDS;

verus! {

/// Five variables decide on color, those that force it first.
pub proof fn law_color_variables()
    ensures
        COLOR_VARIABLES@[0]@ == "CLICOLOR_FORCE"@,
        COLOR_VARIABLES@[1]@ == "FORCE_COLOR"@,
        COLOR_VARIABLES@[2]@ == "NO_COLOR"@,
        COLOR_VARIABLES@[3]@ == "CLICOLOR"@,
        COLOR_VARIABLES@[4]@ == "TERM"@,
{
}

/// The commands that never fall back to raw execution.
pub proof fn law_meta_commands()
    ensures
        RTK_META_COMMANDS@[0]@ == "gain"@,
        RTK_META_COMMANDS@[1]@ == "discover"@,
        RTK_META_COMMANDS@[2]@ == "learn"@,
        RTK_META_COMMANDS@[3]@ == "init"@,
        RTK_META_COMMANDS@[4]@ == "config"@,
        RTK_META_COMMANDS@[5]@ == "proxy"@,
        RTK_META_COMMANDS@[6]@ == "run"@,
        RTK_META_COMMANDS@[7]@ == "hook"@,
        RTK_META_COMMANDS@[8]@ == "hook-audit"@,
        RTK_META_COMMANDS@[9]@ == "pipe"@,
        RTK_META_COMMANDS@[10]@ == "cc-economics"@,
        RTK_META_COMMANDS@[11]@ == "verify"@,
        RTK_META_COMMANDS@[12]@ == "trust"@,
        RTK_META_COMMANDS@[13]@ == "untrust"@,
        RTK_META_COMMANDS@[14]@ == "update"@,
        RTK_META_COMMANDS@[15]@ == "session"@,
        RTK_META_COMMANDS@[16]@ == "rewrite"@,
        RTK_META_COMMANDS@[17]@ == "telemetry"@,
        RTK_META_COMMANDS@[18]@ == "smart"@,
        RTK_META_COMMANDS@[19]@ == "deps"@,
        RTK_META_COMMANDS@[20]@ == "json"@,
{
}

} // verus!
