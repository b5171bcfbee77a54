//! Names and numbers that are used throughout.

use vstd::prelude::*;

verus! {

/// The directory of rtk in the user's data directory.
pub const RTK_DATA_DIR: &'static str = "rtk";

pub const HISTORY_DB: &'static str = "history.db";

pub const CONFIG_TOML: &'static str = "config.toml";

pub const FILTERS_TOML: &'static str = "filters.toml";

pub const TRUSTED_FILTERS_JSON: &'static str = "trusted_filters.json";

pub const DEFAULT_HISTORY_DAYS: i64 = 90;

/// RTK-only subcommands that should never fall back to raw execution.
/// A new RTK-only subcommand is added here under the name that it has on the command line.
pub const RTK_META_COMMANDS: [&'static str; 21] = [
    "gain",
    "discover",
    "learn",
    "init",
    "config",
    "proxy",
    "run",
    "hook",
    "hook-audit",
    "pipe",
    "cc-economics",
    "verify",
    "trust",
    "untrust",
    "update",
    "session",
    "rewrite",
    "telemetry",
    "smart",
    "deps",
    "json",
];

} // verus!
