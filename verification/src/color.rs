//! When child processes are told to write without color.

use vstd::prelude::*;
use crate::chars::{lower, same_text, to_ascii_lower, trim, trim_end, trim_start, trimmed};

verus! {

/// The form in which a flag is read: without surrounding white space, in lower case.
pub open spec fn normalized(value: Seq<char>) -> Seq<char> {
    lower(trimmed(value))
}

/// Whether a flag is off: empty, or a word for no.
pub open spec fn zeroish(value: Seq<char>) -> bool {
    normalized(value) == ""@ || is_no(value)
}

/// Whether a flag is a word for no.
pub open spec fn is_no(value: Seq<char>) -> bool {
    let flag = normalized(value);
    flag == "0"@ || flag == "false"@ || flag == "off"@ || flag == "no"@
}

/// A flag without surrounding white space, in lower case.
pub fn normalized_env_flag(value: &str) -> (r: String)
    ensures
        r@ == normalized(value@),
{
    to_ascii_lower(trim(value).as_str())
}

/// Whether a normalized flag is a word for no.
fn flag_is_no(flag: &str) -> (r: bool)
    ensures
        r == (flag@ == "0"@ || flag@ == "false"@ || flag@ == "off"@ || flag@ == "no"@),
{
    same_text(flag, "0") || same_text(flag, "false") || same_text(flag, "off") || same_text(
        flag,
        "no",
    )
}

/// Whether a flag is off: empty, or a word for no.
pub fn env_flag_is_zeroish(value: &str) -> (r: bool)
    ensures
        r == zeroish(value@),
{
    let flag = normalized_env_flag(value);
    same_text(flag.as_str(), "") || flag_is_no(flag.as_str())
}

/// Whether `NO_COLOR` with this value asks for no color. An empty value does.
pub fn env_requests_no_color(value: &str) -> (r: bool)
    ensures
        r == !is_no(value@),
{
    let flag = normalized_env_flag(value);
    !flag_is_no(flag.as_str())
}

/// An environment variable as it is set.
#[derive(Clone, Debug, PartialEq, Eq)]
pub enum EnvSetting {
    Missing,
    Value(String),
    /// Set, but not to text.
    NonUnicode,
}

/// Whether a variable that forces color is set, and not off.
pub open spec fn forces(setting: EnvSetting) -> bool {
    setting matches EnvSetting::Value(value) && !zeroish(value@)
}

/// Whether a variable is set to the flag.
pub open spec fn is_flag(setting: EnvSetting, flag: Seq<char>) -> bool {
    setting matches EnvSetting::Value(value) && normalized(value@) == flag
}

/// Whether `NO_COLOR`, as it is set, asks for no color.
pub open spec fn forbids(no_color: EnvSetting) -> bool {
    match no_color {
        EnvSetting::Missing => false,
        EnvSetting::Value(value) => !is_no(value@),
        EnvSetting::NonUnicode => true,
    }
}

/// Whether the settings ask for no color: none of them forces it, and `NO_COLOR`, `CLICOLOR` or
/// a dumb terminal speaks against it.
pub open spec fn colorless(
    clicolor_force: EnvSetting,
    force_color: EnvSetting,
    no_color: EnvSetting,
    clicolor: EnvSetting,
    term: EnvSetting,
) -> bool {
    &&& !forces(clicolor_force)
    &&& !forces(force_color)
    &&& forbids(no_color) || is_flag(clicolor, "0"@) || is_flag(term, "dumb"@)
}

/// Whether a variable that forces color is set, and not off.
fn forces_color(setting: &EnvSetting) -> (r: bool)
    ensures
        r == forces(*setting),
{
    match setting {
        EnvSetting::Value(value) => !env_flag_is_zeroish(value.as_str()),
        _ => false,
    }
}

/// Whether a variable is set to the flag.
fn setting_is(setting: &EnvSetting, flag: &str) -> (r: bool)
    ensures
        r == is_flag(*setting, flag@),
{
    match setting {
        EnvSetting::Value(value) => same_text(normalized_env_flag(value.as_str()).as_str(), flag),
        _ => false,
    }
}

/// Whether the settings ask for no color.
pub fn should_disable_color_from_settings(
    clicolor_force: &EnvSetting,
    force_color: &EnvSetting,
    no_color: &EnvSetting,
    clicolor: &EnvSetting,
    term: &EnvSetting,
) -> (r: bool)
    ensures
        r == colorless(*clicolor_force, *force_color, *no_color, *clicolor, *term),
{
    if forces_color(clicolor_force) {
        return false;
    }
    if forces_color(force_color) {
        return false;
    }
    match no_color {
        EnvSetting::Value(value) => {
            if env_requests_no_color(value.as_str()) {
                return true;
            }
        },
        EnvSetting::NonUnicode => return true,
        EnvSetting::Missing => {},
    }
    setting_is(clicolor, "0") || setting_is(term, "dumb")
}

/// The environment variables that decide on color.
pub const COLOR_VARIABLES: [&'static str; 5] = [
    "CLICOLOR_FORCE",
    "FORCE_COLOR",
    "NO_COLOR",
    "CLICOLOR",
    "TERM",
];

/// How `name` is set in `environment`; the first entry counts.
pub open spec fn setting(environment: Seq<(String, EnvSetting)>, name: Seq<char>) -> EnvSetting
    decreases environment.len(),
{
    if environment.len() == 0 {
        EnvSetting::Missing
    } else if environment[0].0@ == name {
        environment[0].1
    } else {
        setting(environment.drop_first(), name)
    }
}

/// How `name` is set in `environment`; the first entry counts.
pub fn read_env_setting<'a>(environment: &'a [(String, EnvSetting)], name: &str) -> (r:
    &'a EnvSetting)
    ensures
        *r == setting(environment@, name@),
{
    assert(environment@.skip(0) =~= environment@);
    for i in 0..environment.len()
        invariant
            setting(environment@, name@) == setting(environment@.skip(i as int), name@),
    {
        if same_text(environment[i].0.as_str(), name) {
            return &environment[i].1;
        }
        assert(environment@.skip(i as int).drop_first() =~= environment@.skip(i + 1));
    }
    &EnvSetting::Missing
}

/// Whether `environment` asks for no color.
pub open spec fn environment_is_colorless(environment: Seq<(String, EnvSetting)>) -> bool {
    colorless(
        setting(environment, "CLICOLOR_FORCE"@),
        setting(environment, "FORCE_COLOR"@),
        setting(environment, "NO_COLOR"@),
        setting(environment, "CLICOLOR"@),
        setting(environment, "TERM"@),
    )
}

/// Whether `environment` explicitly requests colorless child output.
pub fn should_disable_color(environment: &[(String, EnvSetting)]) -> (r: bool)
    ensures
        r == environment_is_colorless(environment@),
{
    should_disable_color_from_settings(
        read_env_setting(environment, "CLICOLOR_FORCE"),
        read_env_setting(environment, "FORCE_COLOR"),
        read_env_setting(environment, "NO_COLOR"),
        read_env_setting(environment, "CLICOLOR"),
        read_env_setting(environment, "TERM"),
    )
}

/// A variable that forces color wins over every other setting.
pub proof fn law_forced_color_wins(
    clicolor_force: EnvSetting,
    force_color: EnvSetting,
    no_color: EnvSetting,
    clicolor: EnvSetting,
    term: EnvSetting,
)
    requires
        forces(clicolor_force) || forces(force_color),
    ensures
        !colorless(clicolor_force, force_color, no_color, clicolor, term),
{
}

/// Color stays where nothing is said against it: no `NO_COLOR`, no `CLICOLOR` and no `TERM`.
pub proof fn law_color_stays_by_default(clicolor_force: EnvSetting, force_color: EnvSetting)
    ensures
        !colorless(
            clicolor_force,
            force_color,
            EnvSetting::Missing,
            EnvSetting::Missing,
            EnvSetting::Missing,
        ),
{
}

/// The variables that a child process is given so that it writes without color: the common
/// ones, and those of single ecosystems, which other tools ignore.
pub open spec fn color_assignments() -> Seq<(Seq<char>, Seq<char>)> {
    seq![
        ("NO_COLOR"@, "1"@),
        ("CLICOLOR"@, "0"@),
        ("CLICOLOR_FORCE"@, "0"@),
        ("FORCE_COLOR"@, "0"@),
        ("CARGO_TERM_COLOR"@, "never"@),
        ("npm_config_color"@, "false"@),
        ("PY_COLORS"@, "0"@),
    ]
}

/// The variables and values as texts.
pub open spec fn pairs(assignments: Seq<(String, String)>) -> Seq<(Seq<char>, Seq<char>)> {
    Seq::new(assignments.len(), |i: int| (assignments[i].0@, assignments[i].1@))
}

/// The variables that child processes are given in `environment`: none where it does not ask for
/// no color.
pub fn color_policy(environment: &[(String, EnvSetting)]) -> (r: Vec<(String, String)>)
    ensures
        pairs(r@) == if environment_is_colorless(environment@) {
            color_assignments()
        } else {
            Seq::empty()
        },
{
    let mut out: Vec<(String, String)> = Vec::new();
    if !should_disable_color(environment) {
        assert(pairs(out@) =~= Seq::empty());
        return out;
    }
    out.push(("NO_COLOR".to_owned(), "1".to_owned()));
    out.push(("CLICOLOR".to_owned(), "0".to_owned()));
    out.push(("CLICOLOR_FORCE".to_owned(), "0".to_owned()));
    out.push(("FORCE_COLOR".to_owned(), "0".to_owned()));
    out.push(("CARGO_TERM_COLOR".to_owned(), "never".to_owned()));
    out.push(("npm_config_color".to_owned(), "false".to_owned()));
    out.push(("PY_COLORS".to_owned(), "0".to_owned()));
    assert(pairs(out@) =~= color_assignments());
    out
}

/// A one-character flag that is no white space and no capital letter is its own normal form.
proof fn lemma_normalized_single(c: char)
    requires
        c == '0' || c == '1',
    ensures
        normalized(seq![c]) == seq![c],
{
    reveal_with_fuel(trim_start, 2);
    reveal_with_fuel(trim_end, 2);
    assert(trimmed(seq![c]) == seq![c]);
    assert(lower(seq![c]) =~= seq![c]);
}

/// A child process in the environment that it is given asks for no color too: the policy passes
/// down, whatever else is set there.
pub proof fn law_policy_passes_down(environment: Seq<(String, EnvSetting)>)
    requires
        setting(environment, "NO_COLOR"@) matches EnvSetting::Value(value) && value@ == "1"@,
        setting(environment, "CLICOLOR_FORCE"@) matches EnvSetting::Value(value) && value@ == "0"@,
        setting(environment, "FORCE_COLOR"@) matches EnvSetting::Value(value) && value@ == "0"@,
    ensures
        environment_is_colorless(environment),
{
    reveal_strlit("0");
    reveal_strlit("1");
    reveal_strlit("false");
    reveal_strlit("off");
    reveal_strlit("no");
    lemma_normalized_single('0');
    lemma_normalized_single('1');
    assert("0"@ =~= seq!['0']);
    assert("1"@ =~= seq!['1']);
    assert("1"@[0] != "0"@[0]);
    assert("1"@.len() != "false"@.len());
    assert("1"@.len() != "off"@.len());
    assert("1"@.len() != "no"@.len());
}

} // verus!
