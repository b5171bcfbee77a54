//! Laws of the color policy.

use vstd::prelude::*;
use crate::chars::{lower, lower_char, trimmed, white_space};
use crate::color::{
    color_assignments, color_policy, env_flag_is_zeroish, env_requests_no_color, normalized,
    normalized_env_flag, pairs, read_env_setting, setting, should_disable_color,
    should_disable_color_from_settings, EnvSetting,
};
use crate::laws::text::{blank, law_trimmed, tight};

verus! {

/// Whether `b` is `a` with the capital letters of ASCII turned into small ones.
pub open spec fn small_form(a: Seq<char>, b: Seq<char>) -> bool {
    &&& a.len() == b.len()
    &&& forall|i: int|
        0 <= i < a.len() ==> if 'A' <= #[trigger] a[i] <= 'Z' {
            b[i] as int == a[i] as int + 32
        } else {
            b[i] == a[i]
        }
}

/// Whether a flag is the word: between white space, in small letters or capital ones.
pub open spec fn says(value: Seq<char>, word: Seq<char>) -> bool {
    exists|before: Seq<char>, core: Seq<char>, after: Seq<char>|
        {
            &&& value == #[trigger] (before + core + after)
            &&& blank(before)
            &&& tight(core)
            &&& blank(after)
            &&& small_form(core, word)
        }
}

/// What is trimmed stands between white space.
proof fn lemma_trim_parts(value: Seq<char>) -> (parts: (Seq<char>, Seq<char>))
    ensures
        value == parts.0 + trimmed(value) + parts.1,
        blank(parts.0),
        tight(trimmed(value)),
        blank(parts.1),
    decreases value.len(),
{
    let none = Seq::<char>::empty();
    if value.len() == 0 {
        assert(none + none + none =~= value);
        law_trimmed(none, none, none);
        (none, none)
    } else if white_space(value[0]) {
        let (before, after) = lemma_trim_parts(value.drop_first());
        let core = trimmed(value.drop_first());
        let longer = seq![value[0]] + before;
        assert forall|i: int| 0 <= i < longer.len() implies white_space(
            #[trigger] longer[i],
        ) by {
            if i > 0 {
                assert(white_space(before[i - 1]));
            }
        }
        assert(longer + core + after =~= seq![value[0]] + (before + core + after));
        assert(seq![value[0]] + value.drop_first() =~= value);
        law_trimmed(longer, core, after);
        (longer, after)
    } else if white_space(value.last()) {
        let (before, after) = lemma_trim_parts(value.drop_last());
        let core = trimmed(value.drop_last());
        let longer = after.push(value.last());
        assert forall|i: int| 0 <= i < longer.len() implies white_space(
            #[trigger] longer[i],
        ) by {
            if i < after.len() {
                assert(white_space(after[i]));
            }
        }
        assert(before + core + longer =~= (before + core + after).push(value.last()));
        assert(value.drop_last().push(value.last()) =~= value);
        law_trimmed(before, core, longer);
        (before, longer)
    } else {
        assert(none + value + none =~= value);
        law_trimmed(none, value, none);
        (none, none)
    }
}

/// The form in which a flag is read is the word that it says.
pub proof fn law_normal_form(value: Seq<char>, word: Seq<char>)
    ensures
        says(value, word) <==> normalized(value) == word,
{
    let (before, after) = lemma_trim_parts(value);
    let core = trimmed(value);
    lemma_small_form(core);
    if normalized(value) == word {
        assert(value == before + core + after);
    }
    if says(value, word) {
        let (b, c, a) = choose|b: Seq<char>, c: Seq<char>, a: Seq<char>|
            {
                &&& value == #[trigger] (b + c + a)
                &&& blank(b)
                &&& tight(c)
                &&& blank(a)
                &&& small_form(c, word)
            };
        law_trimmed(b, c, a);
        lemma_small_form_is_unique(core, word, lower(core));
    }
}

/// Small letters are the small form.
proof fn lemma_small_form(s: Seq<char>)
    ensures
        small_form(s, lower(s)),
{
    assert forall|i: int| 0 <= i < s.len() implies if 'A' <= #[trigger] s[i] <= 'Z' {
        lower(s)[i] as int == s[i] as int + 32
    } else {
        lower(s)[i] == s[i]
    } by {
        assert(lower(s)[i] == lower_char(s[i]));
    }
}

/// There is just one small form.
proof fn lemma_small_form_is_unique(s: Seq<char>, a: Seq<char>, b: Seq<char>)
    requires
        small_form(s, a),
        small_form(s, b),
    ensures
        a == b,
{
    assert forall|i: int| 0 <= i < a.len() implies a[i] == b[i] by {
        let c = s[i];
        if 'A' <= c <= 'Z' {
            assert(a[i] as int == b[i] as int);
        }
    }
    assert(a =~= b);
}

/// A flag is read without the white space around it, in small letters.
pub proof fn law_normalized_env_flag(flag: &str, word: Seq<char>, r: String)
    requires
        call_ensures(normalized_env_flag, (flag,), r),
    ensures
        says(flag@, word) <==> r@ == word,
{
    law_normal_form(flag@, word);
}

/// Whether a flag says `0`, `false`, `off` or `no`.
pub open spec fn says_no(value: Seq<char>) -> bool {
    says(value, "0"@) || says(value, "false"@) || says(value, "off"@) || says(value, "no"@)
}

/// The four words for no, in normal form.
proof fn lemma_says_no(value: Seq<char>)
    ensures
        says_no(value) <==> (normalized(value) == "0"@ || normalized(value) == "false"@
            || normalized(value) == "off"@ || normalized(value) == "no"@),
        says(value, ""@) <==> normalized(value) == ""@,
{
    law_normal_form(value, ""@);
    law_normal_form(value, "0"@);
    law_normal_form(value, "false"@);
    law_normal_form(value, "off"@);
    law_normal_form(value, "no"@);
}

/// A flag is off if it says nothing, or one of four words; `NO_COLOR` counts unless it says one
/// of the four words.
pub proof fn law_flags(flag: &str, off: bool, requested: bool)
    requires
        call_ensures(env_flag_is_zeroish, (flag,), off),
        call_ensures(env_requests_no_color, (flag,), requested),
    ensures
        off == (says(flag@, ""@) || says_no(flag@)),
        requested == !says_no(flag@),
{
    lemma_says_no(flag@);
}

/// Whether a setting is a text that says neither nothing nor one of the four words for no.
pub open spec fn is_on(s: EnvSetting) -> bool {
    s matches EnvSetting::Value(value) && !says(value@, ""@) && !says_no(value@)
}

/// Color is kept where `CLICOLOR_FORCE` or `FORCE_COLOR` is on, whatever else is set. Otherwise it
/// goes if `NO_COLOR` is set to anything but a word for no, if `CLICOLOR` says `0`, or if the
/// terminal is dumb; and only then.
pub proof fn law_should_disable_color_from_settings(
    clicolor_force: &EnvSetting,
    force_color: &EnvSetting,
    no_color: &EnvSetting,
    clicolor: &EnvSetting,
    term: &EnvSetting,
    r: bool,
)
    requires
        call_ensures(
            should_disable_color_from_settings,
            (clicolor_force, force_color, no_color, clicolor, term),
            r,
        ),
    ensures
        is_on(*clicolor_force) || is_on(*force_color) ==> !r,
        !is_on(*clicolor_force) && !is_on(*force_color) ==> {
            &&& *no_color is NonUnicode ==> r
            &&& *no_color matches EnvSetting::Value(value) ==> (!says_no(value@) ==> r)
            &&& *clicolor matches EnvSetting::Value(value) ==> (says(value@, "0"@) ==> r)
            &&& *term matches EnvSetting::Value(value) ==> (says(value@, "dumb"@) ==> r)
        },
        r ==> {
            ||| *no_color is NonUnicode
            ||| *no_color matches EnvSetting::Value(value) && !says_no(value@)
            ||| *clicolor matches EnvSetting::Value(value) && says(value@, "0"@)
            ||| *term matches EnvSetting::Value(value) && says(value@, "dumb"@)
        },
{
    lemma_setting(*clicolor_force);
    lemma_setting(*force_color);
    lemma_setting(*no_color);
    lemma_setting(*clicolor);
    lemma_setting(*term);
}

/// What a setting says, in normal form.
proof fn lemma_setting(s: EnvSetting)
    ensures
        s matches EnvSetting::Value(value) ==> {
            &&& says_no(value@) <==> (normalized(value@) == "0"@ || normalized(value@) == "false"@
                || normalized(value@) == "off"@ || normalized(value@) == "no"@)
            &&& says(value@, ""@) <==> normalized(value@) == ""@
            &&& says(value@, "0"@) <==> normalized(value@) == "0"@
            &&& says(value@, "dumb"@) <==> normalized(value@) == "dumb"@
        },
{
    if let EnvSetting::Value(value) = s {
        lemma_says_no(value@);
        law_normal_form(value@, "0"@);
        law_normal_form(value@, "dumb"@);
    }
}

/// Whether `s` is how `name` is set: its first entry, or nothing where it has none.
pub open spec fn is_setting_of(
    environment: Seq<(String, EnvSetting)>,
    name: Seq<char>,
    s: EnvSetting,
) -> bool {
    ||| exists|i: int|
        {
            &&& 0 <= i < environment.len()
            &&& (#[trigger] environment[i]).0@ == name
            &&& environment[i].1 == s
            &&& forall|j: int| 0 <= j < i ==> (#[trigger] environment[j]).0@ != name
        }
    ||| s is Missing && forall|j: int|
        0 <= j < environment.len() ==> (#[trigger] environment[j]).0@ != name
}

/// The first entry counts, and there is just one such setting.
proof fn lemma_setting_of(environment: Seq<(String, EnvSetting)>, name: Seq<char>)
    ensures
        is_setting_of(environment, name, setting(environment, name)),
    decreases environment.len(),
{
    if environment.len() > 0 {
        if environment[0].0@ == name {
            assert(environment[0].1 == setting(environment, name));
        } else {
            let rest = environment.drop_first();
            lemma_setting_of(rest, name);
            let s = setting(rest, name);
            if exists|i: int|
                {
                    &&& 0 <= i < rest.len()
                    &&& (#[trigger] rest[i]).0@ == name
                    &&& rest[i].1 == s
                    &&& forall|j: int| 0 <= j < i ==> (#[trigger] rest[j]).0@ != name
                } {
                let i = choose|i: int|
                    {
                        &&& 0 <= i < rest.len()
                        &&& (#[trigger] rest[i]).0@ == name
                        &&& rest[i].1 == s
                        &&& forall|j: int| 0 <= j < i ==> (#[trigger] rest[j]).0@ != name
                    };
                assert(environment[i + 1] == rest[i]);
                assert forall|j: int| 0 <= j < i + 1 implies (#[trigger] environment[j]).0@
                    != name by {
                    if j > 0 {
                        assert(environment[j] == rest[j - 1]);
                    }
                }
            } else {
                assert forall|j: int| 0 <= j < environment.len() implies (
                #[trigger] environment[j]).0@ != name by {
                    if j > 0 {
                        assert(environment[j] == rest[j - 1]);
                    }
                }
            }
        }
    }
}

/// A variable is set as its first entry says, and missing without one.
pub proof fn law_read_env_setting(
    environment: &[(String, EnvSetting)],
    name: &str,
    r: &EnvSetting,
)
    requires
        call_ensures(read_env_setting, (environment, name), r),
    ensures
        is_setting_of(environment@, name@, *r),
{
    lemma_setting_of(environment@, name@);
}

/// The environment decides through five variables, as their settings do; and the policy for
/// children is seven variables where color goes, and none where it stays.
pub proof fn law_should_disable_color(
    environment: &[(String, EnvSetting)],
    clicolor_force: &EnvSetting,
    force_color: &EnvSetting,
    no_color: &EnvSetting,
    clicolor: &EnvSetting,
    term: &EnvSetting,
    by_settings: bool,
    r: bool,
    policy: Vec<(String, String)>,
)
    requires
        call_ensures(read_env_setting, (environment, "CLICOLOR_FORCE"), clicolor_force),
        call_ensures(read_env_setting, (environment, "FORCE_COLOR"), force_color),
        call_ensures(read_env_setting, (environment, "NO_COLOR"), no_color),
        call_ensures(read_env_setting, (environment, "CLICOLOR"), clicolor),
        call_ensures(read_env_setting, (environment, "TERM"), term),
        call_ensures(
            should_disable_color_from_settings,
            (clicolor_force, force_color, no_color, clicolor, term),
            by_settings,
        ),
        call_ensures(should_disable_color, (environment,), r),
        call_ensures(color_policy, (environment,), policy),
    ensures
        r == by_settings,
        !r ==> policy@.len() == 0,
        r ==> {
            &&& policy@.len() == 7
            &&& policy@[0].0@ == "NO_COLOR"@ && policy@[0].1@ == "1"@
            &&& policy@[1].0@ == "CLICOLOR"@ && policy@[1].1@ == "0"@
            &&& policy@[2].0@ == "CLICOLOR_FORCE"@ && policy@[2].1@ == "0"@
            &&& policy@[3].0@ == "FORCE_COLOR"@ && policy@[3].1@ == "0"@
            &&& policy@[4].0@ == "CARGO_TERM_COLOR"@ && policy@[4].1@ == "never"@
            &&& policy@[5].0@ == "npm_config_color"@ && policy@[5].1@ == "false"@
            &&& policy@[6].0@ == "PY_COLORS"@ && policy@[6].1@ == "0"@
        },
{
    let given = pairs(policy@);
    assert(given.len() == policy@.len());
    if r {
        assert(given == color_assignments());
        assert(given[0] == (policy@[0].0@, policy@[0].1@));
        assert(given[1] == (policy@[1].0@, policy@[1].1@));
        assert(given[2] == (policy@[2].0@, policy@[2].1@));
        assert(given[3] == (policy@[3].0@, policy@[3].1@));
        assert(given[4] == (policy@[4].0@, policy@[4].1@));
        assert(given[5] == (policy@[5].0@, policy@[5].1@));
        assert(given[6] == (policy@[6].0@, policy@[6].1@));
    }
}

/// A variable that forces color wins over everything: with `CLICOLOR_FORCE` or `FORCE_COLOR` set
/// to a text that is none of `""`, `0`, `false`, `off` and `no`, in any case and between any white
/// space, color is never disabled.
pub proof fn law_force_keeps_color(
    environment: &[(String, EnvSetting)],
    name: Seq<char>,
    forced: EnvSetting,
    r: bool,
)
    requires
        call_ensures(should_disable_color, (environment,), r),
        name == "CLICOLOR_FORCE"@ || name == "FORCE_COLOR"@,
        is_setting_of(environment@, name, forced),
        is_on(forced),
    ensures
        !r,
{
    lemma_setting_of(environment@, name);
    let found = setting(environment@, name);
    assert(found == forced) by {
        lemma_setting_is_unique(environment@, name, found, forced);
    }
    lemma_setting(forced);
}

/// There is just one way in which a variable is set.
proof fn lemma_setting_is_unique(
    environment: Seq<(String, EnvSetting)>,
    name: Seq<char>,
    a: EnvSetting,
    b: EnvSetting,
)
    requires
        is_setting_of(environment, name, a),
        is_setting_of(environment, name, b),
    ensures
        a == b,
{
}

} // verus!
