use rtk_core::color::{
    color_policy, env_flag_is_zeroish, env_requests_no_color, normalized_env_flag,
    read_env_setting, should_disable_color, should_disable_color_from_settings, EnvSetting,
};

fn environment(variables: &[(&str, &str)]) -> Vec<(String, EnvSetting)> {
    let mut out = Vec::new();
    for (name, value) in variables {
        out.push((name.to_string(), EnvSetting::Value(value.to_string())));
    }
    out
}

#[test]
fn test_env_flag_helpers() {
    assert!(env_flag_is_zeroish("0"));
    assert!(env_flag_is_zeroish("false"));
    assert!(env_requests_no_color(""));
    assert!(env_requests_no_color("1"));
    assert!(!env_requests_no_color("0"));
}

#[test]
fn test_should_disable_color_from_settings() {
    assert!(should_disable_color_from_settings(
        &EnvSetting::Missing,
        &EnvSetting::Missing,
        &EnvSetting::Value("1".to_string()),
        &EnvSetting::Missing,
        &EnvSetting::Missing,
    ));
    assert!(should_disable_color_from_settings(
        &EnvSetting::Missing,
        &EnvSetting::Missing,
        &EnvSetting::Missing,
        &EnvSetting::Value("0".to_string()),
        &EnvSetting::Missing,
    ));
    assert!(should_disable_color_from_settings(
        &EnvSetting::Missing,
        &EnvSetting::Missing,
        &EnvSetting::Missing,
        &EnvSetting::Missing,
        &EnvSetting::Value("dumb".to_string()),
    ));
    assert!(!should_disable_color_from_settings(
        &EnvSetting::Value("1".to_string()),
        &EnvSetting::Missing,
        &EnvSetting::Value("1".to_string()),
        &EnvSetting::Missing,
        &EnvSetting::Missing,
    ));
    assert!(!should_disable_color_from_settings(
        &EnvSetting::Missing,
        &EnvSetting::Value("1".to_string()),
        &EnvSetting::Value("1".to_string()),
        &EnvSetting::Missing,
        &EnvSetting::Missing,
    ));
}

#[test]
fn flags_are_read_without_space_and_case() {
    assert_eq!(normalized_env_flag(" FALSE\t"), "false");
    for flag in ["", "  ", "0", " Off ", "NO", "False"] {
        assert!(env_flag_is_zeroish(flag), "{:?}", flag);
    }
    for flag in ["1", "true", "00", "none"] {
        assert!(!env_flag_is_zeroish(flag), "{:?}", flag);
        assert!(env_requests_no_color(flag), "{:?}", flag);
    }
    for flag in ["no", "OFF", "false "] {
        assert!(!env_requests_no_color(flag), "{:?}", flag);
    }
}

#[test]
fn color_stays_by_default() {
    assert!(!should_disable_color(&[]));
    assert!(!should_disable_color(&environment(&[("TERM", "xterm"), ("CLICOLOR", "1")])));
    assert!(color_policy(&[]).is_empty());
}

#[test]
fn forced_color_wins() {
    let everything_off = [("NO_COLOR", "1"), ("CLICOLOR", "0"), ("TERM", "dumb")];
    assert!(should_disable_color(&environment(&everything_off)));
    for forced in ["CLICOLOR_FORCE", "FORCE_COLOR"] {
        let mut variables = everything_off.to_vec();
        variables.push((forced, "1"));
        assert!(!should_disable_color(&environment(&variables)));
        variables.pop();
        variables.push((forced, "0"));
        assert!(should_disable_color(&environment(&variables)));
    }
}

#[test]
fn a_setting_that_is_no_text_counts_for_no_color_only() {
    for name in ["CLICOLOR_FORCE", "FORCE_COLOR", "NO_COLOR", "CLICOLOR", "TERM"] {
        let variables = vec![(name.to_string(), EnvSetting::NonUnicode)];
        assert_eq!(should_disable_color(&variables), name == "NO_COLOR");
    }
}

#[test]
fn the_first_entry_of_a_variable_counts() {
    let variables = environment(&[("A", "1"), ("B", "2"), ("A", "3")]);
    assert_eq!(*read_env_setting(&variables, "A"), EnvSetting::Value("1".to_string()));
    assert_eq!(*read_env_setting(&variables, "C"), EnvSetting::Missing);
}

#[test]
fn the_policy_passes_down() {
    let assigned = color_policy(&environment(&[("NO_COLOR", "")]));
    let expected = [
        ("NO_COLOR", "1"),
        ("CLICOLOR", "0"),
        ("CLICOLOR_FORCE", "0"),
        ("FORCE_COLOR", "0"),
        ("CARGO_TERM_COLOR", "never"),
        ("npm_config_color", "false"),
        ("PY_COLORS", "0"),
    ];
    assert_eq!(assigned.len(), expected.len());
    for (given, wanted) in assigned.iter().zip(expected) {
        assert_eq!((given.0.as_str(), given.1.as_str()), wanted);
    }
    assert!(should_disable_color(&environment(&expected)));
}
