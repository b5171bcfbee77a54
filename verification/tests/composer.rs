use rtk_core::composer::{
    composer_bin_dirs_from, composer_bin_dirs_with, composer_tool_paths, is_default_dir,
    is_same_path, read_composer_bin_dir, PathRules, ToolPath,
};
use std::path::{Path, PathBuf};

#[test]
fn test_composer_bin_dirs_use_default_when_unconfigured() {
    assert_eq!(
        composer_bin_dirs_from(None, None, PathRules::Unix),
        vec!["vendor/bin"]
    );
}

#[test]
fn test_composer_bin_dirs_prefer_env_override() {
    let composer_json = r#"{"config":{"bin-dir":"tools/bin"}}"#;
    assert_eq!(
        composer_bin_dirs_from(Some("custom/bin"), Some(composer_json), PathRules::Unix),
        vec!["custom/bin", "vendor/bin"]
    );
}

#[test]
fn test_composer_bin_dirs_read_composer_config() {
    let composer_json = r#"{"config":{"bin-dir":"tools/bin"}}"#;
    assert_eq!(
        composer_bin_dirs_from(None, Some(composer_json), PathRules::Unix),
        vec!["tools/bin", "vendor/bin"]
    );
}

#[test]
fn bin_dir_is_read_from_json() {
    let cases = [
        (r#"{"config":{"bin-dir":" tools/bin "}}"#, Some("tools/bin")),
        (r#"{"config":{"bin-dir":"a"},"config":{"bin-dir":"b"}}"#, Some("b")),
        (r#"{"config":{"bin-dir":"  "}}"#, None),
        (r#"{"config":{"bin-dir":3}}"#, None),
        (r#"{"config":{}}"#, None),
        (r#"{"config":"bin-dir"}"#, None),
        (r#"["config"]"#, None),
        (r#"{"config":{"bin-dir":"a"}"#, None),
        ("", None),
    ];
    for (json, dir) in cases {
        assert_eq!(read_composer_bin_dir(json).as_deref(), dir, "{}", json);
    }
}

#[test]
fn default_dir_is_always_searched() {
    assert_eq!(composer_bin_dirs_with(None, Some("x"), PathRules::Unix), vec!["x", "vendor/bin"]);
    assert_eq!(composer_bin_dirs_with(Some(" "), Some("x"), PathRules::Unix), vec!["x", "vendor/bin"]);
    assert_eq!(composer_bin_dirs_with(Some(" "), Some("\t"), PathRules::Unix), vec!["vendor/bin"]);
    assert_eq!(composer_bin_dirs_with(Some("vendor//bin/"), None, PathRules::Unix), vec!["vendor//bin/"]);
    assert_eq!(
        composer_bin_dirs_with(Some("./vendor/bin"), None, PathRules::Unix),
        vec!["./vendor/bin", "vendor/bin"]
    );
    assert_eq!(
        composer_bin_dirs_from(
            None,
            Some(r#"{"config":{"bin-dir":"vendor/./bin"}}"#),
            PathRules::Unix
        ),
        vec!["vendor/./bin"]
    );
}

#[test]
fn environment_overrides_configuration() {
    for config in [None, Some("x"), Some("")] {
        assert_eq!(composer_bin_dirs_with(Some(" e "), config, PathRules::Unix), vec!["e", "vendor/bin"]);
    }
}

#[test]
fn paths_are_compared_as_on_unix() {
    let paths = [
        "", ".", "./", "/", "//", "/.", "a", "a/", "./a", "a/.", "a//b", "a/b", "a/./b", "/a/b",
        "..", "a/..", "../a", "vendor/bin", "vendor/bin/.", ".a", "a.", "...",
    ];
    for a in paths {
        for b in paths {
            assert_eq!(is_same_path(a, b), Path::new(a) == Path::new(b), "{:?} {:?}", a, b);
        }
        let default = Path::new(a) == Path::new("vendor/bin");
        assert_eq!(is_default_dir(a, PathRules::Unix), default, "{:?}", a);
    }
}

#[test]
fn tools_are_looked_for_in_each_dir() {
    let dirs = vec!["".to_string(), "/".to_string(), "a".to_string(), "a/b/".to_string()];
    for tool in ["", "phpunit", "sub/tool", "/abs"] {
        let paths = composer_tool_paths(&dirs, tool, PathRules::Unix);
        let expected: Vec<PathBuf> = dirs.iter().map(|d| Path::new(d).join(tool)).collect();
        assert_eq!(paths.len(), expected.len());
        for (path, wanted) in paths.iter().zip(expected) {
            assert!(matches!(path, ToolPath::Path(text) if text == wanted.to_str().unwrap()));
        }
    }
}

#[test]
fn backslashes_separate_names_on_windows_only() {
    for dir in ["vendor\\bin", "vendor\\.\\bin\\", "vendor/\\bin"] {
        assert!(is_default_dir(dir, PathRules::Windows), "{}", dir);
        assert!(!is_default_dir(dir, PathRules::Unix), "{}", dir);
        assert_eq!(composer_bin_dirs_with(Some(dir), None, PathRules::Windows), vec![dir]);
        assert_eq!(
            composer_bin_dirs_with(Some(dir), None, PathRules::Unix),
            vec![dir, "vendor/bin"]
        );
    }
    for dir in ["C:vendor\\bin", "\\vendor\\bin", "\\\\vendor\\bin", ".\\vendor\\bin", "Vendor\\bin"] {
        assert!(!is_default_dir(dir, PathRules::Windows), "{}", dir);
    }
}

/// Where the one tool is looked for on Windows, as text.
fn windows_path(dir: &str, tool: &str) -> String {
    match &composer_tool_paths(&[dir.to_string()], tool, PathRules::Windows)[0] {
        ToolPath::Path(path) => path.clone(),
        ToolPath::Join { dir, tool } => format!("join {} {}", dir, tool),
    }
}

#[test]
fn the_platform_joins_paths_with_a_prefix() {
    assert_eq!(windows_path("vendor/bin", "phpunit"), "vendor/bin\\phpunit");
    assert_eq!(windows_path("vendor\\bin\\", "phpunit"), "vendor\\bin\\phpunit");
    assert_eq!(windows_path("a", "\\root"), "\\root");
    assert_eq!(windows_path("", "phpunit"), "phpunit");
    assert_eq!(windows_path("C:\\tools", "phpunit"), "join C:\\tools phpunit");
    assert_eq!(windows_path("a", "C:phpunit"), "join a C:phpunit");
    assert_eq!(windows_path("\\\\server\\share", "x"), "join \\\\server\\share x");
}
