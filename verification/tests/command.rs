use rtk_core::color::EnvSetting;
use rtk_core::command::{
    apply_color_policy, detect_package_manager, package_manager_exec, package_runner,
    resolve_binary, resolved_command, ruby_exec, ruby_program, CommandLine, Program, Workspace,
};
use std::path::Path;

#[test]
fn test_detect_package_manager_default() {
    let pm = detect_package_manager(
        Path::new("pnpm-lock.yaml").exists(),
        Path::new("yarn.lock").exists(),
    );
    assert!(["pnpm", "yarn", "npm"].contains(&pm));
}

fn workspace(environment: &[(String, EnvSetting)]) -> Workspace<'_> {
    Workspace { pnpm_lock: false, yarn_lock: false, gemfile: false, verbose: true, environment }
}

fn colorless() -> Vec<(String, EnvSetting)> {
    vec![("NO_COLOR".to_string(), EnvSetting::Value("1".to_string()))]
}

fn program_of(command: &CommandLine<&str>) -> String {
    match &command.program {
        Program::Found(path) => format!("path {}", path),
        Program::Named(name) => format!("name {}", name),
    }
}

#[test]
fn lock_files_speak_for_a_package_manager() {
    assert_eq!(detect_package_manager(true, true), "pnpm");
    assert_eq!(detect_package_manager(true, false), "pnpm");
    assert_eq!(detect_package_manager(false, true), "yarn");
    assert_eq!(detect_package_manager(false, false), "npm");
    assert_eq!(package_runner(false, false), "npx");
}

#[test]
fn a_program_that_is_not_found_is_run_by_its_name() {
    let missing: Result<&str, String> = resolve_binary("tool", None);
    assert_eq!(missing, Err("Binary 'tool' not found on PATH".to_string()));
    assert_eq!(resolve_binary("tool", Some("/bin/tool")), Ok("/bin/tool"));

    let mut surroundings = workspace(&[]);
    let resolved = resolved_command("tool", None::<&str>, &surroundings);
    assert_eq!(program_of(&resolved.command), "name tool");
    assert_eq!(
        resolved.warning.unwrap(),
        "rtk: Failed to resolve 'tool' via PATH, falling back to direct exec: \
         Binary 'tool' not found on PATH"
    );
    surroundings.verbose = false;
    assert!(resolved_command("tool", None::<&str>, &surroundings).warning.is_none());

    let resolved = resolved_command("tool", Some("/bin/tool"), &surroundings);
    assert_eq!(program_of(&resolved.command), "path /bin/tool");
    assert!(resolved.command.args.is_empty() && resolved.command.env.is_empty());
}

#[test]
fn a_tool_runs_itself_or_through_the_package_manager() {
    let mut surroundings = workspace(&[]);
    let run = package_manager_exec("tsc", Some("/bin/tsc"), Some("/bin/npx"), &surroundings);
    assert_eq!(program_of(&run.command), "path /bin/tsc");
    assert!(run.command.args.is_empty());

    let run = package_manager_exec("tsc", None, Some("/bin/npx"), &surroundings);
    assert_eq!(program_of(&run.command), "path /bin/npx");
    assert_eq!(run.command.args, vec!["--no-install", "--", "tsc"]);

    surroundings.yarn_lock = true;
    let run = package_manager_exec("tsc", None, None::<&str>, &surroundings);
    assert_eq!(program_of(&run.command), "name yarn");
    assert_eq!(run.command.args, vec!["exec", "--", "tsc"]);

    surroundings.pnpm_lock = true;
    let run = package_manager_exec("tsc", None, None::<&str>, &surroundings);
    assert_eq!(program_of(&run.command), "name pnpm");
    assert_eq!(run.command.args, vec!["exec", "--", "tsc"]);
}

#[test]
fn ruby_tools_run_through_the_bundler_where_there_is_a_gemfile() {
    let mut surroundings = workspace(&[]);
    let run = ruby_exec("rake", Some("/bin/rake"), &surroundings);
    assert_eq!(program_of(&run.command), "path /bin/rake");
    assert!(run.command.args.is_empty());
    surroundings.gemfile = true;
    assert_eq!(ruby_program("rake", true), "bundle");
    let run = ruby_exec("rake", None::<&str>, &surroundings);
    assert_eq!(program_of(&run.command), "name bundle");
    assert_eq!(run.command.args, vec!["exec", "rake"]);
}

#[test]
fn the_color_policy_overrides_and_is_idempotent() {
    let environment = colorless();
    let mut command = CommandLine::new(Program::Found("/bin/x"));
    command.set_env("NO_COLOR", "0");
    command.set_env("KEPT", "yes");
    let value = |command: &CommandLine<&str>, name: &str| {
        let mut last = None;
        for (key, value) in &command.env {
            if key == name {
                last = Some(value.clone());
            }
        }
        last
    };
    apply_color_policy(&mut command, &[]);
    assert_eq!(value(&command, "NO_COLOR").as_deref(), Some("0"));
    for _ in 0..2 {
        apply_color_policy(&mut command, &environment);
        assert_eq!(value(&command, "NO_COLOR").as_deref(), Some("1"));
        assert_eq!(value(&command, "CARGO_TERM_COLOR").as_deref(), Some("never"));
        assert_eq!(value(&command, "KEPT").as_deref(), Some("yes"));
    }
    let resolved = resolved_command("x", Some("/bin/x"), &workspace(&environment));
    assert_eq!(value(&resolved.command, "FORCE_COLOR").as_deref(), Some("0"));
}

#[test]
fn test_resolve_binary_fails_for_unknown() {
    let name = "nonexistent_binary_xyz_99999";
    let result = resolve_binary(name, which::which(name).ok());
    assert!(
        result.is_err(),
        "resolve_binary should fail for nonexistent binary"
    );
}
