//! Laws of command lines.

use vstd::prelude::*;
use crate::chars::{opt_text, texts};
use crate::color::{
    color_assignments, environment_is_colorless, pairs, should_disable_color, EnvSetting,
};
use crate::command::{
    apply_color_policy, assigned, detect_package_manager, package_manager_exec, package_runner,
    policy, resolve_binary, resolved_command, ruby_exec, ruby_program, runs, CommandLine, Program,
    Resolved, Workspace,
};

verus! {

/// Whether `variable` is given `value`: by its last entry.
pub open spec fn sets(env: Seq<(String, String)>, variable: Seq<char>, value: Seq<char>) -> bool {
    exists|i: int|
        {
            &&& 0 <= i < env.len()
            &&& (#[trigger] env[i]).0@ == variable
            &&& env[i].1@ == value
            &&& forall|j: int| i < j < env.len() ==> (#[trigger] env[j]).0@ != variable
        }
}

/// Whether `variable` is left as it is.
pub open spec fn leaves(env: Seq<(String, String)>, variable: Seq<char>) -> bool {
    forall|j: int| 0 <= j < env.len() ==> (#[trigger] env[j]).0@ != variable
}

/// The value that the color policy gives to a variable.
pub open spec fn colorless_value(variable: Seq<char>) -> Option<Seq<char>> {
    if variable == "NO_COLOR"@ {
        Some("1"@)
    } else if variable == "CLICOLOR"@ || variable == "CLICOLOR_FORCE"@ || variable == "FORCE_COLOR"@
        || variable == "PY_COLORS"@ {
        Some("0"@)
    } else if variable == "CARGO_TERM_COLOR"@ {
        Some("never"@)
    } else if variable == "npm_config_color"@ {
        Some("false"@)
    } else {
        None
    }
}

/// The last entry of a variable is its value.
proof fn lemma_sets(env: Seq<(String, String)>, variable: Seq<char>)
    ensures
        ({
            let map = assigned(Map::empty(), pairs(env));
            &&& leaves(env, variable) <==> !map.contains_key(variable)
            &&& forall|value: Seq<char>| #[trigger]
                sets(env, variable, value) <==> map.contains_key(variable) && map[variable]
                    == value
        }),
    decreases env.len(),
{
    let map = assigned(Map::empty(), pairs(env));
    if env.len() > 0 {
        let shorter = env.drop_last();
        let before = assigned(Map::empty(), pairs(shorter));
        let last = env.len() - 1;
        lemma_sets(shorter, variable);
        assert(pairs(env).drop_last() =~= pairs(shorter));
        assert(map == before.insert(env[last].0@, env[last].1@));
        assert forall|value: Seq<char>| #[trigger] sets(env, variable, value) <==> map.contains_key(
            variable,
        ) && map[variable] == value by {
            if env[last].0@ == variable {
                if env[last].1@ == value {
                    assert(sets(env, variable, value));
                }
            } else {
                if sets(shorter, variable, value) {
                    let i = choose|i: int|
                        {
                            &&& 0 <= i < shorter.len()
                            &&& (#[trigger] shorter[i]).0@ == variable
                            &&& shorter[i].1@ == value
                            &&& forall|j: int|
                                i < j < shorter.len() ==> (#[trigger] shorter[j]).0@ != variable
                        };
                    assert(env[i] == shorter[i]);
                    assert forall|j: int| i < j < env.len() implies (#[trigger] env[j]).0@
                        != variable by {
                        if j < last {
                            assert(env[j] == shorter[j]);
                        }
                    }
                }
                if sets(env, variable, value) {
                    let i = choose|i: int|
                        {
                            &&& 0 <= i < env.len()
                            &&& (#[trigger] env[i]).0@ == variable
                            &&& env[i].1@ == value
                            &&& forall|j: int|
                                i < j < env.len() ==> (#[trigger] env[j]).0@ != variable
                        };
                    assert(shorter[i] == env[i]);
                    assert forall|j: int| i < j < shorter.len() implies (#[trigger] shorter[j]).0@
                        != variable by {
                        assert(shorter[j] == env[j]);
                    }
                }
            }
        }
        if leaves(env, variable) {
            assert(env[last].0@ != variable);
            assert forall|j: int| 0 <= j < shorter.len() implies (#[trigger] shorter[j]).0@
                != variable by {
                assert(shorter[j] == env[j]);
            }
        }
        if !map.contains_key(variable) {
            assert forall|j: int| 0 <= j < env.len() implies (#[trigger] env[j]).0@ != variable by {
                if j < last {
                    assert(env[j] == shorter[j]);
                }
            }
        }
    } else {
        assert(pairs(env) =~= Seq::empty());
    }
}

/// The policy gives each variable its value.
proof fn lemma_policy(variable: Seq<char>)
    ensures
        ({
            let map = policy(true);
            match colorless_value(variable) {
                None => !map.contains_key(variable),
                Some(value) => map.contains_key(variable) && map[variable] == value,
            }
        }),
        !policy(false).contains_key(variable),
{
    reveal_strlit("NO_COLOR");
    reveal_strlit("CLICOLOR");
    reveal_strlit("CLICOLOR_FORCE");
    reveal_strlit("FORCE_COLOR");
    reveal_strlit("CARGO_TERM_COLOR");
    reveal_strlit("npm_config_color");
    reveal_strlit("PY_COLORS");
    assert("NO_COLOR"@.len() == 8);
    assert("CLICOLOR"@.len() == 8);
    assert("NO_COLOR"@[0] != "CLICOLOR"@[0]);
    assert("CLICOLOR_FORCE"@.len() == 14);
    assert("FORCE_COLOR"@.len() == 11);
    assert("CARGO_TERM_COLOR"@.len() == 16);
    assert("npm_config_color"@.len() == 16);
    assert("CARGO_TERM_COLOR"@[0] != "npm_config_color"@[0]);
    assert("PY_COLORS"@.len() == 9);
    reveal_with_fuel(assigned, 8);
    let all = color_assignments();
    assert(all.drop_last().drop_last().drop_last().drop_last().drop_last().drop_last().drop_last()
        =~= Seq::empty());
}

/// Whether the variables are set as the color policy has it, and no others are.
pub open spec fn follows_policy(env: Seq<(String, String)>, disable_color: bool) -> bool {
    &&& disable_color ==> forall|variable: Seq<char>|
        (#[trigger] colorless_value(variable)) matches Some(value) ==> sets(env, variable, value)
    &&& forall|variable: Seq<char>|
        !disable_color || colorless_value(variable) is None ==> #[trigger] leaves(env, variable)
}

/// Whether `r` runs the program found for `name`, or `name` itself where none was found (which
/// is warned of), with these arguments and under the color policy.
pub open spec fn runs_program<P>(
    r: Resolved<P>,
    name: Seq<char>,
    found: Option<P>,
    args: Seq<Seq<char>>,
    verbose: bool,
    disable_color: bool,
) -> bool {
    &&& found matches Some(path) ==> r.command.program == Program::Found(path) && r.warning is None
    &&& found is None ==> {
        &&& r.command.program matches Program::Named(named) && named@ == name
        &&& !verbose ==> r.warning is None
        &&& verbose ==> opt_text(r.warning) == Some(
            "rtk: Failed to resolve '"@ + name
                + "' via PATH, falling back to direct exec: Binary '"@ + name
                + "' not found on PATH"@,
        )
    }
    &&& r.command.args@.len() == args.len()
    &&& forall|i: int| 0 <= i < args.len() ==> (#[trigger] r.command.args@[i])@ == args[i]
    &&& follows_policy(r.command.env@, disable_color)
}

/// What is run, in plain terms.
proof fn lemma_runs<P>(
    r: Resolved<P>,
    name: Seq<char>,
    found: Option<P>,
    args: Seq<Seq<char>>,
    workspace: Workspace,
)
    requires
        runs(r, name, found, args, workspace),
    ensures
        runs_program(
            r,
            name,
            found,
            args,
            workspace.verbose,
            environment_is_colorless(workspace.environment@),
        ),
{
    let disable_color = environment_is_colorless(workspace.environment@);
    let env = r.command.env@;
    assert forall|variable: Seq<char>| disable_color implies (
    #[trigger] colorless_value(variable) matches Some(value) ==> sets(env, variable, value)) by {
        lemma_sets(env, variable);
        lemma_policy(variable);
    }
    assert forall|variable: Seq<char>|
        !disable_color || colorless_value(variable) is None implies #[trigger] leaves(
        env,
        variable,
    ) by {
        lemma_sets(env, variable);
        lemma_policy(variable);
    }
    assert(follows_policy(env, disable_color));
    if let Some(path) = found {
        assert(r.command.program == Program::Found(path));
        assert(opt_text(r.warning) is None);
    } else {
        assert(r.command.program matches Program::Named(named) && named@ == name);
    }
    let given = texts(r.command.args@);
    assert(given == args);
    assert forall|i: int| 0 <= i < args.len() implies (#[trigger] r.command.args@[i])@
        == args[i] by {
        assert(given[i] == r.command.args@[i]@);
    }
    if found is None && workspace.verbose {
        reveal_strlit("' via PATH, falling back to direct exec: ");
        reveal_strlit("Binary '");
        reveal_strlit("' via PATH, falling back to direct exec: Binary '");
        assert("' via PATH, falling back to direct exec: "@ + "Binary '"@
            =~= "' via PATH, falling back to direct exec: Binary '"@);
        let text = opt_text(r.warning)->0;
        assert(text =~= "rtk: Failed to resolve '"@ + name
            + "' via PATH, falling back to direct exec: Binary '"@ + name
            + "' not found on PATH"@);
    }
}

/// A command starts without arguments and variables; an argument is added behind the others, and
/// a variable that is set has that value, whatever it was before, and leaves the others.
pub proof fn law_command_line<P>(
    program: Program<P>,
    new: CommandLine<P>,
    cmd: &mut CommandLine<P>,
    arg: &str,
    set: &mut CommandLine<P>,
    name: &str,
    assigned_value: &str,
    other: Seq<char>,
    value: Seq<char>,
)
    requires
        call_ensures(CommandLine::<P>::new, (program,), new),
        call_ensures(CommandLine::<P>::arg, (cmd, arg), ()),
        call_ensures(CommandLine::<P>::set_env, (set, name, assigned_value), ()),
        other != name@,
    ensures
        new.program@ == program@,
        new.args@.len() == 0,
        leaves(new.env@, other),
        final(cmd).program@ == old(cmd).program@,
        texts(final(cmd).args@) == texts(old(cmd).args@) + seq![arg@],
        sets(final(cmd).env@, other, value) <==> sets(old(cmd).env@, other, value),
        final(set).program@ == old(set).program@,
        texts(final(set).args@) == texts(old(set).args@),
        sets(final(set).env@, name@, assigned_value@),
        sets(final(set).env@, other, value) <==> sets(old(set).env@, other, value),
{
    lemma_sets(new.env@, other);
    lemma_sets(final(cmd).env@, other);
    lemma_sets(old(cmd).env@, other);
    lemma_sets(final(set).env@, other);
    lemma_sets(old(set).env@, other);
    lemma_sets(final(set).env@, name@);
    assert(texts(new.args@).len() == new.args@.len());
    assert(texts(old(cmd).args@).push(arg@) =~= texts(old(cmd).args@) + seq![arg@]);
}

/// A path that was found is the answer; without one there is an error that names the program.
pub proof fn law_resolve_binary<P>(name: &str, found: Option<P>, r: Result<P, String>)
    requires
        call_ensures(resolve_binary::<P>, (name, found), r),
    ensures
        found matches Some(path) ==> r == Ok::<P, String>(path),
        found is None ==> (r matches Err(message) && message@ == "Binary '"@ + name@
            + "' not found on PATH"@),
{
}

/// A program is run by its path where one was found, else by its name, without arguments.
pub proof fn law_resolved_command<P>(
    name: &str,
    found: Option<P>,
    workspace: &Workspace,
    disable_color: bool,
    r: Resolved<P>,
)
    requires
        call_ensures(should_disable_color, (workspace.environment,), disable_color),
        call_ensures(resolved_command::<P>, (name, found, workspace), r),
    ensures
        runs_program(r, name@, found, Seq::empty(), workspace.verbose, disable_color),
{
    lemma_runs(r, name@, found, Seq::empty(), *workspace);
}

/// The lock files decide: pnpm before yarn before npm; the runner is the package manager itself,
/// but for npm, whose runner is npx.
pub proof fn law_package_manager(
    pnpm_lock: bool,
    yarn_lock: bool,
    manager: &'static str,
    runner: &'static str,
)
    requires
        call_ensures(detect_package_manager, (pnpm_lock, yarn_lock), manager),
        call_ensures(package_runner, (pnpm_lock, yarn_lock), runner),
    ensures
        pnpm_lock ==> manager@ == "pnpm"@,
        !pnpm_lock && yarn_lock ==> manager@ == "yarn"@,
        !pnpm_lock && !yarn_lock ==> manager@ == "npm"@,
        manager@ != "npm"@ ==> runner@ == manager@,
        manager@ == "npm"@ ==> runner@ == "npx"@,
{
    reveal_strlit("pnpm");
    reveal_strlit("yarn");
    reveal_strlit("npm");
    assert("pnpm"@.len() == 4 && "yarn"@.len() == 4 && "npm"@.len() == 3);
}

/// A tool that was found runs itself, without further arguments. Otherwise it runs through the
/// runner: pnpm and yarn are told `exec -- <tool>`, npx is told `--no-install -- <tool>`.
pub proof fn law_package_manager_exec<P>(
    tool: &str,
    tool_found: Option<P>,
    runner_found: Option<P>,
    workspace: &Workspace,
    runner: &'static str,
    disable_color: bool,
    r: Resolved<P>,
)
    requires
        call_ensures(should_disable_color, (workspace.environment,), disable_color),
        call_ensures(package_runner, (workspace.pnpm_lock, workspace.yarn_lock), runner),
        call_ensures(
            package_manager_exec::<P>,
            (tool, tool_found, runner_found, workspace),
            r,
        ),
    ensures
        tool_found is Some ==> runs_program(
            r,
            tool@,
            tool_found,
            Seq::empty(),
            workspace.verbose,
            disable_color,
        ),
        tool_found is None && (runner@ == "pnpm"@ || runner@ == "yarn"@) ==> runs_program(
            r,
            runner@,
            runner_found,
            seq!["exec"@, "--"@, tool@],
            workspace.verbose,
            disable_color,
        ),
        tool_found is None && runner@ == "npx"@ ==> runs_program(
            r,
            runner@,
            runner_found,
            seq!["--no-install"@, "--"@, tool@],
            workspace.verbose,
            disable_color,
        ),
        runner@ == "pnpm"@ || runner@ == "yarn"@ || runner@ == "npx"@,
{
    reveal_strlit("pnpm");
    reveal_strlit("yarn");
    reveal_strlit("npx");
    assert("pnpm"@.len() == 4 && "yarn"@.len() == 4 && "npx"@.len() == 3);
    if tool_found is Some {
        lemma_runs(r, tool@, tool_found, Seq::empty(), *workspace);
    } else if runner@ == "npx"@ {
        lemma_runs(r, runner@, runner_found, seq!["--no-install"@, "--"@, tool@], *workspace);
    } else {
        lemma_runs(r, runner@, runner_found, seq!["exec"@, "--"@, tool@], *workspace);
    }
}

/// With a Gemfile a Ruby tool runs as `bundle exec <tool>`, without one by itself.
pub proof fn law_ruby_exec<P>(
    tool: &str,
    found: Option<P>,
    workspace: &Workspace,
    program: &str,
    disable_color: bool,
    r: Resolved<P>,
)
    requires
        call_ensures(should_disable_color, (workspace.environment,), disable_color),
        call_ensures(ruby_program, (tool, workspace.gemfile), program),
        call_ensures(ruby_exec::<P>, (tool, found, workspace), r),
    ensures
        program@ == if workspace.gemfile {
            "bundle"@
        } else {
            tool@
        },
        workspace.gemfile ==> runs_program(
            r,
            "bundle"@,
            found,
            seq!["exec"@, tool@],
            workspace.verbose,
            disable_color,
        ),
        !workspace.gemfile ==> runs_program(
            r,
            tool@,
            found,
            Seq::empty(),
            workspace.verbose,
            disable_color,
        ),
{
    if workspace.gemfile {
        lemma_runs(r, "bundle"@, found, seq!["exec"@, tool@], *workspace);
    } else {
        lemma_runs(r, tool@, found, Seq::empty(), *workspace);
    }
}

/// The color policy sets its variables, whatever they were set to, and leaves the others, the
/// program and the arguments; where color stays it changes nothing.
pub proof fn law_apply_color_policy<P>(
    cmd: &mut CommandLine<P>,
    environment: &[(String, EnvSetting)],
    disable_color: bool,
    variable: Seq<char>,
)
    requires
        call_ensures(should_disable_color, (environment,), disable_color),
        call_ensures(apply_color_policy::<P>, (cmd, environment), ()),
    ensures
        final(cmd).program@ == old(cmd).program@,
        texts(final(cmd).args@) == texts(old(cmd).args@),
        disable_color && colorless_value(variable) is Some ==> sets(
            final(cmd).env@,
            variable,
            colorless_value(variable)->0,
        ),
        !disable_color || colorless_value(variable) is None ==> {
            &&& leaves(final(cmd).env@, variable) <==> leaves(old(cmd).env@, variable)
            &&& forall|value: Seq<char>| #[trigger]
                sets(final(cmd).env@, variable, value) <==> sets(old(cmd).env@, variable, value)
        },
{
    lemma_sets(final(cmd).env@, variable);
    lemma_sets(old(cmd).env@, variable);
    lemma_policy(variable);
}

} // verus!
