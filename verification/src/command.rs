//! Command lines for child processes, and which of them is run.
//!
//! A path that the platform found for a program is carried through as it is; its type is the
//! parameter `P`.

use vstd::prelude::*;
use crate::chars::{opt_text, texts};
use crate::color::{color_assignments, color_policy, environment_is_colorless, pairs, EnvSetting};

verus! {

/// What is run: a path that was found, or a name that the platform looks up itself.
pub enum Program<P> {
    Found(P),
    Named(String),
}

/// A program by its path or its name.
pub enum ProgramView<P> {
    Found(P),
    Named(Seq<char>),
}

impl<P> View for Program<P> {
    type V = ProgramView<P>;

    open spec fn view(&self) -> ProgramView<P> {
        match *self {
            Program::Found(path) => ProgramView::Found(path),
            Program::Named(name) => ProgramView::Named(name@),
        }
    }
}

/// A program, its arguments, and the environment variables that are set for it.
pub struct CommandLine<P> {
    pub program: Program<P>,
    pub args: Vec<String>,
    /// Variables and values; the last value of a variable counts.
    pub env: Vec<(String, String)>,
}

/// A program, its arguments, and the values of the environment variables that are set for it.
pub struct CommandView<P> {
    pub program: ProgramView<P>,
    pub args: Seq<Seq<char>>,
    pub env: Map<Seq<char>, Seq<char>>,
}

/// `env` once the variables are set one after the other.
pub open spec fn assigned(
    env: Map<Seq<char>, Seq<char>>,
    assignments: Seq<(Seq<char>, Seq<char>)>,
) -> Map<Seq<char>, Seq<char>>
    decreases assignments.len(),
{
    if assignments.len() == 0 {
        env
    } else {
        assigned(env, assignments.drop_last()).insert(assignments.last().0, assignments.last().1)
    }
}

impl<P> View for CommandLine<P> {
    type V = CommandView<P>;

    open spec fn view(&self) -> CommandView<P> {
        CommandView {
            program: self.program@,
            args: texts(self.args@),
            env: assigned(Map::empty(), pairs(self.env@)),
        }
    }
}

impl<P> CommandLine<P> {
    /// A program without arguments.
    pub fn new(program: Program<P>) -> (r: Self)
        ensures
            r@ == (CommandView {
                program: program@,
                args: Seq::empty(),
                env: Map::<Seq<char>, Seq<char>>::empty(),
            }),
    {
        let r = CommandLine { program, args: Vec::new(), env: Vec::new() };
        assert(texts(r.args@) =~= Seq::empty());
        r
    }

    /// Adds an argument.
    pub fn arg(&mut self, arg: &str)
        ensures
            final(self)@ == (CommandView { args: old(self)@.args.push(arg@), ..old(self)@ }),
    {
        let ghost before = texts(self.args@);
        self.args.push(arg.to_owned());
        assert(texts(self.args@) =~= before.push(arg@));
    }

    /// Sets an environment variable.
    pub fn set_env(&mut self, name: &str, value: &str)
        ensures
            final(self)@ == (CommandView {
                env: old(self)@.env.insert(name@, value@),
                ..old(self)@
            }),
    {
        let ghost before = pairs(self.env@);
        self.env.push((name.to_owned(), value.to_owned()));
        proof {
            assert(pairs(self.env@) =~= before.push((name@, value@)));
            assert(pairs(self.env@).drop_last() =~= before);
        }
    }
}

/// The values that the color policy sets: all of them, or none.
pub open spec fn policy(colorless: bool) -> Map<Seq<char>, Seq<char>> {
    if colorless {
        assigned(Map::empty(), color_assignments())
    } else {
        Map::empty()
    }
}

/// Setting variables overrides what was set before, and leaves the rest.
pub proof fn law_assignments_override(
    env: Map<Seq<char>, Seq<char>>,
    assignments: Seq<(Seq<char>, Seq<char>)>,
)
    ensures
        assigned(env, assignments) == env.union_prefer_right(
            assigned(Map::empty(), assignments),
        ),
    decreases assignments.len(),
{
    if assignments.len() == 0 {
        assert(env =~= env.union_prefer_right(Map::empty()));
    } else {
        law_assignments_override(env, assignments.drop_last());
        assert(assigned(env, assignments) =~= env.union_prefer_right(
            assigned(Map::empty(), assignments),
        ));
    }
}

/// Applying the color policy once more changes nothing.
pub proof fn law_policy_is_idempotent(env: Map<Seq<char>, Seq<char>>, colorless: bool)
    ensures
        env.union_prefer_right(policy(colorless)).union_prefer_right(policy(colorless))
            == env.union_prefer_right(policy(colorless)),
{
    assert(env.union_prefer_right(policy(colorless)).union_prefer_right(policy(colorless))
        =~= env.union_prefer_right(policy(colorless)));
}

/// Applies the color policy to a command when `environment` requests it.
pub fn apply_color_policy<P>(cmd: &mut CommandLine<P>, environment: &[(String, EnvSetting)])
    ensures
        final(cmd)@ == (CommandView {
            env: old(cmd)@.env.union_prefer_right(
                policy(environment_is_colorless(environment@)),
            ),
            ..old(cmd)@
        }),
{
    let assignments = color_policy(environment);
    let ghost list = pairs(assignments@);
    assert(list.take(0) =~= Seq::empty());
    for i in 0..assignments.len()
        invariant
            list == pairs(assignments@),
            cmd@ == (CommandView {
                env: assigned(old(cmd)@.env, list.take(i as int)),
                ..old(cmd)@
            }),
    {
        assert(list.take(i + 1).drop_last() =~= list.take(i as int));
        cmd.set_env(assignments[i].0.as_str(), assignments[i].1.as_str());
    }
    proof {
        assert(list.take(list.len() as int) =~= list);
        law_assignments_override(old(cmd)@.env, list);
    }
}

/// What surrounds a command that is to be run: files in the current directory, the environment,
/// and whether failed lookups are reported.
pub struct Workspace<'a> {
    pub pnpm_lock: bool,
    pub yarn_lock: bool,
    pub gemfile: bool,
    pub verbose: bool,
    pub environment: &'a [(String, EnvSetting)],
}

/// A command that is ready to be run, and what is to be warned of.
pub struct Resolved<P> {
    pub command: CommandLine<P>,
    pub warning: Option<String>,
}

/// Why a program could not be resolved.
pub open spec fn not_found(name: Seq<char>) -> Seq<char> {
    "Binary '"@ + name + "' not found on PATH"@
}

/// The path that was found for `name`, or why there is none.
pub fn resolve_binary<P>(name: &str, found: Option<P>) -> (r: Result<P, String>)
    ensures
        match found {
            Some(path) => r == Ok::<P, String>(path),
            None => r matches Err(message) && message@ == not_found(name@),
        },
{
    match found {
        Some(path) => Ok(path),
        None => {
            let mut message = "Binary '".to_owned();
            message.append(name);
            message.append("' not found on PATH");
            Err(message)
        },
    }
}

/// The program that is run for `name`: the path that was found, or else the name itself.
pub open spec fn program_for<P>(name: Seq<char>, found: Option<P>) -> ProgramView<P> {
    match found {
        Some(path) => ProgramView::Found(path),
        None => ProgramView::Named(name),
    }
}

/// The warning for a program that was not found.
pub open spec fn resolve_warning<P>(name: Seq<char>, found: Option<P>, verbose: bool) -> Option<
    Seq<char>,
> {
    if found is None && verbose {
        Some(
            "rtk: Failed to resolve '"@ + name + "' via PATH, falling back to direct exec: "@
                + not_found(name),
        )
    } else {
        None
    }
}

/// Whether `r` runs `name` with `args` under the color policy, and warns as it should.
pub open spec fn runs<P>(
    r: Resolved<P>,
    name: Seq<char>,
    found: Option<P>,
    args: Seq<Seq<char>>,
    workspace: Workspace,
) -> bool {
    &&& r.command@ == (CommandView {
        program: program_for(name, found),
        args,
        env: policy(environment_is_colorless(workspace.environment@)),
    })
    &&& opt_text(r.warning) == resolve_warning(name, found, workspace.verbose)
}

/// A command for `name`, with the path that was found for it.
///
/// Without a path the name itself is run, so that what the platform can look up still works.
pub fn resolved_command<P>(name: &str, found: Option<P>, workspace: &Workspace) -> (r: Resolved<P>)
    ensures
        runs(r, name@, found, Seq::empty(), *workspace),
{
    let (program, warning) = match resolve_binary(name, found) {
        Ok(path) => (Program::Found(path), None),
        Err(message) => {
            let warning = if workspace.verbose {
                let mut text = "rtk: Failed to resolve '".to_owned();
                text.append(name);
                text.append("' via PATH, falling back to direct exec: ");
                text.append(message.as_str());
                Some(text)
            } else {
                None
            };
            (Program::Named(name.to_owned()), warning)
        },
    };
    let mut command = CommandLine::new(program);
    apply_color_policy(&mut command, workspace.environment);
    proof {
        let set = policy(environment_is_colorless(workspace.environment@));
        assert(Map::<Seq<char>, Seq<char>>::empty().union_prefer_right(set) =~= set);
    }
    Resolved { command, warning }
}

/// The package manager that the lock files in the current directory speak for.
pub open spec fn package_manager(pnpm_lock: bool, yarn_lock: bool) -> Seq<char> {
    if pnpm_lock {
        "pnpm"@
    } else if yarn_lock {
        "yarn"@
    } else {
        "npm"@
    }
}

/// Detects the package manager: `pnpm` if there is a `pnpm-lock.yaml`, `yarn` if there is a
/// `yarn.lock`, else `npm`.
pub fn detect_package_manager(pnpm_lock: bool, yarn_lock: bool) -> (r: &'static str)
    ensures
        r@ == package_manager(pnpm_lock, yarn_lock),
{
    if pnpm_lock {
        "pnpm"
    } else if yarn_lock {
        "yarn"
    } else {
        "npm"
    }
}

/// The program through which a package manager runs a tool.
pub open spec fn runner(pnpm_lock: bool, yarn_lock: bool) -> Seq<char> {
    if pnpm_lock {
        "pnpm"@
    } else if yarn_lock {
        "yarn"@
    } else {
        "npx"@
    }
}

/// The program through which the detected package manager runs a tool.
pub fn package_runner(pnpm_lock: bool, yarn_lock: bool) -> (r: &'static str)
    ensures
        r@ == runner(pnpm_lock, yarn_lock),
{
    if pnpm_lock {
        "pnpm"
    } else if yarn_lock {
        "yarn"
    } else {
        "npx"
    }
}

/// How the runner is told to run `tool`: `exec`, or without installing it.
pub open spec fn runner_args(pnpm_lock: bool, yarn_lock: bool, tool: Seq<char>) -> Seq<Seq<char>> {
    if pnpm_lock || yarn_lock {
        seq!["exec"@, "--"@, tool]
    } else {
        seq!["--no-install"@, "--"@, tool]
    }
}

/// A command for a tool of the JavaScript world, ready to have the tool's arguments appended:
/// the tool itself where it was found, else through the detected package manager.
pub fn package_manager_exec<P>(
    tool: &str,
    tool_found: Option<P>,
    runner_found: Option<P>,
    workspace: &Workspace,
) -> (r: Resolved<P>)
    ensures
        tool_found is Some ==> runs(r, tool@, tool_found, Seq::empty(), *workspace),
        tool_found is None ==> runs(
            r,
            runner(workspace.pnpm_lock, workspace.yarn_lock),
            runner_found,
            runner_args(workspace.pnpm_lock, workspace.yarn_lock, tool@),
            *workspace,
        ),
{
    if tool_found.is_some() {
        return resolved_command(tool, tool_found, workspace);
    }
    let name = package_runner(workspace.pnpm_lock, workspace.yarn_lock);
    let mut resolved = resolved_command(name, runner_found, workspace);
    if workspace.pnpm_lock || workspace.yarn_lock {
        resolved.command.arg("exec");
    } else {
        resolved.command.arg("--no-install");
    }
    resolved.command.arg("--");
    resolved.command.arg(tool);
    assert(resolved.command@.args =~= runner_args(
        workspace.pnpm_lock,
        workspace.yarn_lock,
        tool@,
    ));
    resolved
}

/// The program through which a Ruby tool runs: the bundler where there is a Gemfile.
pub open spec fn ruby_program_name(tool: Seq<char>, gemfile: bool) -> Seq<char> {
    if gemfile {
        "bundle"@
    } else {
        tool
    }
}

/// The program through which a Ruby tool runs: the bundler where there is a Gemfile.
pub fn ruby_program(tool: &str, gemfile: bool) -> (r: &str)
    ensures
        r@ == ruby_program_name(tool@, gemfile),
{
    if gemfile {
        "bundle"
    } else {
        tool
    }
}

/// A command for a Ruby tool: `bundle exec <tool>` when a Gemfile exists, since what is not
/// named there may still need the bundler, else the tool itself. `found` is the path of the
/// program that is run.
pub fn ruby_exec<P>(tool: &str, found: Option<P>, workspace: &Workspace) -> (r: Resolved<P>)
    ensures
        runs(
            r,
            ruby_program_name(tool@, workspace.gemfile),
            found,
            if workspace.gemfile {
                seq!["exec"@, tool@]
            } else {
                Seq::empty()
            },
            *workspace,
        ),
{
    let mut resolved = resolved_command(ruby_program(tool, workspace.gemfile), found, workspace);
    if workspace.gemfile {
        resolved.command.arg("exec");
        resolved.command.arg(tool);
        assert(resolved.command@.args =~= seq!["exec"@, tool@]);
    }
    apply_color_policy(&mut resolved.command, workspace.environment);
    proof {
        let colorless = environment_is_colorless(workspace.environment@);
        let none = Map::<Seq<char>, Seq<char>>::empty();
        assert(none.union_prefer_right(policy(colorless)) =~= policy(colorless));
        law_policy_is_idempotent(none, colorless);
    }
    resolved
}

} // verus!
