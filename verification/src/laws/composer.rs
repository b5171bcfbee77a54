//! Laws of the Composer directories.

use vstd::prelude::*;
use crate::chars::{opt_text, texts};
use crate::composer::{
    composer_bin_dirs_from, composer_bin_dirs_with, composer_tool_paths, configured_dir,
    is_default_dir, is_same_path, opt_view, path_names, read_composer_bin_dir, with_slashes,
    without_slash, PathRules, ToolPath,
};
use crate::laws::text::{blank, law_trimmed, tight};
use crate::lines::{after_first_line, first_line, lemma_first_line_is};
use crate::outside::json_text_at;

verus! {

/// A name counts in a path if it is not empty, and not a dot but at the start.
pub open spec fn name_counts(name: Seq<char>, at_start: bool) -> bool {
    name.len() > 0 && (at_start || name != seq!['.'])
}

/// The names in a path are the first one, up to a slash, if it counts, and those behind.
pub proof fn law_first_name(name: Seq<char>, rest: Seq<char>, at_start: bool)
    requires
        forall|i: int| 0 <= i < name.len() ==> #[trigger] name[i] != '/',
    ensures
        name_counts(name, at_start) ==> path_names(name.push('/') + rest, at_start) == seq![name]
            + path_names(rest, false),
        !name_counts(name, at_start) ==> path_names(name.push('/') + rest, at_start) == path_names(
            rest,
            false,
        ),
{
    let path = name.push('/') + rest;
    lemma_first_line_is(path, name.len() as int + 1, '/');
    assert(first_line(path, '/') =~= name.push('/'));
    assert(after_first_line(path, '/') =~= rest);
    assert(without_slash(name.push('/')) =~= name);
    reveal_strlit(".");
    assert("."@ =~= seq!['.']);
}

/// A path without a slash is one name, if it counts.
pub proof fn law_only_name(name: Seq<char>, at_start: bool)
    requires
        forall|i: int| 0 <= i < name.len() ==> #[trigger] name[i] != '/',
    ensures
        name_counts(name, at_start) ==> path_names(name, at_start) == seq![name],
        !name_counts(name, at_start) ==> path_names(name, at_start).len() == 0,
{
    if name.len() > 0 {
        lemma_first_line_is(name, name.len() as int, '/');
        assert(first_line(name, '/') =~= name);
        let rest = after_first_line(name, '/');
        assert(rest =~= Seq::<char>::empty());
        assert(path_names(rest, false) =~= Seq::<Seq<char>>::empty());
        assert(name[name.len() - 1] != '/');
        assert(without_slash(name) == name);
        reveal_strlit(".");
        assert("."@ =~= seq!['.']);
        if name_counts(name, at_start) {
            assert(path_names(name, at_start) =~= seq![name]);
        }
    }
}

/// Two paths are the same if both or neither start with a slash, and their names are the same.
pub proof fn law_same_path(a: &str, b: &str, r: bool)
    requires
        call_ensures(is_same_path, (a, b), r),
    ensures
        r <==> {
            &&& (a@.len() > 0 && a@[0] == '/') == (b@.len() > 0 && b@[0] == '/')
            &&& path_names(a@, true) == path_names(b@, true)
        },
{
}

/// A directory is the default one if it is the path `vendor/bin`; on Windows a backslash separates
/// as a slash does, and on Unix it does not.
pub proof fn law_default_dir(
    dir: &str,
    slashed: &str,
    on_unix: bool,
    on_windows: bool,
    same: bool,
    same_slashed: bool,
)
    requires
        call_ensures(is_default_dir, (dir, PathRules::Unix), on_unix),
        call_ensures(is_default_dir, (dir, PathRules::Windows), on_windows),
        call_ensures(is_same_path, (dir, "vendor/bin"), same),
        call_ensures(is_same_path, (slashed, "vendor/bin"), same_slashed),
        slashed@.len() == dir@.len(),
        forall|i: int|
            0 <= i < dir@.len() ==> slashed@[i] == if #[trigger] dir@[i] == '\\' {
                '/'
            } else {
                dir@[i]
            },
    ensures
        on_unix == same,
        on_windows == same_slashed,
{
    assert(with_slashes(dir@, PathRules::Unix) =~= dir@);
    assert(with_slashes(dir@, PathRules::Windows) =~= slashed@);
}

/// Whether a value configures `dir`: it is more than white space, and `dir` is what stands between
/// the white space.
pub open spec fn configures(value: Option<&str>, dir: Seq<char>) -> bool {
    value matches Some(text) && stands_in(text@, dir)
}

/// Whether `core` is what stands in `text` between white space, and is not empty.
pub open spec fn stands_in(text: Seq<char>, core: Seq<char>) -> bool {
    exists|before: Seq<char>, after: Seq<char>|
        {
            &&& text == #[trigger] (before + core + after)
            &&& blank(before)
            &&& core.len() > 0
            &&& tight(core)
            &&& blank(after)
        }
}

/// Whether a value configures nothing: there is none, or it is white space.
pub open spec fn configures_nothing(value: Option<&str>) -> bool {
    value matches Some(text) ==> blank(text@)
}

/// What stands between white space is what is left of it.
proof fn lemma_stands_in(text: Seq<char>, core: Seq<char>)
    requires
        stands_in(text, core),
    ensures
        configured_dir(Some(text)) == Some(core),
{
    let (before, after) = choose|before: Seq<char>, after: Seq<char>|
        {
            &&& text == #[trigger] (before + core + after)
            &&& blank(before)
            &&& core.len() > 0
            &&& tight(core)
            &&& blank(after)
        };
    law_trimmed(before, core, after);
}

/// Nothing is left of white space.
proof fn lemma_blank(text: Seq<char>)
    requires
        blank(text),
    ensures
        configured_dir(Some(text)) is None,
{
    let none = Seq::<char>::empty();
    law_trimmed(text, none, none);
    assert(text + none + none =~= text);
}

/// The directory of the environment comes first, else that of the project, if either is
/// configured; the default directory follows, unless it is the configured one.
pub proof fn law_bin_dirs(
    env: Option<&str>,
    config: Option<&str>,
    rules: PathRules,
    dir: &str,
    is_default: bool,
    r: Vec<String>,
)
    requires
        call_ensures(composer_bin_dirs_with, (env, config, rules), r),
        call_ensures(is_default_dir, (dir, rules), is_default),
    ensures
        configures(env, dir@) || (configures_nothing(env) && configures(config, dir@)) ==> {
            &&& r@.len() == if is_default {
                1int
            } else {
                2
            }
            &&& r@[0]@ == dir@
            &&& !is_default ==> r@[1]@ == "vendor/bin"@
        },
        configures_nothing(env) && configures_nothing(config) ==> r@.len() == 1 && r@[0]@
            == "vendor/bin"@,
{
    let dirs = texts(r@);
    assert(dirs.len() == r@.len());
    if r@.len() > 0 {
        assert(dirs[0] == r@[0]@);
    }
    if r@.len() > 1 {
        assert(dirs[1] == r@[1]@);
    }
    lemma_configured(env, dir@);
    lemma_configured(config, dir@);
}

/// What a value configures.
proof fn lemma_configured(value: Option<&str>, dir: Seq<char>)
    ensures
        configures(value, dir) ==> configured_dir(opt_view(value)) == Some(dir),
        configures_nothing(value) ==> configured_dir(opt_view(value)) is None,
{
    if let Some(text) = value {
        if stands_in(text@, dir) {
            lemma_stands_in(text@, dir);
        }
        if blank(text@) {
            lemma_blank(text@);
        }
    }
}

/// The project's directory is the text under `config` and `bin-dir` in its `composer.json`; a
/// document without that text counts as one without a configuration.
pub proof fn law_bin_dirs_from_json(
    env: Option<&str>,
    json: &str,
    text: &str,
    rules: PathRules,
    r: Vec<String>,
    without_json: Vec<String>,
    with_text: Vec<String>,
    with_none: Vec<String>,
)
    requires
        call_ensures(composer_bin_dirs_from, (env, Some(json), rules), r),
        call_ensures(composer_bin_dirs_from, (env, None::<&str>, rules), without_json),
        call_ensures(composer_bin_dirs_with, (env, Some(text), rules), with_text),
        call_ensures(composer_bin_dirs_with, (env, None::<&str>, rules), with_none),
    ensures
        json_text_at(json@, "config"@, "bin-dir"@) == Some(text@) ==> texts(r@) == texts(
            with_text@,
        ),
        json_text_at(json@, "config"@, "bin-dir"@) is None ==> texts(r@) == texts(with_none@),
        texts(without_json@) == texts(with_none@),
{
}

/// The directory in a `composer.json` is read without the white space around it; white space is
/// no directory.
pub proof fn law_read_composer_bin_dir(
    json: &str,
    text: Seq<char>,
    dir: Seq<char>,
    r: Option<String>,
)
    requires
        call_ensures(read_composer_bin_dir, (json,), r),
    ensures
        json_text_at(json@, "config"@, "bin-dir"@) is None ==> r is None,
        json_text_at(json@, "config"@, "bin-dir"@) == Some(text) && stands_in(text, dir)
            ==> opt_text(r) == Some(dir),
        json_text_at(json@, "config"@, "bin-dir"@) == Some(text) && blank(text) ==> r is None,
{
    if stands_in(text, dir) {
        lemma_stands_in(text, dir);
    }
    if blank(text) {
        lemma_blank(text);
    }
}

/// On Unix a tool is looked for behind a slash in each directory, in order; the slash is not
/// doubled, and a tool with a slash in front stands for itself.
pub proof fn law_unix_tool_paths(dirs: &[String], tool: &str, r: Vec<ToolPath>, i: int)
    requires
        call_ensures(composer_tool_paths, (dirs, tool, PathRules::Unix), r),
        0 <= i < dirs@.len(),
    ensures
        r@.len() == dirs@.len(),
        r@[i] is Path,
        r@[i] matches ToolPath::Path(path) ==> {
            let dir = dirs@[i]@;
            &&& tool@.len() > 0 && tool@[0] == '/' ==> path@ == tool@
            &&& !(tool@.len() > 0 && tool@[0] == '/') && (dir.len() == 0 || dir.last() == '/')
                ==> path@ == dir + tool@
            &&& !(tool@.len() > 0 && tool@[0] == '/') && dir.len() > 0 && dir.last() != '/'
                ==> path@ == dir + seq!['/'] + tool@
        },
{
    let dir = dirs@[i]@;
    let given = r@[i]@;
    assert(dir.push('/') =~= dir + seq!['/']);
}

/// Whether a path may have a prefix on Windows: it holds a colon, or starts with two separators.
pub open spec fn prefix_possible(path: Seq<char>) -> bool {
    ||| path.contains(':')
    ||| path.len() >= 2 && (path[0] == '/' || path[0] == '\\') && (path[1] == '/' || path[1]
        == '\\')
}

/// On Windows a tool is looked for behind a backslash in each directory, in order, if there is no
/// separator yet; a tool with a separator in front stands for itself. Where a prefix is possible
/// the platform joins the two.
pub proof fn law_windows_tool_paths(dirs: &[String], tool: &str, r: Vec<ToolPath>, i: int)
    requires
        call_ensures(composer_tool_paths, (dirs, tool, PathRules::Windows), r),
        0 <= i < dirs@.len(),
    ensures
        r@.len() == dirs@.len(),
        r@[i] is Join <==> prefix_possible(dirs@[i]@) || prefix_possible(tool@),
        r@[i] matches ToolPath::Join { dir, tool: name } ==> dir@ == dirs@[i]@ && name@ == tool@,
        r@[i] matches ToolPath::Path(path) ==> {
            let dir = dirs@[i]@;
            let rooted = tool@.len() > 0 && (tool@[0] == '/' || tool@[0] == '\\');
            let closed = dir.len() == 0 || dir.last() == '/' || dir.last() == '\\';
            &&& rooted ==> path@ == tool@
            &&& !rooted && closed ==> path@ == dir + tool@
            &&& !rooted && !closed ==> path@ == dir + seq!['\\'] + tool@
        },
{
    let dir = dirs@[i]@;
    let given = r@[i]@;
    assert(dir.push('\\') =~= dir + seq!['\\']);
}

} // verus!
