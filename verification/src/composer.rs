//! Where Composer puts the tools of a PHP project.
//!
//! Paths are texts, read by the rules of the platform.

use vstd::prelude::*;
use crate::chars::{chars_of, combine, has_char, opt_text, same_text, text_of, texts, trim, trimmed};
use crate::lines::{after_first_line, first_line, lemma_first_line_is, lemma_first_line_len};
use crate::outside::{json_string_at, json_text_at};

verus! {

/// The directory that Composer uses unless it is told otherwise.
pub const DEFAULT_BIN_DIR: &'static str = "vendor/bin";

/// The rules by which a platform reads paths.
#[derive(Clone, Copy, Debug, PartialEq, Eq, Structural)]
pub enum PathRules {
    /// Names are separated by slashes.
    Unix,
    /// Names are separated by slashes and backslashes, and a path may start with a prefix: a
    /// drive, such as `C:`, or two separators.
    Windows,
}

/// Whether `c` separates names.
pub open spec fn separates(c: char, rules: PathRules) -> bool {
    c == '/' || (rules == PathRules::Windows && c == '\\')
}

/// Whether `c` separates names.
fn is_separator(c: char, rules: PathRules) -> (r: bool)
    ensures
        r == separates(c, rules),
{
    match rules {
        PathRules::Unix => c == '/',
        PathRules::Windows => c == '/' || c == '\\',
    }
}

/// `path` with a slash for each separator.
pub open spec fn with_slashes(path: Seq<char>, rules: PathRules) -> Seq<char> {
    path.map_values(
        |c: char|
            if separates(c, rules) {
                '/'
            } else {
                c
            },
    )
}

/// `path` with a slash for each separator.
fn to_slashes(path: &str, rules: PathRules) -> (r: String)
    ensures
        r@ == with_slashes(path@, rules),
{
    let mut out = String::new();
    for c in it: path.chars()
        invariant
            it.seq() == path@,
            out@ == with_slashes(path@.take(it.index()), rules),
    {
        let shown: char = if is_separator(c, rules) {
            '/'
        } else {
            c
        };
        out.push(shown);
        assert(with_slashes(path@.take(it.index() + 1), rules) =~= with_slashes(
            path@.take(it.index()),
            rules,
        ).push(shown));
    }
    assert(path@.take(path@.len() as int) =~= path@);
    out
}

/// A name in a path without the slash behind it.
pub open spec fn without_slash(name: Seq<char>) -> Seq<char> {
    if name.len() > 0 && name.last() == '/' {
        name.drop_last()
    } else {
        name
    }
}

/// Whether a name in a path counts: an empty one does not, nor does a dot, except at the start.
pub open spec fn counts(name: Seq<char>, at_start: bool) -> bool {
    name.len() > 0 && (name != "."@ || at_start)
}

/// The names in a path that count.
pub open spec fn path_names(path: Seq<char>, at_start: bool) -> Seq<Seq<char>>
    decreases path.len(),
{
    if path.len() == 0 {
        Seq::empty()
    } else {
        proof {
            lemma_first_line_len(path, '/');
        }
        let name = without_slash(first_line(path, '/'));
        let rest = path_names(after_first_line(path, '/'), false);
        if counts(name, at_start) {
            seq![name] + rest
        } else {
            rest
        }
    }
}

/// Whether a path starts at the root.
pub open spec fn is_absolute(path: Seq<char>) -> bool {
    path.len() > 0 && path[0] == '/'
}

/// Whether two texts are the same path with slashes alone: extra slashes and dots between names
/// do not matter.
pub open spec fn same_path(a: Seq<char>, b: Seq<char>) -> bool {
    is_absolute(a) == is_absolute(b) && path_names(a, true) == path_names(b, true)
}

/// The names in a path that count.
fn names_in(path: &str) -> (r: Vec<String>)
    ensures
        texts(r@) == path_names(path@, true),
{
    let chars = chars_of(path);
    let mut out: Vec<String> = Vec::new();
    let mut start: usize = 0;
    assert(chars@.skip(0) =~= chars@);
    assert(texts(out@) + path_names(chars@, true) =~= path_names(chars@, true));
    while start < chars.len()
        invariant
            chars@ == path@,
            start <= chars@.len(),
            texts(out@) + path_names(chars@.skip(start as int), start == 0) == path_names(
                chars@,
                true,
            ),
        decreases chars@.len() - start,
    {
        let mut end: usize = start + 1;
        while end < chars.len() && chars[end - 1] != '/'
            invariant
                start < end <= chars@.len(),
                forall|i: int| start <= i < end - 1 ==> chars@[i] != '/',
            decreases chars@.len() - end,
        {
            end = end + 1;
        }
        let ghost rest = chars@.skip(start as int);
        let ghost before = texts(out@);
        proof {
            lemma_first_line_is(rest, end - start, '/');
            assert(first_line(rest, '/') =~= chars@.subrange(start as int, end as int));
            assert(after_first_line(rest, '/') =~= chars@.skip(end as int));
        }
        let stop: usize = if chars[end - 1] == '/' {
            end - 1
        } else {
            end
        };
        let name = text_of(&chars, start, stop);
        assert(name@ =~= without_slash(first_line(rest, '/')));
        if stop > start && (start == 0 || !same_text(name.as_str(), ".")) {
            out.push(name);
            assert(texts(out@) =~= before.push(name@));
            assert(before + (seq![name@] + path_names(chars@.skip(end as int), false))
                =~= before.push(name@) + path_names(chars@.skip(end as int), false));
        }
        start = end;
    }
    assert(chars@.skip(start as int) =~= Seq::<char>::empty());
    assert(texts(out@) + Seq::<Seq<char>>::empty() =~= texts(out@));
    out
}

/// Whether a path starts at the root.
fn starts_at_root(path: &str) -> (r: bool)
    ensures
        r == is_absolute(path@),
{
    let chars = chars_of(path);
    chars.len() > 0 && chars[0] == '/'
}

/// Whether two texts are the same path with slashes alone.
pub fn is_same_path(a: &str, b: &str) -> (r: bool)
    ensures
        r == same_path(a@, b@),
{
    if starts_at_root(a) != starts_at_root(b) {
        return false;
    }
    let x = names_in(a);
    let y = names_in(b);
    if x.len() != y.len() {
        assert(texts(x@).len() != texts(y@).len());
        return false;
    }
    for i in 0..x.len()
        invariant
            x@.len() == y@.len(),
            texts(x@) == path_names(a@, true),
            texts(y@) == path_names(b@, true),
            forall|j: int| 0 <= j < i ==> texts(x@)[j] == texts(y@)[j],
    {
        if !same_text(x[i].as_str(), y[i].as_str()) {
            assert(texts(x@)[i as int] != texts(y@)[i as int]);
            return false;
        }
    }
    assert(texts(x@) =~= texts(y@));
    true
}

/// Whether `dir` is the default directory. A prefix makes it another one: a drive stays in the
/// first name, and two separators make the path absolute.
pub open spec fn is_default(dir: Seq<char>, rules: PathRules) -> bool {
    same_path(with_slashes(dir, rules), DEFAULT_BIN_DIR@)
}

/// Whether `dir` is the default directory.
pub fn is_default_dir(dir: &str, rules: PathRules) -> (r: bool)
    ensures
        r == is_default(dir@, rules),
{
    is_same_path(to_slashes(dir, rules).as_str(), DEFAULT_BIN_DIR)
}

/// A directory that is configured: a text without surrounding white space, unless that is empty.
pub open spec fn configured_dir(value: Option<Seq<char>>) -> Option<Seq<char>> {
    match value {
        None => None,
        Some(text) => if trimmed(text).len() == 0 {
            None
        } else {
            Some(trimmed(text))
        },
    }
}

/// The directories in which tools are looked for, the configured one first. The default one is
/// among them in any case.
pub open spec fn bin_dirs(
    env: Option<Seq<char>>,
    config: Option<Seq<char>>,
    rules: PathRules,
) -> Seq<Seq<char>> {
    let configured = match configured_dir(env) {
        None => configured_dir(config),
        dir => dir,
    };
    match configured {
        None => seq![DEFAULT_BIN_DIR@],
        Some(dir) => if is_default(dir, rules) {
            seq![dir]
        } else {
            seq![dir, DEFAULT_BIN_DIR@]
        },
    }
}

/// The characters of an optional text.
pub open spec fn opt_view(text: Option<&str>) -> Option<Seq<char>> {
    match text {
        None => None,
        Some(s) => Some(s@),
    }
}

/// A directory that is configured, if it is more than white space.
fn dir_from(value: Option<&str>) -> (r: Option<String>)
    ensures
        opt_text(r) == configured_dir(opt_view(value)),
{
    match value {
        None => None,
        Some(text) => {
            let dir = trim(text);
            if dir.as_str().as_bytes().len() == 0 {
                None
            } else {
                Some(dir)
            }
        },
    }
}

/// The directories in which tools are looked for, by the value of `COMPOSER_BIN_DIR` and the
/// text under `config.bin-dir` in `composer.json`.
pub fn composer_bin_dirs_with(
    env_bin_dir: Option<&str>,
    config_bin_dir: Option<&str>,
    rules: PathRules,
) -> (r: Vec<String>)
    ensures
        texts(r@) == bin_dirs(opt_view(env_bin_dir), opt_view(config_bin_dir), rules),
{
    let mut dirs: Vec<String> = Vec::new();
    let configured = match dir_from(env_bin_dir) {
        Some(dir) => Some(dir),
        None => dir_from(config_bin_dir),
    };
    match configured {
        Some(dir) => {
            let found_default = is_default_dir(dir.as_str(), rules);
            dirs.push(dir);
            if !found_default {
                dirs.push(DEFAULT_BIN_DIR.to_owned());
            }
        },
        None => dirs.push(DEFAULT_BIN_DIR.to_owned()),
    }
    assert(texts(dirs@) =~= bin_dirs(opt_view(env_bin_dir), opt_view(config_bin_dir), rules));
    dirs
}

/// The directory that a `composer.json` configures.
pub fn read_composer_bin_dir(composer_json: &str) -> (r: Option<String>)
    ensures
        opt_text(r) == configured_dir(json_text_at(composer_json@, "config"@, "bin-dir"@)),
{
    match json_string_at(composer_json, "config", "bin-dir") {
        None => None,
        Some(text) => dir_from(Some(text.as_str())),
    }
}

/// The directories in which tools are looked for, by the value of `COMPOSER_BIN_DIR` and the
/// content of `composer.json`.
///
/// Composer allows overriding the default `vendor/bin` in these two places. The default is kept
/// as a fallback, so that the common layout is recognized even in a project that is not
/// configured.
pub fn composer_bin_dirs_from(
    env_bin_dir: Option<&str>,
    composer_json: Option<&str>,
    rules: PathRules,
) -> (r: Vec<String>)
    ensures
        texts(r@) == bin_dirs(
            opt_view(env_bin_dir),
            match composer_json {
                None => None,
                Some(json) => json_text_at(json@, "config"@, "bin-dir"@),
            },
            rules,
        ),
{
    match composer_json {
        None => composer_bin_dirs_with(env_bin_dir, None, rules),
        Some(json) => match json_string_at(json, "config", "bin-dir") {
            None => composer_bin_dirs_with(env_bin_dir, None, rules),
            Some(text) => composer_bin_dirs_with(env_bin_dir, Some(text.as_str()), rules),
        },
    }
}

/// The default directory is always searched, once, and after the configured one.
pub proof fn law_default_dir_is_always_searched(
    env: Option<Seq<char>>,
    config: Option<Seq<char>>,
    rules: PathRules,
)
    ensures
        1 <= bin_dirs(env, config, rules).len() <= 2,
        is_default(bin_dirs(env, config, rules).last(), rules),
        bin_dirs(env, config, rules).len() == 2 ==> !is_default(
            bin_dirs(env, config, rules)[0],
            rules,
        ),
{
    reveal_strlit("vendor/bin");
    assert(with_slashes(DEFAULT_BIN_DIR@, rules) =~= DEFAULT_BIN_DIR@);
}

/// The environment variable wins over the project's configuration.
pub proof fn law_environment_overrides_configuration(
    env: Option<Seq<char>>,
    config: Option<Seq<char>>,
    rules: PathRules,
)
    requires
        configured_dir(env) is Some,
    ensures
        bin_dirs(env, config, rules) == bin_dirs(env, None, rules),
        bin_dirs(env, config, rules)[0] == configured_dir(env)->0,
{
}

/// `name` inside `dir`, where neither has a prefix: a name that starts at the root stands for
/// itself.
pub open spec fn joined_path(dir: Seq<char>, name: Seq<char>, rules: PathRules) -> Seq<char> {
    if name.len() > 0 && separates(name[0], rules) {
        name
    } else if dir.len() == 0 || separates(dir.last(), rules) {
        dir + name
    } else {
        dir.push(
            match rules {
                PathRules::Unix => '/',
                PathRules::Windows => '\\',
            },
        ) + name
    }
}

/// Whether a path may have a prefix: on Windows only, with a colon or two separators in front.
pub open spec fn may_have_prefix(path: Seq<char>, rules: PathRules) -> bool {
    rules == PathRules::Windows && (path.contains(':') || (path.len() >= 2 && separates(
        path[0],
        rules,
    ) && separates(path[1], rules)))
}

/// Where a tool is looked for.
pub enum ToolPath {
    /// The path.
    Path(String),
    /// The name of the tool inside the directory, as the platform joins the two.
    Join { dir: String, tool: String },
}

/// Where a tool is looked for.
pub enum ToolPathView {
    Path(Seq<char>),
    Join { dir: Seq<char>, tool: Seq<char> },
}

impl View for ToolPath {
    type V = ToolPathView;

    open spec fn view(&self) -> ToolPathView {
        match *self {
            ToolPath::Path(path) => ToolPathView::Path(path@),
            ToolPath::Join { dir, tool } => ToolPathView::Join { dir: dir@, tool: tool@ },
        }
    }
}

/// Where `tool` is looked for in `dir`. What a prefix does to the joined path is left to the
/// platform.
pub open spec fn tool_path(dir: Seq<char>, tool: Seq<char>, rules: PathRules) -> ToolPathView {
    if may_have_prefix(dir, rules) || may_have_prefix(tool, rules) {
        ToolPathView::Join { dir, tool }
    } else {
        ToolPathView::Path(joined_path(dir, tool, rules))
    }
}

/// Whether a path may have a prefix.
fn has_prefix_mark(path: &str, rules: PathRules) -> (r: bool)
    ensures
        r == may_have_prefix(path@, rules),
{
    match rules {
        PathRules::Unix => false,
        PathRules::Windows => {
            let chars = chars_of(path);
            has_char(path, ':') || (chars.len() >= 2 && is_separator(chars[0], rules)
                && is_separator(chars[1], rules))
        },
    }
}

/// `name` inside `dir`, where neither has a prefix.
fn join_path(dir: &str, name: &str, rules: PathRules) -> (r: String)
    ensures
        r@ == joined_path(dir@, name@, rules),
{
    let inner = chars_of(name);
    if inner.len() > 0 && is_separator(inner[0], rules) {
        return name.to_owned();
    }
    let outer = chars_of(dir);
    if outer.len() == 0 || is_separator(outer[outer.len() - 1], rules) {
        return combine(dir, name);
    }
    let mut out = dir.to_owned();
    match rules {
        PathRules::Unix => out.push('/'),
        PathRules::Windows => out.push('\\'),
    }
    out.append(name);
    out
}

/// Where `tool` is looked for in each of `dirs`.
pub fn composer_tool_paths(dirs: &[String], tool: &str, rules: PathRules) -> (r: Vec<ToolPath>)
    ensures
        r@.len() == dirs@.len(),
        forall|i: int|
            0 <= i < dirs@.len() ==> (#[trigger] r@[i])@ == tool_path(dirs@[i]@, tool@, rules),
{
    let mut out: Vec<ToolPath> = Vec::new();
    for i in 0..dirs.len()
        invariant
            out@.len() == i,
            forall|j: int|
                0 <= j < i ==> (#[trigger] out@[j])@ == tool_path(dirs@[j]@, tool@, rules),
    {
        let dir = dirs[i].as_str();
        if has_prefix_mark(dir, rules) || has_prefix_mark(tool, rules) {
            out.push(ToolPath::Join { dir: dir.to_owned(), tool: tool.to_owned() });
        } else {
            out.push(ToolPath::Path(join_path(dir, tool, rules)));
        }
    }
    out
}

} // verus!
